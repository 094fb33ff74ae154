//! Verified runtime core of a Reticulum mesh node.
//!
//! The node owns an identity, announces itself, learns of other
//! destinations from their announces, opens links on demand and exchanges
//! messages over them. This crate holds the parts of the node that decide:
//!
//! - [`announce`] and [`routing`]: which announces are news, and which path
//!   to a destination is the best;
//! - [`link_queue`] and [`node`]: what becomes of a message while its link
//!   is being established, and what a link event means;
//! - [`lora`]: airtime, duty cycle, channel access and the order of a
//!   transmission;
//! - [`ble`]: fragmenting packets and putting them together again;
//! - [`chat`], [`stats`], [`wifi`]: the operator's commands, the statistics
//!   endpoint and the WiFi configuration.
//!
//! Time is a count of microseconds on a monotonic clock, see [`time`].
//! Every function that depends on time exists in a form that takes the
//! time as an argument; the form without it reads the clock.

pub mod time;
pub mod hash;
pub mod text;
pub mod addr_map;
pub mod announce;
pub mod routing;
pub mod message_queue;
pub mod stats;
pub mod link_queue;
pub mod node;
pub mod chat;
pub mod lora;
pub mod ble;
pub mod wifi;
pub mod persistence;
pub mod testnet;
pub mod network;
pub mod host_utils;
pub mod testing;
