//! LoRa radio discipline: airtime, duty cycle and channel access.

pub mod airtime;
pub mod airtime_laws;
pub mod config;
pub mod csma;
pub mod duty_cycle;
pub mod iface;
pub mod radio;
