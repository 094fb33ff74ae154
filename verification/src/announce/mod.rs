//! Announce handling.

pub mod cache;
