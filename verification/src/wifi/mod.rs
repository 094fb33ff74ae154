//! WiFi configuration.

pub mod config;
pub mod service;
