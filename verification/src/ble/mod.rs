//! Bluetooth Low Energy transport support.

pub mod fragmentation;
pub mod reassembly;
pub mod roundtrip;
