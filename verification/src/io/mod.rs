//! Ports and the serial line.

pub mod ports;
pub mod serial;
