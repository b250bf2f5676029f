//! Decision logic of a small network reconnaissance tool: address and port
//! text parsing, ARP and TCP probe frames, reply classification, host
//! discovery bookkeeping and interface selection.

pub mod text;
pub mod addr;
pub mod ports;
pub mod frame;
pub mod probe;
pub mod interfaces;
pub mod discovery;
pub mod cli;
