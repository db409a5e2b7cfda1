//! The arena layer: error taxonomy, the local match driver's decision
//! logic, and the network protocol's parsing and formatting.

pub mod error;
pub mod local;
pub mod network;
