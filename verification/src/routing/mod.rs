//! Routing: which peer carries a packet or answers to a name.

pub mod joined;
pub mod laws;
pub mod lookup;
pub mod model;
pub mod overrides;
pub mod reach;
pub mod slices;
pub mod table;
pub mod tables;
pub mod types;
