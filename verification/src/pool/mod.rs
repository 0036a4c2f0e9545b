//! Connection pool with optional on-demand (idle suspend / reconnect) behavior: the
//! decisions, without the sockets.

pub mod conn_pool;
pub mod datagram;
pub mod dialing;
pub mod extra;
pub mod laws;
pub mod model;
pub mod records;
pub mod shared;
pub mod slot;
pub mod sweep;
pub mod totals;
