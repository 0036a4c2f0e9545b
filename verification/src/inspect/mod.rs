//! Local HTTP traffic inspection for public tunnels: parsing and capturing HTTP/1.1
//! exchanges, without the sockets.

pub mod body;
pub mod exchange;
pub mod head;
pub mod hub;
pub mod pieces;
pub mod reader;
pub mod whole;
pub mod wire;
