//! Agent IPC v3 - local request/response protocol for the CLI.

pub mod answers;
pub mod direct;
pub mod dispatch;
pub mod errors;
pub mod laws;
pub mod order;
pub mod protocol;
pub mod routes;
pub mod serve;
pub mod ssh;
pub mod status;
pub mod transport;
