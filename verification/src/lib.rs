//! The decision core of a mesh agent: packet scheduling, reassembly, policy,
//! routing, connection pooling, HTTP inspection, the local protocols and the
//! sealed secret store, each as a state machine with a proved contract.

pub mod chance;
pub mod endpoint;
pub mod frame;
pub mod inspect;
pub mod ip;
pub mod ipc;
pub mod known_hosts;
pub mod local_api;
pub mod names;
pub mod node;
pub mod numerals;
pub mod octets;
pub mod packet;
pub mod peers;
pub mod policy;
pub mod pool;
pub mod reassembly;
pub mod routing;
pub mod scheduler;
pub mod secret_store;
pub mod table;
pub mod text;
