//! Established-peer state.
//!
//! Transport identity and network membership are separate objects, because one endpoint
//! may belong to many networks: the transport of an endpoint is shared by its
//! memberships, and each membership has an identity, a firewall slot and an epoch of its
//! own.

pub mod laws;
pub mod maps;
pub mod registry;
pub mod transport;
