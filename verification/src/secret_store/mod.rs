//! Tiered encryption at rest for agent secrets (identity, network secrets, tickets, auth).
//!
//! The sealed file holds a nonce and the AES-256-GCM ciphertext of the payload under a
//! data-encryption key (DEK). Beside it, the seal's metadata say how the DEK itself is
//! kept: by the platform, wrapped under a key derived from the machine's id, or in the
//! open.

pub mod crypto;
pub mod derived;
pub mod machine;
pub mod persist;
pub mod sealer;
pub mod secrets;
pub mod store;
