//! Local Management API - HTTP JSON over Unix domain socket / Windows named pipe.

pub mod dataplane;
pub mod observe;
pub mod places;
pub mod router;
