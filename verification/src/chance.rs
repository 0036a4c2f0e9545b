//! Randomness and the time of day.

use vstd::prelude::*;
use vstd::string::*;

verus! {

/// `rand::random` draws a number; nothing is said of which.
#[verifier::external_body]
pub(crate) fn random_u64() -> (n: u64) {
    rand::random::<u64>()
}

/// A random number of 32 bits.
pub(crate) fn random_u32() -> (n: u32) {
    (random_u64() % 0x1_0000_0000) as u32
}

/// `uuid::Uuid::new_v4` draws an id, and its `Display` writes it in the hyphenated form,
/// which has 36 characters; nothing is said of which.
#[verifier::external_body]
pub(crate) fn fresh_id() -> (s: String)
    ensures
        s@.len() == 36,
{
    uuid::Uuid::new_v4().to_string()
}

/// `chrono::Utc::now` tells the time, `timestamp` and `timestamp_subsec_nanos` give it as
/// seconds since the Unix epoch and nanoseconds; nothing is said of which.
#[verifier::external_body]
pub(crate) fn utc_now() -> (t: (i64, u32)) {
    let now = chrono::Utc::now();
    (now.timestamp(), now.timestamp_subsec_nanos())
}

} // verus!
