//! Sending one datagram, and the messages of the pool.

use crate::text::{decimal, push_decimal};
use vstd::prelude::*;
use vstd::string::*;

verus! {

/// How a datagram is sent.
#[derive(Debug, Clone, Copy, PartialEq, Eq, Structural)]
pub enum DatagramStep {
    /// Larger than the connection takes.
    TooLarge { len: usize, max: usize },
    /// The buffer is full: wait for space instead of dropping.
    Wait,
    Send,
}

/// How to send a datagram of `len` bytes on a connection that takes at most `max` bytes
/// and has `space` bytes of buffer left.
pub fn plan_datagram(len: usize, max: Option<usize>, space: usize) -> (r: DatagramStep)
    ensures
        r == (if max is Some && len > max->Some_0 {
            DatagramStep::TooLarge { len, max: max->Some_0 }
        } else if space == 0 {
            DatagramStep::Wait
        } else {
            DatagramStep::Send
        }),
{
    if let Some(max) = max {
        if len > max {
            return DatagramStep::TooLarge { len, max };
        }
    }
    if space == 0 {
        DatagramStep::Wait
    } else {
        DatagramStep::Send
    }
}

pub fn too_large_message(len: usize, max: usize) -> (s: String)
    ensures
        s@ == "datagram_too_large: packet "@ + decimal(len as nat) + " > max_datagram_size "@
            + decimal(max as nat),
{
    let mut s: String = "datagram_too_large: packet ".to_owned();
    push_decimal(&mut s, len as u64);
    s.append(" > max_datagram_size ");
    push_decimal(&mut s, max as u64);
    s
}

pub fn not_authorized_message(peer: &str) -> (s: String)
    ensures
        s@ == "not_authorized: "@ + peer@ + " is not an authorized peer"@,
{
    let mut s: String = "not_authorized: ".to_owned();
    s.append(peer);
    s.append(" is not an authorized peer");
    s
}

pub fn suppressed_message(peer: &str) -> (s: String)
    ensures
        s@ == "backoff: retry to "@ + peer@ + " suppressed"@,
{
    let mut s: String = "backoff: retry to ".to_owned();
    s.append(peer);
    s.append(" suppressed");
    s
}

pub fn buffer_full_message(peer: &str) -> (s: String)
    ensures
        s@ == "on-demand buffer full for "@ + peer@,
{
    let mut s: String = "on-demand buffer full for ".to_owned();
    s.append(peer);
    s
}

pub fn timed_out_message(peer: &str) -> (s: String)
    ensures
        s@ == "reconnect to "@ + peer@ + " timed out"@,
{
    let mut s: String = "reconnect to ".to_owned();
    s.append(peer);
    s.append(" timed out");
    s
}

pub fn connect_message(peer: &str, error: &str) -> (s: String)
    ensures
        s@ == "connect to "@ + peer@ + ": "@ + error@,
{
    let mut s: String = "connect to ".to_owned();
    s.append(peer);
    s.append(": ");
    s.append(error);
    s
}

} // verus!
