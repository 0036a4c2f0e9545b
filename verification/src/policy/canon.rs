//! The canonical key of a flow: one per flow and network, whatever the direction.

use super::flows::{ordered_ends, port_or_zero, CanonKey};
use super::meta::{number_of, proto_num};
use super::rules::Protocol;
use vstd::prelude::*;

verus! {

/// The key of the flow that a packet belongs to. The ends are sorted; ICMP is told
/// apart by its echo id.
pub open spec fn canon(
    net: u128,
    proto: Protocol,
    src: u32,
    dst: u32,
    sport: Option<u16>,
    dport: Option<u16>,
) -> Option<CanonKey> {
    match number_of(proto) {
        None => None,
        Some(n) => if n == 1 {
            let id = match sport {
                Some(p) => p,
                None => port_or_zero(dport),
            };
            if src <= dst {
                Some((net, n, src, id, dst, 0))
            } else {
                Some((net, n, dst, id, src, 0))
            }
        } else {
            let e = ordered_ends(src, port_or_zero(sport), dst, port_or_zero(dport));
            Some((net, n, e.0, e.1, e.2, e.3))
        },
    }
}

pub fn canon_key(
    net: u128,
    proto: Protocol,
    src: u32,
    dst: u32,
    sport: Option<u16>,
    dport: Option<u16>,
) -> (k: Option<CanonKey>)
    ensures
        k == canon(net, proto, src, dst, sport, dport),
{
    let n: u8 = match proto_num(proto) {
        Some(n) => n,
        None => {
            return None;
        },
    };
    let s: u16 = match sport {
        Some(p) => p,
        None => 0,
    };
    let d: u16 = match dport {
        Some(p) => p,
        None => 0,
    };
    if n == 1 {
        let id: u16 = match sport {
            Some(p) => p,
            None => d,
        };
        if src <= dst {
            return Some((net, n, src, id, dst, 0));
        }
        return Some((net, n, dst, id, src, 0));
    }
    if src < dst || (src == dst && s <= d) {
        Some((net, n, src, s, dst, d))
    } else {
        Some((net, n, dst, d, src, s))
    }
}

/// The key is the same in both directions: a reply, with its ends swapped, has the
/// key of the packet that it answers. (An ICMP packet carries its echo id where
/// others carry their source port, in both directions.)
pub proof fn law_canon_symmetric(
    net: u128,
    proto: Protocol,
    src: u32,
    dst: u32,
    sport: Option<u16>,
    dport: Option<u16>,
)
    ensures
        number_of(proto) != Some(1u8) ==> canon(net, proto, src, dst, sport, dport) == canon(
            net,
            proto,
            dst,
            src,
            dport,
            sport,
        ),
        number_of(proto) == Some(1u8) ==> canon(net, proto, src, dst, sport, dport) == canon(
            net,
            proto,
            dst,
            src,
            sport,
            dport,
        ),
{
}

/// Flows of different networks have different keys.
pub proof fn law_canon_network(
    a: u128,
    b: u128,
    p: Protocol,
    q: Protocol,
    src: u32,
    dst: u32,
    sport: Option<u16>,
    dport: Option<u16>,
    src2: u32,
    dst2: u32,
    sport2: Option<u16>,
    dport2: Option<u16>,
)
    requires
        a != b,
        !(p is Any),
    ensures
        canon(a, p, src, dst, sport, dport) != canon(b, q, src2, dst2, sport2, dport2),
{
}

} // verus!
