//! The connection-tracking table and the entries that it holds.

use vstd::prelude::*;

verus! {

/// Canonical bidirectional key of a flow: network, protocol, then the two ends in
/// ascending order, each as address and port.
pub type CanonKey = (u128, u8, u32, u16, u32, u16);

#[derive(Debug, Clone, Copy, PartialEq, Eq, Structural)]
pub enum TcpPhase {
    SynSent,
    Established,
    TimeWait,
}

#[derive(Debug, Clone, Copy, PartialEq, Eq, Structural)]
pub enum Phase {
    Tcp(TcpPhase),
    Udp,
    Icmp,
}

/// One tracked flow.
#[derive(Debug, Clone, Copy, PartialEq, Eq, Structural)]
pub struct TrackedFlow {
    pub phase: Phase,
    /// Monotonic time of the last packet (nanoseconds).
    pub last_seen: u64,
    /// Generations of the ACL and of the firewall that let the flow in.
    pub admitted_acl_gen: u64,
    pub admitted_fw_gen: u64,
    /// Token of the flow's newest expiry node.
    pub seq: u64,
    /// Wall-clock time of the newest expiry node (milliseconds).
    pub heap_ms: u64,
}

/// `dashmap::DashMap`, opaque to the proofs.
#[verifier::external_type_specification]
#[verifier::external_body]
#[verifier::reject_recursive_types(K)]
#[verifier::reject_recursive_types(V)]
#[verifier::reject_recursive_types(S)]
pub struct ExDashMap<K, V, S>(dashmap::DashMap<K, V, S>);

/// The flows that a connection-tracking table holds.
pub uninterp spec fn flows_of(m: dashmap::DashMap<CanonKey, TrackedFlow>) -> Map<
    CanonKey,
    TrackedFlow,
>;

pub open spec fn no_flows() -> Map<CanonKey, TrackedFlow> {
    Map::empty()
}

/// `DashMap::new` makes an empty map.
#[verifier::external_body]
pub(crate) fn track_new() -> (m: dashmap::DashMap<CanonKey, TrackedFlow>)
    ensures
        flows_of(m) == no_flows(),
{
    dashmap::DashMap::new()
}

/// `DashMap::get` finds the value of a key; it is copied out of the guard.
#[verifier::external_body]
pub(crate) fn track_get(
    m: &dashmap::DashMap<CanonKey, TrackedFlow>,
    key: &CanonKey,
) -> (r: Option<TrackedFlow>)
    ensures
        r == (if flows_of(*m).dom().contains(*key) {
            Some(flows_of(*m)[*key])
        } else {
            None
        }),
{
    m.get(key).map(|e| *e)
}

/// `DashMap::insert` sets the value of a key, and leaves the other keys alone.
#[verifier::external_body]
pub(crate) fn track_insert(
    m: &mut dashmap::DashMap<CanonKey, TrackedFlow>,
    key: CanonKey,
    flow: TrackedFlow,
)
    ensures
        flows_of(*final(m)) == flows_of(*old(m)).insert(key, flow),
{
    m.insert(key, flow);
}

/// `DashMap::remove` removes a key, and leaves the other keys alone.
#[verifier::external_body]
pub(crate) fn track_remove(m: &mut dashmap::DashMap<CanonKey, TrackedFlow>, key: &CanonKey)
    ensures
        flows_of(*final(m)) == flows_of(*old(m)).remove(*key),
{
    m.remove(key);
}

/// `DashMap::clear` removes every key.
#[verifier::external_body]
pub(crate) fn track_clear(m: &mut dashmap::DashMap<CanonKey, TrackedFlow>)
    ensures
        flows_of(*final(m)) == no_flows(),
{
    m.clear();
}

/// `DashMap::len` counts the keys.
#[verifier::external_body]
pub(crate) fn track_len(m: &dashmap::DashMap<CanonKey, TrackedFlow>) -> (n: usize)
    ensures
        n == flows_of(*m).dom().len(),
{
    m.len()
}

/// Lifetimes of idle flows (nanoseconds).
pub const TCP_ACTIVE_TTL: u64 = 300_000_000_000;

pub const TCP_TIME_WAIT_TTL: u64 = 10_000_000_000;

pub const UDP_TTL: u64 = 30_000_000_000;

pub const ICMP_TTL: u64 = 10_000_000_000;

/// TCP flag bits.
pub const FIN: u8 = 0x01;

pub const SYN: u8 = 0x02;

pub const RST: u8 = 0x04;

pub const ACK: u8 = 0x10;

pub open spec fn ttl(p: Phase) -> u64 {
    match p {
        Phase::Tcp(TcpPhase::TimeWait) => TCP_TIME_WAIT_TTL,
        Phase::Tcp(_) => TCP_ACTIVE_TTL,
        Phase::Udp => UDP_TTL,
        Phase::Icmp => ICMP_TTL,
    }
}

pub fn ttl_of(p: Phase) -> (t: u64)
    ensures
        t == ttl(p),
{
    match p {
        Phase::Tcp(TcpPhase::TimeWait) => TCP_TIME_WAIT_TTL,
        Phase::Tcp(_) => TCP_ACTIVE_TTL,
        Phase::Udp => UDP_TTL,
        Phase::Icmp => ICMP_TTL,
    }
}

/// A lifetime in milliseconds.
pub open spec fn ttl_ms(p: Phase) -> u64 {
    (ttl(p) / 1_000_000) as u64
}

/// The flow has been idle for longer than its lifetime.
pub open spec fn lapsed(f: TrackedFlow, now: u64) -> bool {
    now - f.last_seen > ttl(f.phase)
}

pub fn is_lapsed(f: &TrackedFlow, now: u64) -> (b: bool)
    ensures
        b == lapsed(*f, now),
{
    now.saturating_sub(f.last_seen) > ttl_of(f.phase)
}

pub open spec fn has_flag(flags: u8, bit: u8) -> bool {
    flags & bit != 0
}

/// The phase of a tracked TCP flow after another packet of it.
pub open spec fn next_phase(p: Phase, inbound: bool, flags: u8) -> Phase {
    let closing = has_flag(flags, RST) || has_flag(flags, FIN);
    match p {
        Phase::Tcp(TcpPhase::SynSent) => if inbound || has_flag(flags, ACK) || has_flag(flags, RST) {
            if closing {
                Phase::Tcp(TcpPhase::TimeWait)
            } else {
                Phase::Tcp(TcpPhase::Established)
            }
        } else {
            p
        },
        Phase::Tcp(TcpPhase::Established) => if closing {
            Phase::Tcp(TcpPhase::TimeWait)
        } else {
            p
        },
        _ => p,
    }
}

pub fn advance_phase(p: Phase, inbound: bool, flags: u8) -> (r: Phase)
    ensures
        r == next_phase(p, inbound, flags),
{
    let closing = flags & RST != 0 || flags & FIN != 0;
    match p {
        Phase::Tcp(TcpPhase::SynSent) => {
            if inbound || flags & ACK != 0 || flags & RST != 0 {
                if closing {
                    Phase::Tcp(TcpPhase::TimeWait)
                } else {
                    Phase::Tcp(TcpPhase::Established)
                }
            } else {
                p
            }
        },
        Phase::Tcp(TcpPhase::Established) => {
            if closing {
                Phase::Tcp(TcpPhase::TimeWait)
            } else {
                p
            }
        },
        _ => p,
    }
}

/// How old a flow's expiry node must be before a new one is made (milliseconds).
pub open spec fn refresh_after(p: Phase) -> u64 {
    if ttl_ms(p) / 4 > 1000 {
        ttl_ms(p) / 4
    } else {
        1000
    }
}

/// The time from `b` to `a` on a clock that wraps around.
pub open spec fn clock_diff(a: u64, b: u64) -> int {
    if a >= b {
        a - b
    } else {
        a - b + 0x1_0000_0000_0000_0000
    }
}

/// A flow after another packet of it, and whether it needs a new expiry node.
pub open spec fn touched(
    f: TrackedFlow,
    inbound: bool,
    flags: u8,
    now: u64,
    now_ms: u64,
) -> (TrackedFlow, bool) {
    let g = TrackedFlow { phase: next_phase(f.phase, inbound, flags), last_seen: now, ..f };
    if clock_diff(now_ms, f.heap_ms) > refresh_after(g.phase) {
        (
            TrackedFlow {
                seq: if f.seq == u64::MAX {
                    0
                } else {
                    (f.seq + 1) as u64
                },
                heap_ms: now_ms,
                ..g
            },
            true,
        )
    } else {
        (g, false)
    }
}

pub fn touch(f: &TrackedFlow, inbound: bool, flags: u8, now: u64, now_ms: u64) -> (r: (
    TrackedFlow,
    bool,
))
    ensures
        r == touched(*f, inbound, flags, now, now_ms),
{
    let phase = advance_phase(f.phase, inbound, flags);
    let quarter: u64 = ttl_of(phase) / 1_000_000 / 4;
    let wait: u64 = if quarter > 1000 {
        quarter
    } else {
        1000
    };
    let renew = now_ms.wrapping_sub(f.heap_ms) > wait;
    let seq: u64 = if renew {
        f.seq.wrapping_add(1)
    } else {
        f.seq
    };
    let heap_ms: u64 = if renew {
        now_ms
    } else {
        f.heap_ms
    };
    (TrackedFlow { phase, last_seen: now, seq, heap_ms, ..*f }, renew)
}

/// The two ends of a flow in canonical order.
pub open spec fn ordered_ends(src: u32, sport: u16, dst: u32, dport: u16) -> (u32, u16, u32, u16) {
    if src < dst || (src == dst && sport <= dport) {
        (src, sport, dst, dport)
    } else {
        (dst, dport, src, sport)
    }
}

pub open spec fn port_or_zero(p: Option<u16>) -> u16 {
    match p {
        Some(n) => n,
        None => 0,
    }
}

} // verus!
