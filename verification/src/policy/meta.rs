//! What policy reads of a packet.

use super::rules::Protocol;
use crate::table::Key;
use vstd::prelude::*;

verus! {

/// An IP address.
#[derive(Debug, Clone, Copy, PartialEq, Eq, Structural)]
pub enum Addr {
    V4(u32),
    V6(u128),
}

/// Where a packet stands in its datagram.
#[derive(Debug, Clone, Copy, PartialEq, Eq, Structural)]
pub enum Fragmentation {
    Whole,
    First { identification: u32 },
    Later { identification: u32 },
}

/// The transport header of a packet.
#[derive(Debug, Clone, Copy, PartialEq, Eq, Structural)]
pub enum Transport {
    Tcp { src_port: u16, dst_port: u16, flags: u8 },
    Udp { src_port: u16, dst_port: u16 },
    Icmpv4 { type_u8: u8, code: u8, echo_id: Option<u16>, echo_seq: Option<u16> },
    Icmpv6 { type_u8: u8, code: u8 },
    Other { protocol: u8 },
    LaterFragment,
}

/// What policy reads of a packet.
#[derive(Debug, Clone, Copy, PartialEq, Eq, Structural)]
pub struct PacketMeta {
    pub src: Addr,
    pub dst: Addr,
    pub proto: u8,
    pub src_v4: Option<u32>,
    pub dst_v4: Option<u32>,
    pub fragmentation: Fragmentation,
    pub transport: Transport,
}

/// The transport facts that policy decides on.
#[derive(Debug, Clone, Copy, PartialEq, Eq, Structural)]
pub struct ResolvedL4 {
    pub protocol: Protocol,
    pub src_port: Option<u16>,
    pub dst_port: Option<u16>,
    pub tcp_flags: Option<u8>,
    pub icmp_type: Option<u8>,
}

/// Which datagram a fragment belongs to.
#[derive(Debug, Clone, Copy, PartialEq, Eq, Structural)]
pub struct FragKey {
    pub src: Addr,
    pub dst: Addr,
    pub protocol: u8,
    pub identification: u32,
}

impl Key for FragKey {
    fn same(&self, other: &Self) -> (b: bool) {
        *self == *other
    }
}

impl PacketMeta {
    pub open spec fn later(self) -> bool {
        self.fragmentation is Later
    }

    pub fn is_later_fragment(&self) -> (b: bool)
        ensures
            b == self.later(),
    {
        matches!(self.fragmentation, Fragmentation::Later { .. })
    }

    pub fn is_fragment(&self) -> (b: bool)
        ensures
            b == !(self.fragmentation is Whole),
    {
        !matches!(self.fragmentation, Fragmentation::Whole)
    }

    pub open spec fn frag_key(self) -> Option<FragKey> {
        match self.fragmentation {
            Fragmentation::Whole => None,
            Fragmentation::First { identification } | Fragmentation::Later { identification } => Some(
                FragKey { src: self.src, dst: self.dst, protocol: self.proto, identification },
            ),
        }
    }

    /// The datagram that a fragment belongs to.
    pub fn datagram(&self) -> (k: Option<FragKey>)
        ensures
            k == self.frag_key(),
    {
        match self.fragmentation {
            Fragmentation::Whole => None,
            Fragmentation::First { identification } => Some(
                FragKey { src: self.src, dst: self.dst, protocol: self.proto, identification },
            ),
            Fragmentation::Later { identification } => Some(
                FragKey { src: self.src, dst: self.dst, protocol: self.proto, identification },
            ),
        }
    }
}

/// The facts that a transport header gives; a later fragment has none of its own.
pub open spec fn resolved(t: Transport) -> Option<ResolvedL4> {
    match t {
        Transport::Tcp { src_port, dst_port, flags } => Some(
            ResolvedL4 {
                protocol: Protocol::Tcp,
                src_port: Some(src_port),
                dst_port: Some(dst_port),
                tcp_flags: Some(flags),
                icmp_type: None,
            },
        ),
        Transport::Udp { src_port, dst_port } => Some(
            ResolvedL4 {
                protocol: Protocol::Udp,
                src_port: Some(src_port),
                dst_port: Some(dst_port),
                tcp_flags: None,
                icmp_type: None,
            },
        ),
        Transport::Icmpv4 { type_u8, echo_id, .. } => Some(
            ResolvedL4 {
                protocol: Protocol::Icmp,
                src_port: echo_id,
                dst_port: None,
                tcp_flags: None,
                icmp_type: Some(type_u8),
            },
        ),
        Transport::Icmpv6 { type_u8, .. } => Some(
            ResolvedL4 {
                protocol: Protocol::Icmpv6,
                src_port: None,
                dst_port: None,
                tcp_flags: None,
                icmp_type: Some(type_u8),
            },
        ),
        Transport::Other { protocol } => Some(
            ResolvedL4 {
                protocol: Protocol::Other(protocol),
                src_port: None,
                dst_port: None,
                tcp_flags: None,
                icmp_type: None,
            },
        ),
        Transport::LaterFragment => None,
    }
}

impl ResolvedL4 {
    pub fn from_transport(t: Transport) -> (r: Option<Self>)
        ensures
            r == resolved(t),
    {
        match t {
            Transport::Tcp { src_port, dst_port, flags } => Some(
                ResolvedL4 {
                    protocol: Protocol::Tcp,
                    src_port: Some(src_port),
                    dst_port: Some(dst_port),
                    tcp_flags: Some(flags),
                    icmp_type: None,
                },
            ),
            Transport::Udp { src_port, dst_port } => Some(
                ResolvedL4 {
                    protocol: Protocol::Udp,
                    src_port: Some(src_port),
                    dst_port: Some(dst_port),
                    tcp_flags: None,
                    icmp_type: None,
                },
            ),
            Transport::Icmpv4 { type_u8, code: _, echo_id, echo_seq: _ } => Some(
                ResolvedL4 {
                    protocol: Protocol::Icmp,
                    src_port: echo_id,
                    dst_port: None,
                    tcp_flags: None,
                    icmp_type: Some(type_u8),
                },
            ),
            Transport::Icmpv6 { type_u8, code: _ } => Some(
                ResolvedL4 {
                    protocol: Protocol::Icmpv6,
                    src_port: None,
                    dst_port: None,
                    tcp_flags: None,
                    icmp_type: Some(type_u8),
                },
            ),
            Transport::Other { protocol } => Some(
                ResolvedL4 {
                    protocol: Protocol::Other(protocol),
                    src_port: None,
                    dst_port: None,
                    tcp_flags: None,
                    icmp_type: None,
                },
            ),
            Transport::LaterFragment => None,
        }
    }

    /// The TCP flags; none set where there are none.
    pub open spec fn flags(self) -> u8 {
        match self.tcp_flags {
            Some(f) => f,
            None => 0,
        }
    }
}

/// The IP protocol number; none for the wildcard.
pub open spec fn number_of(p: Protocol) -> Option<u8> {
    match p {
        Protocol::Tcp => Some(6),
        Protocol::Udp => Some(17),
        Protocol::Icmp => Some(1),
        Protocol::Icmpv6 => Some(58),
        Protocol::Other(n) => Some(n),
        Protocol::Any => None,
    }
}

pub fn proto_num(p: Protocol) -> (n: Option<u8>)
    ensures
        n == number_of(p),
{
    match p {
        Protocol::Tcp => Some(6),
        Protocol::Udp => Some(17),
        Protocol::Icmp => Some(1),
        Protocol::Icmpv6 => Some(58),
        Protocol::Other(n) => Some(n),
        Protocol::Any => None,
    }
}

} // verus!
