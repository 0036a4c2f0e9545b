//! The log of recent denials.

use super::rules::Protocol;
use crate::text::{decimal, push_decimal};
use std::collections::VecDeque;
use vstd::prelude::*;
use vstd::string::*;

verus! {

/// Deny-log capacity (control-plane diagnostics, not the hot path).
pub const DENY_LOG_CAP: usize = 64;

/// Deny record for control-plane diagnostics (not the hot path).
#[derive(Debug)]
pub struct AclDenyRecord {
    pub peer_endpoint: String,
    pub dst_port: Option<u16>,
    pub protocol: String,
    pub reason: String,
    pub rule_slug: Option<String>,
    pub scope: Option<String>,
    pub at_unix: i64,
}

/// An [`AclDenyRecord`] by its texts.
pub struct DenyView {
    pub peer_endpoint: Seq<char>,
    pub dst_port: Option<u16>,
    pub protocol: Seq<char>,
    pub reason: Seq<char>,
    pub rule_slug: Option<Seq<char>>,
    pub scope: Option<Seq<char>>,
    pub at_unix: i64,
}

pub open spec fn text_of(s: Option<String>) -> Option<Seq<char>> {
    match s {
        Some(t) => Some(t@),
        None => None,
    }
}

impl View for AclDenyRecord {
    type V = DenyView;

    open spec fn view(&self) -> DenyView {
        DenyView {
            peer_endpoint: self.peer_endpoint@,
            dst_port: self.dst_port,
            protocol: self.protocol@,
            reason: self.reason@,
            rule_slug: text_of(self.rule_slug),
            scope: text_of(self.scope),
            at_unix: self.at_unix,
        }
    }
}

/// The name of a protocol that has only a number.
pub open spec fn other_name(n: u8) -> Seq<char> {
    "other("@ + decimal(n as nat) + ")"@
}

/// The name of a protocol in the log.
pub open spec fn protocol_name(p: Protocol) -> Seq<char> {
    match p {
        Protocol::Tcp => "tcp"@,
        Protocol::Udp => "udp"@,
        Protocol::Icmp => "icmp"@,
        Protocol::Icmpv6 => "icmpv6"@,
        Protocol::Any => "any"@,
        Protocol::Other(n) => other_name(n),
    }
}

fn other_text(n: u8) -> (s: String)
    ensures
        s@ == other_name(n),
{
    let mut s: String = "other(".to_owned();
    push_decimal(&mut s, n as u64);
    s.append(")");
    s
}

pub fn protocol_text(p: Protocol) -> (s: String)
    ensures
        s@ == protocol_name(p),
{
    match p {
        Protocol::Tcp => "tcp".to_owned(),
        Protocol::Udp => "udp".to_owned(),
        Protocol::Icmp => "icmp".to_owned(),
        Protocol::Icmpv6 => "icmpv6".to_owned(),
        Protocol::Any => "any".to_owned(),
        Protocol::Other(n) => other_text(n),
    }
}

/// The record of a denial.
pub open spec fn denial(peer: Seq<char>, dst_port: Option<u16>, p: Protocol, at: i64) -> DenyView {
    DenyView {
        peer_endpoint: peer,
        dst_port,
        protocol: protocol_name(p),
        reason: "policy_deny"@,
        rule_slug: None,
        scope: None,
        at_unix: at,
    }
}

/// The log with one more record; at capacity the oldest makes room.
pub open spec fn logged(log: Seq<DenyView>, d: DenyView) -> Seq<DenyView> {
    if log.len() >= DENY_LOG_CAP {
        log.drop_first().push(d)
    } else {
        log.push(d)
    }
}

pub struct DenyLog {
    pub records: VecDeque<AclDenyRecord>,
}

impl View for DenyLog {
    type V = Seq<DenyView>;

    open spec fn view(&self) -> Seq<DenyView> {
        self.records@.map_values(|r: AclDenyRecord| r@)
    }
}

impl DenyLog {
    pub open spec fn wf(&self) -> bool {
        self@.len() <= DENY_LOG_CAP
    }

    pub fn new() -> (l: Self)
        ensures
            l.wf(),
            l@ == Seq::<DenyView>::empty(),
    {
        let l = DenyLog { records: VecDeque::new() };
        assert(l@ =~= Seq::<DenyView>::empty());
        l
    }

    /// Writes down a denial.
    pub fn record_deny(&mut self, peer: &str, dst_port: Option<u16>, p: Protocol, at_unix: i64)
        requires
            old(self).wf(),
        ensures
            final(self).wf(),
            final(self)@ == logged(old(self)@, denial(peer@, dst_port, p, at_unix)),
    {
        let record = AclDenyRecord {
            peer_endpoint: peer.to_owned(),
            dst_port,
            protocol: protocol_text(p),
            reason: "policy_deny".to_owned(),
            rule_slug: None,
            scope: None,
            at_unix,
        };
        let ghost was = self@;
        assert(record@ == denial(peer@, dst_port, p, at_unix));
        if self.records.len() >= DENY_LOG_CAP {
            self.records.pop_front();
        }
        self.records.push_back(record);
        assert(self@ =~= logged(was, denial(peer@, dst_port, p, at_unix)));
    }

    /// The recent denials, oldest first.
    pub fn recent(&self) -> (v: Vec<AclDenyRecord>)
        ensures
            v@.map_values(|r: AclDenyRecord| r@) == self@,
    {
        let mut v: Vec<AclDenyRecord> = Vec::new();
        let mut i: usize = 0;
        while i < self.records.len()
            invariant
                i <= self.records@.len(),
                v@.map_values(|r: AclDenyRecord| r@) == self@.take(i as int),
            decreases self.records.len() - i,
        {
            let r = copy_record(&self.records[i]);
            let ghost before = v@;
            v.push(r);
            proof {
                assert(v@.map_values(|r: AclDenyRecord| r@) =~= before.map_values(
                    |r: AclDenyRecord| r@,
                ).push(r@));
                assert(self@.take(i + 1) =~= self@.take(i as int).push(self@[i as int]));
            }
            i += 1;
        }
        assert(self@.take(i as int) =~= self@);
        v
    }
}

fn copy_record(r: &AclDenyRecord) -> (c: AclDenyRecord)
    ensures
        c@ == r@,
{
    AclDenyRecord {
        peer_endpoint: r.peer_endpoint.as_str().to_owned(),
        dst_port: r.dst_port,
        protocol: r.protocol.as_str().to_owned(),
        reason: r.reason.as_str().to_owned(),
        rule_slug: crate::text::copy_text(&r.rule_slug),
        scope: crate::text::copy_text(&r.scope),
        at_unix: r.at_unix,
    }
}

} // verus!
