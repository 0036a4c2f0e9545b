//! Serving a port, sending files and pinging: the decisions.

use super::protocol::{SendConfigInfo, TransferInfo};
use crate::chance::fresh_id;
use crate::ip::{dotted_quad, ip_str, parse_ip};
use crate::policy::denylog::text_of;
use crate::policy::rules::texts;
use crate::routing::lookup::{carrier, peer_named};
use crate::routing::model::TablesView;
use crate::routing::table::RoutingTable;
use crate::routing::tables::copy_texts;
use crate::routing::types::{DeviceProfile, DnsConfig, PeerEntry, PeerInfo, PeerView};
use crate::text::{copy_text, lowered, same_ignoring_case, same_text};
use std::sync::Arc;
use vstd::prelude::*;
use vstd::string::*;

verus! {

/// The name under which a port is served: the one that was given, else one made of the
/// host and the network.
pub open spec fn serve_name(given: Option<Seq<char>>, host: Seq<char>, network: Seq<char>) -> Seq<
    char,
> {
    match given {
        Some(n) => n,
        None => host + "."@ + network + ".tunnet"@,
    }
}

/// What is needed to serve a port: the id, `new_id` where none was given, and the name.
/// HTTPS needs a certificate and its key.
pub fn plan_serve_with(
    protocol: &str,
    has_certificate: bool,
    has_key: bool,
    internal_hostname: Option<String>,
    serve_id: Option<String>,
    new_id: String,
    host: &str,
    network: &str,
) -> (r: Option<(String, String)>)
    ensures
        r is None == (protocol@ == "https"@ && !(has_certificate && has_key)),
        r matches Some(p) ==> p.0@ == (match serve_id {
            Some(i) => i@,
            None => new_id@,
        }) && p.1@ == serve_name(text_of(internal_hostname), host@, network@),
{
    if same_text(protocol, "https") && !(has_certificate && has_key) {
        return None;
    }
    let id = match serve_id {
        Some(i) => i,
        None => new_id,
    };
    let name = match internal_hostname {
        Some(n) => n,
        None => {
            let mut s: String = host.to_owned();
            s.append(".");
            s.append(network);
            s.append(".tunnet");
            s
        },
    };
    Some((id, name))
}

/// What is needed to serve a port: the id, drawn at random where none was given, and the
/// name. HTTPS needs a certificate and its key.
pub fn plan_serve(
    protocol: &str,
    has_certificate: bool,
    has_key: bool,
    internal_hostname: Option<String>,
    serve_id: Option<String>,
    host: &str,
    network: &str,
) -> (r: Option<(String, String)>)
    ensures
        r is None == (protocol@ == "https"@ && !(has_certificate && has_key)),
        r matches Some(p) ==> (match serve_id {
            Some(i) => p.0@ == i@,
            None => p.0@.len() == 36,
        }) && p.1@ == serve_name(text_of(internal_hostname), host@, network@),
{
    let new_id = fresh_id();
    plan_serve_with(
        protocol,
        has_certificate,
        has_key,
        internal_hostname,
        serve_id,
        new_id,
        host,
        network,
    )
}

/// Why HTTPS cannot be served without a certificate.
pub fn missing_certificate_message() -> (s: &'static str)
    ensures
        s@ == "HTTPS serve needs an internal CA leaf cert. Create the serve from the dashboard (certs are pushed over WebSocket), or use --protocol tcp for a quick mesh expose."@,
{
    "HTTPS serve needs an internal CA leaf cert. Create the serve from the dashboard (certs are pushed over WebSocket), or use --protocol tcp for a quick mesh expose."
}

#[derive(Debug, Clone, Copy, PartialEq, Eq, Structural)]
pub enum TransferDirection {
    Outbound,
    Inbound,
}

/// A transfer, as the send manager keeps it.
#[derive(Debug)]
pub struct TransferRecord {
    pub transfer_id: String,
    pub direction: TransferDirection,
    pub peer_endpoint_id: String,
    pub peer_hostname: Option<String>,
    pub file_name: String,
    pub size: u64,
    pub hash: String,
    pub status: String,
    pub percent_bits: u32,
    pub bytes_transferred: u64,
    pub message: Option<String>,
    pub error: Option<String>,
    pub inbox_path: Option<String>,
    pub is_directory: bool,
}

pub fn transfer_info(r: TransferRecord) -> (i: TransferInfo)
    ensures
        i.direction@ == (match r.direction {
            TransferDirection::Outbound => "outbound"@,
            TransferDirection::Inbound => "inbound"@,
        }),
        i == (TransferInfo {
            transfer_id: r.transfer_id,
            direction: i.direction,
            peer_endpoint_id: r.peer_endpoint_id,
            peer_hostname: r.peer_hostname,
            file_name: r.file_name,
            size: r.size,
            hash: r.hash,
            status: r.status,
            percent_bits: r.percent_bits,
            bytes_transferred: r.bytes_transferred,
            message: r.message,
            error: r.error,
            inbox_path: r.inbox_path,
            is_directory: r.is_directory,
        }),
{
    let direction: &str = match r.direction {
        TransferDirection::Outbound => "outbound",
        TransferDirection::Inbound => "inbound",
    };
    TransferInfo {
        transfer_id: r.transfer_id,
        direction: direction.to_owned(),
        peer_endpoint_id: r.peer_endpoint_id,
        peer_hostname: r.peer_hostname,
        file_name: r.file_name,
        size: r.size,
        hash: r.hash,
        status: r.status,
        percent_bits: r.percent_bits,
        bytes_transferred: r.bytes_transferred,
        message: r.message,
        error: r.error,
        inbox_path: r.inbox_path,
        is_directory: r.is_directory,
    }
}

/// A change of the settings for sending. `consent` is the mode that was asked for, with
/// its canonical name where there is such a mode; where there is none, nothing changes
/// and the message says so.
pub fn set_send_config(
    cfg: SendConfigInfo,
    consent: Option<(String, Option<String>)>,
    inbox_path: Option<String>,
    pin_blobs: Option<bool>,
) -> (r: Result<SendConfigInfo, String>)
    ensures
        r is Err == (consent matches Some(c) && c.1 is None),
        r matches Err(m) ==> m@ == "invalid consent mode: "@ + consent->Some_0.0@,
        r matches Ok(n) ==> n == (SendConfigInfo {
            consent: match consent {
                Some((_, Some(c))) => c,
                _ => cfg.consent,
            },
            inbox_path: match inbox_path {
                Some(p) => p,
                None => cfg.inbox_path,
            },
            pin_blobs: match pin_blobs {
                Some(b) => b,
                None => cfg.pin_blobs,
            },
        }),
{
    let consent = match consent {
        None => cfg.consent,
        Some((_, Some(c))) => c,
        Some((given, None)) => {
            let mut m: String = "invalid consent mode: ".to_owned();
            m.append(given.as_str());
            return Err(m);
        },
    };
    let inbox_path = match inbox_path {
        Some(p) => p,
        None => cfg.inbox_path,
    };
    let pin_blobs = match pin_blobs {
        Some(b) => b,
        None => cfg.pin_blobs,
    };
    Ok(SendConfigInfo { consent, inbox_path, pin_blobs })
}

/// The peer that a text denotes: by address, else by name, else by endpoint id.
pub open spec fn denoted(
    t: TablesView,
    synths: Map<u32, Arc<PeerInfo>>,
    host: Seq<char>,
    p: Option<PeerView>,
) -> bool {
    if exists|ip: u32| #[trigger] dotted_quad(ip) == host {
        exists|ip: u32| #[trigger] dotted_quad(ip) == host && p == carrier(t, synths, ip)
    } else if peer_named(t, lowered(host)) is Some {
        p == peer_named(t, lowered(host))
    } else if t.by_endpoint.dom().contains(host) {
        p == Some(t.by_endpoint[host])
    } else {
        p is None
    }
}

pub fn resolve_peer(routes: &RoutingTable, host: &str) -> (r: Option<Arc<PeerInfo>>)
    requires
        routes.wf(),
    ensures
        denoted(
            routes.tables@,
            routes.synths(),
            host@,
            (match r {
                Some(p) => Some((*p)@),
                None => None,
            }),
        ),
{
    if let Some(ip) = parse_ip(host) {
        return routes.lookup_ip(ip);
    }
    match routes.lookup_hostname(host) {
        Some(p) => Some(p),
        None => routes.lookup_endpoint(host),
    }
}

/// The most pings that one request sends.
pub const MAX_PINGS: u32 = 64;

/// The peer is this node.
pub open spec fn is_self(p: PeerView, self_hex: Seq<char>, self_ip: u32) -> bool {
    lowered(p.endpoint_hex) == lowered(self_hex) || p.ip == self_ip
}

pub fn pings_itself(p: &PeerInfo, self_hex: &str, self_ip: u32) -> (b: bool)
    ensures
        b == is_self(p@, self_hex@, self_ip),
{
    same_ignoring_case(p.endpoint_hex.as_str(), self_hex) || p.ip == self_ip
}

pub fn no_such_peer_message(peer: &str) -> (s: String)
    ensures
        s@ == "no peer matches `"@ + peer@ + "` (try hostname, IP, or endpoint id)"@,
{
    let mut s: String = "no peer matches `".to_owned();
    s.append(peer);
    s.append("` (try hostname, IP, or endpoint id)");
    s
}

pub fn own_address_message(peer: &str, ip: u32, hostname: &str) -> (s: String)
    ensures
        s@ == "`"@ + peer@ + "` is this node ("@ + dotted_quad(ip) + " / "@ + hostname@
            + "). Ping the other machine's mesh IP instead"@,
{
    let mut s: String = "`".to_owned();
    s.append(peer);
    s.append("` is this node (");
    let t = ip_str(ip);
    s.append(t.as_str());
    s.append(" / ");
    s.append(hostname);
    s.append("). Ping the other machine's mesh IP instead");
    s
}

/// A run of pings.
#[derive(Debug, Clone, Copy, PartialEq, Eq, Structural)]
pub struct PingRun {
    pub count: u32,
    /// The number of the ping at hand, from one.
    pub seq: u32,
    pub received: u32,
}

/// What follows a ping.
#[derive(Debug, Clone, Copy, PartialEq, Eq, Structural)]
pub enum PingStep {
    /// Wait for the interval, then ping with this number.
    Next { seq: u32 },
    Summary { transmitted: u32, received: u32 },
}

impl PingRun {
    pub open spec fn wf(&self) -> bool {
        1 <= self.seq <= self.count <= MAX_PINGS && self.received < self.seq
    }

    /// Between one and [`MAX_PINGS`] pings.
    pub fn new(count: u32) -> (r: Self)
        ensures
            r.wf(),
            r.seq == 1,
            r.received == 0,
            r.count == (if count < 1 {
                1
            } else if count > MAX_PINGS {
                MAX_PINGS
            } else {
                count
            }),
    {
        let count: u32 = if count < 1 {
            1
        } else if count > MAX_PINGS {
            MAX_PINGS
        } else {
            count
        };
        PingRun { count, seq: 1, received: 0 }
    }

    /// The ping at hand was answered, or not.
    pub fn answered(&mut self, ok: bool) -> (s: PingStep)
        requires
            old(self).wf(),
        ensures
            s == (if old(self).seq < old(self).count {
                PingStep::Next { seq: (old(self).seq + 1) as u32 }
            } else {
                PingStep::Summary {
                    transmitted: old(self).count,
                    received: (old(self).received + (if ok {
                        1int
                    } else {
                        0
                    })) as u32,
                }
            }),
            final(self).count == old(self).count,
            final(self).received == old(self).received + (if ok {
                1int
            } else {
                0
            }),
            s is Next ==> final(self).wf() && final(self).seq == old(self).seq + 1,
            s is Summary ==> final(self).seq == old(self).seq && final(self).received
                <= final(self).count,
    {
        if ok {
            self.received = self.received + 1;
        }
        if self.seq < self.count {
            self.seq = self.seq + 1;
            PingStep::Next { seq: self.seq }
        } else {
            PingStep::Summary { transmitted: self.count, received: self.received }
        }
    }
}

/// The member as the control plane would list it.
pub open spec fn is_entry(e: PeerEntry, p: PeerInfo) -> bool {
    &&& e.ip == p.ip
    &&& e.endpoint_id@ == p.endpoint_hex@
    &&& e.hostname@ == p.hostname@
    &&& texts(e.tags@) == texts(p.tags@)
    &&& text_of(e.ssh_host_key) == text_of(p.ssh_host_key)
}

/// The members of the tables, as the control plane would list them.
pub fn entries_of(peers: &[Arc<PeerInfo>]) -> (v: Vec<PeerEntry>)
    ensures
        v@.len() == peers@.len(),
        forall|i: int| 0 <= i < v@.len() ==> is_entry(#[trigger] v@[i], *peers@[i]),
{
    let mut v: Vec<PeerEntry> = Vec::new();
    let mut i: usize = 0;
    while i < peers.len()
        invariant
            i <= peers@.len(),
            v@.len() == i,
            forall|j: int| 0 <= j < i ==> is_entry(#[trigger] v@[j], *peers@[j]),
        decreases peers.len() - i,
    {
        let p = &peers[i];
        v.push(
            PeerEntry {
                ip: p.ip,
                endpoint_id: p.endpoint_hex.clone(),
                hostname: p.hostname.clone(),
                tags: copy_texts(p.tags.as_slice()),
                ssh_host_key: copy_text(&p.ssh_host_key),
            },
        );
        i += 1;
    }
    v
}

/// New DNS settings from a reloaded configuration: the tables are rebuilt for the one
/// network, with the members that they have, without routes, under the next version.
pub fn reload_dns(
    routes: &mut RoutingTable,
    dns: DnsConfig,
    network: &str,
    network_id: u128,
    self_id: &str,
)
    requires
        old(routes).wf(),
        old(routes).tables.version < u64::MAX,
    ensures
        final(routes).wf(),
        final(routes).tables.version == old(routes).tables.version + 1,
        final(routes).networks().dom() == set![network_id],
        ({
            let s = final(routes).networks()[network_id];
            &&& s.dns == dns
            &&& s.network_name@ == lowered(network@)
            &&& s.self_endpoint_id@ == self_id@
            &&& s.subnet_routes@.len() == 0
            &&& s.hostname_routes@.len() == 0
            &&& s.exit_nodes@.len() == 0
            &&& s.profile.exit_node_endpoint_id is None
            &&& s.peers@.len() == old(routes).tables.by_network_ip.entries@.len()
            &&& forall|i: int|
                0 <= i < s.peers@.len() ==> is_entry(
                    #[trigger] s.peers@[i],
                    *old(routes).tables.by_network_ip.entries@[i].1,
                )
        }),
        final(routes).overrides == old(routes).overrides,
        final(routes).dynamic_synth == old(routes).dynamic_synth,
{
    let peers = routes.peers();
    let entries = entries_of(peers.as_slice());
    let version: u64 = routes.version() + 1;
    routes.replace(
        entries,
        Vec::new(),
        Vec::new(),
        Vec::new(),
        DeviceProfile::default(),
        dns,
        network,
        network_id,
        self_id,
        version,
    );
}

} // verus!
