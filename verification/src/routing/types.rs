//! What the control plane says of a network, and what routing makes of it.

use crate::endpoint::EndpointId;
use crate::policy::denylog::text_of;
use crate::policy::rules::{in_block, texts, Cidr};
use std::sync::Arc;
use vstd::prelude::*;

verus! {

/// An IPv4 block.
#[derive(Debug, Clone, Copy, PartialEq, Eq, Structural)]
pub struct Ipv4Net {
    pub addr: u32,
    pub prefix: u8,
}

impl Ipv4Net {
    /// The address lies in the block.
    pub open spec fn spans(self, ip: u32) -> bool {
        in_block(Cidr::V4 { addr: self.addr, prefix: self.prefix }, ip)
    }

    pub fn contains(&self, ip: u32) -> (b: bool)
        ensures
            b == self.spans(ip),
    {
        crate::policy::rules::block_holds(&Cidr::V4 { addr: self.addr, prefix: self.prefix }, ip)
    }
}

#[derive(Debug)]
pub struct PeerEntry {
    pub ip: u32,
    pub endpoint_id: String,
    pub hostname: String,
    pub tags: Vec<String>,
    pub ssh_host_key: Option<String>,
}

#[derive(Debug)]
pub struct SubnetRoute {
    pub cidr: Ipv4Net,
    pub via_endpoint_id: String,
    pub via_ip: u32,
}

#[derive(Debug)]
pub struct HostnameRoute {
    pub hostname: String,
    pub via_endpoint_id: String,
    pub via_ip: u32,
    pub is_wildcard: bool,
    pub target_ip: Option<u32>,
}

#[derive(Debug)]
pub struct ExitNodeInfo {
    pub endpoint_id: String,
    pub via_ip: u32,
    pub allowed_cidrs: Vec<Ipv4Net>,
}

#[derive(Debug, Clone, Copy, PartialEq, Eq, Structural)]
pub enum SplitTunnelMode {
    Off,
    Include,
    Exclude,
}

#[derive(Debug)]
pub struct DeviceProfile {
    pub exit_node_endpoint_id: Option<String>,
    pub split_tunnel_mode: SplitTunnelMode,
}

impl Default for DeviceProfile {
    fn default() -> (p: Self)
        ensures
            p.exit_node_endpoint_id is None,
            p.split_tunnel_mode is Off,
    {
        DeviceProfile { exit_node_endpoint_id: None, split_tunnel_mode: SplitTunnelMode::Off }
    }
}

/// PeerDNS magic listener address, 100.100.100.53.
pub const MAGIC_IP: u32 = 0x6464_6435;

#[derive(Debug)]
pub struct DnsConfig {
    pub suffix: String,
    pub magic_ip: u32,
}

impl Default for DnsConfig {
    fn default() -> (d: Self)
        ensures
            d.suffix@ == "tunnet"@,
            d.magic_ip == MAGIC_IP,
    {
        DnsConfig { suffix: "tunnet".to_owned(), magic_ip: MAGIC_IP }
    }
}

/// What is known of one network.
#[derive(Debug)]
pub struct NetworkSlice {
    pub peers: Vec<PeerEntry>,
    pub subnet_routes: Vec<SubnetRoute>,
    pub hostname_routes: Vec<HostnameRoute>,
    pub exit_nodes: Vec<ExitNodeInfo>,
    pub profile: DeviceProfile,
    pub dns: DnsConfig,
    pub network_name: String,
    pub self_endpoint_id: String,
    /// Join index: lower = first-joined = outbound winner on IP clash.
    pub join_index: u64,
}

#[derive(Debug)]
pub struct PeerInfo {
    pub endpoint: EndpointId,
    pub endpoint_hex: String,
    pub hostname: String,
    pub ip: u32,
    pub tags: Vec<String>,
    pub network_id: u128,
    pub network_name: String,
    pub ssh_host_key: Option<String>,
}

/// A [`PeerInfo`] by its texts.
pub struct PeerView {
    pub endpoint: EndpointId,
    pub endpoint_hex: Seq<char>,
    pub hostname: Seq<char>,
    pub ip: u32,
    pub tags: Seq<Seq<char>>,
    pub network_id: u128,
    pub network_name: Seq<char>,
    pub ssh_host_key: Option<Seq<char>>,
}

impl View for PeerInfo {
    type V = PeerView;

    open spec fn view(&self) -> PeerView {
        PeerView {
            endpoint: self.endpoint,
            endpoint_hex: self.endpoint_hex@,
            hostname: self.hostname@,
            ip: self.ip,
            tags: texts(self.tags@),
            network_id: self.network_id,
            network_name: self.network_name@,
            ssh_host_key: text_of(self.ssh_host_key),
        }
    }
}

/// Resolved hostname route (exact or wildcard).
#[derive(Debug)]
pub struct HostnameRouteInfo {
    pub peer: Arc<PeerInfo>,
    pub is_wildcard: bool,
    pub target_ip: Option<u32>,
    /// Stored hostname / suffix (without `*.`).
    pub hostname: String,
}

/// A [`HostnameRouteInfo`] by its texts.
pub struct RouteView {
    pub peer: PeerView,
    pub is_wildcard: bool,
    pub target_ip: Option<u32>,
    pub hostname: Seq<char>,
}

impl View for HostnameRouteInfo {
    type V = RouteView;

    open spec fn view(&self) -> RouteView {
        RouteView {
            peer: (*self.peer)@,
            is_wildcard: self.is_wildcard,
            target_ip: self.target_ip,
            hostname: self.hostname@,
        }
    }
}

} // verus!
