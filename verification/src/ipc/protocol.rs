//! Agent IPC v3 - newline-delimited JSON request/response over a local socket.
//!
//! Every `tunnet <subcommand>` that is not bootstrap (`enroll` / `reset`) talks
//! to the running agent through this protocol. The agent owns the node; the CLI
//! process stays unprivileged and finishes in milliseconds.
//!
//! Measured quantities that travel as floating-point numbers are carried here by their
//! bits.

use vstd::prelude::*;
use vstd::string::*;

verus! {

/// Wire protocol version - bump when breaking request/response shapes.
pub const IPC_VERSION: u32 = 3;

/// Structured IPC error codes for actionable CLI messaging.
#[derive(Debug, Clone, Copy, PartialEq, Eq, Structural)]
pub enum IpcErrorCode {
    /// Client-side only: agent IPC socket unreachable.
    AgentNotRunning,
    DataPlaneDown,
    NotEnrolled,
    NotFound,
    Denied,
    InvalidRequest,
    Internal,
}

#[allow(inconsistent_fields)]
#[derive(Debug)]
pub enum IpcRequest {
    /// Agent + network health summary. When `peers` is true, include peer table.
    Status {
        peers: bool,
    },
    DnsStatus,
    RouteList,
    RouteAdd {
        cidr: String,
        description: Option<String>,
    },
    Ping {
        peer: String,
        count: u32,
        interval_ms: u64,
    },
    Diag,
    Netcheck,

    ServeStart {
        port: u16,
        protocol: String,
        certificate_pem: Option<String>,
        private_key_pem: Option<String>,
        internal_hostname: Option<String>,
        serve_id: Option<String>,
        access_mode: Option<String>,
        allowed_tags: Vec<String>,
        allowed_endpoint_ids: Vec<String>,
    },
    ServeStatus,
    ServeOff {
        port: u16,
    },

    TunnelStart {
        port: u16,
        protocol: String,
        relay: Option<String>,
        subdomain: Option<String>,
        /// Capture HTTP traffic and serve a local inspector UI.
        inspect: bool,
        /// Bind address for the inspector (default `127.0.0.1:4040`).
        inspect_addr: Option<String>,
    },
    TunnelStatus,
    TunnelOff {
        port: u16,
    },

    /// List SSH sessions from the control plane.
    SshSessions {
        limit: u32,
        status: Option<String>,
    },
    /// List SSH recordings from the control plane.
    SshRecordings {
        limit: u32,
    },
    /// Fetch a recording cast by session id.
    SshPlay {
        session_id: String,
    },

    /// Poll a check-mode re-auth challenge for a proof token.
    SshAuthPoll {
        challenge_token: String,
    },

    /// Send a file or directory to a peer (hostname / IP / endpoint id / `tag:name`).
    SendFile {
        path: String,
        target: String,
        message: Option<String>,
    },
    SendAccept {
        transfer_id: String,
    },
    SendReject {
        transfer_id: String,
        reason: Option<String>,
    },
    SendList,
    SendHistory,
    SendConfig,
    SendSetConfig {
        consent: Option<String>,
        inbox_path: Option<String>,
        pin_blobs: Option<bool>,
    },

    /// Whether TUN + system DNS/routes are active.
    DataPlaneStatus,
    /// Bring TUN + DNS + routes up (daemon must already be running).
    DataPlaneUp,
    /// Tear down TUN + DNS + routes; keep mesh/docs/IPC alive.
    DataPlaneDown,

    /// Direct: create invite code (coordinator).
    DirectInvite {
        network: Option<String>,
        reusable: bool,
        expires: String,
    },
    DirectRequests {
        network: Option<String>,
    },
    DirectAccept {
        network: Option<String>,
        peer_id: String,
    },
    DirectDeny {
        network: Option<String>,
        peer_id: String,
    },
    DirectKick {
        network: Option<String>,
        peer_id: String,
    },
    DirectFirewallShow {
        network: Option<String>,
    },
    DirectFirewallOff {
        network: Option<String>,
    },
    DirectFirewallAdd {
        network: Option<String>,
        direction: String,
        action: String,
        protocol: String,
        port: Option<String>,
        peer: Option<String>,
    },
    DirectFirewallRemove {
        network: Option<String>,
        index: usize,
    },
    DirectFirewallReset {
        network: Option<String>,
    },
    DirectFirewallFlushConntrack {
        network: Option<String>,
    },
    DirectFirewallPending {
        network: Option<String>,
    },
    DirectFirewallAcceptSuggestion {
        network: Option<String>,
    },
    DirectFirewallRejectSuggestion {
        network: Option<String>,
    },
    DirectPolicyShow {
        network: Option<String>,
    },
    DirectPolicySet {
        network: Option<String>,
        /// TOML contents of a policy file (global rules + optional per-hostname).
        toml: String,
    },
    DirectPolicyClear {
        network: Option<String>,
    },
    DirectKeepAlive {
        hostname: String,
        enable: bool,
    },
    /// Manual IP override for birthday collisions.
    DirectOverrideIp {
        network: Option<String>,
        peer: String,
        ip: String,
    },
    DirectConnect {
        contact_id: String,
    },
    DirectConnectAllow {
        contact_id: String,
    },
    DirectConnectPending,
    DirectConnectAccept {
        contact_id: String,
    },
    DirectConnectDeny {
        contact_id: String,
    },
    DirectConnectRotate,

    /// Reload firewall / DNS / logging / keep-alive from tunnet.toml without dropping connections.
    Reload,
}

#[allow(inconsistent_fields)]
#[derive(Debug)]
pub enum IpcResponse {
    Ready,
    Status(StatusInfo),
    DnsStatus(DnsStatusInfo),
    Routes(RoutesInfo),
    RouteAdded {
        cidr: String,
    },
    /// Streaming-style: one PingProbe per round, then PingSummary.
    PingProbe(PingProbe),
    PingSummary(PingSummary),
    Diag(DiagInfo),
    Netcheck(NetcheckInfo),
    Serve(ServeInfo),
    Serves {
        serves: Vec<ServeInfo>,
    },
    Tunnel(TunnelInfo),
    Tunnels {
        tunnels: Vec<TunnelInfo>,
    },
    SshSessions {
        sessions: Vec<SshSessionInfo>,
    },
    SshRecordings {
        recordings: Vec<SshRecordingInfo>,
    },
    SshCast {
        session_id: String,
        cast_text: String,
        content_sha256: String,
    },
    SshAuthPoll {
        status: String,
        proof_token: Option<String>,
    },
    Transfer(TransferInfo),
    Transfers {
        transfers: Vec<TransferInfo>,
    },
    SendConfig(SendConfigInfo),
    DataPlane {
        up: bool,
    },
    DirectInvite {
        code: String,
    },
    DirectPending {
        requests: Vec<DirectPendingInfo>,
    },
    DirectFirewall {
        enabled: bool,
        rules: Vec<DirectFirewallRuleInfo>,
        conntrack_entries: usize,
        packets_allowed: u64,
        packets_denied: u64,
        packets_rejected: u64,
        suggested_rules: usize,
    },
    DirectFirewallPending {
        pending: Option<String>,
    },
    DirectPolicy {
        json: Option<String>,
    },
    DirectConnectPending {
        requests: Vec<DirectConnectPendingInfo>,
    },
    DirectContact {
        contact_id: String,
    },
    /// Sent as `ok`.
    Done {
        message: String,
    },
    Error {
        code: IpcErrorCode,
        message: String,
    },
}

#[derive(Debug)]
pub struct DirectConnectPendingInfo {
    pub contact_id: String,
    pub endpoint_id: String,
    pub hostname: String,
    pub received_at: String,
}

#[derive(Debug)]
pub struct DirectPendingInfo {
    pub endpoint_id: String,
    pub hostname: String,
    pub ipv4: String,
    pub collision_index: u8,
}

#[derive(Debug)]
pub struct DirectFirewallRuleInfo {
    pub index: usize,
    pub direction: String,
    pub action: String,
    pub protocol: String,
    pub ports: Option<String>,
    pub peer: Option<String>,
}

#[derive(Debug)]
pub struct SshSessionInfo {
    pub id: String,
    pub src_endpoint_id: String,
    pub dst_endpoint_id: String,
    pub src_hostname: Option<String>,
    pub dst_hostname: Option<String>,
    pub target_user: String,
    pub status: String,
    pub recorded: bool,
    pub started_at: String,
    pub duration_ms: Option<u64>,
}

#[derive(Debug)]
pub struct SshRecordingInfo {
    pub session_id: String,
    pub src_hostname: Option<String>,
    pub dst_hostname: Option<String>,
    pub target_user: Option<String>,
    pub byte_size: u64,
    pub created_at: String,
    pub content_sha256: Option<String>,
}

#[derive(Debug)]
pub struct PeerLite {
    pub ip: String,
    pub hostname: String,
    pub endpoint_id: String,
    pub tags: Vec<String>,
    pub online: Option<bool>,
    pub latency_bits: Option<u64>,
    pub os: Option<String>,
    /// connected | suspended | reconnecting
    pub conn_state: Option<String>,
    /// direct | relay | unknown
    pub path: Option<String>,
    pub bytes_in: Option<u64>,
    pub bytes_out: Option<u64>,
    pub last_seen_secs_ago: Option<u64>,
    pub keep_alive: Option<bool>,
    /// OpenSSH public host key line when advertised by the peer.
    pub ssh_host_key: Option<String>,
}

#[derive(Debug)]
pub struct StatusInfo {
    pub ip: String,
    pub hostname: String,
    pub network_name: String,
    pub network_id: String,
    pub organization_id: String,
    pub endpoint_id: String,
    pub peers_total: usize,
    pub peers_online: usize,
    pub relay_status: String,
    pub uptime_secs: u64,
    pub agent_version: String,
    pub snapshot_version: u64,
    pub peers: Option<Vec<PeerLite>>,
    pub mode: Option<String>,
    pub data_plane_up: Option<bool>,
    pub keep_alive: Option<bool>,
    pub firewall_drops: Option<u64>,
    pub conntrack_entries: Option<usize>,
    pub on_demand: Option<OnDemandStatusInfo>,
    /// RFC3339 timestamp when this machine is deleted after inactivity.
    pub expires_at: Option<String>,
    /// Seconds until `expires_at`, when auto-expiry is enabled.
    pub expires_in_secs: Option<u64>,
    /// Control plane base URL (Managed). Loopback here on a VM means enroll is broken.
    pub control_url: Option<String>,
    /// Live WebSocket link to the control plane (Managed only).
    pub control: Option<ControlPlaneStatusInfo>,
}

/// Control-plane WebSocket connectivity for Managed agents.
#[derive(Debug)]
pub struct ControlPlaneStatusInfo {
    pub url: String,
    pub connected: bool,
    pub connected_for_secs: Option<u64>,
    pub last_change_secs_ago: Option<u64>,
    pub reconnects: u64,
    pub last_error: Option<String>,
}

#[derive(Debug)]
pub struct OnDemandStatusInfo {
    pub reconnect_attempts: u64,
    pub reconnect_success: u64,
    pub reconnect_fail: u64,
    pub packets_buffered: u64,
    pub packets_dropped_timeout: u64,
}

#[derive(Debug)]
pub struct DnsStatusInfo {
    pub suffix: String,
    pub upstream: Vec<String>,
    pub peer_dns_active: bool,
    pub cached_entries: usize,
    pub synthetic_base: String,
    pub magic_ip: String,
    pub bind: String,
}

#[derive(Debug)]
pub struct RoutesInfo {
    pub subnet_routes: Vec<SubnetRouteInfo>,
    pub hostname_routes: Vec<HostnameRouteInfo>,
    pub exit_node: Option<ExitNodeRouteInfo>,
    pub split_tunnel_mode: String,
    pub split_tunnel_cidrs: Vec<String>,
}

#[derive(Debug)]
pub struct SubnetRouteInfo {
    pub cidr: String,
    pub via_hostname: String,
    pub via_ip: String,
    pub via_endpoint_id: String,
    pub advertised_by_self: bool,
}

#[derive(Debug)]
pub struct HostnameRouteInfo {
    pub hostname: String,
    pub is_wildcard: bool,
    pub via_hostname: String,
    pub via_ip: String,
    pub via_endpoint_id: String,
    pub target_ip: Option<String>,
}

#[derive(Debug)]
pub struct ExitNodeRouteInfo {
    pub hostname: String,
    pub via_ip: String,
    pub endpoint_id: String,
}

#[derive(Debug)]
pub struct PingProbe {
    pub seq: u32,
    pub peer: String,
    pub peer_ip: String,
    pub latency_bits: u64,
    pub path: String,
}

#[derive(Debug)]
pub struct PingSummary {
    pub peer: String,
    pub peer_ip: String,
    pub transmitted: u32,
    pub received: u32,
    pub loss_bits: u64,
    pub min_bits: Option<u64>,
    pub avg_bits: Option<u64>,
    pub max_bits: Option<u64>,
    pub path: String,
}

#[derive(Debug)]
pub struct DiagInfo {
    pub nat_type: String,
    pub endpoint_id: String,
    pub endpoint_online: bool,
    pub relay_reachable: bool,
    pub relay_rtt_bits: Option<u64>,
    pub direct_peers: usize,
    pub relayed_peers: usize,
    pub total_peers: usize,
    pub notes: Vec<String>,
}

#[derive(Debug)]
pub struct NetcheckInfo {
    pub ok: bool,
    pub checks: Vec<NetcheckItem>,
}

#[derive(Debug)]
pub struct NetcheckItem {
    pub name: String,
    pub pass: bool,
    pub detail: String,
}

#[derive(Debug)]
pub struct ServeInfo {
    pub id: String,
    pub port: u16,
    pub protocol: String,
    pub url: String,
    pub status: String,
}

#[derive(Debug)]
pub struct TunnelInfo {
    pub id: String,
    pub port: u16,
    pub protocol: String,
    pub public_url: String,
    pub relay: String,
    pub status: String,
    /// Local inspector URL when `--inspect` is enabled.
    pub inspector_url: Option<String>,
}

#[derive(Debug)]
pub struct TransferInfo {
    pub transfer_id: String,
    pub direction: String,
    pub peer_endpoint_id: String,
    pub peer_hostname: Option<String>,
    pub file_name: String,
    pub size: u64,
    pub hash: String,
    pub status: String,
    pub percent_bits: u32,
    pub bytes_transferred: u64,
    pub message: Option<String>,
    pub error: Option<String>,
    pub inbox_path: Option<String>,
    pub is_directory: bool,
}

#[derive(Debug)]
pub struct SendConfigInfo {
    pub consent: String,
    pub inbox_path: String,
    pub pin_blobs: bool,
}

/// The text of an IPC error for CLI display.
pub open spec fn error_display(code: IpcErrorCode, message: Seq<char>) -> Seq<char> {
    match code {
        IpcErrorCode::AgentNotRunning => "agent is not running (start with `tunnet up` / service)"@,
        IpcErrorCode::DataPlaneDown => message + " (bring data plane up with `tunnet up`)"@,
        IpcErrorCode::NotEnrolled => message + " (enroll or join a network first)"@,
        IpcErrorCode::NotFound => message,
        IpcErrorCode::Denied => message,
        IpcErrorCode::InvalidRequest => message,
        IpcErrorCode::Internal => message,
    }
}

/// Format an IPC error for CLI display.
pub fn format_ipc_error(code: &IpcErrorCode, message: &str) -> (s: String)
    ensures
        s@ == error_display(*code, message@),
{
    match code {
        IpcErrorCode::AgentNotRunning => {
            "agent is not running (start with `tunnet up` / service)".to_owned()
        },
        IpcErrorCode::DataPlaneDown => {
            let mut s: String = message.to_owned();
            s.append(" (bring data plane up with `tunnet up`)");
            s
        },
        IpcErrorCode::NotEnrolled => {
            let mut s: String = message.to_owned();
            s.append(" (enroll or join a network first)");
            s
        },
        IpcErrorCode::NotFound => message.to_owned(),
        IpcErrorCode::Denied => message.to_owned(),
        IpcErrorCode::InvalidRequest => message.to_owned(),
        IpcErrorCode::Internal => message.to_owned(),
    }
}

/// How long an invitation holds unless it says otherwise.
pub fn default_invite_expires() -> (s: String)
    ensures
        s@ == "24h"@,
{
    "24h".to_owned()
}

pub fn default_ssh_list_limit() -> (n: u32)
    ensures
        n == 50,
{
    50
}

pub fn default_ping_count() -> (n: u32)
    ensures
        n == 4,
{
    4
}

pub fn default_ping_interval_ms() -> (n: u64)
    ensures
        n == 1000,
{
    1000
}

pub fn default_https() -> (s: String)
    ensures
        s@ == "https"@,
{
    "https".to_owned()
}

pub fn default_fw_protocol() -> (s: String)
    ensures
        s@ == "tcp"@,
{
    "tcp".to_owned()
}

} // verus!
