use tunnet_core::ipc::direct::{
    accept_pending, approved_message, deny_pending, done_message, list_pending, override_key,
    override_message, read_rule, require_coordinator, show_firewall, Done, FirewallStats,
    PendingPeer,
};
use tunnet_core::ipc::dispatch::{merge_transfers, plan, respond, Outcome, Plan};
use tunnet_core::ipc::errors::{classify_ipc_error, failed};
use tunnet_core::ipc::order::is_before;
use tunnet_core::ipc::protocol::{
    default_fw_protocol, default_https, default_invite_expires, default_ping_count,
    default_ping_interval_ms, default_ssh_list_limit, format_ipc_error, IpcErrorCode, IpcRequest,
    IpcResponse, SendConfigInfo, TransferInfo,
};
use tunnet_core::ipc::serve::{
    missing_certificate_message, no_such_peer_message, own_address_message, plan_serve,
    plan_serve_with,    set_send_config, transfer_info, PingRun, PingStep, TransferDirection, TransferRecord,
    MAX_PINGS,
};
use tunnet_core::ipc::ssh::{
    list_ssh_recordings, list_ssh_sessions, ssh_auth, ssh_cast, JsonObject, JsonValue,
};
use tunnet_core::ipc::status::{
    build_diag, build_netcheck, build_status, build_status_at, expiry, remaining_secs, AgentFacts,
};
use tunnet_core::ipc::transport::{default_ipc_path, pipe_name_for};
use tunnet_core::policy::firewall::{FirewallAction, FirewallDirection};
use tunnet_core::pool::shared::Shared;

#[test]
fn format_agent_not_running() {
    let msg = format_ipc_error(&IpcErrorCode::AgentNotRunning, "ignored");
    assert!(msg.contains("agent is not running"));
    assert!(msg.contains("tunnet up"));
}

#[test]
fn errors_are_formatted() {
    assert_eq!(
        format_ipc_error(&IpcErrorCode::NotEnrolled, "x"),
        "x (enroll or join a network first)"
    );
    assert_eq!(
        format_ipc_error(&IpcErrorCode::DataPlaneDown, "x"),
        "x (bring data plane up with `tunnet up`)"
    );
    assert_eq!(format_ipc_error(&IpcErrorCode::Internal, "x"), "x");
}

#[test]
fn errors_are_classified() {
    for (text, code) in [
        ("Peer NOT found", IpcErrorCode::NotFound),
        ("no pending request", IpcErrorCode::NotFound),
        ("only the coordinator can perform this action", IpcErrorCode::Denied),
        ("requires Managed mode", IpcErrorCode::NotEnrolled),
        ("no Direct networks joined", IpcErrorCode::NotEnrolled),
        ("the data plane is down", IpcErrorCode::DataPlaneDown),
        ("direction must be in|out", IpcErrorCode::InvalidRequest),
        ("something else", IpcErrorCode::Internal),
    ] {
        assert_eq!(classify_ipc_error(text), code, "{text}");
    }
    match failed("missing name".to_string()) {
        IpcResponse::Error { code, message } => {
            assert_eq!(code, IpcErrorCode::NotFound);
            assert_eq!(message, "missing name");
        }
        other => panic!("unexpected {other:?}"),
    }
}

#[test]
fn defaults() {
    assert_eq!(default_invite_expires(), "24h");
    assert_eq!(default_ssh_list_limit(), 50);
    assert_eq!(default_ping_count(), 4);
    assert_eq!(default_ping_interval_ms(), 1000);
    assert_eq!(default_https(), "https");
    assert_eq!(default_fw_protocol(), "tcp");
    assert_eq!(default_ipc_path(Some("/x/y"), Some("/run")), "/x/y");
    assert_eq!(default_ipc_path(None, Some("/run/user/1")), "/run/user/1/tunnet-agent.sock");
    assert_eq!(default_ipc_path(None, Some("/run/")), "/run/tunnet-agent.sock");
    assert_eq!(default_ipc_path(None, None), "/tmp/tunnet-agent.sock");
    assert_eq!(pipe_name_for(), r"\\.\pipe\tunnet-agent");
}

#[test]
fn routes_are_planned_in_canonical_form() {
    let add = |cidr: &str| {
        plan(IpcRequest::RouteAdd { cidr: cidr.to_string(), description: Some("d".to_string()) })
    };
    match add("10.1.2.0/24") {
        Plan::Perform(IpcRequest::RouteAdd { cidr, description }) => {
            assert_eq!(cidr, "10.1.2.0/24");
            assert_eq!(description.as_deref(), Some("d"));
        }
        other => panic!("unexpected {other:?}"),
    }
    match add("10.1.2.0/33") {
        Plan::Respond(IpcResponse::Error { code, message }) => {
            assert_eq!(code, IpcErrorCode::InvalidRequest);
            assert!(message.starts_with("invalid cidr: "));
        }
        other => panic!("unexpected {other:?}"),
    }
    match plan(IpcRequest::Ping { peer: "p".to_string(), count: 1, interval_ms: 1 }) {
        Plan::Respond(IpcResponse::Error { code, .. }) => {
            assert_eq!(code, IpcErrorCode::Internal)
        }
        other => panic!("unexpected {other:?}"),
    }
    assert!(matches!(plan(IpcRequest::Diag), Plan::Perform(IpcRequest::Diag)));
}

fn transfer(id: &str, status: &str) -> TransferInfo {
    transfer_info(TransferRecord {
        transfer_id: id.to_string(),
        direction: TransferDirection::Inbound,
        peer_endpoint_id: "p".to_string(),
        peer_hostname: None,
        file_name: "f".to_string(),
        size: 1,
        hash: "h".to_string(),
        status: status.to_string(),
        percent_bits: 0,
        bytes_transferred: 0,
        message: None,
        error: None,
        inbox_path: None,
        is_directory: false,
    })
}

#[test]
fn transfers_are_merged_by_id() {
    let v = merge_transfers(
        vec![transfer("b", "active"), transfer("c", "active")],
        vec![transfer("a", "pending"), transfer("b", "pending")],
    );
    let seen: Vec<(&str, &str)> =
        v.iter().map(|t| (t.transfer_id.as_str(), t.status.as_str())).collect();
    assert_eq!(seen, [("a", "pending"), ("b", "active"), ("c", "active")]);
    assert!(is_before("a", "ab"));
    assert!(!is_before("b", "ab"));
    match respond(Outcome::TransferLists { active: vec![], pending: vec![transfer("z", "p")] }) {
        IpcResponse::Transfers { transfers } => assert_eq!(transfers.len(), 1),
        other => panic!("unexpected {other:?}"),
    }
    match respond(Outcome::DataPlaneCameUp) {
        IpcResponse::Done { message } => assert_eq!(message, "data plane up"),
        other => panic!("unexpected {other:?}"),
    }
    assert!(matches!(
        respond(Outcome::Failed { message: "denied".to_string() }),
        IpcResponse::Error { code: IpcErrorCode::Denied, .. }
    ));
}

#[test]
fn pings_are_counted() {
    let mut r = PingRun::new(2);
    assert_eq!(r.answered(true), PingStep::Next { seq: 2 });
    assert_eq!(r.answered(false), PingStep::Summary { transmitted: 2, received: 1 });
    assert_eq!(PingRun::new(0).count, 1);
    assert_eq!(PingRun::new(1000).count, MAX_PINGS);
    assert_eq!(
        no_such_peer_message("x"),
        "no peer matches `x` (try hostname, IP, or endpoint id)"
    );
    assert_eq!(
        own_address_message("me", 0x0a00_0001, "h"),
        "`me` is this node (10.0.0.1 / h). Ping the other machine's mesh IP instead"
    );
}

#[test]
fn serving_needs_a_certificate_for_https() {
    let go = |protocol: &str, cert: bool, given: Option<&str>, id: Option<&str>| {
        plan_serve_with(
            protocol,
            cert,
            cert,
            given.map(|s| s.to_string()),
            id.map(|s| s.to_string()),
            "new".to_string(),
            "host",
            "net",
        )
    };
    assert_eq!(go("https", false, None, None), None);
    assert_eq!(
        go("https", true, None, None),
        Some(("new".to_string(), "host.net.tunnet".to_string()))
    );
    assert_eq!(
        go("tcp", false, Some("svc"), Some("id")),
        Some(("id".to_string(), "svc".to_string()))
    );
    assert!(!missing_certificate_message().is_empty());
    let (id, _) = plan_serve("tcp", false, false, None, None, "host", "net").unwrap();
    let (other, _) = plan_serve("tcp", false, false, None, None, "host", "net").unwrap();
    assert_eq!(id.len(), 36);
    assert_ne!(id, other);
}

#[test]
fn sending_is_configured() {
    let cfg = || SendConfigInfo {
        consent: "ask".to_string(),
        inbox_path: "/in".to_string(),
        pin_blobs: false,
    };
    let c = set_send_config(
        cfg(),
        Some(("ALLOW".to_string(), Some("allow".to_string()))),
        None,
        Some(true),
    )
    .unwrap();
    assert_eq!((c.consent.as_str(), c.inbox_path.as_str(), c.pin_blobs), ("allow", "/in", true));
    assert_eq!(
        set_send_config(cfg(), Some(("x".to_string(), None)), None, None).unwrap_err(),
        "invalid consent mode: x"
    );
}

#[test]
fn firewall_rules_are_read() {
    let r = read_rule("in", "deny", "tcp").unwrap();
    assert_eq!(r.0, FirewallDirection::In);
    assert_eq!(r.1, FirewallAction::Deny);
    assert_eq!(read_rule("in", "deny", "x").unwrap_err(), "protocol must be tcp|udp|icmp|any");
    assert!(read_rule("sideways", "deny", "tcp").is_err());
    assert!(read_rule("in", "maybe", "tcp").is_err());
    assert_eq!(require_coordinator(true), Ok(()));
    assert_eq!(
        require_coordinator(false),
        Err("only the coordinator can perform this action")
    );
    let stats = FirewallStats {
        enabled: true,
        conntrack_entries: 1,
        packets_allowed: 2,
        packets_denied: 3,
        packets_rejected: 4,
        suggested_rules: 5,
    };
    match show_firewall(false, vec![], Some(stats)) {
        IpcResponse::DirectFirewall { enabled, packets_denied, suggested_rules, .. } => {
            assert_eq!((enabled, packets_denied, suggested_rules), (true, 3, 5))
        }
        other => panic!("unexpected {other:?}"),
    }
    match show_firewall(false, vec![], None) {
        IpcResponse::DirectFirewall { enabled, conntrack_entries, .. } => {
            assert_eq!((enabled, conntrack_entries), (false, 0))
        }
        other => panic!("unexpected {other:?}"),
    }
}

fn pending(id: &str, host: &str) -> PendingPeer {
    PendingPeer {
        endpoint_id: id.to_string(),
        hostname: host.to_string(),
        ip: 1,
        collision_index: 0,
    }
}

#[test]
fn pending_peers_are_settled() {
    let mut list = vec![pending("e1", "h1"), pending("e2", "h2")];
    let shown = list_pending(&list);
    assert_eq!(shown[1].endpoint_id, "e2");
    assert_eq!(shown[1].ipv4, "0.0.0.1");
    assert_eq!(done_message(&Done::Denied { peer_id: "e1".to_string() }), "Denied e1");
    assert_eq!(done_message(&Done::RuleRemoved { index: 12 }), "Removed rule 12");
    assert_eq!(done_message(&Done::FirewallOff), "Firewall disabled (allow all).");
    let mut approved = Vec::new();
    let p = accept_pending(&mut list, &mut approved, "h2").unwrap();
    assert_eq!(p.endpoint_id, "e2");
    assert_eq!(approved, ["e2"]);
    assert_eq!(list.len(), 1);
    assert!(accept_pending(&mut list, &mut approved, "h2").is_none());
    assert!(deny_pending(&mut list, "e1"));
    assert!(!deny_pending(&mut list, "e1"));
    assert!(approved_message("e2").contains("e2"));
    assert!(override_key("n", "p").contains('p'));
    assert!(override_message("p", "n", 0x0a00_0001).contains("10.0.0.1"));
}

fn value(name: &str, text: &str) -> (String, JsonValue) {
    (
        name.to_string(),
        JsonValue {
            as_str: Some(text.to_string()),
            as_u64: None,
            as_bool: None,
            written: format!("\"{text}\""),
        },
    )
}

#[test]
fn sessions_are_read() {
    let o: JsonObject = vec![
        value("id", "s1"),
        value("srcEndpointId", "a"),
        value("dstEndpointId", "b"),
        value("targetUser", "root"),
        value("status", "ended"),
        value("startedAt", "t0"),
    ];
    let v = list_ssh_sessions(&[o]);
    assert_eq!(v.len(), 1);
    assert_eq!(v[0].id, "s1");
    assert_eq!(v[0].target_user, "root");
    assert_eq!(list_ssh_recordings(&[]).len(), 0);
    assert!(ssh_cast(&vec![], "s").is_none());
    let (status, token) = ssh_auth(&vec![value("status", "approved"), value("proofToken", "t")]);
    assert_eq!((status.as_str(), token.as_deref()), ("approved", Some("t")));
}

fn facts() -> AgentFacts {
    AgentFacts {
        ip: 0x0a00_0001,
        hostname: "me".to_string(),
        network_name: None,
        network_id: None,
        organization_id: None,
        endpoint_id: "ep".to_string(),
        tunnels: 0,
        direct: true,
        uptime_secs: 5,
        agent_version: "1".to_string(),
        snapshot_version: 3,
        data_plane_up: true,
        firewall: None,
        expires_at: Some("1970-01-01T00:01:00Z".to_string()),
        control_url: None,
        control: None,
    }
}

#[test]
fn status_is_built() {
    let sh = Shared::new();
    let s = build_status_at(facts(), vec![], true, &sh, (10, 0));
    assert_eq!(s.ip, "10.0.0.1");
    assert_eq!(s.hostname, "me");
    assert_eq!(s.expires_in_secs, Some(50));
    assert_eq!(s.expires_at.as_deref(), Some("1970-01-01T00:01:00Z"));
    assert_eq!(s.peers.map(|p| p.len()), Some(0));
    assert_eq!(s.peers_total, 0);
    let s = build_status_at(facts(), vec![], false, &sh, (100, 0));
    assert_eq!(s.expires_in_secs, Some(0));
    assert!(s.peers.is_none());
    // The expiry is long past.
    assert_eq!(build_status(facts(), vec![], false, &sh).expires_in_secs, Some(0));
    assert_eq!(expiry(None, None, (0, 0)).1, None);
    assert_eq!(remaining_secs((60, 0), (10, 1)), 49);
}

#[test]
fn diagnosis_is_built() {
    let d = build_diag(3, "ep");
    assert_eq!(d.total_peers, 3);
    assert_eq!(d.notes[1], "mesh peers known: 3");
    let n = build_netcheck(1, 0x0a00_0001, true, "tunnet", 2);
    assert!(n.ok);
    assert_eq!(n.checks.len(), 4);
    let n = build_netcheck(1, 0, false, "tunnet", 0);
    assert!(!n.ok);
}

#[test]
fn requests_get_their_kind_of_response() {
    assert!(matches!(respond(Outcome::DataPlaneIs { up: true }), IpcResponse::DataPlane { up: true }));
    assert!(matches!(
        respond(Outcome::Invalid { message: "invalid consent mode: missing".to_string() }),
        IpcResponse::Error { code: IpcErrorCode::InvalidRequest, .. }
    ));
    match respond(Outcome::TransferRejected) {
        IpcResponse::Done { message } => assert_eq!(message, "rejected"),
        other => panic!("{other:?}"),
    }
    match respond(Outcome::Invite { code: "c".to_string() }) {
        IpcResponse::DirectInvite { code } => assert_eq!(code, "c"),
        other => panic!("{other:?}"),
    }
}
