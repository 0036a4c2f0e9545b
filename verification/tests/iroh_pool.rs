use tunnet_core::endpoint::EndpointId;
use tunnet_core::ip::parse_ip;
use tunnet_core::pool::conn_pool::ConnPool;
use tunnet_core::pool::datagram::{
    buffer_full_message, connect_message, not_authorized_message, plan_datagram,
    suppressed_message, timed_out_message, too_large_message, DatagramStep,
};
use tunnet_core::pool::model::{
    DialFailure, DialStep, Gate, GetStep, PeerConnState, SendStep, WaitOutcome, WaitStep,
    BACKOFF_CAP_MS, DEFAULT_IDLE_SECS, MAX_BUFFER_PACKETS,
};
use tunnet_core::pool::records::PeerRecord;
use tunnet_core::pool::shared::{normalize_relay_url, Shared};
use tunnet_core::pool::slot::{
    backoff_delay, classify_dial, delay_after, is_deterministic_reject, prefer_incoming, PeerSlot,
};
use tunnet_core::routing::table::RoutingTable;
use tunnet_core::routing::types::{
    DeviceProfile, DnsConfig, PeerEntry, SplitTunnelMode, MAGIC_IP,
};

const LOCAL: EndpointId = (5, 0);
const PEER: EndpointId = (7, 0);
const OPEN: Gate = Gate { allows: true, generation: 0 };
const SEC: u64 = 1_000_000_000;

fn pool() -> ConnPool {
    ConnPool::new(LOCAL, b"test/alpn".to_vec())
}

fn members(hex: &[&str], version: u64) -> RoutingTable {
    let mut t = RoutingTable::new();
    if version > 0 {
        t.replace(
            hex.iter()
                .map(|h| PeerEntry {
                    ip: parse_ip("100.64.0.9").unwrap(),
                    endpoint_id: h.to_string(),
                    hostname: "peer".to_string(),
                    tags: vec![],
                    ssh_host_key: None,
                })
                .collect(),
            vec![],
            vec![],
            vec![],
            DeviceProfile { exit_node_endpoint_id: None, split_tunnel_mode: SplitTunnelMode::Off },
            DnsConfig { suffix: "tunnet".to_string(), magic_ip: MAGIC_IP },
            "net",
            0,
            &"aa".repeat(32),
            version,
        );
    }
    t
}

#[test]
fn tie_break_prefers_canonical_initiator_side() {
    let low: EndpointId = (1, 9);
    let high: EndpointId = (2, 3);

    // Low endpoint is initiator: wants opened_by_us=true.
    assert!(prefer_incoming(low, high, false, true));
    assert!(!prefer_incoming(low, high, true, false));
    assert!(!prefer_incoming(low, high, true, true));

    // High endpoint is not initiator: wants accepted (opened_by_us=false).
    assert!(prefer_incoming(high, low, true, false));
    assert!(!prefer_incoming(high, low, false, true));
}

#[test]
fn has_live_false_without_entry() {
    let mut p = pool();
    assert!(!p.has_live(PEER, false));
    assert!(p.conn_of(PEER).is_none());
}

#[test]
fn concurrent_get_coalesce_failure() {
    let mut p = pool();
    let mut sh = Shared::new();
    // The first caller dials, the second waits for it.
    assert_eq!(p.get(&mut sh, PEER, OPEN, false, SEC), GetStep::Dial);
    assert_eq!(p.get(&mut sh, PEER, OPEN, false, SEC), GetStep::Wait);
    p.dial_failed(&mut sh, PEER, DialFailure::Transient, 0, SEC);
    assert_eq!(p.after_wait(PEER, false, WaitOutcome::Failed, SEC), WaitStep::Failed);
    assert!(!p.has_live(PEER, false));
    assert_eq!(
        sh.on_demand_stats().reconnect_fail,
        1,
        "only one dialer should record the failure"
    );
}

#[test]
fn backoff_delay_is_bounded_and_grows() {
    for step in 0..12 {
        assert!(backoff_delay(step) <= BACKOFF_CAP_MS);
    }
    assert!(backoff_delay(8) > backoff_delay(0));
}

#[test]
fn jitter_fills_the_upper_half() {
    for r in [0, 1, 12345, u64::MAX] {
        for step in 0..12 {
            assert!(delay_after(step, r) <= BACKOFF_CAP_MS);
        }
        assert!(delay_after(8, r) > delay_after(0, u64::MAX - r));
    }
    assert_eq!(delay_after(0, 0), 100);
    assert_eq!(delay_after(0, 100), 200);
    assert_eq!(delay_after(1, 201), 200);
}

#[test]
fn blocked_burst_produces_no_dials() {
    let mut p = pool();
    let mut sh = Shared::new();
    let gate = members(&[], 0).membership_gate("x");
    assert!(!gate.allows);
    for _ in 0..100 {
        let _ = p.send_or_buffer(&mut sh, PEER, b"pkt".to_vec(), gate, false, SEC);
    }
    for _ in 0..20 {
        let _ = p.get(&mut sh, PEER, gate, false, SEC);
    }
    let stats = sh.on_demand_stats();
    assert_eq!(stats.reconnect_attempts, 0, "blocked peer must never dial");
    assert!(stats.dials_suppressed > 0);
    assert!(stats.packets_dropped_blocked >= 100);
    assert_eq!(p.peer_snapshot(&sh, PEER, false, SEC).state, "blocked");
}

#[test]
fn concurrent_blocked_callers_share_no_dial() {
    let mut p = pool();
    let mut sh = Shared::new();
    let gate = members(&[], 0).membership_gate("x");
    for _ in 0..8 {
        assert!(matches!(p.get(&mut sh, PEER, gate, false, SEC), GetStep::Denied { .. }));
    }
    assert!(not_authorized_message("x").contains("not_authorized"));
    assert_eq!(sh.on_demand_stats().reconnect_attempts, 0);
}

#[test]
fn blocked_retries_only_on_generation_change() {
    let mut p = pool();
    let mut sh = Shared::new();
    let gate = members(&[], 0).membership_gate("x");

    let _ = p.get(&mut sh, PEER, gate, false, SEC);
    assert_eq!(sh.on_demand_stats().dials_suppressed, 0);
    let _ = p.get(&mut sh, PEER, gate, false, SEC);
    assert_eq!(sh.on_demand_stats().dials_suppressed, 1);

    // Membership write without adding the peer: a new episode, still no dial.
    let gate = members(&[], 1).membership_gate("x");
    let _ = p.get(&mut sh, PEER, gate, false, SEC);
    assert_eq!(sh.on_demand_stats().reconnect_attempts, 0);
    assert_eq!(sh.on_demand_stats().dials_suppressed, 1);
    let _ = p.get(&mut sh, PEER, gate, false, SEC);
    assert_eq!(sh.on_demand_stats().dials_suppressed, 2);
}

#[test]
fn reconcile_unblocks_on_membership_add() {
    let mut p = pool();
    let mut sh = Shared::new();
    let hex = "b".repeat(64);
    let joined = members(&[&hex], 2);
    let peer = joined.lookup_endpoint(&hex).unwrap().endpoint;

    let _ = p.get(&mut sh, peer, members(&[], 0).membership_gate(&hex), false, SEC);
    assert_eq!(p.peer_snapshot(&sh, peer, false, SEC).state, "blocked");

    let allowed: Vec<EndpointId> = joined.peers().iter().map(|i| i.endpoint).collect();
    let closed = p.reconcile(&mut sh, &allowed, joined.membership_gate(&hex).generation, &[]);
    assert!(closed.is_empty());
    assert_eq!(p.peer_snapshot(&sh, peer, false, SEC).state, "idle");
}

#[test]
fn revoke_peer_drops_buffer_and_pins_blocked() {
    let mut p = pool();
    let mut sh = Shared::new();
    let mut slot = PeerSlot::new(SEC);
    assert!(slot.push_buf(b"stale".to_vec()));
    p.records.insert(PEER, PeerRecord { slot: Some(slot), extra: vec![] });
    p.revoke_peer(&mut sh, PEER, 0);

    // Pin the denial at the same generation so no dial can follow.
    let gate = members(&[], 0).membership_gate("x");
    let _ = p.get(&mut sh, PEER, gate, false, SEC);
    let stats = sh.on_demand_stats();
    assert_eq!(stats.reconnect_attempts, 0);
    assert!(stats.packets_dropped_blocked >= 1);
    assert_eq!(p.peer_snapshot(&sh, PEER, false, SEC).state, "blocked");
}

#[test]
fn backoff_suppresses_without_dial() {
    let mut p = pool();
    let mut sh = Shared::new();
    let mut slot = PeerSlot::new(SEC);
    slot.backoff_until = Some(61 * SEC);
    slot.state = PeerConnState::Backoff;
    p.records.insert(PEER, PeerRecord { slot: Some(slot), extra: vec![] });
    assert_eq!(p.get(&mut sh, PEER, OPEN, false, SEC), GetStep::Suppressed);
    let stats = sh.on_demand_stats();
    assert_eq!(stats.reconnect_attempts, 0);
    assert_eq!(stats.dials_suppressed, 1);
}

#[test]
fn extra_path_blocked_without_dial() {
    let mut p = pool();
    let mut sh = Shared::new();
    let gate = members(&[], 0).membership_gate("x");
    for _ in 0..5 {
        let _ = p.get_alpn(&mut sh, PEER, b"other/alpn", gate, false, SEC);
    }
    assert_eq!(sh.on_demand_stats().reconnect_attempts, 0);
    assert!(sh.on_demand_stats().dials_suppressed > 0);
}

#[test]
fn a_dial_flushes_what_was_buffered() {
    let mut p = pool();
    let mut sh = Shared::new();
    let (step, back) = p.send_or_buffer(&mut sh, PEER, vec![1], OPEN, false, SEC);
    assert_eq!((step, back), (SendStep::BufferedDial, None));
    // The one who was told to dial asks for the connection.
    assert_eq!(p.get(&mut sh, PEER, OPEN, false, SEC), GetStep::Dial);
    let (step, _) = p.send_or_buffer(&mut sh, PEER, vec![2], OPEN, false, SEC);
    assert_eq!(step, SendStep::Buffered);
    let (step, flushed) = p.dialed(&mut sh, PEER, 77, OPEN, false, SEC);
    assert_eq!(step, DialStep::Use { conn: 77, close: None });
    assert_eq!(flushed.into_iter().collect::<Vec<_>>(), vec![vec![1], vec![2]]);
    assert_eq!(p.get(&mut sh, PEER, OPEN, true, SEC), GetStep::Ready { conn: 77 });
    let (step, back) = p.send_or_buffer(&mut sh, PEER, vec![3], OPEN, true, SEC);
    assert_eq!((step, back), (SendStep::Send { conn: 77 }, Some(vec![3])));
    assert_eq!(p.count_live(&[77]), 1);
    assert!(p.has_any_live(&[77]));
    assert_eq!(p.close_all(), vec![77]);
}

#[test]
fn the_buffer_is_bounded() {
    let mut p = pool();
    let mut sh = Shared::new();
    let _ = p.get(&mut sh, PEER, OPEN, false, SEC);
    for _ in 0..MAX_BUFFER_PACKETS {
        let (step, _) = p.send_or_buffer(&mut sh, PEER, vec![0; 10], OPEN, false, SEC);
        assert_eq!(step, SendStep::Buffered);
    }
    let (step, _) = p.send_or_buffer(&mut sh, PEER, vec![0; 10], OPEN, false, SEC);
    assert_eq!(step, SendStep::Full);
}

#[test]
fn a_remote_refusal_pins_until_the_generation_moves() {
    let mut p = pool();
    let mut sh = Shared::new();
    assert_eq!(p.get(&mut sh, PEER, OPEN, false, SEC), GetStep::Dial);
    p.dial_failed(&mut sh, PEER, DialFailure::Blocked, 0, SEC);
    assert!(matches!(p.get(&mut sh, PEER, OPEN, false, 99 * SEC), GetStep::Denied { .. }));
    let next = Gate { allows: true, generation: 1 };
    assert_eq!(p.get(&mut sh, PEER, next, false, 99 * SEC), GetStep::Dial);
}

#[test]
fn dial_errors_are_classified() {
    assert!(is_deterministic_reject("closed: auth_required"));
    assert!(is_deterministic_reject("policy_deny"));
    assert_eq!(classify_dial(None), DialFailure::Transient);
    assert_eq!(classify_dial(Some("timed out")), DialFailure::Transient);
    assert_eq!(classify_dial(Some("closed: not_member")), DialFailure::Blocked);
}

#[test]
fn idle_connections_are_swept() {
    let mut p = pool();
    let mut sh = Shared::new();
    sh.set_keep_alive(false);
    let _ = p.get(&mut sh, PEER, OPEN, false, SEC);
    let _ = p.dialed(&mut sh, PEER, 9, OPEN, false, SEC);
    let idle = (DEFAULT_IDLE_SECS + 2) * SEC;
    p.touch_peer(PEER, true, idle);
    assert!(p.sweep_idle(&sh, idle + SEC).is_empty());
    assert_eq!(p.sweep_idle(&sh, 3 * idle), vec![9]);
    assert!(!p.has_live(PEER, true));
    // A peer that is kept alive stays.
    let _ = p.get(&mut sh, PEER, OPEN, false, SEC);
    let _ = p.dialed(&mut sh, PEER, 10, OPEN, false, SEC);
    p.set_peer_keep_alive(&mut sh, PEER, true, SEC);
    assert!(p.sweep_idle(&sh, 9 * idle).is_empty());
}

#[test]
fn bytes_and_relays() {
    let mut sh = Shared::new();
    sh.record_bytes_in(PEER, 10);
    sh.record_bytes_out(PEER, 20);
    assert_eq!(sh.peer_bytes(PEER), (10, 20));
    assert_eq!(sh.total_bytes(), (20, 10));
    assert_eq!(normalize_relay_url("https://relay.example.com//"), "https://relay.example.com");
    sh.set_cloud_relay_urls(&["https://relay.example.com/".to_string()]);
    sh.note_path(PEER, Some("https://relay.example.com"));
    sh.record_bytes_out(PEER, 5);
    assert_eq!(sh.cloud_relay_bytes, 5);
    sh.note_path(PEER, None);
    sh.record_bytes_out(PEER, 5);
    assert_eq!(sh.cloud_relay_bytes, 5);
}

#[test]
fn datagrams_are_planned() {
    assert_eq!(plan_datagram(10, Some(9), 100), DatagramStep::TooLarge { len: 10, max: 9 });
    assert_eq!(plan_datagram(10, Some(10), 0), DatagramStep::Wait);
    assert_eq!(plan_datagram(10, Some(10), 9), DatagramStep::Send);
    assert_eq!(plan_datagram(10, None, 10), DatagramStep::Send);
    assert!(too_large_message(10, 9).contains("10"));
}

#[test]
fn an_incoming_connection_is_adopted() {
    let mut p = pool();
    let mut sh = Shared::new();
    let (adopted, _, close) = p.adopt(PEER, 3, false, SEC);
    assert!(adopted);
    assert_eq!(close, None);
    assert_eq!(p.conn_of(PEER), Some(3));
    assert_eq!(p.heartbeat_counters(&sh, &[3]).0, 1);
    assert_eq!(p.revoke_peer(&mut sh, PEER, 4), vec![3]);
    p.drop_peer(PEER);
    assert_eq!(p.conn_of(PEER), None);
}

#[test]
fn other_protocols_have_slots_of_their_own() {
    let mut p = pool();
    let mut sh = Shared::new();
    assert_eq!(p.get_alpn(&mut sh, PEER, b"x", OPEN, false, SEC), GetStep::Dial);
    assert_eq!(p.get_alpn(&mut sh, PEER, b"x", OPEN, false, SEC), GetStep::Wait);
    assert_eq!(p.get_alpn(&mut sh, PEER, b"y", OPEN, false, SEC), GetStep::Dial);
    assert_eq!(
        p.extra_dialed(PEER, b"x", 11, OPEN),
        DialStep::Use { conn: 11, close: None }
    );
    assert_eq!(
        p.after_extra_wait(PEER, b"x", true, WaitOutcome::Got { conn: 11 }),
        WaitStep::Ready { conn: 11 }
    );
    assert_eq!(p.get_alpn(&mut sh, PEER, b"x", OPEN, true, SEC), GetStep::Ready { conn: 11 });
    p.extra_dial_failed(&mut sh, PEER, b"y", DialFailure::Blocked, 0, SEC);
    assert!(matches!(
        p.get_alpn(&mut sh, PEER, b"y", OPEN, false, 99 * SEC),
        GetStep::Denied { .. }
    ));
    // The default protocol is the pool's own slot.
    assert!(p.is_default(b"test/alpn"));
    assert_eq!(p.get_alpn(&mut sh, PEER, b"test/alpn", OPEN, false, SEC), GetStep::Dial);
}

#[test]
fn dials_are_counted() {
    let mut sh = Shared::new();
    sh.metrics.dial_begins();
    sh.metrics.dial_begins();
    sh.metrics.dial_succeeds(30);
    sh.metrics.dial_succeeds(50);
    let s = sh.on_demand_stats();
    assert_eq!((s.reconnect_attempts, s.reconnect_success), (2, 2));
    assert_eq!((s.reconnect_latency_avg_us, s.reconnect_latency_max_us), (40, 50));
    sh.set_idle_timeout(7);
    assert_eq!(sh.idle_timeout, 7);
    assert_eq!(suppressed_message("p"), "backoff: retry to p suppressed");
    assert_eq!(buffer_full_message("p"), "on-demand buffer full for p");
    assert_eq!(timed_out_message("p"), "reconnect to p timed out");
    assert_eq!(connect_message("p", "e"), "connect to p: e");
}

#[test]
fn an_adopted_connection_is_used_though_the_peer_is_pinned() {
    let mut p = pool();
    let mut sh = Shared::new();
    let gate = Gate { allows: true, generation: 3 };
    assert_eq!(p.get(&mut sh, PEER, gate, false, SEC), GetStep::Dial);
    p.dial_failed(&mut sh, PEER, DialFailure::Blocked, 3, SEC);
    assert_eq!(
        p.get(&mut sh, PEER, gate, false, SEC),
        GetStep::Denied { fail_waiters: false }
    );
    assert!(p.adopt(PEER, 9, false, SEC).0);
    assert_eq!(p.get(&mut sh, PEER, gate, true, SEC), GetStep::Ready { conn: 9 });
    assert_eq!(p.peer_snapshot(&sh, PEER, true, SEC).state, "connected");
    // A peer that is refused has no use of it.
    let shut = Gate { allows: false, generation: 3 };
    assert!(matches!(p.get(&mut sh, PEER, shut, true, SEC), GetStep::Denied { .. }));
    // Once it is gone, the peer is not dialed before the generation moves.
    assert!(matches!(p.get(&mut sh, PEER, gate, false, SEC), GetStep::Denied { .. }));
    let moved = Gate { allows: true, generation: 4 };
    assert_eq!(p.get(&mut sh, PEER, moved, false, SEC), GetStep::Dial);
}
