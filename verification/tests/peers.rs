use tunnet_core::endpoint::EndpointId;
use tunnet_core::peers::maps::PeerIdentity;
use tunnet_core::peers::registry::PeerRegistry;
use tunnet_core::peers::transport::{
    backoff_ceiling, retuned_quantum, ConnFacts, FastSendError, Measured, PeerTransportState,
    DEFAULT_BACKOFF_MAX_US, DEFAULT_MPS, DEFAULT_QUANTUM,
};

const EP: EndpointId = (1, 2);
const EP2: EndpointId = (3, 4);
const NET_A: u128 = 0x0a0a;
const NET_B: u128 = 0x0b0b;
const IP_A: u32 = 0x0a00_0002;
const IP_B: u32 = 0x0a00_0102;

fn identity_in(endpoint: EndpointId, network: u128, ip: u32) -> PeerIdentity {
    PeerIdentity {
        endpoint,
        endpoint_hex: format!("{:032x}{:032x}", endpoint.0, endpoint.1),
        hostname: "peer".to_string(),
        ip,
        tags: vec![],
        network_id: network,
        network_name: "net".to_string(),
    }
}

fn identity(endpoint: EndpointId) -> PeerIdentity {
    identity_in(endpoint, 0, IP_A)
}

#[test]
fn registry_reuses_stable_state() {
    let mut reg = PeerRegistry::new();
    let a = reg.ensure(identity(EP), 0);
    let b = reg.ensure(identity(EP), 0);
    assert_eq!(a, b, "same stable object");
    // Identity refresh keeps the object.
    let mut id = identity(EP);
    id.hostname = "renamed".to_string();
    let c = reg.ensure(id, 0);
    assert_eq!(a, c);
    assert_eq!(reg.memberships.get(&(EP, 0)).unwrap().identity.hostname, "renamed");
}

#[test]
fn try_send_without_conn_returns_frame() {
    let mut reg = PeerRegistry::new();
    reg.ensure(identity(EP), 0);
    let mut t = reg.get_transport(EP).unwrap();
    let frame = b"frame-bytes".to_vec();
    let err = t.try_send_frame(None, frame.len()).unwrap_err();
    assert_eq!(err, FastSendError::NoConnection);
    assert_eq!(frame, b"frame-bytes", "frame must stay byte-identical");
}

#[test]
fn removal_deactivates_fast_state() {
    let mut reg = PeerRegistry::new();
    reg.ensure(identity(EP), 0);
    let epoch0 = reg.memberships.get(&(EP, 0)).unwrap().epoch;
    assert!(reg.get(EP).is_some());
    let gone = reg.remove(EP);
    assert!(reg.get(EP).is_none(), "removed peer must not resolve");
    assert!(reg.get_transport(EP).is_none(), "transport forgotten too");
    assert_eq!(gone.members.len(), 1);
    assert_eq!(gone.members[0].epoch, epoch0 + 1, "reader/pump exit signal");
    // Retain with an empty live set deactivates too.
    reg.ensure(identity(EP2), 0);
    let epoch2 = reg.memberships.get(&(EP2, 0)).unwrap().epoch;
    let gone2 = reg.retain(&[]);
    assert!(reg.get(EP2).is_none());
    assert_eq!(gone2.members[0].epoch, epoch2 + 1);
}

#[test]
fn same_endpoint_two_networks_isolated() {
    let mut reg = PeerRegistry::new();
    let a = reg.ensure_membership(identity_in(EP, NET_A, IP_A), 0);
    let b = reg.ensure_membership(identity_in(EP, NET_B, IP_B), 0);
    assert_ne!(a, b, "distinct membership objects");
    // Shared transport, distinct memberships.
    assert_eq!(reg.transports.len(), 1);
    {
        let ma = reg.memberships.get(&(EP, NET_A)).unwrap();
        let mb = reg.memberships.get(&(EP, NET_B)).unwrap();
        assert_eq!(ma.identity.network_id, NET_A);
        assert_eq!(mb.identity.network_id, NET_B);
        assert_eq!(ma.identity.ip, IP_A);
        assert_eq!(mb.identity.ip, IP_B);
    }
    // Exact resolution per (endpoint, network).
    assert_eq!(reg.get_membership(EP, NET_A), Some(a));
    assert_eq!(reg.get_membership(EP, NET_B), Some(b));
    // Bare endpoint resolve refuses to guess across networks.
    assert!(reg.get(EP).is_none(), "ambiguous endpoint must not resolve");
}

#[test]
fn same_endpoint_two_networks_reverse_order() {
    let mut reg = PeerRegistry::new();
    reg.ensure_membership(identity_in(EP, NET_B, IP_B), 0);
    let a = reg.ensure_membership(identity_in(EP, NET_A, IP_A), 0);
    assert_eq!(reg.memberships.get(&(EP, NET_A)).unwrap().identity.ip, IP_A);
    assert_eq!(reg.memberships.get(&(EP, NET_B)).unwrap().identity.ip, IP_B);
    assert_eq!(reg.get_membership(EP, NET_A), Some(a));
}

#[test]
fn removing_one_membership_leaves_sibling() {
    let mut reg = PeerRegistry::new();
    reg.ensure_membership(identity_in(EP, NET_A, IP_A), 0);
    let b = reg.ensure_membership(identity_in(EP, NET_B, IP_B), 0);
    let epoch_b = reg.memberships.get(&(EP, NET_B)).unwrap().epoch;
    let gone = reg.remove_membership(EP, NET_A);
    assert!(reg.get_membership(EP, NET_A).is_none());
    assert_eq!(gone.members[0].epoch, 1);
    // Sibling untouched: same epoch, still resolvable, transport alive.
    assert_eq!(reg.memberships.get(&(EP, NET_B)).unwrap().epoch, epoch_b);
    assert_eq!(reg.get_membership(EP, NET_B), Some(b));
    assert!(reg.get_transport(EP).is_some());
    // Endpoint-wide get() now unambiguous again.
    assert_eq!(reg.get(EP), Some(NET_B));
}

#[test]
fn backoff_bounds() {
    let mut t = PeerTransportState::new(EP, 0, 7);
    t.rtt_ms = 0;
    assert_eq!(t.backoff_for(DEFAULT_BACKOFF_MAX_US), 100);
    t.rtt_ms = 10_000;
    assert_eq!(t.backoff_for(DEFAULT_BACKOFF_MAX_US), 2000);
    t.rtt_ms = 90;
    // 90 ms gives 22.5 ms raw, clamped to the 2 ms ceiling.
    assert_eq!(t.backoff_for(DEFAULT_BACKOFF_MAX_US), 2000);
    t.rtt_ms = 4;
    // 4 ms gives 1 ms raw, inside the band.
    assert_eq!(t.backoff_for(DEFAULT_BACKOFF_MAX_US), 1000);
}

#[test]
fn fast_send_errors() {
    let mut t = PeerTransportState::new(EP, 0, 7);
    t.conn = Some(5);
    let open = ConnFacts { closed: false, max_datagram: Some(1000), space: 2000 };
    assert_eq!(t.try_send_frame(Some(open), 1000), Ok(()));
    assert_eq!(t.try_send_frame(Some(open), 1001), Err(FastSendError::TooLarge));
    assert_eq!(
        t.try_send_frame(Some(ConnFacts { space: 999, ..open }), 1000),
        Err(FastSendError::TransportFull)
    );
    assert_eq!(
        t.try_send_frame(Some(ConnFacts { closed: true, ..open }), 10),
        Err(FastSendError::NoConnection)
    );
    // A closed connection is forgotten.
    assert_eq!(t.conn, None);
    let names: Vec<&str> = [
        FastSendError::NoConnection,
        FastSendError::TransportFull,
        FastSendError::TooLarge,
        FastSendError::Closed,
    ]
    .into_iter()
    .map(|e| e.as_str())
    .collect();
    assert_eq!(names.len(), 4);
    assert!(names.iter().all(|n| !n.is_empty()));
}

#[test]
fn counters_and_path() {
    let mut reg = PeerRegistry::new();
    reg.ensure_membership(identity_in(EP, NET_A, IP_A), 5);
    assert_eq!(reg.memberships.get(&(EP, NET_A)).unwrap().quantum, DEFAULT_QUANTUM);
    assert_eq!(reg.get_transport(EP).unwrap().mps, DEFAULT_MPS);
    reg.set_transport_conn_with(EP, Some(42), Some(Measured { mps: 1400, rtt_ms: Some(30) }), 6, 9);
    let mut t = reg.get_transport(EP).unwrap();
    assert_eq!((t.conn, t.mps, t.rtt_ms, t.next_frame_id), (Some(42), 1400, 30, 9));
    assert_eq!(reg.memberships.get(&(EP, NET_A)).unwrap().quantum, 1400);
    t.sent(100, 8);
    t.record_rx(60, 9);
    // The time of the last activity is kept to the second.
    assert_eq!(t.last_activity_ms, 5);
    t.touch(1005);
    assert_eq!(t.last_activity_ms, 1005);
    reg.put_transport(t);
    assert_eq!(reg.peer_bytes(EP), (60, 100));
    assert_eq!(reg.heartbeat_counters(&[42]), (1, 100, 60));
    reg.refresh_transport_path(EP, Some(true), Some(Measured { mps: 300, rtt_ms: None }));
    assert!(reg.get_transport(EP).unwrap().relay);
    assert_eq!(reg.memberships.get(&(EP, NET_A)).unwrap().quantum, retuned_quantum(300));
    assert_eq!(retuned_quantum(300), 512);
    // The connection goes away: the memberships are deactivated.
    let epoch = reg.memberships.get(&(EP, NET_A)).unwrap().epoch;
    reg.set_conn(EP, None, None, 10);
    assert_eq!(reg.get_transport(EP).unwrap().conn, None);
    assert_eq!(reg.memberships.get(&(EP, NET_A)).unwrap().epoch, epoch + 1);
    assert_eq!(reg.reassembly_budget(), 0);
    let d = reg.clear();
    assert_eq!(d.members.len(), 1);
    assert!(!reg.has_any_membership(EP));
}

#[test]
fn endpoints_are_retained() {
    let mut reg = PeerRegistry::new();
    reg.ensure_membership(identity_in(EP, NET_A, IP_A), 0);
    reg.ensure_membership(identity_in(EP2, NET_A, IP_B), 0);
    assert!(reg.has_member(EP, NET_A));
    let gone = reg.retain_endpoints(&[EP2]);
    assert_eq!(gone.members.len(), 1);
    assert!(!reg.has_member(EP, NET_A));
    assert!(reg.has_member(EP2, NET_A));
}

#[test]
fn the_backoff_ceiling_may_be_set() {
    assert_eq!(backoff_ceiling(None), 2000);
    assert_eq!(backoff_ceiling(Some("5000")), 5000);
    assert_eq!(backoff_ceiling(Some("99")), 2000);
    assert_eq!(backoff_ceiling(Some("x")), 2000);
}

#[test]
fn deactivating_twice_is_deactivating_once() {
    let mut reg = PeerRegistry::new();
    reg.ensure(identity(EP), 0);
    let mut gone = reg.remove(EP);
    let m = &mut gone.members[0];
    let epoch = m.epoch;
    assert!(!m.active);
    // Removal has deactivated it: once more changes nothing.
    m.deactivate();
    m.deactivate();
    assert_eq!(m.epoch, epoch);
    assert!(!m.active);
    m.active = true;
    m.deactivate();
    m.deactivate();
    assert_eq!(m.epoch, epoch + 1);
}
