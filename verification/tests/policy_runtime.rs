use tunnet_core::peers::maps::PeerIdentity;
use tunnet_core::peers::registry::PeerRegistry;
use tunnet_core::policy::canon::canon_key;
use tunnet_core::policy::firewall::{
    compile_fw_rules, FirewallAction, FirewallDirection, FirewallRule, PeerFilter, PolicyVerdict,
};
use tunnet_core::policy::fragments::FRAGMENT_TTL;
use tunnet_core::policy::judge::{Clock, PeerFacts};
use tunnet_core::policy::meta::{proto_num, Addr, Fragmentation, PacketMeta, Transport};
use tunnet_core::policy::ports::merge_ports;
use tunnet_core::policy::rules::{
    Action, Cidr, Direction, IcmpPolicy, PolicyBundle, PolicyRule, PortRange, Protocol, RuleScope,
    Selector, SelfIdentity,
};
use tunnet_core::policy::runtime::PolicyRuntime;
use tunnet_core::policy::slots::FwSource;
use tunnet_core::table::Table;

const ME: u32 = 0x0a00_0001;
const OTHER: u32 = 0x0a00_0002;
const SEC: u64 = 1_000_000_000;
const NIL: u128 = 0;

fn self_id() -> SelfIdentity {
    SelfIdentity {
        endpoint_hex: "aa".to_string(),
        ip: ME,
        tags: vec![],
        network: "net".to_string(),
    }
}

fn at(sec: u64) -> Clock {
    Clock { now: 100 * SEC + sec * SEC, now_ms: 100_000 + sec * 1000, unix: 100 + sec as i64 }
}

fn source(local: Vec<FirewallRule>, suggested: Vec<FirewallRule>, enabled: bool) -> FwSource {
    FwSource { local, suggested, enabled }
}

fn runtime(bundle: PolicyBundle, fw: Vec<(u128, FwSource)>) -> PolicyRuntime {
    let mut t = Table::new();
    for (n, s) in fw {
        t.insert(n, s);
    }
    PolicyRuntime::bootstrap(bundle, t, self_id(), true, false)
}

fn harness(bundle: PolicyBundle, fw_enabled: bool) -> PolicyRuntime {
    runtime(bundle, vec![(NIL, source(vec![], vec![], fw_enabled))])
}

fn check_as(
    rt: &mut PolicyRuntime,
    m: &PacketMeta,
    direction: Direction,
    peer: &str,
    net: Option<u128>,
    c: Clock,
) -> PolicyVerdict {
    let slot = rt.slot_for_network(net.unwrap_or(NIL));
    let facts = PeerFacts { hex: peer, tags: &[], hostname: None, network: net };
    rt.check(m, direction, &facts, slot, c)
}

fn check_out(rt: &mut PolicyRuntime, m: &PacketMeta) -> PolicyVerdict {
    check_as(rt, m, Direction::Outbound, "bb", None, at(0))
}

fn check_in(rt: &mut PolicyRuntime, m: &PacketMeta) -> PolicyVerdict {
    check_as(rt, m, Direction::Inbound, "bb", None, at(0))
}

fn check_in_slot(rt: &mut PolicyRuntime, m: &PacketMeta, net: u128, d: Direction) -> PolicyVerdict {
    check_as(rt, m, d, "bb", Some(net), at(0))
}

fn meta(src: u32, dst: u32, proto: u8, f: Fragmentation, transport: Transport) -> PacketMeta {
    PacketMeta {
        src: Addr::V4(src),
        dst: Addr::V4(dst),
        proto,
        src_v4: Some(src),
        dst_v4: Some(dst),
        fragmentation: f,
        transport,
    }
}

fn meta_tcp_ports(sport: u16, dport: u16) -> PacketMeta {
    // A segment without flags.
    meta(
        ME,
        OTHER,
        6,
        Fragmentation::Whole,
        Transport::Tcp { src_port: sport, dst_port: dport, flags: 0 },
    )
}

fn meta_tcp(dport: u16) -> PacketMeta {
    meta_tcp_ports(40000, dport)
}

fn meta_udp(sport: u16, dport: u16) -> PacketMeta {
    meta(
        ME,
        OTHER,
        17,
        Fragmentation::Whole,
        Transport::Udp { src_port: sport, dst_port: dport },
    )
}

fn rule(action: Action, ports: Vec<PortRange>, protocol: Option<Protocol>) -> PolicyRule {
    PolicyRule {
        src: Selector::Any,
        dst: Selector::Any,
        action,
        ports,
        protocol,
        priority: 0,
        order_index: 0,
        scope: RuleScope::Network,
        enabled: true,
        slug: None,
        src_posture: vec![],
    }
}

fn deny_port(port: u16) -> PolicyBundle {
    PolicyBundle {
        rules: vec![rule(
            Action::Deny,
            vec![PortRange { start: port, end: port }],
            Some(Protocol::Tcp),
        )],
        ..PolicyBundle::open()
    }
}

#[test]
fn open_bundle_allows_and_establishes() {
    let mut p = harness(PolicyBundle::open(), false);
    let m = meta_tcp(80);
    assert_eq!(check_out(&mut p, &m), PolicyVerdict::Allow);
    // Second packet of the same flow: single conntrack hit.
    assert_eq!(check_out(&mut p, &m), PolicyVerdict::Allow);
    assert_eq!(p.conntrack_len(), 1);
}

#[test]
fn deny_rule_matches_legacy_semantics() {
    let mut p = harness(deny_port(22), false);
    assert_eq!(check_out(&mut p, &meta_tcp(22)), PolicyVerdict::Deny);
    assert_eq!(check_out(&mut p, &meta_tcp(80)), PolicyVerdict::Allow);
    // The denial is on record.
    let d = p.recent_denies();
    assert_eq!(d.len(), 1);
    assert_eq!(d[0].dst_port, Some(22));
    assert_eq!(d[0].peer_endpoint, "bb");
}

#[test]
fn later_fragment_without_state_denied() {
    let mut p = harness(PolicyBundle::open(), false);
    let m = meta(
        ME,
        OTHER,
        17,
        Fragmentation::Later { identification: 0 },
        Transport::LaterFragment,
    );
    assert!(m.is_later_fragment());
    assert_eq!(check_out(&mut p, &m), PolicyVerdict::Deny);
}

#[test]
fn differential_matrix_matches_legacy() {
    let bundle = PolicyBundle {
        rules: vec![
            PolicyRule {
                src: Selector::Tag("admin".to_string()),
                order_index: 5,
                enabled: false,
                slug: Some("disabled".to_string()),
                ..rule(Action::Allow, vec![], None)
            },
            PolicyRule {
                order_index: 1,
                scope: RuleScope::Organization,
                slug: Some("org-deny-range".to_string()),
                ..rule(
                    Action::Deny,
                    vec![
                        PortRange { start: 8000, end: 8010 },
                        PortRange { start: 8005, end: 8020 },
                    ],
                    Some(Protocol::Tcp),
                )
            },
            PolicyRule {
                slug: Some("net-allow-wide".to_string()),
                ..rule(
                    Action::Allow,
                    vec![PortRange { start: 8000, end: 9000 }],
                    Some(Protocol::Tcp),
                )
            },
        ],
        default_action: Action::Deny,
        ..PolicyBundle::open()
    };
    let mut p = harness(bundle, false);
    // Org deny (merged 8000-8020) beats network allow despite higher order.
    for port in [8000, 8015, 8020] {
        assert_eq!(check_out(&mut p, &meta_tcp(port)), PolicyVerdict::Deny, "port {port}");
    }
    // Outside the org-deny range but inside the network allow range, the network allow wins.
    for port in [8021, 8500] {
        assert_eq!(check_out(&mut p, &meta_tcp(port)), PolicyVerdict::Allow, "port {port}");
    }
    // Outside every range the restrictive default applies.
    assert_eq!(check_out(&mut p, &meta_tcp(7999)), PolicyVerdict::Deny);
    // UDP to the same port is not matched by TCP-only rules: default deny.
    assert_eq!(check_out(&mut p, &meta_udp(40000, 8010)), PolicyVerdict::Deny);
}

#[test]
fn first_fragment_allows_later_fragment() {
    let mut p = harness(PolicyBundle::open(), false);
    let first = meta(
        ME,
        OTHER,
        17,
        Fragmentation::First { identification: 9 },
        Transport::Udp { src_port: 40000, dst_port: 443 },
    );
    assert_eq!(check_out(&mut p, &first), PolicyVerdict::Allow);
    // Later fragment of the same datagram now resolves via cached state.
    let later = |id: u32| {
        meta(
            ME,
            OTHER,
            17,
            Fragmentation::Later { identification: id },
            Transport::LaterFragment,
        )
    };
    assert_eq!(check_out(&mut p, &later(9)), PolicyVerdict::Allow);
    assert_eq!(check_out(&mut p, &later(10)), PolicyVerdict::Deny);
    // The state is forgotten after a while.
    let late = at(1 + FRAGMENT_TTL / SEC);
    assert_eq!(
        check_as(&mut p, &later(9), Direction::Outbound, "bb", None, late),
        PolicyVerdict::Deny
    );
}

#[test]
fn malformed_packets_denied() {
    // A packet whose headers policy cannot read never reaches the transport.
    let mut p = harness(PolicyBundle::open(), false);
    let m = meta(ME, OTHER, 6, Fragmentation::Whole, Transport::LaterFragment);
    assert_eq!(check_out(&mut p, &m), PolicyVerdict::Deny);
    let mut v6 = meta_tcp(80);
    v6.src = Addr::V6(1);
    v6.src_v4 = None;
    assert_eq!(check_out(&mut p, &v6), PolicyVerdict::Deny);
}

#[test]
fn conntrack_is_shared_bidirectionally() {
    let mut p = harness(PolicyBundle::open(), true);
    assert_eq!(check_out(&mut p, &meta_tcp(443)), PolicyVerdict::Allow);
    assert_eq!(p.conntrack_len(), 1);
    // Reply direction: src/dst swapped, same 5-tuple.
    let reply = meta(
        OTHER,
        ME,
        6,
        Fragmentation::Whole,
        Transport::Tcp { src_port: 443, dst_port: 40000, flags: 0 },
    );
    assert_eq!(check_in(&mut p, &reply), PolicyVerdict::Allow);
    assert_eq!(p.conntrack_len(), 1, "same canonical entry both ways");
}

#[test]
fn revocation_tcp_allow_to_deny() {
    let mut p = harness(PolicyBundle::open(), false);
    let m = meta_tcp(80);
    assert_eq!(check_out(&mut p, &m), PolicyVerdict::Allow);
    assert_eq!(p.conntrack_len(), 1);
    p.publish_acl(deny_port(80), self_id(), true, false);
    // Next packet of the SAME flow revalidates and is denied.
    assert_eq!(check_out(&mut p, &m), PolicyVerdict::Deny);
    // And a fresh flow is denied too.
    assert_eq!(check_out(&mut p, &meta_tcp(80)), PolicyVerdict::Deny);
}

#[test]
fn revocation_udp_allow_to_deny() {
    let mut p = harness(PolicyBundle::open(), false);
    let m = meta_udp(40000, 53);
    assert_eq!(check_out(&mut p, &m), PolicyVerdict::Allow);
    let deny_udp = PolicyBundle {
        rules: vec![rule(Action::Deny, vec![], Some(Protocol::Udp))],
        ..PolicyBundle::open()
    };
    p.publish_acl(deny_udp, self_id(), true, false);
    assert_eq!(check_out(&mut p, &m), PolicyVerdict::Deny);
}

fn fw_rule(direction: FirewallDirection, protocol: Protocol, peer: PeerFilter) -> FirewallRule {
    FirewallRule { direction, action: FirewallAction::Deny, protocol, ports: vec![], peer }
}

fn deny_inbound() -> FirewallRule {
    fw_rule(FirewallDirection::In, Protocol::Any, PeerFilter::Any)
}

fn deny_out() -> FirewallRule {
    fw_rule(FirewallDirection::Out, Protocol::Tcp, PeerFilter::Any)
}

#[test]
fn revocation_suggested_rule_change() {
    let mut rt = harness(PolicyBundle::open(), true);
    // Pin the slot before any publish.
    let slot = rt.slot_for_network(NIL);
    let m = meta_tcp(443);
    let facts = PeerFacts { hex: "bb", tags: &[], hostname: None, network: Some(NIL) };
    assert_eq!(rt.check(&m, Direction::Outbound, &facts, slot, at(0)), PolicyVerdict::Allow);
    rt.publish_firewall(NIL, source(vec![deny_inbound()], vec![], true));
    // Same slot, no re-fetch: the new rules are visible.
    assert_eq!(rt.check(&m, Direction::Inbound, &facts, slot, at(0)), PolicyVerdict::Deny);
    assert_eq!(rt.slot_for_network(NIL), slot);
}

#[test]
fn revocation_firewall_disabled_then_deny() {
    let mut rt = harness(PolicyBundle::open(), false);
    let m = meta_tcp(443);
    assert_eq!(check_in_slot(&mut rt, &m, NIL, Direction::Inbound), PolicyVerdict::Allow);
    rt.publish_firewall(NIL, source(vec![deny_inbound()], vec![], true));
    assert_eq!(check_in_slot(&mut rt, &m, NIL, Direction::Inbound), PolicyVerdict::Deny);
    // And disabling again admits without clearing unrelated state.
    rt.publish_firewall(NIL, source(vec![], vec![], false));
    assert_eq!(check_in_slot(&mut rt, &m, NIL, Direction::Inbound), PolicyVerdict::Allow);
}

#[test]
fn live_fast_state_observes_publication() {
    let net = 0x21u128;
    let mut rt = runtime(PolicyBundle::open(), vec![(net, source(vec![], vec![], true))]);
    let mut reg = PeerRegistry::new();
    let ep = (4, 5);
    reg.ensure(
        PeerIdentity {
            endpoint: ep,
            endpoint_hex: "bb".to_string(),
            hostname: "peer".to_string(),
            ip: OTHER,
            tags: vec![],
            network_id: net,
            network_name: "net".to_string(),
        },
        0,
    );
    // Install-time assignment only.
    reg.relink_policy(&mut rt);
    let slot = reg.memberships.get(&(ep, net)).unwrap().policy.unwrap();
    let check_live = |rt: &mut PolicyRuntime, m: &PacketMeta| {
        let facts = PeerFacts { hex: "bb", tags: &[], hostname: None, network: Some(net) };
        rt.check(m, Direction::Inbound, &facts, slot, at(0))
    };
    // Establish a flow through the live state.
    let m = meta_tcp(443);
    assert_eq!(check_live(&mut rt, &m), PolicyVerdict::Allow);
    // Local deny rule published: established flow revoked, no relink.
    rt.publish_firewall(net, source(vec![deny_inbound()], vec![], true));
    assert_eq!(check_live(&mut rt, &m), PolicyVerdict::Deny);
    // Back to allow via empty rules.
    rt.publish_firewall(net, source(vec![], vec![], true));
    let m2 = meta_tcp_ports(40001, 443);
    assert_eq!(check_live(&mut rt, &m2), PolicyVerdict::Allow);
    // Suggested deny published: revoked again.
    rt.publish_firewall(net, source(vec![], vec![deny_inbound()], true));
    assert_eq!(check_live(&mut rt, &m2), PolicyVerdict::Deny);
    // Counters stayed stable across all publishes.
    let c = rt.fw_counters_for(net);
    assert!(c.denied > 0);
    assert!(c.allowed > 0);
}

#[test]
fn publication_is_atomic_under_concurrency() {
    // Publications alternate with readings of one flow: a verdict at a generation that
    // denies is a denial.
    let mut rt = harness(PolicyBundle::open(), false);
    let m = meta_tcp(80);
    assert_eq!(check_out(&mut rt, &m), PolicyVerdict::Allow);
    let slot = rt.slot_for_network(NIL);
    let facts = PeerFacts { hex: "bb", tags: &[], hostname: None, network: None };
    let mut deny_gens = Vec::new();
    let mut gens = Vec::new();
    for i in 0..200 {
        let deny = i % 2 == 0;
        let g = if deny {
            rt.publish_acl(deny_port(80), self_id(), true, false)
        } else {
            rt.publish_acl(PolicyBundle::open(), self_id(), true, false)
        };
        assert_eq!(g, rt.generation());
        if deny {
            deny_gens.push(g);
        }
        for _ in 0..4 {
            let (v, g, _) = rt.check_with_generation(&m, Direction::Outbound, &facts, slot, at(0));
            let want = if deny_gens.contains(&g) { PolicyVerdict::Deny } else { PolicyVerdict::Allow };
            assert_eq!(v, want, "torn publication at generation {g}");
            gens.push(g);
        }
    }
    gens.dedup();
    for w in gens.windows(2) {
        assert!(w[1] > w[0], "generations must be distinct per publish");
    }
}

#[test]
fn firewall_publication_is_atomic_under_concurrency() {
    let net = 0x22u128;
    let mut rt = runtime(PolicyBundle::open(), vec![(net, source(vec![], vec![], true))]);
    let m = meta_tcp(80);
    let slot = rt.slot_for_network(net);
    let facts = PeerFacts { hex: "bb", tags: &[], hostname: None, network: Some(net) };
    assert_eq!(rt.check(&m, Direction::Outbound, &facts, slot, at(0)), PolicyVerdict::Allow);
    let mut deny_gens = Vec::new();
    let mut allow_gens = Vec::new();
    let (mut saw_deny, mut saw_allow) = (0, 0);
    for i in 0..200 {
        // Alternate local and suggested denies with allows.
        let src = match i % 4 {
            0 => source(vec![deny_out()], vec![], true),
            2 => source(vec![], vec![deny_out()], true),
            _ => source(vec![], vec![], true),
        };
        rt.publish_firewall(net, src);
        let g = rt.slots.all[slot].snapshot.generation;
        if i % 2 == 0 {
            deny_gens.push(g);
        } else {
            allow_gens.push(g);
        }
        let (v, _, fg) = rt.check_with_generation(&m, Direction::Outbound, &facts, slot, at(0));
        if deny_gens.contains(&fg) {
            saw_deny += 1;
            assert_eq!(v, PolicyVerdict::Deny, "old firewall admitted (fw_gen={fg})");
        } else if allow_gens.contains(&fg) {
            saw_allow += 1;
            assert_eq!(v, PolicyVerdict::Allow, "re-allow failed to re-admit (fw_gen={fg})");
        }
    }
    assert!(saw_deny > 0 && saw_allow > 0, "must observe both phases");
}

#[test]
fn concurrent_publishers_lose_no_updates() {
    let net = 0x23u128;
    let mut rt = runtime(PolicyBundle::open(), vec![(net, source(vec![], vec![], true))]);
    let m = meta_tcp(80);
    assert_eq!(check_in_slot(&mut rt, &m, net, Direction::Outbound), PolicyVerdict::Allow);
    let total = 1600u64;
    let mut log: Vec<(u64, u64, u16)> = Vec::new();
    let mut last_seen = 0;
    for s in 0..total {
        let port = 9000 + (s % 500) as u16;
        let kind = s % 2;
        let committed = if kind == 0 {
            rt.publish_acl(deny_port(port), self_id(), true, false)
        } else {
            let mut r = deny_out();
            r.ports = vec![PortRange { start: port, end: port }];
            rt.publish_firewall(net, source(vec![r], vec![], true))
        };
        log.push((committed, kind, port));
        assert!(rt.generation() >= last_seen, "generation regressed");
        last_seen = rt.generation();
    }
    assert_eq!(rt.generation(), 1 + total);
    let mut gens: Vec<u64> = log.iter().map(|l| l.0).collect();
    gens.sort();
    gens.dedup();
    assert_eq!(gens.len() as u64, total, "every publish committed distinctly");
    assert_eq!(gens[0], 2);
    assert_eq!(gens[gens.len() - 1], 1 + total);
    // The last of either kind is in force.
    let acl_port = log.iter().rev().find(|l| l.1 == 0).unwrap().2;
    assert!(rt.acl_source.rules[0].ports[0].start == acl_port);
    let (fw_gen, _, fw_port) = *log.iter().rev().find(|l| l.1 == 1).unwrap();
    let at_net = rt.slot_for_network(net);
    let snap = &rt.slots.all[at_net].snapshot;
    assert_eq!(snap.generation, fw_gen);
    assert!(snap.set.rules.iter().any(|r| r.ports.contains(&(fw_port, fw_port))));
    rt.publish_acl(PolicyBundle::open(), self_id(), true, false);
    rt.publish_firewall(net, source(vec![], vec![], true));
    assert_eq!(check_in_slot(&mut rt, &m, net, Direction::Outbound), PolicyVerdict::Allow);
}

#[test]
fn conntrack_is_network_scoped() {
    let (a, b) = (0x0au128, 0x0bu128);
    let mut rt = runtime(
        PolicyBundle::open(),
        vec![(a, source(vec![], vec![], true)), (b, source(vec![], vec![], true))],
    );
    let m = meta_tcp_ports(40000, 443);
    let out = Direction::Outbound;
    assert_eq!(check_in_slot(&mut rt, &m, a, out), PolicyVerdict::Allow);
    assert_eq!(rt.conntrack_len(), 1);
    // Same 5-tuple under B: full evaluation, second entry.
    assert_eq!(check_in_slot(&mut rt, &m, b, out), PolicyVerdict::Allow);
    assert_eq!(rt.conntrack_len(), 2, "one entry per network");
    // Deny in B only: B revokes, A keeps working.
    rt.publish_firewall(b, source(vec![deny_out()], vec![], true));
    assert_eq!(check_in_slot(&mut rt, &m, b, out), PolicyVerdict::Deny);
    assert_eq!(check_in_slot(&mut rt, &m, a, out), PolicyVerdict::Allow);
}

#[test]
fn cross_network_firewall_isolation() {
    let (a, b) = (0x0au128, 0x0bu128);
    let a_rule = fw_rule(FirewallDirection::In, Protocol::Tcp, PeerFilter::Any);
    let a_ep_rule = fw_rule(
        FirewallDirection::Out,
        Protocol::Tcp,
        PeerFilter::Endpoint("cc".to_string()),
    );
    let mut rt = runtime(
        PolicyBundle::open(),
        vec![
            (a, source(vec![a_rule, a_ep_rule], vec![], true)),
            (b, source(vec![], vec![], true)),
        ],
    );
    let m_in = meta_tcp_ports(40000, 443);
    let m_out_cc = meta_tcp_ports(40002, 443);
    let m_out_bb = meta_tcp_ports(40004, 443);
    let mut check =
        |m: &PacketMeta, d: Direction, peer: &str, net: u128| check_as(&mut rt, m, d, peer, Some(net), at(0));
    // A denies inbound; B allows the identical packet.
    assert_eq!(check(&m_in, Direction::Inbound, "bb", a), PolicyVerdict::Deny);
    assert_eq!(check(&m_in, Direction::Inbound, "bb", b), PolicyVerdict::Allow);
    // Endpoint-scoped rule in A denies peer "cc" outbound under A...
    assert_eq!(check(&m_out_cc, Direction::Outbound, "cc", a), PolicyVerdict::Deny);
    // ...but not under B, and not for other peers under A.
    assert_eq!(check(&m_out_cc, Direction::Outbound, "cc", b), PolicyVerdict::Allow);
    assert_eq!(check(&m_out_bb, Direction::Outbound, "bb", a), PolicyVerdict::Allow);
}

#[test]
fn disabled_network_does_not_disable_others() {
    let (a, b) = (0x0au128, 0x0bu128);
    let mut rt = runtime(
        PolicyBundle::open(),
        vec![(a, source(vec![], vec![], false)), (b, source(vec![], vec![], true))],
    );
    assert!(!rt.fw_for_network(a).enabled);
    assert!(rt.fw_for_network(b).enabled);
    assert_eq!(check_in_slot(&mut rt, &meta_tcp(443), b, Direction::Inbound), PolicyVerdict::Allow);
}

#[test]
fn flows_lapse() {
    let mut rt = harness(PolicyBundle::open(), false);
    assert_eq!(check_out(&mut rt, &meta_udp(1, 53)), PolicyVerdict::Allow);
    assert_eq!(rt.conntrack_len(), 1);
    rt.sweep(at(10));
    assert_eq!(rt.conntrack_len(), 1);
    rt.sweep(at(60));
    assert_eq!(rt.conntrack_len(), 0);
    let g = rt.generation();
    assert_eq!(rt.invalidate(), g + 1);
    assert_eq!(rt.self_ip(), ME);
}

#[test]
fn canonical_keys_are_symmetric() {
    let k = canon_key(3, Protocol::Tcp, ME, OTHER, Some(40000), Some(443));
    assert!(k.is_some());
    assert_eq!(k, canon_key(3, Protocol::Tcp, OTHER, ME, Some(443), Some(40000)));
    assert_ne!(k, canon_key(4, Protocol::Tcp, ME, OTHER, Some(40000), Some(443)));
    assert_eq!(proto_num(Protocol::Tcp), Some(6));
    assert_eq!(proto_num(Protocol::Any), None);
}

#[test]
fn ports_are_merged() {
    let r = |start: u16, end: u16| PortRange { start, end };
    assert_eq!(
        merge_ports(&[r(10, 20), r(1, 3), r(15, 30), r(4, 5)]),
        vec![(1, 5), (10, 30)]
    );
    assert_eq!(merge_ports(&[]), vec![]);
}

#[test]
fn firewall_rules_name_networks() {
    let id = "00000000-0000-0000-0000-00000000000b".to_string();
    let rules = compile_fw_rules(
        &[fw_rule(FirewallDirection::In, Protocol::Any, PeerFilter::NetworkId(id))],
        &[fw_rule(FirewallDirection::In, Protocol::Any, PeerFilter::Hostname("h".to_string()))],
    );
    assert_eq!(rules[0].peer_network, Some(0x0b));
    assert_eq!(rules[1].peer_hostname.as_deref(), Some("h"));
}

#[test]
fn selectors_and_protocols() {
    let bundle = PolicyBundle {
        rules: vec![PolicyRule {
            dst: Selector::Cidr(Cidr::V4 { addr: 0x0a00_0000, prefix: 24 }),
            ..rule(Action::Deny, vec![], Some(Protocol::Icmp))
        }],
        icmp_policy: IcmpPolicy::Acl,
        ..PolicyBundle::open()
    };
    let icmp = |dst: u32| {
        meta(
            ME,
            dst,
            1,
            Fragmentation::Whole,
            Transport::Icmpv4 { type_u8: 8, code: 0, echo_id: Some(1), echo_seq: Some(1) },
        )
    };
    let mut rt = harness(bundle, false);
    assert_eq!(check_out(&mut rt, &icmp(OTHER)), PolicyVerdict::Deny);
    assert_eq!(check_out(&mut rt, &icmp(0x0b00_0001)), PolicyVerdict::Allow);
    assert_eq!(check_out(&mut rt, &meta_tcp(80)), PolicyVerdict::Allow);
}

#[test]
fn local_rules_come_first() {
    let mut allow = deny_out();
    allow.action = FirewallAction::Allow;
    let mut rt = runtime(
        PolicyBundle::open(),
        vec![(NIL, source(vec![allow], vec![deny_out()], true))],
    );
    assert_eq!(check_out(&mut rt, &meta_tcp(80)), PolicyVerdict::Allow);
    let mut rt = runtime(PolicyBundle::open(), vec![(NIL, source(vec![], vec![deny_out()], true))]);
    assert_eq!(check_out(&mut rt, &meta_tcp(80)), PolicyVerdict::Deny);
}

#[test]
fn an_outage_opens_only_open_networks() {
    let icmp = meta(
        ME,
        OTHER,
        1,
        Fragmentation::Whole,
        Transport::Icmpv4 { type_u8: 8, code: 0, echo_id: Some(1), echo_seq: Some(1) },
    );
    let no_icmp = |rules: Vec<PolicyRule>| PolicyBundle {
        rules,
        icmp_policy: IcmpPolicy::Deny,
        ..PolicyBundle::open()
    };
    let mut rt = harness(no_icmp(vec![]), false);
    assert_eq!(check_out(&mut rt, &icmp), PolicyVerdict::Deny);
    // The control plane is out of reach.
    rt.publish_acl(no_icmp(vec![]), self_id(), true, true);
    assert_eq!(check_out(&mut rt, &icmp), PolicyVerdict::Allow);
    rt.publish_acl(no_icmp(vec![rule(Action::Allow, vec![], None)]), self_id(), true, true);
    assert_eq!(check_out(&mut rt, &icmp), PolicyVerdict::Deny);
}

#[test]
fn compiled_ports_are_separate() {
    let mut rule = deny_inbound();
    rule.ports = vec![
        PortRange { start: 10, end: 20 },
        PortRange { start: 21, end: 30 },
        PortRange { start: 40, end: 50 },
        PortRange { start: 15, end: 17 },
    ];
    let rules = compile_fw_rules(&[rule], &[deny_out()]);
    assert_eq!(rules.len(), 2);
    assert_eq!(rules[0].ports, vec![(10, 30), (40, 50)]);
    assert!(rules[1].ports.is_empty());
}
