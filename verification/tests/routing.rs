use tunnet_core::ip::{ip_str, parse_ip};
use tunnet_core::routing::table::RoutingTable;
use tunnet_core::routing::types::{
    DeviceProfile, DnsConfig, ExitNodeInfo, HostnameRoute, Ipv4Net, PeerEntry, SplitTunnelMode,
    SubnetRoute, MAGIC_IP,
};

fn ip(s: &str) -> u32 {
    parse_ip(s).unwrap()
}

fn net(s: &str) -> Ipv4Net {
    let (a, p) = s.split_once('/').unwrap();
    Ipv4Net { addr: ip(a), prefix: p.parse().unwrap() }
}

fn peer(endpoint: &str, addr: &str, hostname: &str) -> PeerEntry {
    PeerEntry {
        ip: ip(addr),
        endpoint_id: endpoint.to_string(),
        hostname: hostname.to_string(),
        tags: vec![],
        ssh_host_key: None,
    }
}

fn dns() -> DnsConfig {
    DnsConfig { suffix: "tunnet".to_string(), magic_ip: MAGIC_IP }
}

fn profile() -> DeviceProfile {
    DeviceProfile { exit_node_endpoint_id: None, split_tunnel_mode: SplitTunnelMode::Off }
}

fn subnet(cidr: &str, via: &str, via_ip: &str) -> SubnetRoute {
    SubnetRoute { cidr: net(cidr), via_endpoint_id: via.to_string(), via_ip: ip(via_ip) }
}

fn hostname_route(name: &str, via: &str, wildcard: bool, target: Option<&str>) -> HostnameRoute {
    HostnameRoute {
        hostname: name.to_string(),
        via_endpoint_id: via.to_string(),
        via_ip: ip("10.7.0.5"),
        is_wildcard: wildcard,
        target_ip: target.map(ip),
    }
}

fn table(
    peers: Vec<PeerEntry>,
    subnets: Vec<SubnetRoute>,
    hostnames: Vec<HostnameRoute>,
    network: &str,
) -> RoutingTable {
    let mut t = RoutingTable::new();
    t.replace(
        peers,
        subnets,
        hostnames,
        vec![],
        profile(),
        dns(),
        network,
        0,
        &"a".repeat(64),
        1,
    );
    t
}

#[test]
fn lookup_prefers_direct_peer_over_subnet() {
    let gateway = "b".repeat(64);
    let t = table(
        vec![peer(&gateway, "10.7.0.5", "gw")],
        vec![subnet("10.0.0.0/24", &gateway, "10.7.0.5")],
        vec![],
        "office",
    );
    let found = t.lookup_ip(ip("10.0.0.100")).unwrap();
    assert_eq!(found.endpoint_hex, gateway);
}

#[test]
fn longest_prefix_match() {
    let gw_wide = "b".repeat(64);
    let gw_narrow = "c".repeat(64);
    let t = table(
        vec![peer(&gw_wide, "10.7.0.5", "wide"), peer(&gw_narrow, "10.7.0.6", "narrow")],
        vec![
            subnet("10.0.0.0/16", &gw_wide, "10.7.0.5"),
            subnet("10.0.1.0/24", &gw_narrow, "10.7.0.6"),
        ],
        vec![],
        "office",
    );
    assert_eq!(t.lookup_ip(ip("10.0.1.50")).unwrap().endpoint_hex, gw_narrow);
    assert_eq!(t.lookup_ip(ip("10.0.2.50")).unwrap().endpoint_hex, gw_wide);
}

#[test]
fn advertised_subnets_excluded_from_remote_lookup() {
    let t = table(
        vec![],
        vec![subnet("10.0.0.0/24", &"a".repeat(64), "10.7.0.1")],
        vec![],
        "office",
    );
    assert!(t.lookup_ip(ip("10.0.0.100")).is_none());
    assert!(t.is_advertised_destination(ip("10.0.0.100")));
    assert_eq!(t.advertised_subnets().len(), 1);
}

#[test]
fn hostname_route_exact_and_wildcard() {
    let gw = "b".repeat(64);
    let t = table(
        vec![peer(&gw, "10.7.0.5", "gw")],
        vec![],
        vec![
            hostname_route("wiki.internal", &gw, false, Some("10.0.0.50")),
            hostname_route("internal", &gw, true, None),
        ],
        "office",
    );
    let exact = t.lookup_hostname_route("wiki.internal").unwrap();
    assert!(!exact.is_wildcard);
    assert_eq!(exact.target_ip, Some(ip("10.0.0.50")));
    let wild = t.lookup_hostname("api.internal").unwrap();
    assert_eq!(wild.endpoint_hex, gw);
    assert!(t.lookup_hostname_route("other.com").is_none());
}

#[test]
fn peer_dns_resolves_self() {
    let self_ip = ip("10.7.0.3");
    let t = table(
        vec![peer(&"a".repeat(64), "10.7.0.3", "desktop-t85djls")],
        vec![],
        vec![],
        "default",
    );
    assert_eq!(t.resolve_dns_a("desktop-t85djls.tunnet"), Some(self_ip));
    assert_eq!(t.resolve_dns_a("desktop-t85djls.default.tunnet"), Some(self_ip));
    assert_eq!(
        t.resolve_dns_ptr(self_ip).as_deref(),
        Some("desktop-t85djls.default.tunnet")
    );
}

#[test]
fn peer_dns_resolves_peer_and_hostname_route() {
    let gw = "b".repeat(64);
    let mut t = table(
        vec![peer(&gw, "10.7.0.5", "db-server")],
        vec![],
        vec![hostname_route("wiki.internal", &gw, false, None)],
        "office",
    );
    assert_eq!(t.resolve_dns_a("db-server.tunnet"), Some(ip("10.7.0.5")));
    assert_eq!(t.resolve_dns_a("db-server.office.tunnet"), Some(ip("10.7.0.5")));
    let synth = t.resolve_dns_a("wiki.internal.tunnet").unwrap();
    t.remember_dns_synth("wiki.internal.tunnet", synth);
    assert_eq!(synth >> 24, 100);
    assert_eq!((synth >> 16) & 0xff, 100);
    assert_eq!(t.lookup_ip(synth).unwrap().endpoint_hex, gw);
}

#[test]
fn apply_peer_delta_add_and_remove() {
    let self_id = "a".repeat(64);
    let peer_a = "b".repeat(64);
    let peer_b = "c".repeat(64);
    let mut t = table(vec![peer(&peer_a, "10.7.0.5", "alice")], vec![], vec![], "office");
    assert!(t.lookup_endpoint(&peer_a).is_some());
    assert!(t.lookup_endpoint(&peer_b).is_none());

    t.apply_peer_delta(0, vec![peer(&peer_b, "10.7.0.6", "bob")], &[], 2, &self_id, "office");
    assert_eq!(t.version(), 2);
    assert!(t.lookup_endpoint(&peer_b).is_some());

    t.apply_peer_delta(0, vec![], &[peer_a.clone()], 3, &self_id, "office");
    assert_eq!(t.version(), 3);
    assert!(t.lookup_endpoint(&peer_a).is_none());
    assert!(t.lookup_endpoint(&peer_b).is_some());
}

#[test]
fn dynamic_synth_survives_rebuild() {
    let self_id = "a".repeat(64);
    let gw = "b".repeat(64);
    let mut t = table(
        vec![peer(&gw, "10.7.0.5", "gw")],
        vec![],
        vec![hostname_route("internal", &gw, true, None)],
        "office",
    );
    let synth = t.resolve_dns_a("api.internal.tunnet").unwrap();
    t.remember_dns_synth("api.internal.tunnet", synth);
    assert_eq!(t.lookup_ip(synth).unwrap().endpoint_hex, gw);

    // Rebuild via peer delta must keep dynamic_synth.
    t.apply_peer_delta(
        0,
        vec![peer(&"d".repeat(64), "10.7.0.7", "dave")],
        &[],
        2,
        &self_id,
        "office",
    );
    assert_eq!(t.lookup_ip(synth).unwrap().endpoint_hex, gw);
}

#[test]
fn exit_node_catches_internet_traffic() {
    let exit = "b".repeat(64);
    let mut t = RoutingTable::new();
    t.replace(
        vec![peer(&exit, "10.7.0.5", "exit")],
        vec![],
        vec![],
        vec![ExitNodeInfo {
            endpoint_id: exit.clone(),
            via_ip: ip("10.7.0.5"),
            allowed_cidrs: vec![net("0.0.0.0/0")],
        }],
        DeviceProfile {
            exit_node_endpoint_id: Some(exit.clone()),
            split_tunnel_mode: SplitTunnelMode::Exclude,
        },
        dns(),
        "office",
        0,
        &"a".repeat(64),
        1,
    );
    let found = t.lookup_ip(ip("8.8.8.8")).unwrap();
    assert_eq!(found.endpoint_hex, exit);
    assert_eq!(t.exit_node().unwrap().endpoint_hex, exit);
    assert!(!t.is_exit_node());
}

#[test]
fn the_first_joined_network_wins_an_address() {
    let (b, c) = ("b".repeat(64), "c".repeat(64));
    let self_id = "a".repeat(64);
    let mut t = RoutingTable::new();
    t.replace_network(2, 1, vec![peer(&c, "10.7.0.5", "late")], dns(), "two", &self_id, 1);
    t.replace_network(1, 0, vec![peer(&b, "10.7.0.5", "early")], dns(), "one", &self_id, 2);
    assert_eq!(t.lookup_ip(ip("10.7.0.5")).unwrap().endpoint_hex, b);
    assert_eq!(t.lookup_network_ip(2, ip("10.7.0.5")).unwrap().endpoint_hex, c);
    assert_eq!(t.network_name(), "one");
    t.remove_network(1);
    assert_eq!(t.lookup_ip(ip("10.7.0.5")).unwrap().endpoint_hex, c);
    assert!(t.lookup_endpoint(&b).is_none());
    t.remove_network(2);
    assert!(t.lookup_ip(ip("10.7.0.5")).is_none());
    assert_eq!(t.peers().len(), 0);
}

#[test]
fn overrides_move_a_peer() {
    let b = "b".repeat(64);
    let mut t = table(vec![peer(&b, "10.7.0.5", "gw")], vec![], vec![], "office");
    t.set_ip_override(0, "gw", ip("10.9.9.9"));
    assert_eq!(t.lookup_ip(ip("10.9.9.9")).unwrap().endpoint_hex, b);
    assert!(t.lookup_ip(ip("10.7.0.5")).is_none());
    t.clear_ip_override(0, "gw");
    assert!(t.lookup_ip(ip("10.9.9.9")).is_none());
    assert_eq!(t.lookup_ip(ip("10.7.0.5")).unwrap().endpoint_hex, b);
}

#[test]
fn magic_dns_and_members() {
    let b = "b".repeat(64);
    let t = table(vec![peer(&b, "10.7.0.5", "gw")], vec![], vec![], "office");
    assert_eq!(ip_str(MAGIC_IP), "100.100.100.53");
    assert!(t.is_magic_dns_destination(MAGIC_IP));
    assert_eq!(t.magic_ip(), MAGIC_IP);
    assert_eq!(t.dns_suffix(), "tunnet");
    assert!(t.membership_gate(&b).allows);
    assert!(!t.membership_gate(&"c".repeat(64)).allows);
    assert!(t.resolve_dns_a("nobody.tunnet").is_none());
    assert!(t.resolve_dns_ptr(ip("1.2.3.4")).is_none());
    assert!(!t.is_advertised_hostname("gw"));
    assert!(t.cached_entry_count() >= 1);
    assert!(t.resolve_dns_txt("gw.tunnet").is_none());
    let mut keyed = peer(&b, "10.7.0.5", "gw");
    keyed.ssh_host_key = Some("ssh-ed25519 AAAA".to_string());
    let t = table(vec![keyed], vec![], vec![], "office");
    assert_eq!(t.resolve_dns_txt("gw.tunnet").as_deref(), Some("ssh-ed25519 AAAA"));
    assert_eq!(t.resolve_dns_txt("GW.office.tunnet.").as_deref(), Some("ssh-ed25519 AAAA"));
}

#[test]
fn addresses_are_read_and_written() {
    assert_eq!(ip_str(0x0a07_0005), "10.7.0.5");
    assert_eq!(parse_ip("255.255.255.255"), Some(u32::MAX));
    for bad in ["", "1.2.3", "1.2.3.4.5", "256.1.1.1", "01.2.3.4", "1.2.3.x", " 1.2.3.4"] {
        assert_eq!(parse_ip(bad), None, "{bad}");
    }
    assert!(net("10.0.0.0/8").contains(ip("10.255.0.1")));
    assert!(!net("10.0.0.0/8").contains(ip("11.0.0.1")));
    assert!(net("0.0.0.0/0").contains(ip("11.0.0.1")));
}

#[test]
fn a_route_over_an_unreadable_endpoint_is_skipped() {
    let t = table(vec![], vec![subnet("10.0.0.0/24", "not an id", "10.7.0.5")], vec![], "office");
    assert!(t.lookup_ip(ip("10.0.0.9")).is_none());
    let ok = table(
        vec![],
        vec![subnet("10.0.0.0/24", &"b".repeat(64), "10.7.0.5")],
        vec![],
        "office",
    );
    assert_eq!(ok.lookup_ip(ip("10.0.0.9")).unwrap().ip, ip("10.7.0.5"));
}

#[test]
fn names_and_addresses_lead_back() {
    let b = "b".repeat(64);
    let c = "c".repeat(64);
    let t = table(
        vec![peer(&b, "10.7.0.5", "Early"), peer(&c, "10.7.0.6", "late")],
        vec![],
        vec![],
        "office",
    );
    for addr in ["10.7.0.5", "10.7.0.6"] {
        let name = t.resolve_dns_ptr(ip(addr)).unwrap();
        assert_eq!(t.resolve_dns_a(&name), Some(ip(addr)));
        assert_eq!(t.resolve_dns_a(&format!("{name}.")), Some(ip(addr)));
    }
    assert_eq!(t.resolve_dns_ptr(ip("10.7.0.5")).as_deref(), Some("early.office.tunnet"));
}

#[test]
fn the_network_joined_first_wins_in_either_order() {
    let b = "b".repeat(64);
    let c = "c".repeat(64);
    let self_id = "a".repeat(64);
    for swapped in [false, true] {
        let mut t = RoutingTable::new();
        for n in if swapped { [1u128, 2] } else { [2, 1] } {
            let (id, name) = if n == 1 { (&b, "one") } else { (&c, "two") };
            t.replace_network(
                n,
                n as u64 - 1,
                vec![peer(id, "10.7.0.5", "same")],
                dns(),
                name,
                &self_id,
                n as u64,
            );
        }
        assert_eq!(t.lookup_ip(ip("10.7.0.5")).unwrap().endpoint_hex, b);
        assert_eq!(t.lookup_network_ip(1, ip("10.7.0.5")).unwrap().endpoint_hex, b);
        assert_eq!(t.lookup_network_ip(2, ip("10.7.0.5")).unwrap().endpoint_hex, c);
        assert!(t.lookup_network_ip(3, ip("10.7.0.5")).is_none());
    }
}

#[test]
fn reverse_names_lead_back_in_any_case() {
    let b = "b".repeat(64);
    let c = "c".repeat(64);
    let self_id = "a".repeat(64);
    for suffix in ["tunnet", "", "mesh.example"] {
        let mut t = RoutingTable::new();
        let dns = || DnsConfig { suffix: suffix.to_string(), magic_ip: MAGIC_IP };
        t.replace_network(1, 0, vec![peer(&b, "10.7.0.5", "Web")], dns(), "one", &self_id, 1);
        t.replace_network(2, 1, vec![peer(&c, "10.7.0.6", "web")], dns(), "two", &self_id, 2);
        for addr in ["10.7.0.5", "10.7.0.6"] {
            let name = t.resolve_dns_ptr(ip(addr)).unwrap();
            assert_eq!(t.resolve_dns_a(&name), Some(ip(addr)));
            assert_eq!(t.resolve_dns_a(&name.to_uppercase()), Some(ip(addr)));
            assert_eq!(t.resolve_dns_a(&format!("{name}..")), Some(ip(addr)));
        }
    }
}
