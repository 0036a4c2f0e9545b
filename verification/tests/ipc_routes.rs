use tunnet_core::endpoint::EndpointId;
use tunnet_core::ip::parse_ip;
use tunnet_core::ipc::direct::keep_alive;
use tunnet_core::ipc::routes::{build_routes, Membership};
use tunnet_core::ipc::serve::{pings_itself, reload_dns, resolve_peer};
use tunnet_core::ipc::status::{build_dns_status, peer_lites};
use tunnet_core::names::NameTable;
use tunnet_core::pool::conn_pool::ConnPool;
use tunnet_core::pool::shared::Shared;
use tunnet_core::routing::table::RoutingTable;
use tunnet_core::routing::types::{
    DeviceProfile, DnsConfig, HostnameRoute, Ipv4Net, PeerEntry, SplitTunnelMode, SubnetRoute,
    MAGIC_IP,
};

const LOCAL: EndpointId = (1, 1);

fn ip(s: &str) -> u32 {
    parse_ip(s).unwrap()
}

fn self_id() -> String {
    "a".repeat(64)
}

fn gw() -> String {
    "b".repeat(64)
}

fn dns(suffix: &str) -> DnsConfig {
    DnsConfig { suffix: suffix.to_string(), magic_ip: MAGIC_IP }
}

fn table() -> RoutingTable {
    let mut t = RoutingTable::new();
    let peer = |id: String, addr: &str, host: &str| PeerEntry {
        ip: ip(addr),
        endpoint_id: id,
        hostname: host.to_string(),
        tags: vec!["db".to_string()],
        ssh_host_key: None,
    };
    t.replace(
        vec![peer(self_id(), "10.7.0.1", "me"), peer(gw(), "10.7.0.5", "gw")],
        vec![],
        vec![],
        vec![],
        DeviceProfile { exit_node_endpoint_id: None, split_tunnel_mode: SplitTunnelMode::Off },
        dns("tunnet"),
        "office",
        0,
        &self_id(),
        1,
    );
    t
}

#[test]
fn peers_are_resolved() {
    let t = table();
    for host in ["10.7.0.5", "GW", &gw()] {
        assert_eq!(resolve_peer(&t, host).unwrap().endpoint_hex, gw(), "{host}");
    }
    assert!(resolve_peer(&t, "nobody").is_none());
    assert!(pings_itself(&resolve_peer(&t, "me").unwrap(), &self_id(), 9));
    assert!(!pings_itself(&resolve_peer(&t, "gw").unwrap(), &self_id(), ip("10.7.0.1")));
}

#[test]
fn routes_are_shown() {
    let t = table();
    let r = build_routes(&t, &None, &self_id());
    assert_eq!(r.split_tunnel_mode, "exclude");
    assert!(r.subnet_routes.is_empty());
    let m = Membership {
        subnet_routes: vec![SubnetRoute {
            cidr: Ipv4Net { addr: ip("10.1.0.0"), prefix: 16 },
            via_endpoint_id: gw(),
            via_ip: ip("10.7.0.5"),
        }],
        hostname_routes: vec![HostnameRoute {
            hostname: "wiki".to_string(),
            via_endpoint_id: gw(),
            via_ip: ip("10.7.0.5"),
            is_wildcard: false,
            target_ip: Some(ip("10.1.0.9")),
        }],
        split_tunnel_mode: SplitTunnelMode::Include,
        split_tunnel_cidrs: vec!["10.0.0.0/8".to_string()],
    };
    let r = build_routes(&t, &Some(m), &self_id());
    assert_eq!(r.subnet_routes[0].cidr, "10.1.0.0/16");
    assert_eq!(r.subnet_routes[0].via_hostname, "gw");
    assert!(!r.subnet_routes[0].advertised_by_self);
    assert_eq!(r.hostname_routes[0].target_ip.as_deref(), Some("10.1.0.9"));
    assert_eq!(r.split_tunnel_mode, "include");
    assert!(r.exit_node.is_none());
}

#[test]
fn peers_are_listed() {
    let t = table();
    let mut p = ConnPool::new(LOCAL, b"alpn".to_vec());
    let sh = Shared::new();
    let mut rtt: NameTable<u64> = NameTable::new();
    rtt.insert(gw(), 7);
    let v = peer_lites(&t.peers(), &mut p, &sh, &rtt, &[], &self_id(), 0);
    assert_eq!(v.len(), 1);
    assert_eq!(v[0].ip, "10.7.0.5");
    assert_eq!(v[0].latency_bits, Some(7));
    assert_eq!(v[0].online, Some(false));
    let d = build_dns_status(&t, &["1.1.1.1".to_string()], true, "100.100.0.0", "100.100.100.53");
    assert_eq!(d.suffix, "tunnet");
    assert_eq!(d.bind, "100.100.100.53:53");
}

#[test]
fn dns_is_reloaded() {
    let mut t = table();
    reload_dns(&mut t, dns("mesh"), "office", 0, &self_id());
    assert_eq!(t.version(), 2);
    assert_eq!(t.dns_suffix(), "mesh");
    assert_eq!(t.resolve_dns_a("gw.mesh"), Some(ip("10.7.0.5")));
}

#[test]
fn hosts_are_kept_alive() {
    let t = table();
    let mut p = ConnPool::new(LOCAL, b"alpn".to_vec());
    let mut sh = Shared::new();
    sh.set_keep_alive(false);
    let peer = t.lookup_hostname("gw").unwrap().endpoint;
    assert_eq!(
        keep_alive(&t, &mut p, &mut sh, "GW", true, 0),
        "Keep-alive enabled for GW"
    );
    assert!(sh.keeps_alive(peer));
    assert!(!sh.keep_alive);
    assert_eq!(
        keep_alive(&t, &mut p, &mut sh, "GW", false, 0),
        "Keep-alive disabled for GW"
    );
    assert!(!sh.keeps_alive(peer));
    assert!(!sh.keep_alive);
}
