use tunnet_core::node::{
    boot_mode, build_alpns, choose_snapshot, conclude_direct, legacy_docs, metered_urls, network_address,
    peer_presence_last_seen, peer_presence_online, plan_network, require_signed, Alpn, BootMode,
    CoreNode, CoreNodeConfig, DirectNetworkRuntime, DirectState, GrantRead, ManagedState, NetworkStart, PersistedState, Relay,
};
use tunnet_core::table::Table;

fn net(id: u128, name: &str, coordinator: bool) -> DirectState {
    DirectState {
        network_id: id,
        network_name: name.to_string(),
        hostname: "h".to_string(),
        assigned_ipv4: 0,
        collision_index: 0,
        coordinator,
        coordinator_endpoint_id: Some("coord".to_string()),
        namespace_id: None,
        topic_hash: "t".to_string(),
        join_secret: "s".to_string(),
        doc_ticket: Some("old".to_string()),
        coordinator_signing_key: None,
        network_grant: None,
        content_key: None,
    }
}

#[test]
fn protocols_on_offer() {
    let mut c = CoreNodeConfig::of_version("1.2.3".to_string());
    assert_eq!(c.hostname, "tunnet-node");
    assert_eq!(c.kind, "sdk");
    assert_eq!(build_alpns(&c, false, false), vec![Alpn::Stream, Alpn::Send, Alpn::Blobs]);
    c.advertise_datagram_alpn = true;
    c.advertise_recording_alpn = true;
    assert_eq!(
        build_alpns(&c, true, false),
        vec![
            Alpn::Stream,
            Alpn::Datagram,
            Alpn::Recording,
            Alpn::Send,
            Alpn::Blobs,
            Alpn::Auth,
            Alpn::Gossip,
            Alpn::Docs
        ]
    );
    assert_eq!(build_alpns(&c, false, true).last(), Some(&Alpn::Gossip));
}

#[test]
fn mode_follows_the_saved_state() {
    let managed = PersistedState::Managed(ManagedState {
        control_url: "https://c".to_string(),
        network_id: 1,
        network_name: "n".to_string(),
    });
    assert_eq!(boot_mode(&managed), Ok(BootMode::Managed));
    assert_eq!(
        boot_mode(&PersistedState::Direct { networks: vec![] }),
        Err("no Direct networks joined".to_string())
    );
    assert_eq!(
        boot_mode(&PersistedState::Direct { networks: vec![net(1, "a", true)] }),
        Ok(BootMode::Direct)
    );
    assert_eq!(network_address(0, 9), 9);
    assert_eq!(network_address(5, 9), 5);
}

#[test]
fn members_need_a_grant() {
    let member = net(1, "a", false);
    let coordinator = net(1, "a", true);
    let p = plan_network(&member, 7, true, &GrantRead::Readable).unwrap();
    assert_eq!((p.ip, p.with_grant), (7, true));
    assert_eq!(p.seeds, ["coord"]);
    assert_eq!(
        plan_network(&member, 7, true, &GrantRead::Missing).unwrap_err(),
        "missing network_grant; re-join with a fresh invite"
    );
    assert_eq!(
        plan_network(&member, 7, true, &GrantRead::Corrupt("eof".to_string())).unwrap_err(),
        "corrupt network_grant (eof); re-join with a fresh invite"
    );
    assert_eq!(
        plan_network(&coordinator, 7, false, &GrantRead::Readable).unwrap_err(),
        "parse coordinator signing key for 'a'"
    );
    let p = plan_network(&coordinator, 7, true, &GrantRead::Missing).unwrap();
    assert!(!p.with_grant);
}

#[test]
fn networks_start_one_by_one() {
    let b = conclude_direct(
        vec![net(1, "a", true), net(2, "b", true)],
        vec![
            NetworkStart::Failed,
            NetworkStart::Running {
                ip: 77,
                new_ticket: None,
                new_namespace: Some("ns".to_string()),
            },
        ],
    )
    .unwrap();
    assert_eq!(b.running, [2]);
    assert_eq!(b.skipped, ["a"]);
    assert!(b.save);
    // The failed network is kept as it was.
    assert_eq!(b.networks[0].assigned_ipv4, 0);
    assert_eq!(b.networks[1].assigned_ipv4, 77);
    assert_eq!(b.networks[1].doc_ticket.as_deref(), Some("old"));
    assert_eq!(b.networks[1].namespace_id.as_deref(), Some("ns"));

    let e = conclude_direct(
        vec![net(1, "a", true), net(2, "b", true)],
        vec![NetworkStart::Failed, NetworkStart::Failed],
    )
    .unwrap_err();
    assert_eq!(
        e,
        "all Direct networks failed to start (a, b); leave or re-join with `tunnet leave` / a fresh invite"
    );
    assert_eq!(conclude_direct(vec![], vec![]).unwrap_err(), "no Direct networks joined");
}

#[test]
fn presence_is_gathered() {
    assert_eq!(peer_presence_online(&[]), None);
    assert_eq!(peer_presence_online(&[None, Some(false)]), Some(false));
    assert_eq!(peer_presence_online(&[Some(false), Some(true), None]), Some(true));
    assert_eq!(peer_presence_online(&[None]), None);
    assert_eq!(peer_presence_last_seen(&[Some(9), None, Some(4), Some(-1)]), Some(4));
    assert_eq!(peer_presence_last_seen(&[Some(-1), None]), None);
}

#[test]
fn relays_and_leftovers() {
    let relays = [
        Relay { url: "a".to_string(), metering: false },
        Relay { url: "b".to_string(), metering: true },
    ];
    assert_eq!(metered_urls(&relays), ["b"]);
    assert_eq!(legacy_docs(true, &[true]), Vec::<usize>::new());
    assert_eq!(legacy_docs(false, &[true, false, true]), [0, 2]);
    assert_eq!(require_signed(Some(&3)), Ok(&3));
    assert_eq!(
        require_signed(None::<&u8>).unwrap_err(),
        "this operation requires Managed mode (control plane client unavailable in Direct)"
    );
}

#[test]
fn networks_are_found_by_id() {
    let mut direct = Table::new();
    for (id, presence) in [(1u128, None), (2, Some("p"))] {
        let state = net(id, "n", true);
        direct.insert(
            id,
            DirectNetworkRuntime { docs: id * 10, firewall: id * 100, state, presence },
        );
    }
    let node = CoreNode { primary_network_id: Some(2), direct };
    assert_eq!(node.docs_for(1), Some(&10));
    assert_eq!(node.firewall_for(2), Some(&200));
    assert_eq!(node.firewall_for(3), None);
    assert_eq!(node.presence_for(1), None);
    assert_eq!(node.presence_for(2), Some(&"p"));
    assert_eq!(node.primary_docs(), Some(&20));
    assert_eq!(node.primary_firewall(), Some(&200));
    let none = CoreNode { primary_network_id: None, ..node };
    assert_eq!(none.primary_docs(), None);
}

#[test]
fn a_snapshot_is_chosen() {
    assert_eq!(choose_snapshot(Some(1), Some(2)), Ok((1, true)));
    assert_eq!(choose_snapshot(None, Some(2)), Ok((2, false)));
    assert_eq!(choose_snapshot::<u8>(None, None), Err("no cache"));
}
