use tunnet_core::local_api::dataplane::{DataPlaneState, DataPlaneStatusSnapshot};
use tunnet_core::local_api::observe::{
    discover_agent_state, discover_network_id, routes_network, several_networks_message, NoNetwork,
};
use tunnet_core::local_api::router::{
    api_status, idle_required, idle_route, required, route, ApiErrorCode, Capability, Endpoint,
    Method, Need, Routed,
};

#[test]
fn health_state_transitions() {
    let mut s = DataPlaneStatusSnapshot::new(false);
    assert_eq!(s.state(), DataPlaneState::Down);
    s.set_up(true);
    s.set_outbound_alive(true);
    assert_eq!(s.state(), DataPlaneState::Up);
    // Worker death with the device half up: degraded, not up.
    s.set_outbound_alive(false);
    assert_eq!(s.state(), DataPlaneState::Degraded);
    // Unexpected end: restarting + error + count, published before supervision restarts.
    s.note_restart("outbound TUN loop unexpectedly terminated".to_string());
    s.set_restarting(true);
    assert_eq!(s.state(), DataPlaneState::Restarting);
    assert_eq!(s.restart_count(), 1);
    assert_eq!(
        s.last_error().as_deref(),
        Some("outbound TUN loop unexpectedly terminated")
    );
    // Successful bring-up recovers fully.
    s.set_up(true);
    s.set_restarting(false);
    s.set_outbound_alive(true);
    s.set_generation(7);
    assert_eq!(s.state(), DataPlaneState::Up);
    assert_eq!(s.generation(), 7);
    // Intentional shutdown: plain down.
    s.set_up(false);
    s.set_restarting(false);
    s.set_outbound_alive(false);
    assert_eq!(s.state(), DataPlaneState::Down);
    assert_eq!(s.state().as_str(), "down");
    assert!(!s.is_up());
    assert!(!s.outbound_alive());
    s.set_last_error("x".to_string());
    assert_eq!(s.last_error().as_deref(), Some("x"));
    assert_eq!(s.restart_count(), 1);
}

#[test]
fn requests_find_their_endpoints() {
    assert_eq!(route(Method::Get, "/v1/meta"), Routed::To(Endpoint::Meta));
    assert_eq!(route(Method::Head, "/v1/meta"), Routed::To(Endpoint::Meta));
    assert_eq!(route(Method::Post, "/v1/meta"), Routed::WrongMethod);
    assert_eq!(route(Method::Get, "/v1/meta/"), Routed::NotFound);
    assert_eq!(route(Method::Get, "/v2/meta"), Routed::NotFound);
    assert_eq!(route(Method::Get, "/v1/networks"), Routed::To(Endpoint::NetworksList));
    assert_eq!(route(Method::Post, "/v1/networks"), Routed::To(Endpoint::NetworkCreate));
    assert_eq!(route(Method::Get, "/v1/networks/abc"), Routed::To(Endpoint::NetworkGet));
    assert_eq!(route(Method::Get, "/v1/networks/"), Routed::NotFound);
    // A path without parameters comes first.
    assert_eq!(route(Method::Post, "/v1/networks/join"), Routed::To(Endpoint::NetworkJoin));
    assert_eq!(route(Method::Get, "/v1/networks/join"), Routed::WrongMethod);
    assert_eq!(
        route(Method::Post, "/v1/networks/n/join-requests/p/accept"),
        Routed::To(Endpoint::NetworkJoinAccept)
    );
    assert_eq!(
        route(Method::Delete, "/v1/direct/firewall/rules/3"),
        Routed::To(Endpoint::DirectFirewallRemove)
    );
    assert_eq!(route(Method::Put, "/v1/direct/policy"), Routed::To(Endpoint::DirectPolicySet));
    assert_eq!(route(Method::Other, "/v1/direct/policy"), Routed::WrongMethod);
}

#[test]
fn an_idle_agent_offers_less() {
    assert_eq!(idle_route(Method::Post, "/v1/enroll"), Routed::To(Endpoint::Enroll));
    assert_eq!(idle_route(Method::Get, "/v1/routes"), Routed::NotFound);
    assert_eq!(idle_route(Method::Get, "/v1/networks"), Routed::WrongMethod);
    assert_eq!(idle_required(Endpoint::Enroll), Need::Cap(Capability::Lifecycle));
    assert_eq!(idle_required(Endpoint::Update), Need::Elevated);
    assert_eq!(idle_required(Endpoint::IdleNode), Need::Cap(Capability::StatusRead));
}

#[test]
fn requests_need_capabilities() {
    assert_eq!(required(Endpoint::Meta), Need::Cap(Capability::StatusRead));
    assert_eq!(required(Endpoint::Enroll), Need::Elevated);
    assert_eq!(required(Endpoint::NetworkCreate), Need::Elevated);
    assert_eq!(required(Endpoint::RoutesList), Need::Cap(Capability::RoutesRead));
    assert_eq!(required(Endpoint::RoutesAdd), Need::Cap(Capability::DataPlaneWrite));
    assert_eq!(required(Endpoint::NetworkJoinAccept), Need::Cap(Capability::NetworkAdmit));
    assert_eq!(required(Endpoint::DirectInvite), Need::Cap(Capability::NetworkInvite));
    assert_eq!(required(Endpoint::Ping), Need::Cap(Capability::DiagRead));
    assert_eq!(required(Endpoint::DirectPolicySet), Need::Cap(Capability::PolicyWrite));
    assert_eq!(required(Endpoint::SshSessions), Need::Cap(Capability::Ssh));
}

#[test]
fn errors_have_statuses() {
    assert_eq!(api_status(&ApiErrorCode::DaemonNotRunning), 503);
    assert_eq!(api_status(&ApiErrorCode::DataPlaneDown), 503);
    assert_eq!(api_status(&ApiErrorCode::NotEnrolled), 409);
    assert_eq!(api_status(&ApiErrorCode::NotFound), 404);
    assert_eq!(api_status(&ApiErrorCode::Denied), 403);
    assert_eq!(api_status(&ApiErrorCode::InvalidRequest), 400);
    assert_eq!(api_status(&ApiErrorCode::Internal), 500);
}

#[test]
fn saved_state_is_found_or_explained() {
    assert_eq!(discover_agent_state(Some(3u8), "/x"), Ok(3));
    assert_eq!(
        discover_agent_state(None::<u8>, "/var/lib/tunnet/state.json").unwrap_err(),
        "not connected to a network yet (no state in /var/lib/tunnet/state.json). Use `tunnet create` for Direct or `tunnet enroll` for Managed"
    );
    assert_eq!(discover_network_id(Some(3u8), Some(9), "/x"), Ok((9, 3)));
    assert_eq!(
        discover_network_id(Some(3u8), None, "/x").unwrap_err(),
        "persisted state has no network id"
    );
    assert!(discover_network_id(None::<u8>, Some(9), "/x").is_err());
}

#[test]
fn a_request_means_a_network() {
    let id = "00000000-0000-0000-0000-00000000000b";
    assert_eq!(routes_network(Some(id), Some(3)), Ok(0x0b));
    assert_eq!(routes_network(None, Some(3)), Ok(3));
    assert_eq!(routes_network(Some("x"), Some(3)), Err(NoNetwork::BadId));
    assert_eq!(routes_network(None, None), Err(NoNetwork::Several));
    assert!(several_networks_message().contains("network_id"));
}
