//! Where the endpoints are, and who may use them.

use super::router::{
    fits, handled_as, idle_need_of, idle_target_of, need_of, segment_fits, target_of, Capability,
    Endpoint, Method, Need, Routed,
};
use crate::text::parts;
use vstd::prelude::*;

verus! {

/// The request that an endpoint answers.
pub open spec fn place(e: Endpoint) -> (Method, Seq<char>) {
    match e {
        Endpoint::Meta => (Method::Get, "/v1/meta"@),
        Endpoint::NodeSummary => (Method::Get, "/v1/node"@),
        Endpoint::NetworksList => (Method::Get, "/v1/networks"@),
        Endpoint::NetworkCreate => (Method::Post, "/v1/networks"@),
        Endpoint::EventsStream => (Method::Get, "/v1/events"@),
        Endpoint::Dns => (Method::Get, "/v1/dns"@),
        Endpoint::RoutesList => (Method::Get, "/v1/routes"@),
        Endpoint::RoutesAdd => (Method::Post, "/v1/routes"@),
        Endpoint::Diag => (Method::Get, "/v1/diag"@),
        Endpoint::AclDenies => (Method::Get, "/v1/acl/denies"@),
        Endpoint::Netcheck => (Method::Get, "/v1/netcheck"@),
        Endpoint::Reload => (Method::Post, "/v1/reload"@),
        Endpoint::DataPlaneStatus => (Method::Get, "/v1/data-plane"@),
        Endpoint::DataPlaneUp => (Method::Post, "/v1/data-plane/up"@),
        Endpoint::DataPlaneDown => (Method::Post, "/v1/data-plane/down"@),
        Endpoint::ServesList => (Method::Get, "/v1/serves"@),
        Endpoint::ServesStart => (Method::Post, "/v1/serves"@),
        Endpoint::TunnelsList => (Method::Get, "/v1/tunnels"@),
        Endpoint::TunnelsStart => (Method::Post, "/v1/tunnels"@),
        Endpoint::SshSessions => (Method::Get, "/v1/ssh/sessions"@),
        Endpoint::SshRecordings => (Method::Get, "/v1/ssh/recordings"@),
        Endpoint::SshAuthPoll => (Method::Post, "/v1/ssh/auth/poll"@),
        Endpoint::TransfersList => (Method::Get, "/v1/transfers"@),
        Endpoint::TransfersSend => (Method::Post, "/v1/transfers/send"@),
        Endpoint::TransfersHistory => (Method::Get, "/v1/transfers/history"@),
        Endpoint::SendConfig => (Method::Get, "/v1/send/config"@),
        Endpoint::SendSetConfig => (Method::Put, "/v1/send/config"@),
        Endpoint::DirectInvite => (Method::Post, "/v1/direct/invites"@),
        Endpoint::DirectRequests => (Method::Get, "/v1/direct/requests"@),
        Endpoint::DirectFirewallShow => (Method::Get, "/v1/direct/firewall"@),
        Endpoint::DirectFirewallOff => (Method::Post, "/v1/direct/firewall/off"@),
        Endpoint::DirectFirewallAdd => (Method::Post, "/v1/direct/firewall/rules"@),
        Endpoint::DirectFirewallReset => (Method::Post, "/v1/direct/firewall/reset"@),
        Endpoint::DirectFirewallFlush => (Method::Post, "/v1/direct/firewall/conntrack/flush"@),
        Endpoint::DirectFirewallPending => (Method::Get, "/v1/direct/firewall/pending"@),
        Endpoint::DirectFirewallAccept => (Method::Post, "/v1/direct/firewall/pending/accept"@),
        Endpoint::DirectFirewallReject => (Method::Post, "/v1/direct/firewall/pending/reject"@),
        Endpoint::DirectPolicyShow => (Method::Get, "/v1/direct/policy"@),
        Endpoint::DirectPolicySet => (Method::Put, "/v1/direct/policy"@),
        Endpoint::DirectPolicyClear => (Method::Delete, "/v1/direct/policy"@),
        Endpoint::DirectKeepAlive => (Method::Post, "/v1/direct/keep-alive"@),
        Endpoint::DirectConnect => (Method::Post, "/v1/direct/connect"@),
        Endpoint::DirectConnectAllow => (Method::Post, "/v1/direct/connect/allow"@),
        Endpoint::DirectConnectPending => (Method::Get, "/v1/direct/connect/pending"@),
        Endpoint::DirectConnectRotate => (Method::Post, "/v1/direct/connect/rotate"@),
        Endpoint::Enroll => (Method::Post, "/v1/enroll"@),
        Endpoint::NetworkJoin => (Method::Post, "/v1/networks/join"@),
        Endpoint::NetworkLeave => (Method::Post, "/v1/networks/leave"@),
        Endpoint::NetworkUpgrade => (Method::Post, "/v1/networks/upgrade"@),
        Endpoint::Reset => (Method::Post, "/v1/reset"@),
        Endpoint::ValidateConfig => (Method::Post, "/v1/config/validate"@),
        Endpoint::AuthLogin => (Method::Post, "/v1/auth/login"@),
        Endpoint::AuthLogout => (Method::Post, "/v1/auth/logout"@),
        Endpoint::UpdateCheck => (Method::Get, "/v1/update"@),
        Endpoint::Update => (Method::Post, "/v1/update"@),
        Endpoint::DeviceSetLabels => (Method::Post, "/v1/device/labels"@),
        Endpoint::DevicePatchLabels => (Method::Post, "/v1/device/labels/patch"@),
        Endpoint::DeviceDeleteLabel => (Method::Post, "/v1/device/labels/delete"@),
        Endpoint::DeviceAddTag => (Method::Post, "/v1/device/tags"@),
        Endpoint::DeviceRemoveTag => (Method::Post, "/v1/device/tags/remove"@),
        Endpoint::DeviceSetExpiry => (Method::Post, "/v1/device/expiry"@),
        Endpoint::DeviceInfo => (Method::Get, "/v1/device"@),
        Endpoint::PostureStatus => (Method::Get, "/v1/posture"@),
        Endpoint::PostureCheck => (Method::Post, "/v1/posture/check"@),
        Endpoint::PolicyOp => (Method::Post, "/v1/policy"@),
        Endpoint::NetworkGet => (Method::Get, "/v1/networks/{}"@),
        Endpoint::NetworkPeers => (Method::Get, "/v1/networks/{}/peers"@),
        Endpoint::NetworkRoutes => (Method::Get, "/v1/networks/{}/routes"@),
        Endpoint::NetworkJoinRequests => (Method::Get, "/v1/networks/{}/join-requests"@),
        Endpoint::NetworkJoinAccept => (Method::Post, "/v1/networks/{}/join-requests/{}/accept"@),
        Endpoint::NetworkJoinDeny => (Method::Post, "/v1/networks/{}/join-requests/{}/deny"@),
        Endpoint::NetworkFirewallShow => (Method::Get, "/v1/networks/{}/firewall"@),
        Endpoint::Ping => (Method::Get, "/v1/ping/{}"@),
        Endpoint::ServesOff => (Method::Delete, "/v1/serves/{}"@),
        Endpoint::TunnelsOff => (Method::Delete, "/v1/tunnels/{}"@),
        Endpoint::SshCast => (Method::Get, "/v1/ssh/recordings/{}/cast"@),
        Endpoint::TransfersAccept => (Method::Post, "/v1/transfers/{}/accept"@),
        Endpoint::TransfersReject => (Method::Post, "/v1/transfers/{}/reject"@),
        Endpoint::DirectAccept => (Method::Post, "/v1/direct/requests/{}/accept"@),
        Endpoint::DirectDeny => (Method::Post, "/v1/direct/requests/{}/deny"@),
        Endpoint::DirectKick => (Method::Post, "/v1/direct/peers/{}/kick"@),
        Endpoint::DirectFirewallRemove => (Method::Delete, "/v1/direct/firewall/rules/{}"@),
        Endpoint::DirectConnectAccept => (Method::Post, "/v1/direct/connect/pending/{}/accept"@),
        Endpoint::DirectConnectDeny => (Method::Post, "/v1/direct/connect/pending/{}/deny"@),
        Endpoint::IdleMeta => (Method::Get, "/v1/meta"@),
        Endpoint::IdleNode => (Method::Get, "/v1/node"@),
        Endpoint::IdleEvents => (Method::Get, "/v1/events"@),
    }
}

/// A request reaches an endpoint at its place and nowhere else.
#[verifier::rlimit(80)]
pub proof fn law_endpoint_has_one_place(m: Method, path: Seq<char>)
    ensures
        target_of(m, path) is To ==> m == place(target_of(m, path)->To_0).0 && fits(
            path,
            place(target_of(m, path)->To_0).1,
        ),
{
}

/// So it is with an agent that waits to be enrolled.
pub proof fn law_idle_endpoint_has_one_place(m: Method, path: Seq<char>)
    ensures
        idle_target_of(m, path) is To ==> m == place(idle_target_of(m, path)->To_0).0 && fits(
            path,
            place(idle_target_of(m, path)->To_0).1,
        ),
{
}

/// A path that no endpoint has is not found; any other is found, if not with the method.
pub proof fn law_path_is_known_or_not(m: Method, path: Seq<char>, e: Endpoint)
    requires
        e != Endpoint::IdleMeta,
        e != Endpoint::IdleNode,
        e != Endpoint::IdleEvents,
    ensures
        fits(path, place(e).1) ==> target_of(m, path) != Routed::NotFound,
        target_of(m, path) == Routed::WrongMethod ==> target_of(Method::Get, path)
            != Routed::NotFound,
        target_of(Method::Other, path) is To ==> false,
        target_of(handled_as(Method::Head), path) == target_of(Method::Get, path),
        m != Method::Head ==> handled_as(m) == m,
{
}

/// Who may change what: the membership of the machine, an elevated caller alone; everything
/// else, a caller with the capability for it.
pub proof fn law_who_may_change_what(e: Endpoint)
    ensures
        need_of(e) == Need::Elevated <==> e == Endpoint::NetworkCreate || e == Endpoint::Enroll
            || e == Endpoint::NetworkJoin || e == Endpoint::NetworkLeave
            || e == Endpoint::NetworkUpgrade || e == Endpoint::Reset || e == Endpoint::Update,
        need_of(e) == Need::Cap(Capability::FirewallWrite) <==> e == Endpoint::DirectFirewallOff
            || e == Endpoint::DirectFirewallAdd || e == Endpoint::DirectFirewallReset
            || e == Endpoint::DirectFirewallFlush || e == Endpoint::DirectFirewallAccept
            || e == Endpoint::DirectFirewallReject || e == Endpoint::DirectFirewallRemove,
        need_of(e) == Need::Cap(Capability::PolicyWrite) <==> e == Endpoint::DirectPolicySet
            || e == Endpoint::DirectPolicyClear || e == Endpoint::PolicyOp,
        need_of(e) == Need::Cap(Capability::DataPlaneWrite) <==> e == Endpoint::RoutesAdd
            || e == Endpoint::Reload || e == Endpoint::DataPlaneUp || e == Endpoint::DataPlaneDown
            || e == Endpoint::DirectKeepAlive || e == Endpoint::DeviceSetLabels
            || e == Endpoint::DevicePatchLabels || e == Endpoint::DeviceDeleteLabel
            || e == Endpoint::DeviceAddTag || e == Endpoint::DeviceRemoveTag
            || e == Endpoint::DeviceSetExpiry,
        need_of(e) == Need::Cap(Capability::NetworkAdmit) <==> e == Endpoint::DirectRequests
            || e == Endpoint::NetworkJoinRequests || e == Endpoint::NetworkJoinAccept
            || e == Endpoint::NetworkJoinDeny || e == Endpoint::DirectAccept
            || e == Endpoint::DirectDeny || e == Endpoint::DirectKick
            || e == Endpoint::DirectConnectAccept || e == Endpoint::DirectConnectDeny,
        need_of(e) == Need::Cap(Capability::NetworkInvite) <==> e == Endpoint::DirectInvite,
{
}

/// Who may see and use what.
pub proof fn law_who_may_use_what(e: Endpoint)
    ensures
        need_of(e) == Need::Cap(Capability::EventsRead) <==> e == Endpoint::EventsStream
            || e == Endpoint::IdleEvents,
        need_of(e) == Need::Cap(Capability::DnsRead) <==> e == Endpoint::Dns,
        need_of(e) == Need::Cap(Capability::RoutesRead) <==> e == Endpoint::RoutesList
            || e == Endpoint::NetworkRoutes,
        need_of(e) == Need::Cap(Capability::DiagRead) <==> e == Endpoint::Diag
            || e == Endpoint::AclDenies || e == Endpoint::Netcheck || e == Endpoint::PostureStatus
            || e == Endpoint::PostureCheck || e == Endpoint::Ping,
        need_of(e) == Need::Cap(Capability::Serve) <==> e == Endpoint::ServesList
            || e == Endpoint::ServesStart || e == Endpoint::ServesOff,
        need_of(e) == Need::Cap(Capability::Tunnel) <==> e == Endpoint::TunnelsList
            || e == Endpoint::TunnelsStart || e == Endpoint::TunnelsOff,
        need_of(e) == Need::Cap(Capability::Ssh) <==> e == Endpoint::SshSessions
            || e == Endpoint::SshRecordings || e == Endpoint::SshAuthPoll || e == Endpoint::SshCast,
        need_of(e) == Need::Cap(Capability::Send) <==> e == Endpoint::TransfersList
            || e == Endpoint::TransfersSend || e == Endpoint::TransfersHistory
            || e == Endpoint::SendConfig || e == Endpoint::SendSetConfig
            || e == Endpoint::TransfersAccept || e == Endpoint::TransfersReject,
        need_of(e) != Need::Cap(Capability::Lifecycle),
{
}

/// Reading changes nothing: what is asked for with `GET` needs no capability to write.
pub proof fn law_reading_needs_no_right_to_write(path: Seq<char>)
    ensures
        target_of(Method::Get, path) is To ==> ({
            let n = need_of(target_of(Method::Get, path)->To_0);
            &&& n != Need::Elevated
            &&& n != Need::Cap(Capability::DataPlaneWrite)
            &&& n != Need::Cap(Capability::FirewallWrite)
            &&& n != Need::Cap(Capability::PolicyWrite)
            &&& n != Need::Cap(Capability::NetworkInvite)
        }),
{
}

/// What is deleted or replaced needs more than a capability to read.
pub proof fn law_removing_needs_more_than_reading(m: Method, path: Seq<char>)
    requires
        m == Method::Delete || m == Method::Put,
    ensures
        target_of(m, path) is To ==> ({
            let n = need_of(target_of(m, path)->To_0);
            &&& n != Need::Cap(Capability::StatusRead)
            &&& n != Need::Cap(Capability::DiagRead)
            &&& n != Need::Cap(Capability::RoutesRead)
            &&& n != Need::Cap(Capability::DnsRead)
            &&& n != Need::Cap(Capability::EventsRead)
        }),
{
}

/// Before there is a membership, whoever may manage the agent's life may begin one; once there
/// is, only an elevated caller may change it.
pub proof fn law_needs_before_enrolment(e: Endpoint)
    ensures
        idle_need_of(e) == Need::Cap(Capability::Lifecycle) <==> need_of(e) == Need::Elevated && e
            != Endpoint::Update,
        idle_need_of(e) != Need::Cap(Capability::Lifecycle) ==> idle_need_of(e) == need_of(e),
{
}

/// An agent that waits to be enrolled answers no path that a running one does not.
pub proof fn law_idle_agent_offers_less(m: Method, path: Seq<char>)
    ensures
        idle_target_of(m, path) != Routed::NotFound ==> target_of(m, path) != Routed::NotFound,
{
}

/// Every path fits itself; one that fits a pattern has as many segments, equal to those of
/// the pattern but where that takes any, and no empty one in such a place.
pub proof fn law_paths_fit_patterns(path: Seq<char>, pattern: Seq<char>, i: int)
    requires
        0 <= i < parts(pattern, '/').len(),
    ensures
        fits(pattern, pattern),
        fits(path, pattern) ==> parts(path, '/').len() == parts(pattern, '/').len(),
        fits(path, pattern) && parts(pattern, '/')[i] != seq!['{', '}'] ==> parts(path, '/')[i]
            == parts(pattern, '/')[i],
        fits(path, pattern) && parts(pattern, '/')[i] == seq!['{', '}'] ==> parts(
            path,
            '/',
        )[i].len() > 0,
{
    reveal_strlit("{}");
    assert("{}"@ =~= seq!['{', '}']);
    let (a, b) = (parts(path, '/'), parts(pattern, '/'));
    if fits(path, pattern) {
        assert(segment_fits(a[i], b[i]));
    }
}

/// A path fits a pattern as soon as every segment is that of the pattern, or is not empty
/// where the pattern takes any.
pub proof fn law_fitting_paths_are_found(path: Seq<char>, pattern: Seq<char>)
    requires
        parts(path, '/').len() == parts(pattern, '/').len(),
        forall|i: int|
            0 <= i < parts(path, '/').len() ==> (#[trigger] parts(path, '/')[i]) == parts(
                pattern,
                '/',
            )[i] || (parts(pattern, '/')[i] == seq!['{', '}'] && parts(path, '/')[i].len() >= 1),
    ensures
        fits(path, pattern),
{
    reveal_strlit("{}");
    assert("{}"@ =~= seq!['{', '}']);
}

} // verus!
