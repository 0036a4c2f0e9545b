//! The Local Management API (`/v1/...`): which request goes where, and what it needs.

use crate::text::{chars_of, parts, same_text, split_on, substring};
use vstd::prelude::*;

verus! {

#[derive(Debug, Clone, Copy, PartialEq, Eq, Structural)]
pub enum Method {
    Get,
    /// Answered as `Get`.
    Head,
    Post,
    Put,
    Delete,
    Other,
}

/// What a request asks for.
#[derive(Debug, Clone, Copy, PartialEq, Eq, Structural)]
pub enum Endpoint {
    Meta,
    NodeSummary,
    NetworksList,
    NetworkCreate,
    EventsStream,
    Dns,
    RoutesList,
    RoutesAdd,
    Diag,
    AclDenies,
    Netcheck,
    Reload,
    DataPlaneStatus,
    DataPlaneUp,
    DataPlaneDown,
    ServesList,
    ServesStart,
    TunnelsList,
    TunnelsStart,
    SshSessions,
    SshRecordings,
    SshAuthPoll,
    TransfersList,
    TransfersSend,
    TransfersHistory,
    SendConfig,
    SendSetConfig,
    DirectInvite,
    DirectRequests,
    DirectFirewallShow,
    DirectFirewallOff,
    DirectFirewallAdd,
    DirectFirewallReset,
    DirectFirewallFlush,
    DirectFirewallPending,
    DirectFirewallAccept,
    DirectFirewallReject,
    DirectPolicyShow,
    DirectPolicySet,
    DirectPolicyClear,
    DirectKeepAlive,
    DirectConnect,
    DirectConnectAllow,
    DirectConnectPending,
    DirectConnectRotate,
    Enroll,
    NetworkJoin,
    NetworkLeave,
    NetworkUpgrade,
    Reset,
    ValidateConfig,
    AuthLogin,
    AuthLogout,
    UpdateCheck,
    Update,
    DeviceSetLabels,
    DevicePatchLabels,
    DeviceDeleteLabel,
    DeviceAddTag,
    DeviceRemoveTag,
    DeviceSetExpiry,
    DeviceInfo,
    PostureStatus,
    PostureCheck,
    PolicyOp,
    NetworkGet,
    NetworkPeers,
    NetworkRoutes,
    NetworkJoinRequests,
    NetworkJoinAccept,
    NetworkJoinDeny,
    NetworkFirewallShow,
    Ping,
    ServesOff,
    TunnelsOff,
    SshCast,
    TransfersAccept,
    TransfersReject,
    DirectAccept,
    DirectDeny,
    DirectKick,
    DirectFirewallRemove,
    DirectConnectAccept,
    DirectConnectDeny,
    IdleMeta,
    IdleNode,
    IdleEvents,
}

/// What a caller may do.
#[derive(Debug, Clone, Copy, PartialEq, Eq, Structural)]
pub enum Capability {
    StatusRead,
    DataPlaneWrite,
    DiagRead,
    PolicyWrite,
    RoutesRead,
    NetworkAdmit,
    EventsRead,
    DnsRead,
    Serve,
    Tunnel,
    Ssh,
    Send,
    NetworkInvite,
    FirewallWrite,
    Lifecycle,
}

/// What a request needs of its caller.
#[derive(Debug, Clone, Copy, PartialEq, Eq, Structural)]
pub enum Need {
    Elevated,
    Cap(Capability),
}

/// Where a request goes.
#[derive(Debug, Clone, Copy, PartialEq, Eq, Structural)]
pub enum Routed {
    NotFound,
    WrongMethod,
    To(Endpoint),
}

/// A segment of a path fits one of a pattern: `{}` takes any segment that is not empty.
pub open spec fn segment_fits(s: Seq<char>, p: Seq<char>) -> bool {
    if p == "{}"@ {
        s.len() > 0
    } else {
        s == p
    }
}

/// The path fits the pattern, segment by segment.
pub open spec fn fits(path: Seq<char>, pattern: Seq<char>) -> bool {
    let a = parts(path, '/');
    let b = parts(pattern, '/');
    a.len() == b.len() && forall|i: int|
        0 <= i < a.len() ==> segment_fits(#[trigger] a[i], b[i])
}

fn path_fits(path: &str, pattern: &str) -> (r: bool)
    ensures
        r == fits(path@, pattern@),
{
    let x = chars_of(path);
    let y = chars_of(pattern);
    let a = split_on(x.as_slice(), '/');
    let b = split_on(y.as_slice(), '/');
    if a.len() != b.len() {
        return false;
    }
    let mut i: usize = 0;
    while i < a.len()
        invariant
            x@ == path@,
            y@ == pattern@,
            a@.len() == b@.len(),
            a@.len() == parts(x@, '/').len(),
            b@.len() == parts(y@, '/').len(),
            forall|j: int|
                0 <= j < a@.len() ==> (#[trigger] a@[j]).0 <= a@[j].1 <= x@.len() && x@.subrange(
                    a@[j].0 as int,
                    a@[j].1 as int,
                ) == parts(x@, '/')[j],
            forall|j: int|
                0 <= j < b@.len() ==> (#[trigger] b@[j]).0 <= b@[j].1 <= y@.len() && y@.subrange(
                    b@[j].0 as int,
                    b@[j].1 as int,
                ) == parts(y@, '/')[j],
            i <= a@.len(),
            forall|j: int|
                0 <= j < i ==> segment_fits(#[trigger] parts(x@, '/')[j], parts(y@, '/')[j]),
        decreases a.len() - i,
    {
        let s = substring(x.as_slice(), a[i].0, a[i].1);
        let p = substring(y.as_slice(), b[i].0, b[i].1);
        let ok = if same_text(p.as_str(), "{}") {
            !s.as_str().is_empty()
        } else {
            same_text(s.as_str(), p.as_str())
        };
        if !ok {
            assert(!segment_fits(parts(x@, '/')[i as int], parts(y@, '/')[i as int]));
            return false;
        }
        i += 1;
    }
    true
}

/// The method by which a request is handled.
pub open spec fn handled_as(m: Method) -> Method {
    match m {
        Method::Head => Method::Get,
        _ => m,
    }
}

fn as_handled(m: Method) -> (r: Method)
    ensures
        r == handled_as(m),
{
    match m {
        Method::Head => Method::Get,
        _ => m,
    }
}

/// Where a request to a running agent goes. A path without parameters comes before one
/// with them.
pub open spec fn target_of(method: Method, path: Seq<char>) -> Routed {
    if fits(path, "/v1/meta"@) {
        match method {
            Method::Get => Routed::To(Endpoint::Meta),
            _ => Routed::WrongMethod,
        }
    } else if fits(path, "/v1/node"@) {
        match method {
            Method::Get => Routed::To(Endpoint::NodeSummary),
            _ => Routed::WrongMethod,
        }
    } else if fits(path, "/v1/networks"@) {
        match method {
            Method::Get => Routed::To(Endpoint::NetworksList),
            Method::Post => Routed::To(Endpoint::NetworkCreate),
            _ => Routed::WrongMethod,
        }
    } else if fits(path, "/v1/events"@) {
        match method {
            Method::Get => Routed::To(Endpoint::EventsStream),
            _ => Routed::WrongMethod,
        }
    } else if fits(path, "/v1/dns"@) {
        match method {
            Method::Get => Routed::To(Endpoint::Dns),
            _ => Routed::WrongMethod,
        }
    } else if fits(path, "/v1/routes"@) {
        match method {
            Method::Get => Routed::To(Endpoint::RoutesList),
            Method::Post => Routed::To(Endpoint::RoutesAdd),
            _ => Routed::WrongMethod,
        }
    } else if fits(path, "/v1/diag"@) {
        match method {
            Method::Get => Routed::To(Endpoint::Diag),
            _ => Routed::WrongMethod,
        }
    } else if fits(path, "/v1/acl/denies"@) {
        match method {
            Method::Get => Routed::To(Endpoint::AclDenies),
            _ => Routed::WrongMethod,
        }
    } else if fits(path, "/v1/netcheck"@) {
        match method {
            Method::Get => Routed::To(Endpoint::Netcheck),
            _ => Routed::WrongMethod,
        }
    } else if fits(path, "/v1/reload"@) {
        match method {
            Method::Post => Routed::To(Endpoint::Reload),
            _ => Routed::WrongMethod,
        }
    } else if fits(path, "/v1/data-plane"@) {
        match method {
            Method::Get => Routed::To(Endpoint::DataPlaneStatus),
            _ => Routed::WrongMethod,
        }
    } else if fits(path, "/v1/data-plane/up"@) {
        match method {
            Method::Post => Routed::To(Endpoint::DataPlaneUp),
            _ => Routed::WrongMethod,
        }
    } else if fits(path, "/v1/data-plane/down"@) {
        match method {
            Method::Post => Routed::To(Endpoint::DataPlaneDown),
            _ => Routed::WrongMethod,
        }
    } else if fits(path, "/v1/serves"@) {
        match method {
            Method::Get => Routed::To(Endpoint::ServesList),
            Method::Post => Routed::To(Endpoint::ServesStart),
            _ => Routed::WrongMethod,
        }
    } else if fits(path, "/v1/tunnels"@) {
        match method {
            Method::Get => Routed::To(Endpoint::TunnelsList),
            Method::Post => Routed::To(Endpoint::TunnelsStart),
            _ => Routed::WrongMethod,
        }
    } else if fits(path, "/v1/ssh/sessions"@) {
        match method {
            Method::Get => Routed::To(Endpoint::SshSessions),
            _ => Routed::WrongMethod,
        }
    } else if fits(path, "/v1/ssh/recordings"@) {
        match method {
            Method::Get => Routed::To(Endpoint::SshRecordings),
            _ => Routed::WrongMethod,
        }
    } else if fits(path, "/v1/ssh/auth/poll"@) {
        match method {
            Method::Post => Routed::To(Endpoint::SshAuthPoll),
            _ => Routed::WrongMethod,
        }
    } else if fits(path, "/v1/transfers"@) {
        match method {
            Method::Get => Routed::To(Endpoint::TransfersList),
            _ => Routed::WrongMethod,
        }
    } else if fits(path, "/v1/transfers/send"@) {
        match method {
            Method::Post => Routed::To(Endpoint::TransfersSend),
            _ => Routed::WrongMethod,
        }
    } else if fits(path, "/v1/transfers/history"@) {
        match method {
            Method::Get => Routed::To(Endpoint::TransfersHistory),
            _ => Routed::WrongMethod,
        }
    } else if fits(path, "/v1/send/config"@) {
        match method {
            Method::Get => Routed::To(Endpoint::SendConfig),
            Method::Put => Routed::To(Endpoint::SendSetConfig),
            _ => Routed::WrongMethod,
        }
    } else if fits(path, "/v1/direct/invites"@) {
        match method {
            Method::Post => Routed::To(Endpoint::DirectInvite),
            _ => Routed::WrongMethod,
        }
    } else if fits(path, "/v1/direct/requests"@) {
        match method {
            Method::Get => Routed::To(Endpoint::DirectRequests),
            _ => Routed::WrongMethod,
        }
    } else if fits(path, "/v1/direct/firewall"@) {
        match method {
            Method::Get => Routed::To(Endpoint::DirectFirewallShow),
            _ => Routed::WrongMethod,
        }
    } else if fits(path, "/v1/direct/firewall/off"@) {
        match method {
            Method::Post => Routed::To(Endpoint::DirectFirewallOff),
            _ => Routed::WrongMethod,
        }
    } else if fits(path, "/v1/direct/firewall/rules"@) {
        match method {
            Method::Post => Routed::To(Endpoint::DirectFirewallAdd),
            _ => Routed::WrongMethod,
        }
    } else if fits(path, "/v1/direct/firewall/reset"@) {
        match method {
            Method::Post => Routed::To(Endpoint::DirectFirewallReset),
            _ => Routed::WrongMethod,
        }
    } else if fits(path, "/v1/direct/firewall/conntrack/flush"@) {
        match method {
            Method::Post => Routed::To(Endpoint::DirectFirewallFlush),
            _ => Routed::WrongMethod,
        }
    } else if fits(path, "/v1/direct/firewall/pending"@) {
        match method {
            Method::Get => Routed::To(Endpoint::DirectFirewallPending),
            _ => Routed::WrongMethod,
        }
    } else if fits(path, "/v1/direct/firewall/pending/accept"@) {
        match method {
            Method::Post => Routed::To(Endpoint::DirectFirewallAccept),
            _ => Routed::WrongMethod,
        }
    } else if fits(path, "/v1/direct/firewall/pending/reject"@) {
        match method {
            Method::Post => Routed::To(Endpoint::DirectFirewallReject),
            _ => Routed::WrongMethod,
        }
    } else if fits(path, "/v1/direct/policy"@) {
        match method {
            Method::Get => Routed::To(Endpoint::DirectPolicyShow),
            Method::Put => Routed::To(Endpoint::DirectPolicySet),
            Method::Delete => Routed::To(Endpoint::DirectPolicyClear),
            _ => Routed::WrongMethod,
        }
    } else if fits(path, "/v1/direct/keep-alive"@) {
        match method {
            Method::Post => Routed::To(Endpoint::DirectKeepAlive),
            _ => Routed::WrongMethod,
        }
    } else if fits(path, "/v1/direct/connect"@) {
        match method {
            Method::Post => Routed::To(Endpoint::DirectConnect),
            _ => Routed::WrongMethod,
        }
    } else if fits(path, "/v1/direct/connect/allow"@) {
        match method {
            Method::Post => Routed::To(Endpoint::DirectConnectAllow),
            _ => Routed::WrongMethod,
        }
    } else if fits(path, "/v1/direct/connect/pending"@) {
        match method {
            Method::Get => Routed::To(Endpoint::DirectConnectPending),
            _ => Routed::WrongMethod,
        }
    } else if fits(path, "/v1/direct/connect/rotate"@) {
        match method {
            Method::Post => Routed::To(Endpoint::DirectConnectRotate),
            _ => Routed::WrongMethod,
        }
    } else if fits(path, "/v1/enroll"@) {
        match method {
            Method::Post => Routed::To(Endpoint::Enroll),
            _ => Routed::WrongMethod,
        }
    } else if fits(path, "/v1/networks/join"@) {
        match method {
            Method::Post => Routed::To(Endpoint::NetworkJoin),
            _ => Routed::WrongMethod,
        }
    } else if fits(path, "/v1/networks/leave"@) {
        match method {
            Method::Post => Routed::To(Endpoint::NetworkLeave),
            _ => Routed::WrongMethod,
        }
    } else if fits(path, "/v1/networks/upgrade"@) {
        match method {
            Method::Post => Routed::To(Endpoint::NetworkUpgrade),
            _ => Routed::WrongMethod,
        }
    } else if fits(path, "/v1/reset"@) {
        match method {
            Method::Post => Routed::To(Endpoint::Reset),
            _ => Routed::WrongMethod,
        }
    } else if fits(path, "/v1/config/validate"@) {
        match method {
            Method::Post => Routed::To(Endpoint::ValidateConfig),
            _ => Routed::WrongMethod,
        }
    } else if fits(path, "/v1/auth/login"@) {
        match method {
            Method::Post => Routed::To(Endpoint::AuthLogin),
            _ => Routed::WrongMethod,
        }
    } else if fits(path, "/v1/auth/logout"@) {
        match method {
            Method::Post => Routed::To(Endpoint::AuthLogout),
            _ => Routed::WrongMethod,
        }
    } else if fits(path, "/v1/update"@) {
        match method {
            Method::Get => Routed::To(Endpoint::UpdateCheck),
            Method::Post => Routed::To(Endpoint::Update),
            _ => Routed::WrongMethod,
        }
    } else if fits(path, "/v1/device/labels"@) {
        match method {
            Method::Post => Routed::To(Endpoint::DeviceSetLabels),
            _ => Routed::WrongMethod,
        }
    } else if fits(path, "/v1/device/labels/patch"@) {
        match method {
            Method::Post => Routed::To(Endpoint::DevicePatchLabels),
            _ => Routed::WrongMethod,
        }
    } else if fits(path, "/v1/device/labels/delete"@) {
        match method {
            Method::Post => Routed::To(Endpoint::DeviceDeleteLabel),
            _ => Routed::WrongMethod,
        }
    } else if fits(path, "/v1/device/tags"@) {
        match method {
            Method::Post => Routed::To(Endpoint::DeviceAddTag),
            _ => Routed::WrongMethod,
        }
    } else if fits(path, "/v1/device/tags/remove"@) {
        match method {
            Method::Post => Routed::To(Endpoint::DeviceRemoveTag),
            _ => Routed::WrongMethod,
        }
    } else if fits(path, "/v1/device/expiry"@) {
        match method {
            Method::Post => Routed::To(Endpoint::DeviceSetExpiry),
            _ => Routed::WrongMethod,
        }
    } else if fits(path, "/v1/device"@) {
        match method {
            Method::Get => Routed::To(Endpoint::DeviceInfo),
            _ => Routed::WrongMethod,
        }
    } else if fits(path, "/v1/posture"@) {
        match method {
            Method::Get => Routed::To(Endpoint::PostureStatus),
            _ => Routed::WrongMethod,
        }
    } else if fits(path, "/v1/posture/check"@) {
        match method {
            Method::Post => Routed::To(Endpoint::PostureCheck),
            _ => Routed::WrongMethod,
        }
    } else if fits(path, "/v1/policy"@) {
        match method {
            Method::Post => Routed::To(Endpoint::PolicyOp),
            _ => Routed::WrongMethod,
        }
    } else if fits(path, "/v1/networks/{}"@) {
        match method {
            Method::Get => Routed::To(Endpoint::NetworkGet),
            _ => Routed::WrongMethod,
        }
    } else if fits(path, "/v1/networks/{}/peers"@) {
        match method {
            Method::Get => Routed::To(Endpoint::NetworkPeers),
            _ => Routed::WrongMethod,
        }
    } else if fits(path, "/v1/networks/{}/routes"@) {
        match method {
            Method::Get => Routed::To(Endpoint::NetworkRoutes),
            _ => Routed::WrongMethod,
        }
    } else if fits(path, "/v1/networks/{}/join-requests"@) {
        match method {
            Method::Get => Routed::To(Endpoint::NetworkJoinRequests),
            _ => Routed::WrongMethod,
        }
    } else if fits(path, "/v1/networks/{}/join-requests/{}/accept"@) {
        match method {
            Method::Post => Routed::To(Endpoint::NetworkJoinAccept),
            _ => Routed::WrongMethod,
        }
    } else if fits(path, "/v1/networks/{}/join-requests/{}/deny"@) {
        match method {
            Method::Post => Routed::To(Endpoint::NetworkJoinDeny),
            _ => Routed::WrongMethod,
        }
    } else if fits(path, "/v1/networks/{}/firewall"@) {
        match method {
            Method::Get => Routed::To(Endpoint::NetworkFirewallShow),
            _ => Routed::WrongMethod,
        }
    } else if fits(path, "/v1/ping/{}"@) {
        match method {
            Method::Get => Routed::To(Endpoint::Ping),
            _ => Routed::WrongMethod,
        }
    } else if fits(path, "/v1/serves/{}"@) {
        match method {
            Method::Delete => Routed::To(Endpoint::ServesOff),
            _ => Routed::WrongMethod,
        }
    } else if fits(path, "/v1/tunnels/{}"@) {
        match method {
            Method::Delete => Routed::To(Endpoint::TunnelsOff),
            _ => Routed::WrongMethod,
        }
    } else if fits(path, "/v1/ssh/recordings/{}/cast"@) {
        match method {
            Method::Get => Routed::To(Endpoint::SshCast),
            _ => Routed::WrongMethod,
        }
    } else if fits(path, "/v1/transfers/{}/accept"@) {
        match method {
            Method::Post => Routed::To(Endpoint::TransfersAccept),
            _ => Routed::WrongMethod,
        }
    } else if fits(path, "/v1/transfers/{}/reject"@) {
        match method {
            Method::Post => Routed::To(Endpoint::TransfersReject),
            _ => Routed::WrongMethod,
        }
    } else if fits(path, "/v1/direct/requests/{}/accept"@) {
        match method {
            Method::Post => Routed::To(Endpoint::DirectAccept),
            _ => Routed::WrongMethod,
        }
    } else if fits(path, "/v1/direct/requests/{}/deny"@) {
        match method {
            Method::Post => Routed::To(Endpoint::DirectDeny),
            _ => Routed::WrongMethod,
        }
    } else if fits(path, "/v1/direct/peers/{}/kick"@) {
        match method {
            Method::Post => Routed::To(Endpoint::DirectKick),
            _ => Routed::WrongMethod,
        }
    } else if fits(path, "/v1/direct/firewall/rules/{}"@) {
        match method {
            Method::Delete => Routed::To(Endpoint::DirectFirewallRemove),
            _ => Routed::WrongMethod,
        }
    } else if fits(path, "/v1/direct/connect/pending/{}/accept"@) {
        match method {
            Method::Post => Routed::To(Endpoint::DirectConnectAccept),
            _ => Routed::WrongMethod,
        }
    } else if fits(path, "/v1/direct/connect/pending/{}/deny"@) {
        match method {
            Method::Post => Routed::To(Endpoint::DirectConnectDeny),
            _ => Routed::WrongMethod,
        }
    } else {
        Routed::NotFound
    }
}

pub fn route(method: Method, path: &str) -> (r: Routed)
    ensures
        r == target_of(handled_as(method), path@),
{
    let method = as_handled(method);
    if path_fits(path, "/v1/meta") {
        return match method {
            Method::Get => Routed::To(Endpoint::Meta),
            _ => Routed::WrongMethod,
        };
    }
    if path_fits(path, "/v1/node") {
        return match method {
            Method::Get => Routed::To(Endpoint::NodeSummary),
            _ => Routed::WrongMethod,
        };
    }
    if path_fits(path, "/v1/networks") {
        return match method {
            Method::Get => Routed::To(Endpoint::NetworksList),
            Method::Post => Routed::To(Endpoint::NetworkCreate),
            _ => Routed::WrongMethod,
        };
    }
    if path_fits(path, "/v1/events") {
        return match method {
            Method::Get => Routed::To(Endpoint::EventsStream),
            _ => Routed::WrongMethod,
        };
    }
    if path_fits(path, "/v1/dns") {
        return match method {
            Method::Get => Routed::To(Endpoint::Dns),
            _ => Routed::WrongMethod,
        };
    }
    if path_fits(path, "/v1/routes") {
        return match method {
            Method::Get => Routed::To(Endpoint::RoutesList),
            Method::Post => Routed::To(Endpoint::RoutesAdd),
            _ => Routed::WrongMethod,
        };
    }
    if path_fits(path, "/v1/diag") {
        return match method {
            Method::Get => Routed::To(Endpoint::Diag),
            _ => Routed::WrongMethod,
        };
    }
    if path_fits(path, "/v1/acl/denies") {
        return match method {
            Method::Get => Routed::To(Endpoint::AclDenies),
            _ => Routed::WrongMethod,
        };
    }
    if path_fits(path, "/v1/netcheck") {
        return match method {
            Method::Get => Routed::To(Endpoint::Netcheck),
            _ => Routed::WrongMethod,
        };
    }
    if path_fits(path, "/v1/reload") {
        return match method {
            Method::Post => Routed::To(Endpoint::Reload),
            _ => Routed::WrongMethod,
        };
    }
    if path_fits(path, "/v1/data-plane") {
        return match method {
            Method::Get => Routed::To(Endpoint::DataPlaneStatus),
            _ => Routed::WrongMethod,
        };
    }
    if path_fits(path, "/v1/data-plane/up") {
        return match method {
            Method::Post => Routed::To(Endpoint::DataPlaneUp),
            _ => Routed::WrongMethod,
        };
    }
    if path_fits(path, "/v1/data-plane/down") {
        return match method {
            Method::Post => Routed::To(Endpoint::DataPlaneDown),
            _ => Routed::WrongMethod,
        };
    }
    if path_fits(path, "/v1/serves") {
        return match method {
            Method::Get => Routed::To(Endpoint::ServesList),
            Method::Post => Routed::To(Endpoint::ServesStart),
            _ => Routed::WrongMethod,
        };
    }
    if path_fits(path, "/v1/tunnels") {
        return match method {
            Method::Get => Routed::To(Endpoint::TunnelsList),
            Method::Post => Routed::To(Endpoint::TunnelsStart),
            _ => Routed::WrongMethod,
        };
    }
    if path_fits(path, "/v1/ssh/sessions") {
        return match method {
            Method::Get => Routed::To(Endpoint::SshSessions),
            _ => Routed::WrongMethod,
        };
    }
    if path_fits(path, "/v1/ssh/recordings") {
        return match method {
            Method::Get => Routed::To(Endpoint::SshRecordings),
            _ => Routed::WrongMethod,
        };
    }
    if path_fits(path, "/v1/ssh/auth/poll") {
        return match method {
            Method::Post => Routed::To(Endpoint::SshAuthPoll),
            _ => Routed::WrongMethod,
        };
    }
    if path_fits(path, "/v1/transfers") {
        return match method {
            Method::Get => Routed::To(Endpoint::TransfersList),
            _ => Routed::WrongMethod,
        };
    }
    if path_fits(path, "/v1/transfers/send") {
        return match method {
            Method::Post => Routed::To(Endpoint::TransfersSend),
            _ => Routed::WrongMethod,
        };
    }
    if path_fits(path, "/v1/transfers/history") {
        return match method {
            Method::Get => Routed::To(Endpoint::TransfersHistory),
            _ => Routed::WrongMethod,
        };
    }
    if path_fits(path, "/v1/send/config") {
        return match method {
            Method::Get => Routed::To(Endpoint::SendConfig),
            Method::Put => Routed::To(Endpoint::SendSetConfig),
            _ => Routed::WrongMethod,
        };
    }
    if path_fits(path, "/v1/direct/invites") {
        return match method {
            Method::Post => Routed::To(Endpoint::DirectInvite),
            _ => Routed::WrongMethod,
        };
    }
    if path_fits(path, "/v1/direct/requests") {
        return match method {
            Method::Get => Routed::To(Endpoint::DirectRequests),
            _ => Routed::WrongMethod,
        };
    }
    if path_fits(path, "/v1/direct/firewall") {
        return match method {
            Method::Get => Routed::To(Endpoint::DirectFirewallShow),
            _ => Routed::WrongMethod,
        };
    }
    if path_fits(path, "/v1/direct/firewall/off") {
        return match method {
            Method::Post => Routed::To(Endpoint::DirectFirewallOff),
            _ => Routed::WrongMethod,
        };
    }
    if path_fits(path, "/v1/direct/firewall/rules") {
        return match method {
            Method::Post => Routed::To(Endpoint::DirectFirewallAdd),
            _ => Routed::WrongMethod,
        };
    }
    if path_fits(path, "/v1/direct/firewall/reset") {
        return match method {
            Method::Post => Routed::To(Endpoint::DirectFirewallReset),
            _ => Routed::WrongMethod,
        };
    }
    if path_fits(path, "/v1/direct/firewall/conntrack/flush") {
        return match method {
            Method::Post => Routed::To(Endpoint::DirectFirewallFlush),
            _ => Routed::WrongMethod,
        };
    }
    if path_fits(path, "/v1/direct/firewall/pending") {
        return match method {
            Method::Get => Routed::To(Endpoint::DirectFirewallPending),
            _ => Routed::WrongMethod,
        };
    }
    if path_fits(path, "/v1/direct/firewall/pending/accept") {
        return match method {
            Method::Post => Routed::To(Endpoint::DirectFirewallAccept),
            _ => Routed::WrongMethod,
        };
    }
    if path_fits(path, "/v1/direct/firewall/pending/reject") {
        return match method {
            Method::Post => Routed::To(Endpoint::DirectFirewallReject),
            _ => Routed::WrongMethod,
        };
    }
    if path_fits(path, "/v1/direct/policy") {
        return match method {
            Method::Get => Routed::To(Endpoint::DirectPolicyShow),
            Method::Put => Routed::To(Endpoint::DirectPolicySet),
            Method::Delete => Routed::To(Endpoint::DirectPolicyClear),
            _ => Routed::WrongMethod,
        };
    }
    if path_fits(path, "/v1/direct/keep-alive") {
        return match method {
            Method::Post => Routed::To(Endpoint::DirectKeepAlive),
            _ => Routed::WrongMethod,
        };
    }
    if path_fits(path, "/v1/direct/connect") {
        return match method {
            Method::Post => Routed::To(Endpoint::DirectConnect),
            _ => Routed::WrongMethod,
        };
    }
    if path_fits(path, "/v1/direct/connect/allow") {
        return match method {
            Method::Post => Routed::To(Endpoint::DirectConnectAllow),
            _ => Routed::WrongMethod,
        };
    }
    if path_fits(path, "/v1/direct/connect/pending") {
        return match method {
            Method::Get => Routed::To(Endpoint::DirectConnectPending),
            _ => Routed::WrongMethod,
        };
    }
    if path_fits(path, "/v1/direct/connect/rotate") {
        return match method {
            Method::Post => Routed::To(Endpoint::DirectConnectRotate),
            _ => Routed::WrongMethod,
        };
    }
    if path_fits(path, "/v1/enroll") {
        return match method {
            Method::Post => Routed::To(Endpoint::Enroll),
            _ => Routed::WrongMethod,
        };
    }
    if path_fits(path, "/v1/networks/join") {
        return match method {
            Method::Post => Routed::To(Endpoint::NetworkJoin),
            _ => Routed::WrongMethod,
        };
    }
    if path_fits(path, "/v1/networks/leave") {
        return match method {
            Method::Post => Routed::To(Endpoint::NetworkLeave),
            _ => Routed::WrongMethod,
        };
    }
    if path_fits(path, "/v1/networks/upgrade") {
        return match method {
            Method::Post => Routed::To(Endpoint::NetworkUpgrade),
            _ => Routed::WrongMethod,
        };
    }
    if path_fits(path, "/v1/reset") {
        return match method {
            Method::Post => Routed::To(Endpoint::Reset),
            _ => Routed::WrongMethod,
        };
    }
    if path_fits(path, "/v1/config/validate") {
        return match method {
            Method::Post => Routed::To(Endpoint::ValidateConfig),
            _ => Routed::WrongMethod,
        };
    }
    if path_fits(path, "/v1/auth/login") {
        return match method {
            Method::Post => Routed::To(Endpoint::AuthLogin),
            _ => Routed::WrongMethod,
        };
    }
    if path_fits(path, "/v1/auth/logout") {
        return match method {
            Method::Post => Routed::To(Endpoint::AuthLogout),
            _ => Routed::WrongMethod,
        };
    }
    if path_fits(path, "/v1/update") {
        return match method {
            Method::Get => Routed::To(Endpoint::UpdateCheck),
            Method::Post => Routed::To(Endpoint::Update),
            _ => Routed::WrongMethod,
        };
    }
    if path_fits(path, "/v1/device/labels") {
        return match method {
            Method::Post => Routed::To(Endpoint::DeviceSetLabels),
            _ => Routed::WrongMethod,
        };
    }
    if path_fits(path, "/v1/device/labels/patch") {
        return match method {
            Method::Post => Routed::To(Endpoint::DevicePatchLabels),
            _ => Routed::WrongMethod,
        };
    }
    if path_fits(path, "/v1/device/labels/delete") {
        return match method {
            Method::Post => Routed::To(Endpoint::DeviceDeleteLabel),
            _ => Routed::WrongMethod,
        };
    }
    if path_fits(path, "/v1/device/tags") {
        return match method {
            Method::Post => Routed::To(Endpoint::DeviceAddTag),
            _ => Routed::WrongMethod,
        };
    }
    if path_fits(path, "/v1/device/tags/remove") {
        return match method {
            Method::Post => Routed::To(Endpoint::DeviceRemoveTag),
            _ => Routed::WrongMethod,
        };
    }
    if path_fits(path, "/v1/device/expiry") {
        return match method {
            Method::Post => Routed::To(Endpoint::DeviceSetExpiry),
            _ => Routed::WrongMethod,
        };
    }
    if path_fits(path, "/v1/device") {
        return match method {
            Method::Get => Routed::To(Endpoint::DeviceInfo),
            _ => Routed::WrongMethod,
        };
    }
    if path_fits(path, "/v1/posture") {
        return match method {
            Method::Get => Routed::To(Endpoint::PostureStatus),
            _ => Routed::WrongMethod,
        };
    }
    if path_fits(path, "/v1/posture/check") {
        return match method {
            Method::Post => Routed::To(Endpoint::PostureCheck),
            _ => Routed::WrongMethod,
        };
    }
    if path_fits(path, "/v1/policy") {
        return match method {
            Method::Post => Routed::To(Endpoint::PolicyOp),
            _ => Routed::WrongMethod,
        };
    }
    if path_fits(path, "/v1/networks/{}") {
        return match method {
            Method::Get => Routed::To(Endpoint::NetworkGet),
            _ => Routed::WrongMethod,
        };
    }
    if path_fits(path, "/v1/networks/{}/peers") {
        return match method {
            Method::Get => Routed::To(Endpoint::NetworkPeers),
            _ => Routed::WrongMethod,
        };
    }
    if path_fits(path, "/v1/networks/{}/routes") {
        return match method {
            Method::Get => Routed::To(Endpoint::NetworkRoutes),
            _ => Routed::WrongMethod,
        };
    }
    if path_fits(path, "/v1/networks/{}/join-requests") {
        return match method {
            Method::Get => Routed::To(Endpoint::NetworkJoinRequests),
            _ => Routed::WrongMethod,
        };
    }
    if path_fits(path, "/v1/networks/{}/join-requests/{}/accept") {
        return match method {
            Method::Post => Routed::To(Endpoint::NetworkJoinAccept),
            _ => Routed::WrongMethod,
        };
    }
    if path_fits(path, "/v1/networks/{}/join-requests/{}/deny") {
        return match method {
            Method::Post => Routed::To(Endpoint::NetworkJoinDeny),
            _ => Routed::WrongMethod,
        };
    }
    if path_fits(path, "/v1/networks/{}/firewall") {
        return match method {
            Method::Get => Routed::To(Endpoint::NetworkFirewallShow),
            _ => Routed::WrongMethod,
        };
    }
    if path_fits(path, "/v1/ping/{}") {
        return match method {
            Method::Get => Routed::To(Endpoint::Ping),
            _ => Routed::WrongMethod,
        };
    }
    if path_fits(path, "/v1/serves/{}") {
        return match method {
            Method::Delete => Routed::To(Endpoint::ServesOff),
            _ => Routed::WrongMethod,
        };
    }
    if path_fits(path, "/v1/tunnels/{}") {
        return match method {
            Method::Delete => Routed::To(Endpoint::TunnelsOff),
            _ => Routed::WrongMethod,
        };
    }
    if path_fits(path, "/v1/ssh/recordings/{}/cast") {
        return match method {
            Method::Get => Routed::To(Endpoint::SshCast),
            _ => Routed::WrongMethod,
        };
    }
    if path_fits(path, "/v1/transfers/{}/accept") {
        return match method {
            Method::Post => Routed::To(Endpoint::TransfersAccept),
            _ => Routed::WrongMethod,
        };
    }
    if path_fits(path, "/v1/transfers/{}/reject") {
        return match method {
            Method::Post => Routed::To(Endpoint::TransfersReject),
            _ => Routed::WrongMethod,
        };
    }
    if path_fits(path, "/v1/direct/requests/{}/accept") {
        return match method {
            Method::Post => Routed::To(Endpoint::DirectAccept),
            _ => Routed::WrongMethod,
        };
    }
    if path_fits(path, "/v1/direct/requests/{}/deny") {
        return match method {
            Method::Post => Routed::To(Endpoint::DirectDeny),
            _ => Routed::WrongMethod,
        };
    }
    if path_fits(path, "/v1/direct/peers/{}/kick") {
        return match method {
            Method::Post => Routed::To(Endpoint::DirectKick),
            _ => Routed::WrongMethod,
        };
    }
    if path_fits(path, "/v1/direct/firewall/rules/{}") {
        return match method {
            Method::Delete => Routed::To(Endpoint::DirectFirewallRemove),
            _ => Routed::WrongMethod,
        };
    }
    if path_fits(path, "/v1/direct/connect/pending/{}/accept") {
        return match method {
            Method::Post => Routed::To(Endpoint::DirectConnectAccept),
            _ => Routed::WrongMethod,
        };
    }
    if path_fits(path, "/v1/direct/connect/pending/{}/deny") {
        return match method {
            Method::Post => Routed::To(Endpoint::DirectConnectDeny),
            _ => Routed::WrongMethod,
        };
    }
    Routed::NotFound
}

/// Where a request to an agent goes that waits to be enrolled.
pub open spec fn idle_target_of(method: Method, path: Seq<char>) -> Routed {
    if fits(path, "/v1/meta"@) {
        match method {
            Method::Get => Routed::To(Endpoint::IdleMeta),
            _ => Routed::WrongMethod,
        }
    } else if fits(path, "/v1/node"@) {
        match method {
            Method::Get => Routed::To(Endpoint::IdleNode),
            _ => Routed::WrongMethod,
        }
    } else if fits(path, "/v1/events"@) {
        match method {
            Method::Get => Routed::To(Endpoint::IdleEvents),
            _ => Routed::WrongMethod,
        }
    } else if fits(path, "/v1/enroll"@) {
        match method {
            Method::Post => Routed::To(Endpoint::Enroll),
            _ => Routed::WrongMethod,
        }
    } else if fits(path, "/v1/networks"@) {
        match method {
            Method::Post => Routed::To(Endpoint::NetworkCreate),
            _ => Routed::WrongMethod,
        }
    } else if fits(path, "/v1/networks/join"@) {
        match method {
            Method::Post => Routed::To(Endpoint::NetworkJoin),
            _ => Routed::WrongMethod,
        }
    } else if fits(path, "/v1/networks/leave"@) {
        match method {
            Method::Post => Routed::To(Endpoint::NetworkLeave),
            _ => Routed::WrongMethod,
        }
    } else if fits(path, "/v1/networks/upgrade"@) {
        match method {
            Method::Post => Routed::To(Endpoint::NetworkUpgrade),
            _ => Routed::WrongMethod,
        }
    } else if fits(path, "/v1/reset"@) {
        match method {
            Method::Post => Routed::To(Endpoint::Reset),
            _ => Routed::WrongMethod,
        }
    } else if fits(path, "/v1/config/validate"@) {
        match method {
            Method::Post => Routed::To(Endpoint::ValidateConfig),
            _ => Routed::WrongMethod,
        }
    } else if fits(path, "/v1/auth/login"@) {
        match method {
            Method::Post => Routed::To(Endpoint::AuthLogin),
            _ => Routed::WrongMethod,
        }
    } else if fits(path, "/v1/auth/logout"@) {
        match method {
            Method::Post => Routed::To(Endpoint::AuthLogout),
            _ => Routed::WrongMethod,
        }
    } else if fits(path, "/v1/update"@) {
        match method {
            Method::Get => Routed::To(Endpoint::UpdateCheck),
            Method::Post => Routed::To(Endpoint::Update),
            _ => Routed::WrongMethod,
        }
    } else {
        Routed::NotFound
    }
}

pub fn idle_route(method: Method, path: &str) -> (r: Routed)
    ensures
        r == idle_target_of(handled_as(method), path@),
{
    let method = as_handled(method);
    if path_fits(path, "/v1/meta") {
        return match method {
            Method::Get => Routed::To(Endpoint::IdleMeta),
            _ => Routed::WrongMethod,
        };
    }
    if path_fits(path, "/v1/node") {
        return match method {
            Method::Get => Routed::To(Endpoint::IdleNode),
            _ => Routed::WrongMethod,
        };
    }
    if path_fits(path, "/v1/events") {
        return match method {
            Method::Get => Routed::To(Endpoint::IdleEvents),
            _ => Routed::WrongMethod,
        };
    }
    if path_fits(path, "/v1/enroll") {
        return match method {
            Method::Post => Routed::To(Endpoint::Enroll),
            _ => Routed::WrongMethod,
        };
    }
    if path_fits(path, "/v1/networks") {
        return match method {
            Method::Post => Routed::To(Endpoint::NetworkCreate),
            _ => Routed::WrongMethod,
        };
    }
    if path_fits(path, "/v1/networks/join") {
        return match method {
            Method::Post => Routed::To(Endpoint::NetworkJoin),
            _ => Routed::WrongMethod,
        };
    }
    if path_fits(path, "/v1/networks/leave") {
        return match method {
            Method::Post => Routed::To(Endpoint::NetworkLeave),
            _ => Routed::WrongMethod,
        };
    }
    if path_fits(path, "/v1/networks/upgrade") {
        return match method {
            Method::Post => Routed::To(Endpoint::NetworkUpgrade),
            _ => Routed::WrongMethod,
        };
    }
    if path_fits(path, "/v1/reset") {
        return match method {
            Method::Post => Routed::To(Endpoint::Reset),
            _ => Routed::WrongMethod,
        };
    }
    if path_fits(path, "/v1/config/validate") {
        return match method {
            Method::Post => Routed::To(Endpoint::ValidateConfig),
            _ => Routed::WrongMethod,
        };
    }
    if path_fits(path, "/v1/auth/login") {
        return match method {
            Method::Post => Routed::To(Endpoint::AuthLogin),
            _ => Routed::WrongMethod,
        };
    }
    if path_fits(path, "/v1/auth/logout") {
        return match method {
            Method::Post => Routed::To(Endpoint::AuthLogout),
            _ => Routed::WrongMethod,
        };
    }
    if path_fits(path, "/v1/update") {
        return match method {
            Method::Get => Routed::To(Endpoint::UpdateCheck),
            Method::Post => Routed::To(Endpoint::Update),
            _ => Routed::WrongMethod,
        };
    }
    Routed::NotFound
}

/// What a request to a running agent needs: changes of the machine's membership need an
/// elevated caller, everything else a capability.
pub open spec fn need_of(e: Endpoint) -> Need {
    match e {
        Endpoint::Meta => Need::Cap(Capability::StatusRead),
        Endpoint::NodeSummary => Need::Cap(Capability::StatusRead),
        Endpoint::NetworksList => Need::Cap(Capability::StatusRead),
        Endpoint::NetworkCreate => Need::Elevated,
        Endpoint::EventsStream => Need::Cap(Capability::EventsRead),
        Endpoint::Dns => Need::Cap(Capability::DnsRead),
        Endpoint::RoutesList => Need::Cap(Capability::RoutesRead),
        Endpoint::RoutesAdd => Need::Cap(Capability::DataPlaneWrite),
        Endpoint::Diag => Need::Cap(Capability::DiagRead),
        Endpoint::AclDenies => Need::Cap(Capability::DiagRead),
        Endpoint::Netcheck => Need::Cap(Capability::DiagRead),
        Endpoint::Reload => Need::Cap(Capability::DataPlaneWrite),
        Endpoint::DataPlaneStatus => Need::Cap(Capability::StatusRead),
        Endpoint::DataPlaneUp => Need::Cap(Capability::DataPlaneWrite),
        Endpoint::DataPlaneDown => Need::Cap(Capability::DataPlaneWrite),
        Endpoint::ServesList => Need::Cap(Capability::Serve),
        Endpoint::ServesStart => Need::Cap(Capability::Serve),
        Endpoint::TunnelsList => Need::Cap(Capability::Tunnel),
        Endpoint::TunnelsStart => Need::Cap(Capability::Tunnel),
        Endpoint::SshSessions => Need::Cap(Capability::Ssh),
        Endpoint::SshRecordings => Need::Cap(Capability::Ssh),
        Endpoint::SshAuthPoll => Need::Cap(Capability::Ssh),
        Endpoint::TransfersList => Need::Cap(Capability::Send),
        Endpoint::TransfersSend => Need::Cap(Capability::Send),
        Endpoint::TransfersHistory => Need::Cap(Capability::Send),
        Endpoint::SendConfig => Need::Cap(Capability::Send),
        Endpoint::SendSetConfig => Need::Cap(Capability::Send),
        Endpoint::DirectInvite => Need::Cap(Capability::NetworkInvite),
        Endpoint::DirectRequests => Need::Cap(Capability::NetworkAdmit),
        Endpoint::DirectFirewallShow => Need::Cap(Capability::StatusRead),
        Endpoint::DirectFirewallOff => Need::Cap(Capability::FirewallWrite),
        Endpoint::DirectFirewallAdd => Need::Cap(Capability::FirewallWrite),
        Endpoint::DirectFirewallReset => Need::Cap(Capability::FirewallWrite),
        Endpoint::DirectFirewallFlush => Need::Cap(Capability::FirewallWrite),
        Endpoint::DirectFirewallPending => Need::Cap(Capability::StatusRead),
        Endpoint::DirectFirewallAccept => Need::Cap(Capability::FirewallWrite),
        Endpoint::DirectFirewallReject => Need::Cap(Capability::FirewallWrite),
        Endpoint::DirectPolicyShow => Need::Cap(Capability::StatusRead),
        Endpoint::DirectPolicySet => Need::Cap(Capability::PolicyWrite),
        Endpoint::DirectPolicyClear => Need::Cap(Capability::PolicyWrite),
        Endpoint::DirectKeepAlive => Need::Cap(Capability::DataPlaneWrite),
        Endpoint::DirectConnect => Need::Cap(Capability::StatusRead),
        Endpoint::DirectConnectAllow => Need::Cap(Capability::StatusRead),
        Endpoint::DirectConnectPending => Need::Cap(Capability::StatusRead),
        Endpoint::DirectConnectRotate => Need::Cap(Capability::StatusRead),
        Endpoint::Enroll => Need::Elevated,
        Endpoint::NetworkJoin => Need::Elevated,
        Endpoint::NetworkLeave => Need::Elevated,
        Endpoint::NetworkUpgrade => Need::Elevated,
        Endpoint::Reset => Need::Elevated,
        Endpoint::ValidateConfig => Need::Cap(Capability::StatusRead),
        Endpoint::AuthLogin => Need::Cap(Capability::StatusRead),
        Endpoint::AuthLogout => Need::Cap(Capability::StatusRead),
        Endpoint::UpdateCheck => Need::Cap(Capability::StatusRead),
        Endpoint::Update => Need::Elevated,
        Endpoint::DeviceSetLabels => Need::Cap(Capability::DataPlaneWrite),
        Endpoint::DevicePatchLabels => Need::Cap(Capability::DataPlaneWrite),
        Endpoint::DeviceDeleteLabel => Need::Cap(Capability::DataPlaneWrite),
        Endpoint::DeviceAddTag => Need::Cap(Capability::DataPlaneWrite),
        Endpoint::DeviceRemoveTag => Need::Cap(Capability::DataPlaneWrite),
        Endpoint::DeviceSetExpiry => Need::Cap(Capability::DataPlaneWrite),
        Endpoint::DeviceInfo => Need::Cap(Capability::StatusRead),
        Endpoint::PostureStatus => Need::Cap(Capability::DiagRead),
        Endpoint::PostureCheck => Need::Cap(Capability::DiagRead),
        Endpoint::PolicyOp => Need::Cap(Capability::PolicyWrite),
        Endpoint::NetworkGet => Need::Cap(Capability::StatusRead),
        Endpoint::NetworkPeers => Need::Cap(Capability::StatusRead),
        Endpoint::NetworkRoutes => Need::Cap(Capability::RoutesRead),
        Endpoint::NetworkJoinRequests => Need::Cap(Capability::NetworkAdmit),
        Endpoint::NetworkJoinAccept => Need::Cap(Capability::NetworkAdmit),
        Endpoint::NetworkJoinDeny => Need::Cap(Capability::NetworkAdmit),
        Endpoint::NetworkFirewallShow => Need::Cap(Capability::StatusRead),
        Endpoint::Ping => Need::Cap(Capability::DiagRead),
        Endpoint::ServesOff => Need::Cap(Capability::Serve),
        Endpoint::TunnelsOff => Need::Cap(Capability::Tunnel),
        Endpoint::SshCast => Need::Cap(Capability::Ssh),
        Endpoint::TransfersAccept => Need::Cap(Capability::Send),
        Endpoint::TransfersReject => Need::Cap(Capability::Send),
        Endpoint::DirectAccept => Need::Cap(Capability::NetworkAdmit),
        Endpoint::DirectDeny => Need::Cap(Capability::NetworkAdmit),
        Endpoint::DirectKick => Need::Cap(Capability::NetworkAdmit),
        Endpoint::DirectFirewallRemove => Need::Cap(Capability::FirewallWrite),
        Endpoint::DirectConnectAccept => Need::Cap(Capability::NetworkAdmit),
        Endpoint::DirectConnectDeny => Need::Cap(Capability::NetworkAdmit),
        Endpoint::IdleMeta => Need::Cap(Capability::StatusRead),
        Endpoint::IdleNode => Need::Cap(Capability::StatusRead),
        Endpoint::IdleEvents => Need::Cap(Capability::EventsRead),
    }
}

pub fn required(e: Endpoint) -> (n: Need)
    ensures
        n == need_of(e),
{
    match e {
        Endpoint::Meta => Need::Cap(Capability::StatusRead),
        Endpoint::NodeSummary => Need::Cap(Capability::StatusRead),
        Endpoint::NetworksList => Need::Cap(Capability::StatusRead),
        Endpoint::NetworkCreate => Need::Elevated,
        Endpoint::EventsStream => Need::Cap(Capability::EventsRead),
        Endpoint::Dns => Need::Cap(Capability::DnsRead),
        Endpoint::RoutesList => Need::Cap(Capability::RoutesRead),
        Endpoint::RoutesAdd => Need::Cap(Capability::DataPlaneWrite),
        Endpoint::Diag => Need::Cap(Capability::DiagRead),
        Endpoint::AclDenies => Need::Cap(Capability::DiagRead),
        Endpoint::Netcheck => Need::Cap(Capability::DiagRead),
        Endpoint::Reload => Need::Cap(Capability::DataPlaneWrite),
        Endpoint::DataPlaneStatus => Need::Cap(Capability::StatusRead),
        Endpoint::DataPlaneUp => Need::Cap(Capability::DataPlaneWrite),
        Endpoint::DataPlaneDown => Need::Cap(Capability::DataPlaneWrite),
        Endpoint::ServesList => Need::Cap(Capability::Serve),
        Endpoint::ServesStart => Need::Cap(Capability::Serve),
        Endpoint::TunnelsList => Need::Cap(Capability::Tunnel),
        Endpoint::TunnelsStart => Need::Cap(Capability::Tunnel),
        Endpoint::SshSessions => Need::Cap(Capability::Ssh),
        Endpoint::SshRecordings => Need::Cap(Capability::Ssh),
        Endpoint::SshAuthPoll => Need::Cap(Capability::Ssh),
        Endpoint::TransfersList => Need::Cap(Capability::Send),
        Endpoint::TransfersSend => Need::Cap(Capability::Send),
        Endpoint::TransfersHistory => Need::Cap(Capability::Send),
        Endpoint::SendConfig => Need::Cap(Capability::Send),
        Endpoint::SendSetConfig => Need::Cap(Capability::Send),
        Endpoint::DirectInvite => Need::Cap(Capability::NetworkInvite),
        Endpoint::DirectRequests => Need::Cap(Capability::NetworkAdmit),
        Endpoint::DirectFirewallShow => Need::Cap(Capability::StatusRead),
        Endpoint::DirectFirewallOff => Need::Cap(Capability::FirewallWrite),
        Endpoint::DirectFirewallAdd => Need::Cap(Capability::FirewallWrite),
        Endpoint::DirectFirewallReset => Need::Cap(Capability::FirewallWrite),
        Endpoint::DirectFirewallFlush => Need::Cap(Capability::FirewallWrite),
        Endpoint::DirectFirewallPending => Need::Cap(Capability::StatusRead),
        Endpoint::DirectFirewallAccept => Need::Cap(Capability::FirewallWrite),
        Endpoint::DirectFirewallReject => Need::Cap(Capability::FirewallWrite),
        Endpoint::DirectPolicyShow => Need::Cap(Capability::StatusRead),
        Endpoint::DirectPolicySet => Need::Cap(Capability::PolicyWrite),
        Endpoint::DirectPolicyClear => Need::Cap(Capability::PolicyWrite),
        Endpoint::DirectKeepAlive => Need::Cap(Capability::DataPlaneWrite),
        Endpoint::DirectConnect => Need::Cap(Capability::StatusRead),
        Endpoint::DirectConnectAllow => Need::Cap(Capability::StatusRead),
        Endpoint::DirectConnectPending => Need::Cap(Capability::StatusRead),
        Endpoint::DirectConnectRotate => Need::Cap(Capability::StatusRead),
        Endpoint::Enroll => Need::Elevated,
        Endpoint::NetworkJoin => Need::Elevated,
        Endpoint::NetworkLeave => Need::Elevated,
        Endpoint::NetworkUpgrade => Need::Elevated,
        Endpoint::Reset => Need::Elevated,
        Endpoint::ValidateConfig => Need::Cap(Capability::StatusRead),
        Endpoint::AuthLogin => Need::Cap(Capability::StatusRead),
        Endpoint::AuthLogout => Need::Cap(Capability::StatusRead),
        Endpoint::UpdateCheck => Need::Cap(Capability::StatusRead),
        Endpoint::Update => Need::Elevated,
        Endpoint::DeviceSetLabels => Need::Cap(Capability::DataPlaneWrite),
        Endpoint::DevicePatchLabels => Need::Cap(Capability::DataPlaneWrite),
        Endpoint::DeviceDeleteLabel => Need::Cap(Capability::DataPlaneWrite),
        Endpoint::DeviceAddTag => Need::Cap(Capability::DataPlaneWrite),
        Endpoint::DeviceRemoveTag => Need::Cap(Capability::DataPlaneWrite),
        Endpoint::DeviceSetExpiry => Need::Cap(Capability::DataPlaneWrite),
        Endpoint::DeviceInfo => Need::Cap(Capability::StatusRead),
        Endpoint::PostureStatus => Need::Cap(Capability::DiagRead),
        Endpoint::PostureCheck => Need::Cap(Capability::DiagRead),
        Endpoint::PolicyOp => Need::Cap(Capability::PolicyWrite),
        Endpoint::NetworkGet => Need::Cap(Capability::StatusRead),
        Endpoint::NetworkPeers => Need::Cap(Capability::StatusRead),
        Endpoint::NetworkRoutes => Need::Cap(Capability::RoutesRead),
        Endpoint::NetworkJoinRequests => Need::Cap(Capability::NetworkAdmit),
        Endpoint::NetworkJoinAccept => Need::Cap(Capability::NetworkAdmit),
        Endpoint::NetworkJoinDeny => Need::Cap(Capability::NetworkAdmit),
        Endpoint::NetworkFirewallShow => Need::Cap(Capability::StatusRead),
        Endpoint::Ping => Need::Cap(Capability::DiagRead),
        Endpoint::ServesOff => Need::Cap(Capability::Serve),
        Endpoint::TunnelsOff => Need::Cap(Capability::Tunnel),
        Endpoint::SshCast => Need::Cap(Capability::Ssh),
        Endpoint::TransfersAccept => Need::Cap(Capability::Send),
        Endpoint::TransfersReject => Need::Cap(Capability::Send),
        Endpoint::DirectAccept => Need::Cap(Capability::NetworkAdmit),
        Endpoint::DirectDeny => Need::Cap(Capability::NetworkAdmit),
        Endpoint::DirectKick => Need::Cap(Capability::NetworkAdmit),
        Endpoint::DirectFirewallRemove => Need::Cap(Capability::FirewallWrite),
        Endpoint::DirectConnectAccept => Need::Cap(Capability::NetworkAdmit),
        Endpoint::DirectConnectDeny => Need::Cap(Capability::NetworkAdmit),
        Endpoint::IdleMeta => Need::Cap(Capability::StatusRead),
        Endpoint::IdleNode => Need::Cap(Capability::StatusRead),
        Endpoint::IdleEvents => Need::Cap(Capability::EventsRead),
    }
}

/// What a request to an agent needs that waits to be enrolled: its lifecycle may be
/// changed with a capability of its own.
pub open spec fn idle_need_of(e: Endpoint) -> Need {
    match e {
        Endpoint::NetworkCreate => Need::Cap(Capability::Lifecycle),
        Endpoint::Enroll => Need::Cap(Capability::Lifecycle),
        Endpoint::NetworkJoin => Need::Cap(Capability::Lifecycle),
        Endpoint::NetworkLeave => Need::Cap(Capability::Lifecycle),
        Endpoint::NetworkUpgrade => Need::Cap(Capability::Lifecycle),
        Endpoint::Reset => Need::Cap(Capability::Lifecycle),
        Endpoint::ValidateConfig => Need::Cap(Capability::StatusRead),
        Endpoint::AuthLogin => Need::Cap(Capability::StatusRead),
        Endpoint::AuthLogout => Need::Cap(Capability::StatusRead),
        Endpoint::UpdateCheck => Need::Cap(Capability::StatusRead),
        Endpoint::Update => Need::Elevated,
        Endpoint::IdleMeta => Need::Cap(Capability::StatusRead),
        Endpoint::IdleNode => Need::Cap(Capability::StatusRead),
        Endpoint::IdleEvents => Need::Cap(Capability::EventsRead),
        _ => need_of(e),
    }
}

pub fn idle_required(e: Endpoint) -> (n: Need)
    ensures
        n == idle_need_of(e),
{
    match e {
        Endpoint::NetworkCreate => Need::Cap(Capability::Lifecycle),
        Endpoint::Enroll => Need::Cap(Capability::Lifecycle),
        Endpoint::NetworkJoin => Need::Cap(Capability::Lifecycle),
        Endpoint::NetworkLeave => Need::Cap(Capability::Lifecycle),
        Endpoint::NetworkUpgrade => Need::Cap(Capability::Lifecycle),
        Endpoint::Reset => Need::Cap(Capability::Lifecycle),
        Endpoint::ValidateConfig => Need::Cap(Capability::StatusRead),
        Endpoint::AuthLogin => Need::Cap(Capability::StatusRead),
        Endpoint::AuthLogout => Need::Cap(Capability::StatusRead),
        Endpoint::UpdateCheck => Need::Cap(Capability::StatusRead),
        Endpoint::Update => Need::Elevated,
        Endpoint::IdleMeta => Need::Cap(Capability::StatusRead),
        Endpoint::IdleNode => Need::Cap(Capability::StatusRead),
        Endpoint::IdleEvents => Need::Cap(Capability::EventsRead),
        _ => required(e),
    }
}

#[derive(Debug, Clone, Copy, PartialEq, Eq, Structural)]
pub enum ApiErrorCode {
    DaemonNotRunning,
    DataPlaneDown,
    NotEnrolled,
    NotFound,
    Denied,
    InvalidRequest,
    Internal,
}

/// The HTTP status of an error.
pub open spec fn status_of(code: ApiErrorCode) -> u16 {
    match code {
        ApiErrorCode::DaemonNotRunning => 503,
        ApiErrorCode::DataPlaneDown => 503,
        ApiErrorCode::NotEnrolled => 409,
        ApiErrorCode::NotFound => 404,
        ApiErrorCode::Denied => 403,
        ApiErrorCode::InvalidRequest => 400,
        ApiErrorCode::Internal => 500,
    }
}

pub fn api_status(code: &ApiErrorCode) -> (s: u16)
    ensures
        s == status_of(*code),
{
    match code {
        ApiErrorCode::DaemonNotRunning => 503,
        ApiErrorCode::DataPlaneDown => 503,
        ApiErrorCode::NotEnrolled => 409,
        ApiErrorCode::NotFound => 404,
        ApiErrorCode::Denied => 403,
        ApiErrorCode::InvalidRequest => 400,
        ApiErrorCode::Internal => 500,
    }
}

} // verus!
