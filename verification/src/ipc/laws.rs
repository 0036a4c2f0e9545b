//! Which response a request is answered with.

use super::dispatch::{answers, plan_for, Outcome, Plan};
use super::protocol::{IpcRequest, IpcResponse};
use vstd::prelude::*;

verus! {

/// The request asks for what the agent knows: there is always an answer.
pub open spec fn cannot_fail(req: IpcRequest) -> bool {
    match req {
        IpcRequest::Status { .. } => true,
        IpcRequest::DnsStatus => true,
        IpcRequest::RouteList => true,
        IpcRequest::Diag => true,
        IpcRequest::Netcheck => true,
        IpcRequest::ServeStatus => true,
        IpcRequest::TunnelStatus => true,
        IpcRequest::SendList => true,
        IpcRequest::SendHistory => true,
        IpcRequest::SendConfig => true,
        IpcRequest::DataPlaneStatus => true,
        _ => false,
    }
}

/// What may come of performing a request.
pub open spec fn comes_of(req: IpcRequest, o: Outcome) -> bool {
    (o is Failed && !cannot_fail(req)) || match req {
        IpcRequest::Status { .. } => o is Status,
        IpcRequest::DnsStatus => o is DnsStatus,
        IpcRequest::RouteList => o is Routes,
        IpcRequest::RouteAdd { .. } => o is RouteAdded,
        IpcRequest::Ping { .. } => false,
        IpcRequest::Diag => o is Diag,
        IpcRequest::Netcheck => o is Netcheck,
        IpcRequest::ServeStart { .. } => o is Serve,
        IpcRequest::ServeStatus => o is Serves,
        IpcRequest::ServeOff { .. } => o is Serve,
        IpcRequest::TunnelStart { .. } => o is Tunnel,
        IpcRequest::TunnelStatus => o is Tunnels,
        IpcRequest::TunnelOff { .. } => o is Tunnel,
        IpcRequest::SshSessions { .. } => o is SshSessions,
        IpcRequest::SshRecordings { .. } => o is SshRecordings,
        IpcRequest::SshPlay { .. } => o is SshCast,
        IpcRequest::SshAuthPoll { .. } => o is SshAuthPoll,
        IpcRequest::SendFile { .. } => o is Transfers,
        IpcRequest::SendAccept { .. } => o is Transfer,
        IpcRequest::SendReject { .. } => o is TransferRejected,
        IpcRequest::SendList => o is TransferLists,
        IpcRequest::SendHistory => o is Transfers,
        IpcRequest::SendConfig => o is SendConfig,
        IpcRequest::SendSetConfig { .. } => o is SendConfig || o is Invalid,
        IpcRequest::DataPlaneStatus => o is DataPlaneIs,
        IpcRequest::DataPlaneUp => o is DataPlaneCameUp,
        IpcRequest::DataPlaneDown => o is DataPlaneWentDown,
        IpcRequest::DirectInvite { .. } => o is Invite,
        IpcRequest::DirectRequests { .. } => o is Pending,
        IpcRequest::DirectFirewallShow { .. } => o is Firewall,
        IpcRequest::DirectFirewallPending { .. } => o is FirewallPending,
        IpcRequest::DirectPolicyShow { .. } => o is Policy,
        IpcRequest::DirectConnectPending => o is ConnectPending,
        IpcRequest::DirectConnectRotate => o is Contact,
        _ => o is Message,
    }
}

/// The kind of response that a request calls for.
pub open spec fn is_reply_to(req: IpcRequest, r: IpcResponse) -> bool {
    match req {
        IpcRequest::Status { .. } => r is Status,
        IpcRequest::DnsStatus => r is DnsStatus,
        IpcRequest::RouteList => r is Routes,
        IpcRequest::RouteAdd { .. } => r is RouteAdded,
        IpcRequest::Ping { .. } => false,
        IpcRequest::Diag => r is Diag,
        IpcRequest::Netcheck => r is Netcheck,
        IpcRequest::ServeStart { .. } => r is Serve,
        IpcRequest::ServeStatus => r is Serves,
        IpcRequest::ServeOff { .. } => r is Serve,
        IpcRequest::TunnelStart { .. } => r is Tunnel,
        IpcRequest::TunnelStatus => r is Tunnels,
        IpcRequest::TunnelOff { .. } => r is Tunnel,
        IpcRequest::SshSessions { .. } => r is SshSessions,
        IpcRequest::SshRecordings { .. } => r is SshRecordings,
        IpcRequest::SshPlay { .. } => r is SshCast,
        IpcRequest::SshAuthPoll { .. } => r is SshAuthPoll,
        IpcRequest::SendFile { .. } => r is Transfers,
        IpcRequest::SendAccept { .. } => r is Transfer,
        IpcRequest::SendReject { .. } => r matches IpcResponse::Done { message } && message@
            == "rejected"@,
        IpcRequest::SendList => r is Transfers,
        IpcRequest::SendHistory => r is Transfers,
        IpcRequest::SendConfig => r is SendConfig,
        IpcRequest::SendSetConfig { .. } => r is SendConfig,
        IpcRequest::DataPlaneStatus => r is DataPlane,
        IpcRequest::DataPlaneUp => r matches IpcResponse::Done { message } && message@
            == "data plane up"@,
        IpcRequest::DataPlaneDown => r matches IpcResponse::Done { message } && message@
            == "data plane down"@,
        IpcRequest::DirectInvite { .. } => r is DirectInvite,
        IpcRequest::DirectRequests { .. } => r is DirectPending,
        IpcRequest::DirectFirewallShow { .. } => r is DirectFirewall,
        IpcRequest::DirectFirewallPending { .. } => r is DirectFirewallPending,
        IpcRequest::DirectPolicyShow { .. } => r is DirectPolicy,
        IpcRequest::DirectConnectPending => r is DirectConnectPending,
        IpcRequest::DirectConnectRotate => r is DirectContact,
        _ => r is Done,
    }
}

/// The response that a request gets: the planned one, or the one to what came of it.
pub open spec fn is_answered(req: IpcRequest, p: Plan, o: Outcome, r: IpcResponse) -> bool {
    &&& plan_for(req, p)
    &&& match p {
        Plan::Respond(x) => r == x,
        Plan::Perform(q) => comes_of(q, o) && answers(o, r),
    }
}

/// A request is answered with its own kind of response or with an error, and one that
/// asks for what the agent knows is never answered with an error.
pub proof fn law_request_fixes_response(req: IpcRequest, p: Plan, o: Outcome, r: IpcResponse)
    requires
        is_answered(req, p, o, r),
    ensures
        is_reply_to(req, r) || (r is Error && !cannot_fail(req)),
        r is Error ==> p is Respond || o is Failed || o is Invalid,
{
}

} // verus!
