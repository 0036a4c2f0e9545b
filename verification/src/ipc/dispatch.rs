//! From a request to what the agent has to do, and from what came of it to the response.

use super::errors::{code_for, failed};
use super::order::{is_before, lemma_before_order, text_before};
use super::protocol::{
    DiagInfo, DirectConnectPendingInfo, DirectFirewallRuleInfo, DirectPendingInfo, DnsStatusInfo,
    IpcErrorCode, IpcRequest, IpcResponse, NetcheckInfo, RoutesInfo, SendConfigInfo, ServeInfo,
    SshRecordingInfo, SshSessionInfo, StatusInfo, TransferInfo, TunnelInfo,
};
use crate::text::same_text;
use vstd::prelude::*;
use vstd::string::*;

verus! {

/// The canonical form of an IPv4 block, or what is wrong with it.
pub uninterp spec fn cidr_of(text: Seq<char>) -> Result<Seq<char>, Seq<char>>;

/// A text or a message by its characters.
pub open spec fn result_text(r: Result<String, String>) -> Result<Seq<char>, Seq<char>> {
    match r {
        Ok(s) => Ok(s@),
        Err(s) => Err(s@),
    }
}

/// `ipnet::Ipv4Net`'s `FromStr` reads a block, and its `Display` writes it in canonical
/// form; what is no block gives the message of the error.
#[verifier::external_body]
fn parse_cidr(text: &str) -> (r: Result<String, String>)
    ensures
        result_text(r) == cidr_of(text@),
{
    match text.parse::<ipnet::Ipv4Net>() {
        Ok(net) => Ok(net.to_string()),
        Err(e) => Err(e.to_string()),
    }
}

/// What becomes of a request.
#[derive(Debug)]
pub enum Plan {
    /// It is answered at once.
    Respond(IpcResponse),
    /// The agent performs it.
    Perform(IpcRequest),
}

/// A request to advertise a route, once its block was read.
pub open spec fn route_plan(
    cidr: Result<Seq<char>, Seq<char>>,
    description: Option<String>,
    p: Plan,
) -> bool {
    match cidr {
        Ok(c) => p matches Plan::Perform(IpcRequest::RouteAdd { cidr: d, description: e }) && d@
            == c && e == description,
        Err(m) => p matches Plan::Respond(IpcResponse::Error { code, message }) && code
            == IpcErrorCode::InvalidRequest && message@ == "invalid cidr: "@ + m,
    }
}

/// Plans a route whose block was read.
pub fn plan_route(cidr: Result<String, String>, description: Option<String>) -> (p: Plan)
    ensures
        route_plan(result_text(cidr), description, p),
{
    match cidr {
        Ok(cidr) => Plan::Perform(IpcRequest::RouteAdd { cidr, description }),
        Err(m) => {
            let mut message: String = "invalid cidr: ".to_owned();
            message.append(m.as_str());
            Plan::Respond(IpcResponse::Error { code: IpcErrorCode::InvalidRequest, message })
        },
    }
}

/// What becomes of a request: a route is advertised in canonical form or refused; a ping
/// is no single request and is refused here; everything else is performed as it is.
pub open spec fn plan_for(req: IpcRequest, p: Plan) -> bool {
    match req {
        IpcRequest::RouteAdd { cidr, description } => route_plan(cidr_of(cidr@), description, p),
        IpcRequest::Ping { .. } => p matches Plan::Respond(IpcResponse::Error { code, message })
            && code == IpcErrorCode::Internal && message@
            == "internal: request should have been handled specially"@,
        _ => p == Plan::Perform(req),
    }
}

pub fn plan(req: IpcRequest) -> (p: Plan)
    ensures
        plan_for(req, p),
{
    match req {
        IpcRequest::RouteAdd { cidr, description } => {
            let r = parse_cidr(cidr.as_str());
            plan_route(r, description)
        },
        IpcRequest::Ping { .. } => Plan::Respond(
            IpcResponse::Error {
                code: IpcErrorCode::Internal,
                message: "internal: request should have been handled specially".to_owned(),
            },
        ),
        other => Plan::Perform(other),
    }
}

/// What came of a request.
#[allow(inconsistent_fields)]
#[derive(Debug)]
pub enum Outcome {
    Failed { message: String },
    /// The request itself is not valid.
    Invalid { message: String },
    Message { message: String },
    Status(StatusInfo),
    DnsStatus(DnsStatusInfo),
    Routes(RoutesInfo),
    RouteAdded { cidr: String },
    Diag(DiagInfo),
    Netcheck(NetcheckInfo),
    Serve(ServeInfo),
    Serves(Vec<ServeInfo>),
    Tunnel(TunnelInfo),
    Tunnels(Vec<TunnelInfo>),
    SshSessions(Vec<SshSessionInfo>),
    SshRecordings(Vec<SshRecordingInfo>),
    SshCast { session_id: String, cast_text: String, content_sha256: String },
    SshAuthPoll { status: String, proof_token: Option<String> },
    Transfer(TransferInfo),
    Transfers(Vec<TransferInfo>),
    /// The active transfers and those that wait for consent.
    TransferLists { active: Vec<TransferInfo>, pending: Vec<TransferInfo> },
    TransferRejected,
    SendConfig(SendConfigInfo),
    DataPlaneIs { up: bool },
    DataPlaneCameUp,
    DataPlaneWentDown,
    Invite { code: String },
    Pending(Vec<DirectPendingInfo>),
    Firewall {
        enabled: bool,
        rules: Vec<DirectFirewallRuleInfo>,
        conntrack_entries: usize,
        packets_allowed: u64,
        packets_denied: u64,
        packets_rejected: u64,
        suggested_rules: usize,
    },
    FirewallPending { pending: Option<String> },
    Policy { json: Option<String> },
    ConnectPending(Vec<DirectConnectPendingInfo>),
    Contact { contact_id: String },
}

/// The first transfer with an id.
pub open spec fn first_with(s: Seq<TransferInfo>, id: Seq<char>, t: TransferInfo) -> bool {
    exists|i: int|
        0 <= i < s.len() && #[trigger] s[i] == t && t.transfer_id@ == id && forall|j: int|
            0 <= j < i ==> (#[trigger] s[j]).transfer_id@ != id
}

/// Some transfer has the id.
pub open spec fn has_transfer(s: Seq<TransferInfo>, id: Seq<char>) -> bool {
    exists|i: int| 0 <= i < s.len() && (#[trigger] s[i]).transfer_id@ == id
}

pub open spec fn id_order(s: Seq<TransferInfo>) -> bool {
    forall|i: int, j: int|
        #![trigger s[i], s[j]]
        0 <= i < j < s.len() ==> text_before(s[i].transfer_id@, s[j].transfer_id@)
}

/// The transfers of a list in the order of their ids, each id once, with the transfer
/// that has it first.
pub open spec fn merged(from: Seq<TransferInfo>, to: Seq<TransferInfo>) -> bool {
    &&& id_order(to)
    &&& forall|i: int|
        0 <= i < to.len() ==> first_with(from, (#[trigger] to[i]).transfer_id@, to[i])
    &&& forall|i: int| 0 <= i < from.len() ==> has_transfer(to, (#[trigger] from[i]).transfer_id@)
}

fn put_transfer(v: &mut Vec<TransferInfo>, t: TransferInfo, Ghost(from): Ghost<Seq<TransferInfo>>)
    requires
        merged(from, old(v)@),
    ensures
        merged(from.push(t), final(v)@),
{
    let ghost was = v@;
    let ghost id = t.transfer_id@;
    let mut i: usize = 0;
    while i < v.len() && is_before(v[i].transfer_id.as_str(), t.transfer_id.as_str())
        invariant
            v@ == was,
            id == t.transfer_id@,
            i <= was.len(),
            forall|j: int| 0 <= j < i ==> text_before((#[trigger] was[j]).transfer_id@, id),
        decreases v.len() - i,
    {
        i += 1;
    }
    let ghost all = from.push(t);
    proof {
        // Earlier entries stay the first with their ids.
        assert forall|x: TransferInfo, k: Seq<char>|
            first_with(from, k, x) implies #[trigger] first_with(all, k, x) by {
            let n = choose|n: int|
                0 <= n < from.len() && #[trigger] from[n] == x && x.transfer_id@ == k && forall|
                    j: int,
                |
                    0 <= j < n ==> (#[trigger] from[j]).transfer_id@ != k;
            assert(all[n] == x);
            assert forall|j: int| 0 <= j < n implies (#[trigger] all[j]).transfer_id@ != k by {
                assert(from[j].transfer_id@ != k);
            }
        }
    }
    if i < v.len() && same_text(v[i].transfer_id.as_str(), t.transfer_id.as_str()) {
        proof {
            assert forall|n: int| 0 <= n < all.len() implies has_transfer(
                was,
                (#[trigger] all[n]).transfer_id@,
            ) by {
                if n < from.len() {
                    assert(all[n] == from[n]);
                    assert(has_transfer(was, from[n].transfer_id@));
                } else {
                    assert(was[i as int].transfer_id@ == id);
                }
            }
            assert forall|n: int| 0 <= n < was.len() implies first_with(
                all,
                (#[trigger] was[n]).transfer_id@,
                was[n],
            ) by {
                assert(first_with(from, was[n].transfer_id@, was[n]));
            }
        }
        return;
    }
    let ghost e = t;
    v.insert(i, t);
    proof {
        let now = v@;
        // No earlier transfer has the id.
        assert forall|n: int| 0 <= n < from.len() implies (#[trigger] from[n]).transfer_id@ != id by {
            if from[n].transfer_id@ == id {
                assert(has_transfer(was, id));
                let q = choose|q: int| 0 <= q < was.len() && (#[trigger] was[q]).transfer_id@ == id;
                lemma_before_order(id, id, id);
                if q < i {
                    assert(text_before(was[q].transfer_id@, id));
                } else if q > i {
                    assert(text_before(was[i as int].transfer_id@, was[q].transfer_id@));
                    lemma_before_order(was[i as int].transfer_id@, id, id);
                }
            }
        }
        assert(first_with(all, id, e)) by {
            assert(all[from.len() as int] == e);
            assert forall|j: int| 0 <= j < from.len() implies (#[trigger] all[j]).transfer_id@
                != id by {
                assert(all[j] == from[j]);
            }
        }
        assert forall|a: int, b: int|
            #![trigger now[a], now[b]]
            0 <= a < b < now.len() implies text_before(
            now[a].transfer_id@,
            now[b].transfer_id@,
        ) by {
            if a == i {
                assert(now[b] == was[b - 1]);
                lemma_before_order(was[i as int].transfer_id@, id, id);
                lemma_before_order(id, was[i as int].transfer_id@, was[b - 1].transfer_id@);
                if b - 1 > i {
                    assert(text_before(was[i as int].transfer_id@, was[b - 1].transfer_id@));
                }
            } else if b == i {
                assert(now[a] == was[a]);
            } else {
                let x = if a < i {
                    a
                } else {
                    a - 1
                };
                let y = if b < i {
                    b
                } else {
                    b - 1
                };
                assert(now[a] == was[x] && now[b] == was[y]);
            }
        }
        assert forall|n: int| 0 <= n < now.len() implies first_with(
            all,
            (#[trigger] now[n]).transfer_id@,
            now[n],
        ) by {
            if n != i {
                let x = if n < i {
                    n
                } else {
                    n - 1
                };
                assert(now[n] == was[x]);
                assert(first_with(from, was[x].transfer_id@, was[x]));
            }
        }
        assert forall|n: int| 0 <= n < all.len() implies has_transfer(
            now,
            (#[trigger] all[n]).transfer_id@,
        ) by {
            if n < from.len() {
                assert(all[n] == from[n]);
                let q = choose|q: int|
                    0 <= q < was.len() && (#[trigger] was[q]).transfer_id@ == from[n].transfer_id@;
                let y = if q < i {
                    q
                } else {
                    q + 1
                };
                assert(now[y] == was[q]);
            } else {
                assert(now[i as int].transfer_id@ == id);
            }
        }
    }
}

/// The active transfers and those that wait for consent, in the order of their ids; a
/// transfer that is in both lists is given as the active one.
pub fn merge_transfers(active: Vec<TransferInfo>, pending: Vec<TransferInfo>) -> (v: Vec<
    TransferInfo,
>)
    ensures
        merged(active@ + pending@, v@),
{
    let ghost all = active@ + pending@;
    let mut v: Vec<TransferInfo> = Vec::new();
    let mut rest = active;
    let ghost mut n: int = 0;
    assert(all.take(0) =~= Seq::<TransferInfo>::empty());
    while rest.len() > 0
        invariant
            all == active@ + pending@,
            0 <= n <= active@.len(),
            rest@ == active@.skip(n),
            merged(all.take(n), v@),
        decreases rest@.len(),
    {
        proof {
            assert(rest@[0] == all[n]);
            assert(all.take(n + 1) =~= all.take(n).push(all[n]));
        }
        let t = rest.remove(0);
        assert(rest@ =~= active@.skip(n + 1));
        put_transfer(&mut v, t, Ghost(all.take(n)));
        proof {
            n = n + 1;
        }
    }
    let mut rest = pending;
    assert(rest@ =~= pending@.skip(n - active@.len()));
    while rest.len() > 0
        invariant
            all == active@ + pending@,
            active@.len() <= n <= all.len(),
            rest@ == pending@.skip(n - active@.len()),
            merged(all.take(n), v@),
        decreases rest@.len(),
    {
        proof {
            assert(rest@[0] == all[n]);
            assert(all.take(n + 1) =~= all.take(n).push(all[n]));
        }
        let t = rest.remove(0);
        assert(rest@ =~= pending@.skip(n + 1 - active@.len()));
        put_transfer(&mut v, t, Ghost(all.take(n)));
        proof {
            n = n + 1;
        }
    }
    assert(all.take(n) =~= all);
    v
}

/// The response that an outcome calls for.
pub open spec fn answers(o: Outcome, r: IpcResponse) -> bool {
    match o {
        Outcome::Failed { message } => r == (IpcResponse::Error {
            code: code_for(message@),
            message,
        }),
        Outcome::Invalid { message } => r == (IpcResponse::Error {
            code: IpcErrorCode::InvalidRequest,
            message,
        }),
        Outcome::Message { message } => r == (IpcResponse::Done { message }),
        Outcome::Status(x) => r == IpcResponse::Status(x),
        Outcome::DnsStatus(x) => r == IpcResponse::DnsStatus(x),
        Outcome::Routes(x) => r == IpcResponse::Routes(x),
        Outcome::RouteAdded { cidr } => r == (IpcResponse::RouteAdded { cidr }),
        Outcome::Diag(x) => r == IpcResponse::Diag(x),
        Outcome::Netcheck(x) => r == IpcResponse::Netcheck(x),
        Outcome::Serve(x) => r == IpcResponse::Serve(x),
        Outcome::Serves(serves) => r == (IpcResponse::Serves { serves }),
        Outcome::Tunnel(x) => r == IpcResponse::Tunnel(x),
        Outcome::Tunnels(tunnels) => r == (IpcResponse::Tunnels { tunnels }),
        Outcome::SshSessions(sessions) => r == (IpcResponse::SshSessions { sessions }),
        Outcome::SshRecordings(recordings) => r == (IpcResponse::SshRecordings { recordings }),
        Outcome::SshCast { session_id, cast_text, content_sha256 } => r == (IpcResponse::SshCast {
            session_id,
            cast_text,
            content_sha256,
        }),
        Outcome::SshAuthPoll { status, proof_token } => r == (IpcResponse::SshAuthPoll {
            status,
            proof_token,
        }),
        Outcome::Transfer(x) => r == IpcResponse::Transfer(x),
        Outcome::Transfers(transfers) => r == (IpcResponse::Transfers { transfers }),
        Outcome::TransferLists { active, pending } => r matches IpcResponse::Transfers { transfers }
            && merged(active@ + pending@, transfers@),
        Outcome::TransferRejected => r matches IpcResponse::Done { message } && message@
            == "rejected"@,
        Outcome::SendConfig(x) => r == IpcResponse::SendConfig(x),
        Outcome::DataPlaneIs { up } => r == (IpcResponse::DataPlane { up }),
        Outcome::DataPlaneCameUp => r matches IpcResponse::Done { message } && message@
            == "data plane up"@,
        Outcome::DataPlaneWentDown => r matches IpcResponse::Done { message } && message@
            == "data plane down"@,
        Outcome::Invite { code } => r == (IpcResponse::DirectInvite { code }),
        Outcome::Pending(requests) => r == (IpcResponse::DirectPending { requests }),
        Outcome::Firewall {
            enabled,
            rules,
            conntrack_entries,
            packets_allowed,
            packets_denied,
            packets_rejected,
            suggested_rules,
        } => r == (IpcResponse::DirectFirewall {
            enabled,
            rules,
            conntrack_entries,
            packets_allowed,
            packets_denied,
            packets_rejected,
            suggested_rules,
        }),
        Outcome::FirewallPending { pending } => r == (IpcResponse::DirectFirewallPending {
            pending,
        }),
        Outcome::Policy { json } => r == (IpcResponse::DirectPolicy { json }),
        Outcome::ConnectPending(requests) => r == (IpcResponse::DirectConnectPending { requests }),
        Outcome::Contact { contact_id } => r == (IpcResponse::DirectContact { contact_id }),
    }
}

/// The response to a request, from what came of it.
pub fn respond(o: Outcome) -> (r: IpcResponse)
    ensures
        answers(o, r),
{
    match o {
        Outcome::Failed { message } => failed(message),
        Outcome::Invalid { message } => IpcResponse::Error {
            code: IpcErrorCode::InvalidRequest,
            message,
        },
        Outcome::Message { message } => IpcResponse::Done { message },
        Outcome::Status(x) => IpcResponse::Status(x),
        Outcome::DnsStatus(x) => IpcResponse::DnsStatus(x),
        Outcome::Routes(x) => IpcResponse::Routes(x),
        Outcome::RouteAdded { cidr } => IpcResponse::RouteAdded { cidr },
        Outcome::Diag(x) => IpcResponse::Diag(x),
        Outcome::Netcheck(x) => IpcResponse::Netcheck(x),
        Outcome::Serve(x) => IpcResponse::Serve(x),
        Outcome::Serves(serves) => IpcResponse::Serves { serves },
        Outcome::Tunnel(x) => IpcResponse::Tunnel(x),
        Outcome::Tunnels(tunnels) => IpcResponse::Tunnels { tunnels },
        Outcome::SshSessions(sessions) => IpcResponse::SshSessions { sessions },
        Outcome::SshRecordings(recordings) => IpcResponse::SshRecordings { recordings },
        Outcome::SshCast { session_id, cast_text, content_sha256 } => IpcResponse::SshCast {
            session_id,
            cast_text,
            content_sha256,
        },
        Outcome::SshAuthPoll { status, proof_token } => IpcResponse::SshAuthPoll {
            status,
            proof_token,
        },
        Outcome::Transfer(x) => IpcResponse::Transfer(x),
        Outcome::Transfers(transfers) => IpcResponse::Transfers { transfers },
        Outcome::TransferLists { active, pending } => IpcResponse::Transfers {
            transfers: merge_transfers(active, pending),
        },
        Outcome::TransferRejected => IpcResponse::Done { message: "rejected".to_owned() },
        Outcome::SendConfig(x) => IpcResponse::SendConfig(x),
        Outcome::DataPlaneIs { up } => IpcResponse::DataPlane { up },
        Outcome::DataPlaneCameUp => IpcResponse::Done { message: "data plane up".to_owned() },
        Outcome::DataPlaneWentDown => IpcResponse::Done { message: "data plane down".to_owned() },
        Outcome::Invite { code } => IpcResponse::DirectInvite { code },
        Outcome::Pending(requests) => IpcResponse::DirectPending { requests },
        Outcome::Firewall {
            enabled,
            rules,
            conntrack_entries,
            packets_allowed,
            packets_denied,
            packets_rejected,
            suggested_rules,
        } => IpcResponse::DirectFirewall {
            enabled,
            rules,
            conntrack_entries,
            packets_allowed,
            packets_denied,
            packets_rejected,
            suggested_rules,
        },
        Outcome::FirewallPending { pending } => IpcResponse::DirectFirewallPending { pending },
        Outcome::Policy { json } => IpcResponse::DirectPolicy { json },
        Outcome::ConnectPending(requests) => IpcResponse::DirectConnectPending { requests },
        Outcome::Contact { contact_id } => IpcResponse::DirectContact { contact_id },
    }
}

} // verus!
