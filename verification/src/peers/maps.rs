//! The registries: transports by endpoint, memberships by endpoint and network.

use super::transport::PeerTransportState;
use crate::endpoint::EndpointId;
use crate::pool::records::lists;
use vstd::prelude::*;

verus! {

/// Per-network peer identity: who this endpoint is in one network.
#[derive(Debug)]
pub struct PeerIdentity {
    pub endpoint: EndpointId,
    pub endpoint_hex: String,
    pub hostname: String,
    pub ip: u32,
    pub tags: Vec<String>,
    pub network_id: u128,
    pub network_name: String,
}

/// Per-(endpoint, network) membership state.
#[derive(Debug)]
pub struct PeerMembershipState {
    /// Tells this membership apart from every other one that there was.
    pub id: u64,
    pub identity: PeerIdentity,
    /// The place of the network's firewall slot; none before it is linked.
    pub policy: Option<usize>,
    /// The DRR quantum of the membership's scheduler.
    pub quantum: usize,
    pub pump_running: bool,
    /// Neither revoked nor without a connection since it last had one.
    pub active: bool,
    /// Bumped when this membership is revoked: its pump drains and exits, and its readers
    /// see the change.
    pub epoch: u64,
}

pub type MemberKey = (EndpointId, u128);

/// The transports that a map holds.
pub uninterp spec fn transports_of(m: dashmap::DashMap<(u128, u128), PeerTransportState>) -> Map<
    (u128, u128),
    PeerTransportState,
>;

pub open spec fn no_transports() -> Map<EndpointId, PeerTransportState> {
    Map::empty()
}

/// `DashMap::new` makes an empty map.
#[verifier::external_body]
pub(crate) fn transports_new() -> (m: dashmap::DashMap<(u128, u128), PeerTransportState>)
    ensures
        transports_of(m) == no_transports(),
{
    dashmap::DashMap::new()
}

/// `DashMap::get` finds the value of a key; it is copied out of the guard.
#[verifier::external_body]
pub(crate) fn transports_get(
    m: &dashmap::DashMap<(u128, u128), PeerTransportState>,
    peer: (u128, u128),
) -> (r: Option<PeerTransportState>)
    ensures
        r == (if transports_of(*m).dom().contains(peer) {
            Some(transports_of(*m)[peer])
        } else {
            None
        }),
{
    m.get(&peer).map(|e| *e)
}

/// `DashMap::insert` sets the value of a key, and leaves the other keys alone.
#[verifier::external_body]
pub(crate) fn transports_put(
    m: &mut dashmap::DashMap<(u128, u128), PeerTransportState>,
    peer: (u128, u128),
    t: PeerTransportState,
)
    ensures
        transports_of(*final(m)) == transports_of(*old(m)).insert(peer, t),
{
    m.insert(peer, t);
}

/// `DashMap::remove` removes a key, and leaves the other keys alone.
#[verifier::external_body]
pub(crate) fn transports_remove(
    m: &mut dashmap::DashMap<(u128, u128), PeerTransportState>,
    peer: (u128, u128),
)
    ensures
        transports_of(*final(m)) == transports_of(*old(m)).remove(peer),
{
    m.remove(&peer);
}

/// `DashMap::iter` walks the entries, each once and in no fixed order; the keys are
/// copied out.
#[verifier::external_body]
pub(crate) fn transports_keys(m: &dashmap::DashMap<(u128, u128), PeerTransportState>) -> (v: Vec<
    (u128, u128),
>)
    ensures
        lists(v@, transports_of(*m)),
{
    m.iter().map(|e| *e.key()).collect()
}

/// The memberships that a map holds.
pub uninterp spec fn members_of(
    m: dashmap::DashMap<((u128, u128), u128), PeerMembershipState>,
) -> Map<((u128, u128), u128), PeerMembershipState>;

pub open spec fn no_members() -> Map<MemberKey, PeerMembershipState> {
    Map::empty()
}

/// The keys of a map of memberships, each once.
pub open spec fn lists_members(keys: Seq<MemberKey>, m: Map<MemberKey, PeerMembershipState>) -> bool {
    keys.no_duplicates() && forall|k: MemberKey| #[trigger]
        m.dom().contains(k) == keys.contains(k)
}

/// `DashMap::new` makes an empty map.
#[verifier::external_body]
pub(crate) fn members_new() -> (m: dashmap::DashMap<((u128, u128), u128), PeerMembershipState>)
    ensures
        members_of(m) == no_members(),
{
    dashmap::DashMap::new()
}

/// `DashMap::remove` removes a key, hands out its value, and leaves the other keys alone.
#[verifier::external_body]
pub(crate) fn members_take(
    m: &mut dashmap::DashMap<((u128, u128), u128), PeerMembershipState>,
    key: ((u128, u128), u128),
) -> (r: Option<PeerMembershipState>)
    ensures
        members_of(*final(m)) == members_of(*old(m)).remove(key),
        r == (if members_of(*old(m)).dom().contains(key) {
            Some(members_of(*old(m))[key])
        } else {
            None
        }),
{
    m.remove(&key).map(|e| e.1)
}

/// `DashMap::insert` sets the value of a key, and leaves the other keys alone.
#[verifier::external_body]
pub(crate) fn members_put(
    m: &mut dashmap::DashMap<((u128, u128), u128), PeerMembershipState>,
    key: ((u128, u128), u128),
    s: PeerMembershipState,
)
    ensures
        members_of(*final(m)) == members_of(*old(m)).insert(key, s),
{
    m.insert(key, s);
}

/// `DashMap::contains_key` tells whether a key has a value.
#[verifier::external_body]
pub(crate) fn members_has(
    m: &dashmap::DashMap<((u128, u128), u128), PeerMembershipState>,
    key: ((u128, u128), u128),
) -> (b: bool)
    ensures
        b == members_of(*m).dom().contains(key),
{
    m.contains_key(&key)
}

/// `DashMap::iter` walks the entries, each once and in no fixed order; the keys are
/// copied out.
#[verifier::external_body]
pub(crate) fn members_keys(
    m: &dashmap::DashMap<((u128, u128), u128), PeerMembershipState>,
) -> (v: Vec<((u128, u128), u128)>)
    ensures
        lists_members(v@, members_of(*m)),
{
    m.iter().map(|e| *e.key()).collect()
}

} // verus!
