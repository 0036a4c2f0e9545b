//! The peer registry: who is connected, and which networks they are in.

use super::maps::{
    lists_members, members_has, members_keys, members_new, members_of, members_put, members_take,
    no_members, no_transports, transports_get, transports_keys, transports_new, transports_of,
    transports_put, transports_remove, MemberKey, PeerIdentity, PeerMembershipState,
};
use super::transport::{
    measured, new_transport, quantum_for, retuned_quantum, Measured, PeerTransportState,
    DEFAULT_QUANTUM,
};
use crate::chance::random_u32;
use crate::endpoint::EndpointId;
use crate::policy::runtime::PolicyRuntime;
use crate::pool::model::plus;
use crate::pool::records::lists;
use crate::pool::slot::bump;
use vstd::prelude::*;

verus! {

pub struct PeerRegistry {
    pub transports: dashmap::DashMap<(u128, u128), PeerTransportState>,
    pub memberships: dashmap::DashMap<((u128, u128), u128), PeerMembershipState>,
    /// Bytes that all reassembly tables hold together.
    pub reassembly_budget: u64,
    /// The id of the next membership.
    pub next_id: u64,
}

/// What left the registry: memberships, deactivated, and connections to close.
pub struct Departed {
    pub members: Vec<PeerMembershipState>,
    pub close: Vec<u64>,
}

/// A deactivated membership: the epoch of an active one is bumped; one that is inactive
/// stays as it is.
pub open spec fn deactivated(m: PeerMembershipState) -> PeerMembershipState {
    if m.active {
        PeerMembershipState { active: false, epoch: plus(m.epoch, 1), ..m }
    } else {
        m
    }
}

impl PeerMembershipState {
    /// Hard-deactivate this membership: its pump drains and exits, and its readers see the
    /// change. The shared transport is left alone. Idempotent.
    pub fn deactivate(&mut self)
        ensures
            *final(self) == deactivated(*old(self)),
    {
        if self.active {
            self.active = false;
            self.epoch = bump(self.epoch, 1);
        }
    }
}

/// A new membership.
pub open spec fn is_new_member(m: PeerMembershipState, id: u64, identity: PeerIdentity) -> bool {
    m == (PeerMembershipState {
        id,
        identity,
        policy: None,
        quantum: DEFAULT_QUANTUM,
        pump_running: false,
        active: true,
        epoch: 0,
    })
}

/// The memberships that leave, deactivated.
pub open spec fn leaving(
    m: Map<MemberKey, PeerMembershipState>,
    keys: Seq<MemberKey>,
    goes: spec_fn(MemberKey) -> bool,
) -> Seq<PeerMembershipState>
    decreases keys.len(),
{
    if keys.len() == 0 {
        Seq::empty()
    } else {
        let rest = leaving(m, keys.drop_last(), goes);
        if goes(keys.last()) {
            rest.push(deactivated(m[keys.last()]))
        } else {
            rest
        }
    }
}

/// The connections of the transports that leave.
pub open spec fn leaving_conns(
    t: Map<EndpointId, PeerTransportState>,
    keys: Seq<EndpointId>,
    goes: spec_fn(EndpointId) -> bool,
) -> Seq<u64>
    decreases keys.len(),
{
    if keys.len() == 0 {
        Seq::empty()
    } else {
        let rest = leaving_conns(t, keys.drop_last(), goes);
        if goes(keys.last()) && t[keys.last()].conn is Some {
            rest.push(t[keys.last()].conn->Some_0)
        } else {
            rest
        }
    }
}

/// What is left of a map when some keys leave.
pub open spec fn staying<K, V>(m: Map<K, V>, goes: spec_fn(K) -> bool) -> Map<K, V> {
    Map::new(|k: K| m.dom().contains(k) && !goes(k), |k: K| m[k])
}

/// The endpoint has exactly one membership, in this network.
pub open spec fn sole_network(
    m: Map<MemberKey, PeerMembershipState>,
    peer: EndpointId,
    network: u128,
) -> bool {
    m.dom().contains((peer, network)) && forall|n: u128| #[trigger]
        m.dom().contains((peer, n)) ==> n == network
}

/// The endpoint has a membership.
pub open spec fn has_membership(m: Map<MemberKey, PeerMembershipState>, peer: EndpointId) -> bool {
    exists|n: u128| #[trigger] m.dom().contains((peer, n))
}

fn same_endpoint(a: EndpointId, b: EndpointId) -> (r: bool)
    ensures
        r == (a == b),
{
    a.0 == b.0 && a.1 == b.1
}

fn key_in(v: &[MemberKey], k: MemberKey) -> (b: bool)
    ensures
        b == v@.contains(k),
{
    let mut i: usize = 0;
    while i < v.len()
        invariant
            i <= v@.len(),
            forall|j: int| 0 <= j < i ==> v@[j] != k,
        decreases v.len() - i,
    {
        if same_endpoint(v[i].0, k.0) && v[i].1 == k.1 {
            return true;
        }
        i += 1;
    }
    false
}

fn endpoint_in(v: &[EndpointId], p: EndpointId) -> (b: bool)
    ensures
        b == v@.contains(p),
{
    let mut i: usize = 0;
    while i < v.len()
        invariant
            i <= v@.len(),
            forall|j: int| 0 <= j < i ==> v@[j] != p,
        decreases v.len() - i,
    {
        if same_endpoint(v[i], p) {
            return true;
        }
        i += 1;
    }
    false
}

proof fn lemma_member_not_yet(keys: Seq<MemberKey>, i: int)
    requires
        keys.no_duplicates(),
        0 <= i < keys.len(),
    ensures
        !keys.take(i).contains(keys[i]),
{
    if keys.take(i).contains(keys[i]) {
        let j = choose|j: int| 0 <= j < i && keys.take(i)[j] == keys[i];
        assert(keys[j] == keys[i]);
    }
}

proof fn lemma_grow<K>(keys: Seq<K>, i: int, k: K)
    requires
        0 <= i < keys.len(),
    ensures
        keys.take(i + 1).contains(k) == (keys.take(i).contains(k) || k == keys[i]),
        keys.take(i + 1).drop_last() == keys.take(i),
        keys.take(i + 1).last() == keys[i],
{
    let a = keys.take(i);
    let b = keys.take(i + 1);
    assert(b.drop_last() =~= a);
    if a.contains(k) {
        let j = choose|j: int| 0 <= j < a.len() && a[j] == k;
        assert(b[j] == k);
    }
    if b.contains(k) {
        let j = choose|j: int| 0 <= j < b.len() && b[j] == k;
        if j < i {
            assert(a[j] == k);
        }
    }
    assert(b[i] == keys[i]);
}

/// The registry after the transport of an endpoint was looked up or made.
pub open spec fn transport_ensured(
    before: PeerRegistry,
    after: PeerRegistry,
    endpoint: EndpointId,
    now_ms: u64,
    frame_id: u32,
    t: PeerTransportState,
) -> bool {
    &&& after.members() == before.members()
    &&& after.next_id == before.next_id
    &&& after.reassembly_budget == before.reassembly_budget
    &&& t == (if before.links().dom().contains(endpoint) {
        before.links()[endpoint]
    } else {
        new_transport(endpoint, now_ms, frame_id)
    })
    &&& after.links() == before.links().insert(endpoint, t)
}

/// The registry after the membership of an identity was refreshed or made.
pub open spec fn membership_ensured(
    before: PeerRegistry,
    after: PeerRegistry,
    identity: PeerIdentity,
    now_ms: u64,
    frame_id: u32,
    id: u64,
) -> bool {
    let key = (identity.endpoint, identity.network_id);
    let m = after.members()[key];
    &&& after.reassembly_budget == before.reassembly_budget
    &&& after.members() == before.members().insert(key, m)
    &&& m.id == id
    &&& before.members().dom().contains(key) ==> m == (PeerMembershipState {
        identity,
        ..before.members()[key]
    }) && after.links() == before.links() && after.next_id == before.next_id
    &&& !before.members().dom().contains(key) ==> is_new_member(m, before.next_id, identity)
        && after.next_id == before.next_id + 1 && after.links() == before.links().insert(
        identity.endpoint,
        (if before.links().dom().contains(identity.endpoint) {
            before.links()[identity.endpoint]
        } else {
            new_transport(identity.endpoint, now_ms, frame_id)
        }),
    )
}

/// The registry after a connection was mirrored into the transport of an endpoint.
pub open spec fn conn_mirrored(
    before: PeerRegistry,
    after: PeerRegistry,
    peer: EndpointId,
    conn: Option<u64>,
    m: Option<Measured>,
    now_ms: u64,
    frame_id: u32,
) -> bool {
    let t = if before.links().dom().contains(peer) {
        before.links()[peer]
    } else {
        new_transport(peer, now_ms, frame_id)
    };
    match conn {
        Some(_) => after.links() == before.links().insert(
            peer,
            path_changed(
                (PeerTransportState {
                    conn,
                    next_frame_id: frame_id,
                    sends_since_mps_check: 0,
                    ..t
                }),
                None,
                m,
            ),
        ) && after.members() == each_member(before.members(), peer, reconnected(m)),
        None => after.links() == before.links().insert(
            peer,
            (PeerTransportState { conn: None, ..t }),
        ) && after.members() == each_member(
            before.members(),
            peer,
            |s: PeerMembershipState| deactivated(s),
        ),
    }
}

impl PeerRegistry {
    pub open spec fn links(&self) -> Map<EndpointId, PeerTransportState> {
        transports_of(self.transports)
    }

    pub open spec fn members(&self) -> Map<MemberKey, PeerMembershipState> {
        members_of(self.memberships)
    }

    /// Memberships stand under their own keys, each endpoint with a membership has a
    /// transport, and every id was given out.
    pub open spec fn wf(&self) -> bool {
        &&& forall|k: MemberKey| #[trigger]
            self.members().dom().contains(k) ==> self.members()[k].identity.endpoint == k.0
                && self.members()[k].identity.network_id == k.1 && self.links().dom().contains(k.0)
                && self.members()[k].id < self.next_id
        &&& forall|p: EndpointId| #[trigger]
            self.links().dom().contains(p) ==> self.links()[p].endpoint == p
    }

    pub fn new() -> (r: Self)
        ensures
            r.wf(),
            r.links() == no_transports(),
            r.members() == no_members(),
            r.reassembly_budget == 0,
    {
        PeerRegistry {
            transports: transports_new(),
            memberships: members_new(),
            reassembly_budget: 0,
            next_id: 0,
        }
    }

    /// Get-or-create the endpoint transport. A new one starts with a random frame id.
    pub fn ensure_transport(&mut self, endpoint: EndpointId, now_ms: u64) -> (t:
        PeerTransportState)
        requires
            old(self).wf(),
        ensures
            final(self).wf(),
            exists|frame_id: u32| #[trigger]
                transport_ensured(*old(self), *final(self), endpoint, now_ms, frame_id, t),
    {
        let frame_id: u32 = random_u32();
        self.ensure_transport_with(endpoint, now_ms, frame_id)
    }

    /// [`Self::ensure_transport`] with a given frame id.
    pub fn ensure_transport_with(&mut self, endpoint: EndpointId, now_ms: u64, frame_id: u32) -> (t:
        PeerTransportState)
        requires
            old(self).wf(),
        ensures
            final(self).wf(),
            transport_ensured(*old(self), *final(self), endpoint, now_ms, frame_id, t),
    {
        match transports_get(&self.transports, endpoint) {
            Some(t) => {
                assert(self.links().insert(endpoint, t) =~= self.links());
                t
            },
            None => {
                let t = PeerTransportState::new(endpoint, now_ms, frame_id);
                transports_put(&mut self.transports, endpoint, t);
                t
            },
        }
    }

    /// Get-or-create the membership of an identity: a known one has its identity refreshed
    /// in place and stays the same membership. Hands out its id. A new transport starts
    /// with a random frame id.
    pub fn ensure_membership(&mut self, identity: PeerIdentity, now_ms: u64) -> (id: u64)
        requires
            old(self).wf(),
            old(self).next_id < u64::MAX,
        ensures
            final(self).wf(),
            exists|frame_id: u32| #[trigger]
                membership_ensured(*old(self), *final(self), identity, now_ms, frame_id, id),
    {
        let frame_id: u32 = random_u32();
        self.ensure_membership_with(identity, now_ms, frame_id)
    }

    /// [`Self::ensure_membership`] with a given frame id.
    pub fn ensure_membership_with(&mut self, identity: PeerIdentity, now_ms: u64, frame_id: u32) -> (id:
        u64)
        requires
            old(self).wf(),
            old(self).next_id < u64::MAX,
        ensures
            final(self).wf(),
            membership_ensured(*old(self), *final(self), identity, now_ms, frame_id, id),
    {
        let key = (identity.endpoint, identity.network_id);
        let ghost was = self.members();
        let endpoint = identity.endpoint;
        match members_take(&mut self.memberships, key) {
            Some(m) => {
                let id: u64 = m.id;
                let next = PeerMembershipState {
                    id,
                    identity,
                    policy: m.policy,
                    quantum: m.quantum,
                    pump_running: m.pump_running,
                    active: m.active,
                    epoch: m.epoch,
                };
                members_put(&mut self.memberships, key, next);
                proof {
                    assert(self.members() =~= was.insert(key, next));
                    assert(was.dom().contains(key));
                    self.lemma_wf_members(*old(self), key);
                }
                id
            },
            None => {
                let id: u64 = self.next_id;
                assert(self.members() =~= was);
                self.ensure_transport_with(endpoint, now_ms, frame_id);
                self.next_id = id + 1;
                let next = PeerMembershipState {
                    id,
                    identity,
                    policy: None,
                    quantum: DEFAULT_QUANTUM,
                    pump_running: false,
                    active: true,
                    epoch: 0,
                };
                members_put(&mut self.memberships, key, next);
                proof {
                    assert(self.members() =~= was.insert(key, next));
                    self.lemma_wf_members(*old(self), key);
                }
                id
            },
        }
    }

    /// The invariant after one membership was set.
    proof fn lemma_wf_members(self, before: Self, key: MemberKey)
        requires
            before.wf(),
            before.next_id <= self.next_id,
            self.members() == before.members().insert(key, self.members()[key]),
            self.members()[key].identity.endpoint == key.0,
            self.members()[key].identity.network_id == key.1,
            self.members()[key].id < self.next_id,
            self.links().dom().contains(key.0),
            forall|p: EndpointId| #[trigger]
                self.links().dom().contains(p) ==> self.links()[p].endpoint == p,
            forall|p: EndpointId| #[trigger]
                before.links().dom().contains(p) ==> self.links().dom().contains(p),
        ensures
            self.wf(),
    {
        assert forall|k: MemberKey| #[trigger]
            self.members().dom().contains(k) implies self.members()[k].identity.endpoint == k.0
            && self.members()[k].identity.network_id == k.1 && self.links().dom().contains(k.0)
            && self.members()[k].id < self.next_id by {
            if k != key {
                assert(before.members().dom().contains(k));
            }
        }
    }

    /// Single-network ensure: exactly [`Self::ensure_membership`].
    pub fn ensure(&mut self, identity: PeerIdentity, now_ms: u64) -> (id: u64)
        requires
            old(self).wf(),
            old(self).next_id < u64::MAX,
        ensures
            final(self).wf(),
            exists|frame_id: u32| #[trigger]
                membership_ensured(*old(self), *final(self), identity, now_ms, frame_id, id),
    {
        self.ensure_membership(identity, now_ms)
    }

    pub fn get_transport(&self, peer: EndpointId) -> (r: Option<PeerTransportState>)
        ensures
            r == (if self.links().dom().contains(peer) {
                Some(self.links()[peer])
            } else {
                None
            }),
    {
        transports_get(&self.transports, peer)
    }

    /// Sets the transport of an endpoint that has one.
    pub fn put_transport(&mut self, t: PeerTransportState)
        requires
            old(self).wf(),
        ensures
            final(self).wf(),
            final(self).links() == old(self).links().insert(t.endpoint, t),
            final(self).members() == old(self).members(),
            final(self).next_id == old(self).next_id,
            final(self).reassembly_budget == old(self).reassembly_budget,
    {
        transports_put(&mut self.transports, t.endpoint, t);
    }

    pub fn has_member(&self, peer: EndpointId, network: u128) -> (b: bool)
        ensures
            b == self.members().dom().contains((peer, network)),
    {
        members_has(&self.memberships, (peer, network))
    }

    /// The id of a membership.
    pub fn get_membership(&mut self, peer: EndpointId, network: u128) -> (r: Option<u64>)
        requires
            old(self).wf(),
        ensures
            final(self).wf(),
            final(self).members() == old(self).members(),
            final(self).links() == old(self).links(),
            final(self).next_id == old(self).next_id,
            final(self).reassembly_budget == old(self).reassembly_budget,
            r == (if old(self).members().dom().contains((peer, network)) {
                Some(old(self).members()[(peer, network)].id)
            } else {
                None
            }),
    {
        let ghost was = self.members();
        match members_take(&mut self.memberships, (peer, network)) {
            Some(m) => {
                let id: u64 = m.id;
                members_put(&mut self.memberships, (peer, network), m);
                assert(self.members() =~= was);
                Some(id)
            },
            None => {
                assert(self.members() =~= was);
                None
            },
        }
    }

    /// True when the endpoint holds any network membership.
    pub fn has_any_membership(&self, peer: EndpointId) -> (b: bool)
        ensures
            b == has_membership(self.members(), peer),
    {
        let keys = members_keys(&self.memberships);
        let mut i: usize = 0;
        while i < keys.len()
            invariant
                lists_members(keys@, self.members()),
                i <= keys@.len(),
                forall|j: int| 0 <= j < i ==> (#[trigger] keys@[j]).0 != peer,
            decreases keys.len() - i,
        {
            if same_endpoint(keys[i].0, peer) {
                proof {
                    assert(keys@.contains(keys@[i as int]));
                    assert(self.members().dom().contains((peer, keys@[i as int].1)));
                }
                return true;
            }
            i += 1;
        }
        proof {
            assert forall|n: u128| !#[trigger] self.members().dom().contains((peer, n)) by {
                if self.members().dom().contains((peer, n)) {
                    assert(keys@.contains((peer, n)));
                    let j = choose|j: int| 0 <= j < keys@.len() && keys@[j] == (peer, n);
                    assert(keys@[j].0 != peer);
                }
            }
        }
        false
    }

    /// The network of an endpoint that has exactly one membership. Where it has several,
    /// there is no answer: it is never guessed.
    pub fn get(&self, peer: EndpointId) -> (r: Option<u128>)
        ensures
            r matches Some(n) ==> sole_network(self.members(), peer, n),
            r is None ==> forall|n: u128| !sole_network(self.members(), peer, n),
    {
        let keys = members_keys(&self.memberships);
        let mut found: Option<u128> = None;
        let mut i: usize = 0;
        while i < keys.len()
            invariant
                lists_members(keys@, self.members()),
                i <= keys@.len(),
                found is None ==> forall|j: int| 0 <= j < i ==> (#[trigger] keys@[j]).0 != peer,
                found matches Some(n) ==> self.members().dom().contains((peer, n)) && forall|j: int|
                    0 <= j < i && (#[trigger] keys@[j]).0 == peer ==> keys@[j].1 == n,
                found matches Some(n) ==> keys@.take(i as int).contains((peer, n)),
            decreases keys.len() - i,
        {
            let k = keys[i];
            proof {
                assert(keys@.contains(keys@[i as int]));
                assert(self.members().dom().contains(k));
            }
            if same_endpoint(k.0, peer) {
                if let Some(n) = found {
                    proof {
                        lemma_member_not_yet(keys@, i as int);
                        assert(k.1 != n);
                        assert forall|x: u128| !sole_network(self.members(), peer, x) by {
                            assert(self.members().dom().contains((peer, n)));
                            assert(self.members().dom().contains((peer, k.1)));
                        }
                    }
                    return None;
                }
                found = Some(k.1);
            }
            proof {
                if let Some(n) = found {
                    lemma_grow(keys@, i as int, (peer, n));
                }
            }
            i += 1;
        }
        proof {
            match found {
                Some(n) => {
                    assert forall|x: u128| #[trigger]
                        self.members().dom().contains((peer, x)) implies x == n by {
                        assert(keys@.contains((peer, x)));
                        let j = choose|j: int| 0 <= j < keys@.len() && keys@[j] == (peer, x);
                        assert(keys@[j].1 == n);
                    }
                },
                None => {
                    assert forall|x: u128| !sole_network(self.members(), peer, x) by {
                        if self.members().dom().contains((peer, x)) {
                            assert(keys@.contains((peer, x)));
                            let j = choose|j: int| 0 <= j < keys@.len() && keys@[j] == (peer, x);
                            assert(keys@[j].0 != peer);
                        }
                    }
                },
            }
        }
        found
    }

    /// Takes out the memberships and transports that leave.
    fn evict(&mut self, l: Leave) -> (d: Departed)
        requires
            old(self).wf(),
        ensures
            final(self).wf(),
            final(self).next_id == old(self).next_id,
            final(self).reassembly_budget == old(self).reassembly_budget,
            final(self).members() == staying(old(self).members(), l.members()),
            final(self).links() == staying(old(self).links(), l.links()),
            departed(d, *old(self), l),
    {
        let keys = members_keys(&self.memberships);
        let ghost was = self.members();
        let ghost g = l.members();
        let mut members: Vec<PeerMembershipState> = Vec::new();
        let mut i: usize = 0;
        proof {
            assert(keys@.take(0) =~= Seq::<MemberKey>::empty());
        }
        while i < keys.len()
            invariant
                was == old(self).members(),
                self.links() == old(self).links(),
                self.next_id == old(self).next_id,
                self.reassembly_budget == old(self).reassembly_budget,
                g == l.members(),
                lists_members(keys@, was),
                i <= keys@.len(),
                forall|k: MemberKey| #[trigger]
                    self.members().dom().contains(k) == (was.dom().contains(k) && !(g(k)
                        && keys@.take(i as int).contains(k))),
                forall|k: MemberKey| #[trigger]
                    self.members().dom().contains(k) ==> self.members()[k] == was[k],
                members@ == leaving(was, keys@.take(i as int), g),
            decreases keys.len() - i,
        {
            let k = keys[i];
            proof {
                assert(keys@.contains(keys@[i as int]));
                assert(was.dom().contains(k));
                lemma_member_not_yet(keys@, i as int);
                lemma_grow(keys@, i as int, k);
                assert(self.members().dom().contains(k));
            }
            let ghost cur = self.members();
            if l.member_goes(k) {
                if let Some(m) = members_take(&mut self.memberships, k) {
                    let mut m = m;
                    m.deactivate();
                    members.push(m);
                }
            }
            proof {
                assert forall|q: MemberKey| #[trigger]
                    self.members().dom().contains(q) == (was.dom().contains(q) && !(g(q)
                        && keys@.take(i + 1).contains(q))) by {
                    lemma_grow(keys@, i as int, q);
                    assert(cur.dom().contains(q) == (was.dom().contains(q) && !(g(q)
                        && keys@.take(i as int).contains(q))));
                }
            }
            i += 1;
        }
        proof {
            assert(keys@.take(i as int) =~= keys@);
            assert(self.members() =~= staying(was, g));
        }
        let ends = transports_keys(&self.transports);
        let ghost links = self.links();
        let ghost h = l.links();
        let mut close: Vec<u64> = Vec::new();
        let mut j: usize = 0;
        proof {
            assert(ends@.take(0) =~= Seq::<EndpointId>::empty());
        }
        while j < ends.len()
            invariant
                self.members() == staying(was, g),
                self.next_id == old(self).next_id,
                self.reassembly_budget == old(self).reassembly_budget,
                links == old(self).links(),
                h == l.links(),
                lists(ends@, links),
                j <= ends@.len(),
                forall|p: EndpointId| #[trigger]
                    self.links().dom().contains(p) == (links.dom().contains(p) && !(h(p)
                        && ends@.take(j as int).contains(p))),
                forall|p: EndpointId| #[trigger]
                    self.links().dom().contains(p) ==> self.links()[p] == links[p],
                close@ == leaving_conns(links, ends@.take(j as int), h),
            decreases ends.len() - j,
        {
            let p = ends[j];
            proof {
                assert(ends@.contains(ends@[j as int]));
                assert(links.dom().contains(p));
                lemma_grow(ends@, j as int, p);
                assert(!ends@.take(j as int).contains(p)) by {
                    if ends@.take(j as int).contains(p) {
                        let x = choose|x: int| 0 <= x < j && ends@.take(j as int)[x] == p;
                        assert(ends@[x] == ends@[j as int]);
                    }
                }
                assert(self.links().dom().contains(p));
            }
            let ghost cur = self.links();
            if l.link_goes(p) {
                if let Some(t) = transports_get(&self.transports, p) {
                    if let Some(c) = t.conn {
                        close.push(c);
                    }
                }
                transports_remove(&mut self.transports, p);
            }
            proof {
                assert forall|q: EndpointId| #[trigger]
                    self.links().dom().contains(q) == (links.dom().contains(q) && !(h(q)
                        && ends@.take(j + 1).contains(q))) by {
                    lemma_grow(ends@, j as int, q);
                    assert(cur.dom().contains(q) == (links.dom().contains(q) && !(h(q)
                        && ends@.take(j as int).contains(q))));
                }
            }
            j += 1;
        }
        proof {
            assert(ends@.take(j as int) =~= ends@);
            assert(self.links() =~= staying(links, h));
            assert forall|k: MemberKey| #[trigger]
                self.members().dom().contains(k) implies self.members()[k].identity.endpoint == k.0
                && self.members()[k].identity.network_id == k.1 && self.links().dom().contains(k.0)
                && self.members()[k].id < self.next_id by {
                assert(was.dom().contains(k));
                l.lemma_links_stay(k);
            }
        }
        Departed { members, close }
    }

    /// Remove one membership: it is deactivated and forgotten. The shared transport stays
    /// for as long as the endpoint has other memberships.
    pub fn remove_membership(&mut self, peer: EndpointId, network: u128) -> (d: Departed)
        requires
            old(self).wf(),
        ensures
            final(self).wf(),
            final(self).next_id == old(self).next_id,
            final(self).reassembly_budget == old(self).reassembly_budget,
            final(self).members() == old(self).members().remove((peer, network)),
            final(self).links() == (if has_membership(
                old(self).members().remove((peer, network)),
                peer,
            ) {
                old(self).links()
            } else {
                old(self).links().remove(peer)
            }),
            d.members@ == (if old(self).members().dom().contains((peer, network)) {
                seq![deactivated(old(self).members()[(peer, network)])]
            } else {
                Seq::empty()
            }),
            d.close@ == (if !has_membership(old(self).members().remove((peer, network)), peer)
                && old(self).links().dom().contains(peer) && old(self).links()[peer].conn is Some {
                seq![old(self).links()[peer].conn->Some_0]
            } else {
                Seq::empty()
            }),
    {
        let mut members: Vec<PeerMembershipState> = Vec::new();
        let mut close: Vec<u64> = Vec::new();
        let ghost was = self.members();
        if let Some(m) = members_take(&mut self.memberships, (peer, network)) {
            let mut m = m;
            m.deactivate();
            members.push(m);
        }
        assert(members@ =~= (if was.dom().contains((peer, network)) {
            seq![deactivated(was[(peer, network)])]
        } else {
            Seq::empty()
        }));
        if !self.has_any_membership(peer) {
            if let Some(t) = transports_get(&self.transports, peer) {
                if let Some(c) = t.conn {
                    close.push(c);
                }
            }
            transports_remove(&mut self.transports, peer);
        }
        proof {
            assert forall|k: MemberKey| #[trigger]
                self.members().dom().contains(k) implies self.members()[k].identity.endpoint == k.0
                && self.members()[k].identity.network_id == k.1 && self.links().dom().contains(k.0)
                && self.members()[k].id < self.next_id by {
                assert(was.dom().contains(k));
                if k.0 == peer {
                    assert(self.members().dom().contains((peer, k.1)));
                }
            }
            assert(close@ =~= (if !has_membership(was.remove((peer, network)), peer) && old(
                self,
            ).links().dom().contains(peer) && old(self).links()[peer].conn is Some {
                seq![old(self).links()[peer].conn->Some_0]
            } else {
                Seq::empty()
            }));
        }
        Departed { members, close }
    }

    /// Remove the endpoint entirely: all its memberships and its transport.
    pub fn remove_transport(&mut self, peer: EndpointId) -> (d: Departed)
        requires
            old(self).wf(),
        ensures
            final(self).wf(),
            final(self).next_id == old(self).next_id,
            final(self).reassembly_budget == old(self).reassembly_budget,
            final(self).members() == staying(old(self).members(), |k: MemberKey| k.0 == peer),
            final(self).links() == staying(old(self).links(), |p: EndpointId| p == peer),
            departed(d, *old(self), Leave::Peer(peer)),
    {
        let d = self.evict(Leave::Peer(peer));
        proof {
            assert(self.members() =~= staying(old(self).members(), |k: MemberKey| k.0 == peer));
            assert(self.links() =~= staying(old(self).links(), |p: EndpointId| p == peer));
        }
        d
    }

    /// Full endpoint removal.
    pub fn remove(&mut self, peer: EndpointId) -> (d: Departed)
        requires
            old(self).wf(),
        ensures
            final(self).wf(),
            final(self).next_id == old(self).next_id,
            final(self).reassembly_budget == old(self).reassembly_budget,
            final(self).members() == staying(old(self).members(), |k: MemberKey| k.0 == peer),
            final(self).links() == staying(old(self).links(), |p: EndpointId| p == peer),
            departed(d, *old(self), Leave::Peer(peer)),
    {
        self.remove_transport(peer)
    }

    /// Retain only live (endpoint, network) memberships, and the transports of live
    /// endpoints.
    pub fn retain(&mut self, live: &[MemberKey]) -> (d: Departed)
        requires
            old(self).wf(),
        ensures
            final(self).wf(),
            final(self).next_id == old(self).next_id,
            final(self).reassembly_budget == old(self).reassembly_budget,
            final(self).members() == staying(
                old(self).members(),
                |k: MemberKey| !live@.contains(k),
            ),
            final(self).links() == staying(
                old(self).links(),
                |p: EndpointId| !names_endpoint(live@, p),
            ),
            departed(d, *old(self), Leave::OtherThan(live)),
    {
        let d = self.evict(Leave::OtherThan(live));
        proof {
            assert(self.members() =~= staying(
                old(self).members(),
                |k: MemberKey| !live@.contains(k),
            ));
            assert(self.links() =~= staying(
                old(self).links(),
                |p: EndpointId| !names_endpoint(live@, p),
            ));
        }
        d
    }

    /// Retain by endpoint: every membership of a live endpoint stays.
    pub fn retain_endpoints(&mut self, live: &[EndpointId]) -> (d: Departed)
        requires
            old(self).wf(),
        ensures
            final(self).wf(),
            final(self).next_id == old(self).next_id,
            final(self).reassembly_budget == old(self).reassembly_budget,
            final(self).members() == staying(
                old(self).members(),
                |k: MemberKey| !live@.contains(k.0),
            ),
            final(self).links() == staying(old(self).links(), |p: EndpointId| !live@.contains(p)),
            departed(d, *old(self), Leave::EndpointsOtherThan(live)),
    {
        let d = self.evict(Leave::EndpointsOtherThan(live));
        proof {
            assert(self.members() =~= staying(
                old(self).members(),
                |k: MemberKey| !live@.contains(k.0),
            ));
            assert(self.links() =~= staying(
                old(self).links(),
                |p: EndpointId| !live@.contains(p),
            ));
        }
        d
    }

    pub fn clear(&mut self) -> (d: Departed)
        requires
            old(self).wf(),
        ensures
            final(self).wf(),
            final(self).next_id == old(self).next_id,
            final(self).reassembly_budget == old(self).reassembly_budget,
            final(self).members() == no_members(),
            final(self).links() == no_transports(),
            departed(d, *old(self), Leave::All),
    {
        let d = self.evict(Leave::All);
        proof {
            assert(self.members() =~= no_members());
            assert(self.links() =~= no_transports());
        }
        d
    }

    /// The path of an endpoint changed: its relay flag, and what was measured. The
    /// schedulers of its memberships are retuned.
    pub fn refresh_transport_path(
        &mut self,
        peer: EndpointId,
        metered: Option<bool>,
        m: Option<Measured>,
    )
        requires
            old(self).wf(),
        ensures
            final(self).wf(),
            final(self).next_id == old(self).next_id,
            final(self).reassembly_budget == old(self).reassembly_budget,
            !old(self).links().dom().contains(peer) ==> final(self).links() == old(self).links()
                && final(self).members() == old(self).members(),
            old(self).links().dom().contains(peer) ==> final(self).links() == old(
                self,
            ).links().insert(peer, path_changed(old(self).links()[peer], metered, m)),
            old(self).links().dom().contains(peer) ==> final(self).members() == each_member(
                old(self).members(),
                peer,
                retuned(m),
            ),
    {
        let mut t = match transports_get(&self.transports, peer) {
            Some(t) => t,
            None => {
                return;
            },
        };
        if let Some(relay) = metered {
            t.relay = relay;
        }
        match m {
            Some(v) => {
                t.refresh_mps(v);
                transports_put(&mut self.transports, peer, t);
                let quantum: usize = retuned_quantum(v.mps);
                self.change_members(peer, Change::Quantum(quantum));
                assert(self.members() =~= each_member(old(self).members(), peer, retuned(m)));
            },
            None => {
                transports_put(&mut self.transports, peer, t);
                assert(self.members() =~= each_member(old(self).members(), peer, retuned(m)));
            },
        }
    }

    /// Mirror a live connection into the endpoint transport: a new one starts its frame ids
    /// anew, at random, and is measured; where there is none any more, all the memberships
    /// of the endpoint are deactivated.
    pub fn set_transport_conn(
        &mut self,
        peer: EndpointId,
        conn: Option<u64>,
        m: Option<Measured>,
        now_ms: u64,
    )
        requires
            old(self).wf(),
        ensures
            final(self).wf(),
            final(self).next_id == old(self).next_id,
            final(self).reassembly_budget == old(self).reassembly_budget,
            exists|frame_id: u32| #[trigger]
                conn_mirrored(*old(self), *final(self), peer, conn, m, now_ms, frame_id),
    {
        let frame_id: u32 = random_u32();
        self.set_transport_conn_with(peer, conn, m, now_ms, frame_id);
    }

    /// [`Self::set_transport_conn`] with a given frame id.
    pub fn set_transport_conn_with(
        &mut self,
        peer: EndpointId,
        conn: Option<u64>,
        m: Option<Measured>,
        now_ms: u64,
        frame_id: u32,
    )
        requires
            old(self).wf(),
        ensures
            final(self).wf(),
            final(self).next_id == old(self).next_id,
            final(self).reassembly_budget == old(self).reassembly_budget,
            conn_mirrored(*old(self), *final(self), peer, conn, m, now_ms, frame_id),
    {
        let ghost l0 = self.links();
        let mut t = self.ensure_transport_with(peer, now_ms, frame_id);
        match conn {
            Some(_) => {
                t.conn = conn;
                t.next_frame_id = frame_id;
                t.sends_since_mps_check = 0;
                transports_put(&mut self.transports, peer, t);
                self.refresh_transport_path(peer, None, m);
                let ghost mid = self.members();
                self.change_members(peer, Change::Activate);
                proof {
                    assert(self.links() =~= l0.insert(peer, self.links()[peer]));
                    assert(mid == each_member(old(self).members(), peer, retuned(m)));
                    assert(self.members() =~= each_member(
                        old(self).members(),
                        peer,
                        reconnected(m),
                    ));
                }
            },
            None => {
                t.conn = None;
                transports_put(&mut self.transports, peer, t);
                self.change_members(peer, Change::Deactivate);
                proof {
                    assert(self.links() =~= l0.insert(peer, self.links()[peer]));
                    assert(self.members() =~= each_member(
                        old(self).members(),
                        peer,
                        |s: PeerMembershipState| deactivated(s),
                    ));
                }
            },
        }
    }

    /// `set_transport_conn`, for callers that know one peer by its endpoint alone.
    pub fn set_conn(
        &mut self,
        peer: EndpointId,
        conn: Option<u64>,
        m: Option<Measured>,
        now_ms: u64,
    )
        requires
            old(self).wf(),
        ensures
            final(self).wf(),
            final(self).next_id == old(self).next_id,
            final(self).reassembly_budget == old(self).reassembly_budget,
            exists|frame_id: u32| #[trigger]
                conn_mirrored(*old(self), *final(self), peer, conn, m, now_ms, frame_id),
    {
        self.set_transport_conn(peer, conn, m, now_ms);
    }

    /// Shared reassembly byte counter (global cap denominator).
    pub fn reassembly_budget(&self) -> (n: u64)
        ensures
            n == self.reassembly_budget,
    {
        self.reassembly_budget
    }

    /// Changes every membership of an endpoint.
    fn change_members(&mut self, peer: EndpointId, c: Change)
        requires
            old(self).wf(),
        ensures
            final(self).wf(),
            final(self).next_id == old(self).next_id,
            final(self).links() == old(self).links(),
            final(self).reassembly_budget == old(self).reassembly_budget,
            final(self).members() == each_member(old(self).members(), peer, c.on()),
    {
        let keys = members_keys(&self.memberships);
        let ghost was = self.members();
        let ghost f = c.on();
        let mut i: usize = 0;
        proof {
            assert(keys@.take(0) =~= Seq::<MemberKey>::empty());
        }
        while i < keys.len()
            invariant
                was == old(self).members(),
                self.links() == old(self).links(),
                self.next_id == old(self).next_id,
                self.reassembly_budget == old(self).reassembly_budget,
                f == c.on(),
                lists_members(keys@, was),
                i <= keys@.len(),
                forall|k: MemberKey| #[trigger]
                    self.members().dom().contains(k) == was.dom().contains(k),
                forall|k: MemberKey| #[trigger]
                    self.members().dom().contains(k) ==> self.members()[k] == (if k.0 == peer
                        && keys@.take(i as int).contains(k) {
                        f(was[k])
                    } else {
                        was[k]
                    }),
            decreases keys.len() - i,
        {
            let k = keys[i];
            let ghost cur = self.members();
            proof {
                assert(keys@.contains(keys@[i as int]));
                assert(was.dom().contains(k));
                lemma_member_not_yet(keys@, i as int);
                lemma_grow(keys@, i as int, k);
                assert(cur.dom().contains(k));
            }
            if same_endpoint(k.0, peer) {
                if let Some(m) = members_take(&mut self.memberships, k) {
                    let mut m = m;
                    match c {
                        Change::Quantum(q) => {
                            m.quantum = q;
                        },
                        Change::Activate => {
                            m.active = true;
                        },
                        Change::Deactivate => {
                            m.deactivate();
                        },
                    }
                    assert(m == f(was[k]));
                    members_put(&mut self.memberships, k, m);
                }
            }
            proof {
                assert forall|q: MemberKey| #[trigger]
                    self.members().dom().contains(q) implies self.members()[q] == (if q.0 == peer
                    && keys@.take(i + 1).contains(q) {
                    f(was[q])
                } else {
                    was[q]
                }) by {
                    lemma_grow(keys@, i as int, q);
                    assert(cur.dom().contains(q));
                }
            }
            i += 1;
        }
        proof {
            assert(keys@.take(i as int) =~= keys@);
            assert(self.members() =~= each_member(was, peer, f));
            assert forall|k: MemberKey| #[trigger]
                self.members().dom().contains(k) implies self.members()[k].identity.endpoint == k.0
                && self.members()[k].identity.network_id == k.1 && self.links().dom().contains(k.0)
                && self.members()[k].id < self.next_id by {
                assert(was.dom().contains(k));
            }
        }
    }

    /// Every membership points at its network's firewall slot. Publication of a firewall
    /// never needs this: slots stay in their places.
    pub fn relink_policy(&mut self, rt: &mut PolicyRuntime)
        requires
            old(self).wf(),
            old(rt).wf(),
        ensures
            final(self).wf(),
            final(rt).wf(),
            final(self).links() == old(self).links(),
            final(self).next_id == old(self).next_id,
            final(self).reassembly_budget == old(self).reassembly_budget,
            final(self).members().dom() == old(self).members().dom(),
            forall|k: MemberKey| #[trigger]
                old(self).members().dom().contains(k) ==> {
                    let m = final(self).members()[k];
                    &&& m == (PeerMembershipState { policy: m.policy, ..old(self).members()[k] })
                    &&& m.policy matches Some(at) && at < final(rt).slots.all@.len() && final(
                        rt
                    ).slots.all@[at as int].network == k.1
                },
            forall|i: int|
                0 <= i < old(rt).slots.all@.len() ==> final(rt).slots.all@[i]
                    == #[trigger] old(rt).slots.all@[i],
            old(rt).slots.all@.len() <= final(rt).slots.all@.len(),
            (PolicyRuntime { slots: old(rt).slots, ..*final(rt) }) == *old(rt),
    {
        let keys = members_keys(&self.memberships);
        let ghost was = self.members();
        let mut i: usize = 0;
        proof {
            assert(keys@.take(0) =~= Seq::<MemberKey>::empty());
        }
        while i < keys.len()
            invariant
                rt.wf(),
                old(self).wf(),
                was == old(self).members(),
                self.links() == old(self).links(),
                self.next_id == old(self).next_id,
                self.reassembly_budget == old(self).reassembly_budget,
                (PolicyRuntime { slots: old(rt).slots, ..*rt }) == *old(rt),
                lists_members(keys@, was),
                i <= keys@.len(),
                old(rt).slots.all@.len() <= rt.slots.all@.len(),
                forall|j: int|
                    0 <= j < old(rt).slots.all@.len() ==> rt.slots.all@[j]
                        == #[trigger] old(rt).slots.all@[j],
                forall|k: MemberKey| #[trigger]
                    self.members().dom().contains(k) == was.dom().contains(k),
                forall|k: MemberKey| #[trigger]
                    self.members().dom().contains(k) && !keys@.take(i as int).contains(k)
                        ==> self.members()[k] == was[k],
                forall|k: MemberKey| #[trigger]
                    self.members().dom().contains(k) && keys@.take(i as int).contains(k) ==> linked(
                        self.members()[k],
                        was[k],
                        k.1,
                        *rt,
                    ),
            decreases keys.len() - i,
        {
            let k = keys[i];
            let ghost cur = self.members();
            let ghost rt0 = *rt;
            proof {
                assert(keys@.contains(keys@[i as int]));
                assert(was.dom().contains(k));
                lemma_member_not_yet(keys@, i as int);
                assert(cur.dom().contains(k));
            }
            let at: usize = rt.slot_for_network(k.1);
            if let Some(m) = members_take(&mut self.memberships, k) {
                let mut m = m;
                m.policy = Some(at);
                members_put(&mut self.memberships, k, m);
            }
            proof {
                assert forall|q: MemberKey| #[trigger]
                    self.members().dom().contains(q) && !keys@.take(i + 1).contains(
                        q,
                    ) implies self.members()[q] == was[q] by {
                    lemma_grow(keys@, i as int, q);
                    assert(cur.dom().contains(q));
                }
                assert forall|q: MemberKey| #[trigger]
                    self.members().dom().contains(q) && keys@.take(i + 1).contains(
                        q,
                    ) implies linked(self.members()[q], was[q], q.1, *rt) by {
                    lemma_grow(keys@, i as int, q);
                    assert(cur.dom().contains(q));
                    if q != k {
                        assert(linked(cur[q], was[q], q.1, rt0));
                    }
                }
            }
            i += 1;
        }
        proof {
            assert(keys@.take(i as int) =~= keys@);
            assert(self.members().dom() =~= was.dom());
            assert forall|k: MemberKey| #[trigger] was.dom().contains(k) implies linked(
                self.members()[k],
                was[k],
                k.1,
                *rt,
            ) by {
                assert(self.members().dom().contains(k));
            }
            assert forall|k: MemberKey| #[trigger]
                self.members().dom().contains(k) implies self.members()[k].identity.endpoint == k.0
                && self.members()[k].identity.network_id == k.1 && self.links().dom().contains(k.0)
                && self.members()[k].id < self.next_id by {
                assert(was.dom().contains(k));
            }
        }
    }

    /// Bytes in and out of a peer.
    pub fn peer_bytes(&self, peer: EndpointId) -> (r: (u64, u64))
        ensures
            r == (if self.links().dom().contains(peer) {
                (self.links()[peer].rx_bytes, self.links()[peer].tx_bytes)
            } else {
                (0, 0)
            }),
    {
        match transports_get(&self.transports, peer) {
            Some(t) => (t.rx_bytes, t.tx_bytes),
            None => (0, 0),
        }
    }

    /// Open connections, bytes out and bytes in. `live` are the connections that are open.
    pub fn heartbeat_counters(&self, live: &[u64]) -> (r: (u32, u64, u64))
        ensures
            exists|keys: Seq<EndpointId>| #[trigger]
                lists(keys, self.links()) && r == totals(self.links(), keys, live@),
    {
        let keys = transports_keys(&self.transports);
        let ghost m = self.links();
        let mut conns: u32 = 0;
        let mut tx: u64 = 0;
        let mut rx: u64 = 0;
        let mut i: usize = 0;
        while i < keys.len()
            invariant
                m == self.links(),
                lists(keys@, m),
                i <= keys@.len(),
                (conns, tx, rx) == totals(m, keys@.take(i as int), live@),
            decreases keys.len() - i,
        {
            proof {
                assert(keys@.contains(keys@[i as int]));
                assert(m.dom().contains(keys@[i as int]));
                lemma_grow(keys@, i as int, keys@[i as int]);
            }
            if let Some(t) = transports_get(&self.transports, keys[i]) {
                if let Some(c) = t.conn {
                    if crate::pool::conn_pool::holds_id(live, c) {
                        conns = conns.wrapping_add(1);
                    }
                }
                tx = bump(tx, t.tx_bytes);
                rx = bump(rx, t.rx_bytes);
            }
            i += 1;
        }
        assert(keys@.take(i as int) =~= keys@);
        (conns, tx, rx)
    }
}

/// A change of a membership.
#[derive(Clone, Copy)]
enum Change {
    Quantum(usize),
    Activate,
    Deactivate,
}

impl Change {
    spec fn on(self) -> spec_fn(PeerMembershipState) -> PeerMembershipState {
        match self {
            Change::Quantum(q) => |m: PeerMembershipState| PeerMembershipState { quantum: q, ..m },
            Change::Activate => |m: PeerMembershipState| PeerMembershipState { active: true, ..m },
            Change::Deactivate => |m: PeerMembershipState| deactivated(m),
        }
    }
}

/// The membership is as it was, but for its firewall slot, which is that of the network.
pub open spec fn linked(
    now: PeerMembershipState,
    was: PeerMembershipState,
    network: u128,
    rt: PolicyRuntime,
) -> bool {
    &&& now == (PeerMembershipState { policy: now.policy, ..was })
    &&& now.policy matches Some(at) && at < rt.slots.all@.len() && rt.slots.all@[at as int].network
        == network
}

/// Connections that are open, bytes out and bytes in, over some endpoints; the sums wrap
/// around.
pub open spec fn totals(
    m: Map<EndpointId, PeerTransportState>,
    keys: Seq<EndpointId>,
    live: Seq<u64>,
) -> (u32, u64, u64)
    decreases keys.len(),
{
    if keys.len() == 0 {
        (0, 0, 0)
    } else {
        let rest = totals(m, keys.drop_last(), live);
        let t = m[keys.last()];
        (
            if t.conn is Some && live.contains(t.conn->Some_0) {
                ((rest.0 + 1) % 0x1_0000_0000) as u32
            } else {
                rest.0
            },
            plus(rest.1, t.tx_bytes as nat),
            plus(rest.2, t.rx_bytes as nat),
        )
    }
}

/// Memberships, with those of one endpoint changed.
pub open spec fn each_member(
    m: Map<MemberKey, PeerMembershipState>,
    peer: EndpointId,
    f: spec_fn(PeerMembershipState) -> PeerMembershipState,
) -> Map<MemberKey, PeerMembershipState> {
    Map::new(
        |k: MemberKey| m.dom().contains(k),
        |k: MemberKey|
            if k.0 == peer {
                f(m[k])
            } else {
                m[k]
            },
    )
}

/// What a measurement does to a membership.
pub open spec fn retuned(m: Option<Measured>) -> spec_fn(
    PeerMembershipState,
) -> PeerMembershipState {
    |s: PeerMembershipState|
        match m {
            Some(v) => PeerMembershipState { quantum: quantum_for(v.mps), ..s },
            None => s,
        }
}

/// What a new connection does to a membership: it is active again, and retuned.
pub open spec fn reconnected(m: Option<Measured>) -> spec_fn(
    PeerMembershipState,
) -> PeerMembershipState {
    |s: PeerMembershipState| PeerMembershipState { active: true, ..retuned(m)(s) }
}

/// A transport whose path changed.
pub open spec fn path_changed(
    t: PeerTransportState,
    metered: Option<bool>,
    m: Option<Measured>,
) -> PeerTransportState {
    let t = PeerTransportState {
        relay: match metered {
            Some(r) => r,
            None => t.relay,
        },
        ..t
    };
    match m {
        Some(v) => measured(t, v),
        None => t,
    }
}

/// Some membership of a list is of this endpoint.
pub open spec fn names_endpoint(live: Seq<MemberKey>, p: EndpointId) -> bool {
    exists|i: int| 0 <= i < live.len() && (#[trigger] live[i]).0 == p
}

fn names(v: &[MemberKey], p: EndpointId) -> (b: bool)
    ensures
        b == names_endpoint(v@, p),
{
    let mut i: usize = 0;
    while i < v.len()
        invariant
            i <= v@.len(),
            forall|j: int| 0 <= j < i ==> (#[trigger] v@[j]).0 != p,
        decreases v.len() - i,
    {
        if same_endpoint(v[i].0, p) {
            return true;
        }
        i += 1;
    }
    false
}

/// Who leaves the registry.
pub enum Leave<'a> {
    Peer(EndpointId),
    OtherThan(&'a [MemberKey]),
    EndpointsOtherThan(&'a [EndpointId]),
    All,
}

impl<'a> Leave<'a> {
    pub open spec fn members(self) -> spec_fn(MemberKey) -> bool {
        |k: MemberKey|
            match self {
                Leave::Peer(p) => k.0 == p,
                Leave::OtherThan(v) => !v@.contains(k),
                Leave::EndpointsOtherThan(v) => !v@.contains(k.0),
                Leave::All => true,
            }
    }

    pub open spec fn links(self) -> spec_fn(EndpointId) -> bool {
        |p: EndpointId|
            match self {
                Leave::Peer(q) => p == q,
                Leave::OtherThan(v) => !names_endpoint(v@, p),
                Leave::EndpointsOtherThan(v) => !v@.contains(p),
                Leave::All => true,
            }
    }

    proof fn lemma_links_stay(self, k: MemberKey)
        requires
            !(self.members())(k),
        ensures
            !(self.links())(k.0),
    {
        if let Leave::OtherThan(v) = self {
            let i = choose|i: int| 0 <= i < v@.len() && v@[i] == k;
            assert(v@[i].0 == k.0);
        }
    }

    fn member_goes(&self, k: MemberKey) -> (b: bool)
        ensures
            b == (self.members())(k),
    {
        match self {
            Leave::Peer(p) => same_endpoint(k.0, *p),
            Leave::OtherThan(v) => !key_in(v, k),
            Leave::EndpointsOtherThan(v) => !endpoint_in(v, k.0),
            Leave::All => true,
        }
    }

    fn link_goes(&self, p: EndpointId) -> (b: bool)
        ensures
            b == (self.links())(p),
    {
        match self {
            Leave::Peer(q) => same_endpoint(p, *q),
            Leave::OtherThan(v) => !names(v, p),
            Leave::EndpointsOtherThan(v) => !endpoint_in(v, p),
            Leave::All => true,
        }
    }
}

/// What is handed out is what leaves: the memberships, deactivated, and the connections
/// of the transports.
pub open spec fn departed(d: Departed, before: PeerRegistry, l: Leave) -> bool {
    &&& exists|keys: Seq<MemberKey>| #[trigger]
        lists_members(keys, before.members()) && d.members@ == leaving(
            before.members(),
            keys,
            l.members(),
        )
    &&& exists|keys: Seq<EndpointId>| #[trigger]
        lists(keys, before.links()) && d.close@ == leaving_conns(before.links(), keys, l.links())
}

/// Removing one membership leaves its siblings alone: they stay as they are, and so does
/// the transport that they share.
pub proof fn law_sibling_untouched(
    before: PeerRegistry,
    after: PeerRegistry,
    peer: EndpointId,
    gone: u128,
    other: u128,
)
    requires
        before.wf(),
        other != gone,
        before.members().dom().contains((peer, other)),
        after.members() == before.members().remove((peer, gone)),
        after.links() == (if has_membership(before.members().remove((peer, gone)), peer) {
            before.links()
        } else {
            before.links().remove(peer)
        }),
    ensures
        after.members().dom().contains((peer, other)),
        after.members()[(peer, other)] == before.members()[(peer, other)],
        after.links().dom().contains(peer),
        after.links()[peer] == before.links()[peer],
{
    assert(before.members().remove((peer, gone)).dom().contains((peer, other)));
}

/// An endpoint with memberships in two networks does not resolve without a network.
pub proof fn law_ambiguous_endpoint_unresolved(
    m: Map<MemberKey, PeerMembershipState>,
    peer: EndpointId,
    a: u128,
    b: u128,
    n: u128,
)
    requires
        a != b,
        m.dom().contains((peer, a)),
        m.dom().contains((peer, b)),
    ensures
        !sole_network(m, peer, n),
{
}

/// An active membership that is deactivated has an epoch other than the one that its pump
/// and its readers know.
pub proof fn law_deactivation_is_seen(m: PeerMembershipState)
    requires
        m.active,
    ensures
        deactivated(m).epoch != m.epoch,
        deactivated(m).id == m.id,
        deactivated(m).identity == m.identity,
{
}

/// Deactivating is idempotent: a second time changes nothing.
pub proof fn law_deactivation_is_idempotent(m: PeerMembershipState)
    ensures
        deactivated(deactivated(m)) == deactivated(m),
{
}

} // verus!
