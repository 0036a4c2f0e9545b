//! Firewall slots: one per network, in a stable place, with counters that survive
//! every publication.

use super::firewall::{all_stand_for, compile_fw_rules, CompiledFwRule, FirewallRule, PolicyVerdict};
use crate::table::Table;
use crate::text::copy_text;
use vstd::prelude::*;

verus! {

/// Compiled firewall rule set for exactly one network. Rules from one network can never
/// affect another.
#[derive(Debug)]
pub struct FwSet {
    pub enabled: bool,
    pub rules: Vec<CompiledFwRule>,
}

/// Per-network firewall verdict counters, read by control-plane stats.
#[derive(Debug, Clone, Copy, PartialEq, Eq, Structural)]
pub struct FwCounters {
    pub allowed: u64,
    pub denied: u64,
    pub rejected: u64,
}

/// One firewall publication: ruleset and the generation that installed it.
#[derive(Debug)]
pub struct FwSnapshot {
    pub generation: u64,
    pub set: FwSet,
}

/// Stable per-network policy slot. Publication replaces the snapshot; the counters stay.
#[derive(Debug)]
pub struct FwSlot {
    pub network: u128,
    pub snapshot: FwSnapshot,
    pub counters: FwCounters,
}

/// The firewall of a network as the control plane gives it.
#[derive(Debug)]
pub struct FwSource {
    pub local: Vec<FirewallRule>,
    pub suggested: Vec<FirewallRule>,
    pub enabled: bool,
}

impl Default for FwCounters {
    fn default() -> (c: Self)
        ensures
            c == (FwCounters { allowed: 0, denied: 0, rejected: 0 }),
    {
        FwCounters { allowed: 0, denied: 0, rejected: 0 }
    }
}

pub open spec fn one_more(n: u64) -> u64 {
    if n == u64::MAX {
        0
    } else {
        (n + 1) as u64
    }
}

/// The counters after one more verdict of the firewall.
pub open spec fn counted(c: FwCounters, v: PolicyVerdict) -> FwCounters {
    match v {
        PolicyVerdict::Allow => FwCounters { allowed: one_more(c.allowed), ..c },
        PolicyVerdict::Deny => FwCounters { denied: one_more(c.denied), ..c },
        PolicyVerdict::Reject => FwCounters { rejected: one_more(c.rejected), ..c },
    }
}

impl FwCounters {
    pub fn count(self, v: PolicyVerdict) -> (c: Self)
        ensures
            c == counted(self, v),
    {
        match v {
            PolicyVerdict::Allow => FwCounters { allowed: self.allowed.wrapping_add(1), ..self },
            PolicyVerdict::Deny => FwCounters { denied: self.denied.wrapping_add(1), ..self },
            PolicyVerdict::Reject => FwCounters { rejected: self.rejected.wrapping_add(1), ..self },
        }
    }
}

impl FwSet {
    /// A copy of the set.
    pub fn copy(&self) -> (c: Self)
        ensures
            c.enabled == self.enabled,
            c.rules@.len() == self.rules@.len(),
            forall|i: int| 0 <= i < c.rules@.len() ==> alike(#[trigger] c.rules@[i], self.rules@[i]),
    {
        let mut rules: Vec<CompiledFwRule> = Vec::new();
        let mut i: usize = 0;
        while i < self.rules.len()
            invariant
                i <= self.rules@.len(),
                rules@.len() == i,
                forall|j: int| 0 <= j < i ==> alike(#[trigger] rules@[j], self.rules@[j]),
            decreases self.rules.len() - i,
        {
            let r = &self.rules[i];
            let mut ports: Vec<(u16, u16)> = Vec::new();
            let mut k: usize = 0;
            while k < r.ports.len()
                invariant
                    k <= r.ports@.len(),
                    ports@ == r.ports@.take(k as int),
                decreases r.ports.len() - k,
            {
                ports.push(r.ports[k]);
                k += 1;
                assert(ports@ =~= r.ports@.take(k as int));
            }
            assert(r.ports@.take(k as int) =~= r.ports@);
            rules.push(
                CompiledFwRule {
                    inbound: r.inbound,
                    allow: r.allow,
                    reject: r.reject,
                    protocol: r.protocol,
                    ports,
                    peer_endpoint: copy_text(&r.peer_endpoint),
                    peer_hostname: copy_text(&r.peer_hostname),
                    peer_network: r.peer_network,
                },
            );
            i += 1;
        }
        FwSet { enabled: self.enabled, rules }
    }
}

/// The two rules have the same contents.
pub open spec fn alike(a: CompiledFwRule, b: CompiledFwRule) -> bool {
    &&& a.ports@ == b.ports@
    &&& (CompiledFwRule { ports: b.ports, ..a }) == b
}

impl FwSlot {
    /// No rules, and not enabled.
    pub fn new(network: u128) -> (s: Self)
        ensures
            s.network == network,
            s.is_new(),
    {
        FwSlot {
            network,
            snapshot: FwSnapshot {
                generation: 0,
                set: FwSet { enabled: false, rules: Vec::new() },
            },
            counters: FwCounters::default(),
        }
    }

    pub open spec fn is_new(self) -> bool {
        &&& self.snapshot.generation == 0
        &&& !self.snapshot.set.enabled
        &&& self.snapshot.set.rules@.len() == 0
        &&& self.counters == (FwCounters { allowed: 0, denied: 0, rejected: 0 })
    }

    /// The slot carries the source's rules, installed by the given generation.
    pub open spec fn carries(self, src: FwSource, generation: u64) -> bool {
        &&& self.snapshot.generation == generation
        &&& self.snapshot.set.enabled == src.enabled
        &&& all_stand_for(self.snapshot.set.rules@, src.local@ + src.suggested@)
    }
}

/// Where each network's slot stands.
pub uninterp spec fn places_of(m: dashmap::DashMap<u128, usize>) -> Map<u128, usize>;

pub open spec fn no_places() -> Map<u128, usize> {
    Map::empty()
}

/// `DashMap::new` makes an empty map.
#[verifier::external_body]
fn places_new() -> (m: dashmap::DashMap<u128, usize>)
    ensures
        places_of(m) == no_places(),
{
    dashmap::DashMap::new()
}

/// `DashMap::get` finds the value of a key; it is copied out of the guard.
#[verifier::external_body]
fn places_get(m: &dashmap::DashMap<u128, usize>, k: u128) -> (r: Option<usize>)
    ensures
        r == (if places_of(*m).dom().contains(k) {
            Some(places_of(*m)[k])
        } else {
            None
        }),
{
    m.get(&k).map(|e| *e)
}

/// `DashMap::insert` sets the value of a key, and leaves the other keys alone.
#[verifier::external_body]
fn places_insert(m: &mut dashmap::DashMap<u128, usize>, k: u128, at: usize)
    ensures
        places_of(*final(m)) == places_of(*old(m)).insert(k, at),
{
    m.insert(k, at);
}

/// The slots of all networks.
pub struct Slots {
    pub all: Vec<FwSlot>,
    pub places: dashmap::DashMap<u128, usize>,
}

/// What a publication of `fw` does to the slots: places and counters stay, each network
/// of `fw` has a slot that carries its rules, and no other slot changes.
pub open spec fn published(
    old_slots: Seq<FwSlot>,
    new_slots: Seq<FwSlot>,
    fw: Map<u128, FwSource>,
    generation: u64,
) -> bool {
    &&& old_slots.len() <= new_slots.len()
    &&& forall|i: int|
        0 <= i < old_slots.len() ==> (#[trigger] new_slots[i]).network == old_slots[i].network
            && new_slots[i].counters == old_slots[i].counters
    &&& forall|i: int|
        old_slots.len() <= i < new_slots.len() ==> fw.dom().contains(
            (#[trigger] new_slots[i]).network,
        ) && new_slots[i].counters == (FwCounters { allowed: 0, denied: 0, rejected: 0 })
    &&& forall|i: int|
        0 <= i < new_slots.len() && fw.dom().contains((#[trigger] new_slots[i]).network)
            ==> new_slots[i].carries(fw[new_slots[i].network], generation)
    &&& forall|i: int|
        0 <= i < old_slots.len() && !fw.dom().contains((#[trigger] new_slots[i]).network)
            ==> new_slots[i] == old_slots[i]
    &&& forall|n: u128| #[trigger] fw.dom().contains(n) ==> has_slot(new_slots, n)
}

pub open spec fn has_slot(slots: Seq<FwSlot>, network: u128) -> bool {
    exists|i: int| 0 <= i < slots.len() && (#[trigger] slots[i]).network == network
}

impl Slots {
    /// Each network has at most one slot, and stands in the index with its place.
    pub open spec fn wf(&self) -> bool {
        &&& forall|i: int|
            0 <= i < self.all@.len() ==> places_of(self.places).dom().contains(
                (#[trigger] self.all@[i]).network,
            ) && places_of(self.places)[self.all@[i].network] == i
        &&& forall|n: u128| #[trigger]
            places_of(self.places).dom().contains(n) ==> places_of(self.places)[n]
                < self.all@.len() && self.all@[places_of(self.places)[n] as int].network == n
    }

    pub fn new() -> (s: Self)
        ensures
            s.wf(),
            s.all@ == Seq::<FwSlot>::empty(),
    {
        Slots { all: Vec::new(), places: places_new() }
    }

    /// The place of a network's slot. A network that is not known gets a new slot.
    pub fn slot_for_network(&mut self, network: u128) -> (at: usize)
        requires
            old(self).wf(),
        ensures
            final(self).wf(),
            at < final(self).all@.len(),
            final(self).all@[at as int].network == network,
            has_slot(old(self).all@, network) ==> *final(self) == *old(self),
            !has_slot(old(self).all@, network) ==> at == old(self).all@.len(),
            !has_slot(old(self).all@, network) ==> final(self).all@[at as int].is_new(),
            !has_slot(old(self).all@, network) ==> final(self).all@ == old(self).all@.push(
                final(self).all@[at as int],
            ),
    {
        match places_get(&self.places, network) {
            Some(at) => {
                assert(self.all@[at as int].network == network);
                at
            },
            None => {
                assert(!has_slot(self.all@, network));
                let at: usize = self.all.len();
                self.all.push(FwSlot::new(network));
                places_insert(&mut self.places, network, at);
                at
            },
        }
    }

    /// Installs the firewalls of all the networks in `fw`.
    pub fn publish(&mut self, fw: &Table<u128, FwSource>, generation: u64)
        requires
            old(self).wf(),
            fw.wf(),
        ensures
            final(self).wf(),
            published(old(self).all@, final(self).all@, fw@, generation),
    {
        let ghost was = self.all@;
        let ghost srcs = fw.entries@;
        let mut j: usize = 0;
        while j < fw.entries.len()
            invariant
                self.wf(),
                fw.wf(),
                was == old(self).all@,
                srcs == fw.entries@,
                j <= srcs.len(),
                was.len() <= self.all@.len(),
                forall|i: int|
                    0 <= i < was.len() ==> (#[trigger] self.all@[i]).network == was[i].network
                        && self.all@[i].counters == was[i].counters,
                forall|i: int|
                    was.len() <= i < self.all@.len() ==> fw@.dom().contains(
                        (#[trigger] self.all@[i]).network,
                    ) && self.all@[i].counters == (FwCounters {
                        allowed: 0,
                        denied: 0,
                        rejected: 0,
                    }),
                forall|i: int|
                    0 <= i < was.len() && !fw@.dom().contains((#[trigger] self.all@[i]).network)
                        ==> self.all@[i] == was[i],
                forall|k: int| 0 <= k < j ==> settled(self.all@, #[trigger] srcs[k], generation),
            decreases fw.entries.len() - j,
        {
            let ghost cur = self.all@;
            let net: u128 = fw.entries[j].0;
            proof {
                crate::table::lemma_slot(srcs, j as int);
            }
            let at: usize = self.slot_for_network(net);
            let src = &fw.entries[j].1;
            let rules = compile_fw_rules(src.local.as_slice(), src.suggested.as_slice());
            let ghost mid = self.all@;
            let old_slot = self.all.remove(at);
            self.all.insert(
                at,
                FwSlot {
                    network: old_slot.network,
                    snapshot: FwSnapshot { generation, set: FwSet { enabled: src.enabled, rules } },
                    counters: old_slot.counters,
                },
            );
            proof {
                assert(self.all@ =~= mid.update(at as int, self.all@[at as int]));
                assert forall|k: int| 0 <= k < j + 1 implies settled(
                    self.all@,
                    #[trigger] srcs[k],
                    generation,
                ) by {
                    if k < j {
                        assert(settled(cur, srcs[k], generation));
                        assert(srcs[k].0 != net);
                        let i = choose|i: int|
                            0 <= i < cur.len() && (#[trigger] cur[i]).network == srcs[k].0
                                && cur[i].carries(srcs[k].1, generation);
                        assert(self.all@[i] == cur[i]);
                    } else {
                        assert(self.all@[at as int].carries(srcs[j as int].1, generation));
                    }
                }
            }
            j += 1;
        }
        proof {
            assert forall|n: u128| #[trigger] fw@.dom().contains(n) implies has_slot(
                self.all@,
                n,
            ) by {
                let k = crate::table::slot(srcs, n);
                assert(crate::table::has_key(srcs, n));
                assert(settled(self.all@, srcs[k], generation));
            }
            assert forall|i: int|
                0 <= i < self.all@.len() && fw@.dom().contains(
                    (#[trigger] self.all@[i]).network,
                ) implies self.all@[i].carries(fw@[self.all@[i].network], generation) by {
                let n = self.all@[i].network;
                let k = crate::table::slot(srcs, n);
                assert(crate::table::has_key(srcs, n));
                crate::table::lemma_slot(srcs, k);
                assert(settled(self.all@, srcs[k], generation));
                let x = choose|x: int|
                    0 <= x < self.all@.len() && (#[trigger] self.all@[x]).network == srcs[k].0
                        && self.all@[x].carries(srcs[k].1, generation);
                assert(places_of(self.places)[self.all@[x].network] == x);
                assert(places_of(self.places)[self.all@[i].network] == i);
            }
        }
    }
}

/// The network's slot carries its rules.
pub open spec fn settled(slots: Seq<FwSlot>, e: (u128, FwSource), generation: u64) -> bool {
    exists|i: int|
        0 <= i < slots.len() && (#[trigger] slots[i]).network == e.0 && slots[i].carries(
            e.1,
            generation,
        )
}

} // verus!
