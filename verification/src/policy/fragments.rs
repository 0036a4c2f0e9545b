//! Transport facts of fragmented datagrams, remembered from the first fragment for the
//! later ones.

use super::meta::{resolved, FragKey, Fragmentation, PacketMeta, ResolvedL4};
use crate::table::Table;
use vstd::prelude::*;

verus! {

/// How long the facts of a first fragment are kept (nanoseconds).
pub const FRAGMENT_TTL: u64 = 2_000_000_000;

#[derive(Debug, Clone, Copy, PartialEq, Eq, Structural)]
pub struct FragEntry {
    pub l4: ResolvedL4,
    pub stored_at: u64,
}

/// The facts are still fresh.
pub open spec fn fresh(e: FragEntry, now: u64) -> bool {
    now - e.stored_at <= FRAGMENT_TTL
}

/// What is remembered of the datagram that a packet belongs to.
pub open spec fn recalled(
    frags: Map<FragKey, FragEntry>,
    meta: PacketMeta,
    now: u64,
) -> Option<ResolvedL4> {
    match meta.frag_key() {
        Some(k) => if frags.dom().contains(k) && fresh(frags[k], now) {
            Some(frags[k].l4)
        } else {
            None
        },
        None => None,
    }
}

/// A first fragment with a transport header is remembered; other packets leave no
/// trace.
pub open spec fn remembered(
    frags: Map<FragKey, FragEntry>,
    meta: PacketMeta,
    now: u64,
) -> Map<FragKey, FragEntry> {
    match (meta.fragmentation, meta.frag_key(), resolved(meta.transport)) {
        (Fragmentation::First { .. }, Some(k), Some(l4)) => frags.insert(
            k,
            FragEntry { l4, stored_at: now },
        ),
        _ => frags,
    }
}

pub struct FragmentTable {
    pub entries: Table<FragKey, FragEntry>,
}

impl View for FragmentTable {
    type V = Map<FragKey, FragEntry>;

    open spec fn view(&self) -> Map<FragKey, FragEntry> {
        self.entries@
    }
}

impl FragmentTable {
    pub open spec fn wf(&self) -> bool {
        self.entries.wf()
    }

    pub fn new() -> (t: Self)
        ensures
            t.wf(),
            t@ == Map::<FragKey, FragEntry>::empty(),
    {
        FragmentTable { entries: Table::new() }
    }

    pub fn lookup_meta(&self, meta: &PacketMeta, now: u64) -> (r: Option<ResolvedL4>)
        requires
            self.wf(),
        ensures
            r == recalled(self@, *meta, now),
    {
        match meta.datagram() {
            Some(k) => match self.entries.get(&k) {
                Some(e) => if now.saturating_sub(e.stored_at) <= FRAGMENT_TTL {
                    Some(e.l4)
                } else {
                    None
                },
                None => None,
            },
            None => None,
        }
    }

    pub fn remember_meta(&mut self, meta: &PacketMeta, now: u64)
        requires
            old(self).wf(),
        ensures
            final(self).wf(),
            final(self)@ == remembered(old(self)@, *meta, now),
    {
        if let Fragmentation::First { .. } = meta.fragmentation {
            if let Some(k) = meta.datagram() {
                if let Some(l4) = ResolvedL4::from_transport(meta.transport) {
                    self.entries.insert(k, FragEntry { l4, stored_at: now });
                }
            }
        }
    }

    /// Drops what is no longer fresh.
    pub fn prune(&mut self, now: u64)
        requires
            old(self).wf(),
        ensures
            final(self).wf(),
            forall|k: FragKey| #[trigger]
                final(self)@.dom().contains(k) == (old(self)@.dom().contains(k) && fresh(
                    old(self)@[k],
                    now,
                )),
            forall|k: FragKey|
                final(self)@.dom().contains(k) ==> #[trigger] final(self)@[k] == old(self)@[k],
    {
        let ghost was = self@;
        let mut kept: Table<FragKey, FragEntry> = Table::new();
        let mut i: usize = 0;
        while i < self.entries.entries.len()
            invariant
                self.wf(),
                self@ == was,
                was == old(self)@,
                kept.wf(),
                i <= self.entries.entries@.len(),
                forall|k: FragKey| #[trigger]
                    kept@.dom().contains(k) ==> was.dom().contains(k) && fresh(was[k], now)
                        && kept@[k] == was[k],
                forall|j: int|
                    0 <= j < i && fresh((#[trigger] self.entries.entries@[j]).1, now)
                        ==> kept@.dom().contains(self.entries.entries@[j].0),
            decreases self.entries.entries.len() - i,
        {
            let (k, e) = self.entries.entries[i];
            proof {
                crate::table::lemma_slot(self.entries.entries@, i as int);
            }
            if now.saturating_sub(e.stored_at) <= FRAGMENT_TTL {
                kept.insert(k, e);
            }
            i += 1;
        }
        proof {
            assert forall|k: FragKey| was.dom().contains(k) && fresh(
                was[k],
                now,
            ) implies #[trigger] kept@.dom().contains(k) by {
                let j = crate::table::slot(self.entries.entries@, k);
                assert(crate::table::has_key(self.entries.entries@, k));
                assert(fresh(self.entries.entries@[j].1, now));
            }
        }
        self.entries = kept;
    }
}

} // verus!
