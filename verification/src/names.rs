//! A table keyed by text, and shared ownership of its values.

use crate::table::{
    distinct_keys, has_key, lemma_absent, lemma_push, lemma_remove, lemma_slot, map_of, slot,
};
use crate::text::same_text;
use std::sync::Arc;
use vstd::prelude::*;
use vstd::string::*;

verus! {

/// `Arc::clone` makes another pointer to the same value.
#[verifier::external_body]
pub(crate) fn share<T>(a: &Arc<T>) -> (r: Arc<T>)
    ensures
        r == *a,
{
    Arc::clone(a)
}

/// A map from texts to `V`, held as its entries in some order.
pub struct NameTable<V> {
    pub entries: Vec<(String, V)>,
}

/// Entries by the texts of their keys.
pub open spec fn keyed<V>(s: Seq<(String, V)>) -> Seq<(Seq<char>, V)> {
    Seq::new(s.len(), |i: int| (s[i].0@, s[i].1))
}

impl<V> View for NameTable<V> {
    type V = Map<Seq<char>, V>;

    open spec fn view(&self) -> Map<Seq<char>, V> {
        map_of(keyed(self.entries@))
    }
}

/// A map with an entry for `k`, which an earlier one keeps from being replaced.
pub open spec fn first_wins<K, V>(m: Map<K, V>, k: K, v: V) -> Map<K, V> {
    if m.dom().contains(k) {
        m
    } else {
        m.insert(k, v)
    }
}

impl<V> NameTable<V> {
    pub open spec fn wf(&self) -> bool {
        distinct_keys(keyed(self.entries@))
    }

    pub fn new() -> (t: Self)
        ensures
            t.wf(),
            t@ == Map::<Seq<char>, V>::empty(),
            t.entries@.len() == 0,
    {
        let t = NameTable { entries: Vec::new() };
        assert(t@ =~= Map::<Seq<char>, V>::empty());
        t
    }

    pub fn index_of(&self, k: &str) -> (r: Option<usize>)
        requires
            self.wf(),
        ensures
            r is Some == self@.dom().contains(k@),
            r matches Some(i) ==> i < self.entries@.len() && self.entries@[i as int].0@ == k@
                && self.entries@[i as int].1 == self@[k@] && slot(keyed(self.entries@), k@) == i,
    {
        let ghost s = keyed(self.entries@);
        let mut i: usize = 0;
        while i < self.entries.len()
            invariant
                self.wf(),
                s == keyed(self.entries@),
                i <= self.entries@.len(),
                forall|j: int| 0 <= j < i ==> (#[trigger] s[j]).0 != k@,
            decreases self.entries.len() - i,
        {
            if same_text(self.entries[i].0.as_str(), k) {
                proof {
                    assert(s[i as int].0 == k@);
                    lemma_slot(s, i as int);
                }
                return Some(i);
            }
            assert(s[i as int].0 != k@);
            i += 1;
        }
        None
    }

    pub fn get(&self, k: &str) -> (r: Option<&V>)
        requires
            self.wf(),
        ensures
            r is Some == self@.dom().contains(k@),
            r matches Some(v) ==> *v == self@[k@],
    {
        match self.index_of(k) {
            Some(i) => Some(&self.entries[i].1),
            None => None,
        }
    }

    pub fn contains(&self, k: &str) -> (b: bool)
        requires
            self.wf(),
        ensures
            b == self@.dom().contains(k@),
    {
        self.index_of(k).is_some()
    }

    /// Removes the entry for `k`.
    pub fn remove(&mut self, k: &str) -> (r: Option<V>)
        requires
            old(self).wf(),
        ensures
            final(self).wf(),
            final(self)@ == old(self)@.remove(k@),
            r is Some == old(self)@.dom().contains(k@),
            r matches Some(v) ==> v == old(self)@[k@],
    {
        let ghost s = keyed(self.entries@);
        match self.index_of(k) {
            Some(i) => {
                let e = self.entries.remove(i);
                proof {
                    lemma_remove(s, i as int);
                    assert(keyed(self.entries@) =~= s.remove(i as int));
                }
                Some(e.1)
            },
            None => {
                proof {
                    lemma_absent(s, k@);
                }
                None
            },
        }
    }

    /// Sets the value for `k`.
    pub fn insert(&mut self, k: String, v: V)
        requires
            old(self).wf(),
        ensures
            final(self).wf(),
            final(self)@ == old(self)@.insert(k@, v),
    {
        let ghost was = self@;
        self.remove(k.as_str());
        let ghost s = keyed(self.entries@);
        proof {
            assert(!has_key(s, k@)) by {
                if has_key(s, k@) {
                    assert(self@.dom().contains(k@));
                }
            }
            lemma_push(s, k@, v);
        }
        let ghost kk = k@;
        self.entries.push((k, v));
        proof {
            assert(keyed(self.entries@) =~= s.push((kk, v)));
            assert(was.remove(kk).insert(kk, v) =~= was.insert(kk, v));
        }
    }

    /// Sets the value for `k` where it has none.
    pub fn insert_first(&mut self, k: String, v: V)
        requires
            old(self).wf(),
        ensures
            final(self).wf(),
            final(self)@ == first_wins(old(self)@, k@, v),
    {
        if !self.contains(k.as_str()) {
            self.insert(k, v);
        }
    }

    /// The table has finitely many entries, one for each of its texts.
    pub proof fn lemma_finite(&self)
        requires
            self.wf(),
        ensures
            self@.dom().finite(),
            self@.dom().len() == self.entries@.len(),
    {
        let s = keyed(self.entries@);
        let keys = s.map_values(|e: (Seq<char>, V)| e.0);
        assert(keys.no_duplicates()) by {
            assert forall|i: int, j: int|
                0 <= i < keys.len() && 0 <= j < keys.len() && i != j implies keys[i]
                != keys[j] by {
                assert(keys[i] == s[i].0 && keys[j] == s[j].0);
            }
        }
        keys.unique_seq_to_set();
        assert(self@.dom() =~= keys.to_set()) by {
            assert forall|k: Seq<char>| self@.dom().contains(k) == keys.to_set().contains(k) by {
                if has_key(s, k) {
                    let i = slot(s, k);
                    assert(keys[i] == k);
                }
                if keys.contains(k) {
                    let i = choose|i: int| 0 <= i < keys.len() && keys[i] == k;
                    assert(s[i].0 == k);
                }
            }
        }
    }

    /// How many texts have an entry.
    pub fn len(&self) -> (n: usize)
        requires
            self.wf(),
        ensures
            n == self@.dom().len(),
    {
        proof {
            self.lemma_finite();
        }
        self.entries.len()
    }
}

} // verus!
