//! An association table: a finite map kept as a vector of distinct keys.

use vstd::prelude::*;

verus! {

/// A key whose executable comparison is exact.
pub trait Key: Sized {
    fn same(&self, other: &Self) -> (b: bool)
        ensures
            b == (*self == *other),
    ;
}

impl Key for u32 {
    fn same(&self, other: &Self) -> (b: bool) {
        *self == *other
    }
}

impl Key for u128 {
    fn same(&self, other: &Self) -> (b: bool) {
        *self == *other
    }
}

/// A map from `K` to `V`, held as its entries in some order.
pub struct Table<K, V> {
    pub entries: Vec<(K, V)>,
}

/// No key occurs twice.
pub open spec fn distinct_keys<K, V>(s: Seq<(K, V)>) -> bool {
    forall|i: int, j: int|
        #![trigger s[i], s[j]]
        0 <= i < s.len() && 0 <= j < s.len() && s[i].0 == s[j].0 ==> i == j
}

/// Some entry has the key `k`.
pub open spec fn has_key<K, V>(s: Seq<(K, V)>, k: K) -> bool {
    exists|i: int| #![trigger s[i]] 0 <= i < s.len() && s[i].0 == k
}

/// The index of the entry for `k`, where there is one.
pub open spec fn slot<K, V>(s: Seq<(K, V)>, k: K) -> int {
    choose|i: int| #![trigger s[i]] 0 <= i < s.len() && s[i].0 == k
}

/// The map that a list of entries with distinct keys stands for.
pub open spec fn map_of<K, V>(s: Seq<(K, V)>) -> Map<K, V> {
    Map::new(|k: K| has_key(s, k), |k: K| s[slot(s, k)].1)
}

pub proof fn lemma_slot<K, V>(s: Seq<(K, V)>, i: int)
    requires
        distinct_keys(s),
        0 <= i < s.len(),
    ensures
        has_key(s, s[i].0),
        slot(s, s[i].0) == i,
        map_of(s).dom().contains(s[i].0),
        map_of(s)[s[i].0] == s[i].1,
{
    let k = s[i].0;
    assert(s[i].0 == k);
    let j = slot(s, k);
    assert(0 <= j < s.len() && s[j].0 == k);
}

pub proof fn lemma_push<K, V>(s: Seq<(K, V)>, k: K, v: V)
    requires
        distinct_keys(s),
        !has_key(s, k),
    ensures
        distinct_keys(s.push((k, v))),
        map_of(s.push((k, v))) == map_of(s).insert(k, v),
{
    let t = s.push((k, v));
    assert(t[s.len() as int] == (k, v));
    assert forall|i: int, j: int|
        #![trigger t[i], t[j]]
        0 <= i < t.len() && 0 <= j < t.len() && t[i].0 == t[j].0 implies i == j by {
        if i < s.len() {
            assert(s[i] == t[i]);
        }
        if j < s.len() {
            assert(s[j] == t[j]);
        }
    }
    assert forall|x: K| has_key(t, x) == (has_key(s, x) || x == k) by {
        if has_key(s, x) {
            let i = slot(s, x);
            assert(s[i].0 == x);
            assert(t[i].0 == x);
        }
        if has_key(t, x) {
            let i = slot(t, x);
            assert(t[i].0 == x);
            if i < s.len() {
                assert(s[i].0 == x);
            }
        }
        if x == k {
            assert(t[s.len() as int].0 == k);
        }
    }
    assert forall|x: K| #![auto] has_key(t, x) implies map_of(t)[x] == map_of(s).insert(k, v)[x] by {
        let i = slot(t, x);
        assert(t[i].0 == x);
        lemma_slot(t, i);
        if i < s.len() {
            assert(s[i] == t[i]);
            lemma_slot(s, i);
        } else {
            assert(x == k);
        }
    }
    assert(map_of(t) =~= map_of(s).insert(k, v));
}

pub proof fn lemma_remove<K, V>(s: Seq<(K, V)>, i: int)
    requires
        distinct_keys(s),
        0 <= i < s.len(),
    ensures
        distinct_keys(s.remove(i)),
        !has_key(s.remove(i), s[i].0),
        map_of(s.remove(i)) == map_of(s).remove(s[i].0),
{
    let t = s.remove(i);
    let k = s[i].0;
    assert forall|a: int| 0 <= a < t.len() implies t[a] == s[if a < i { a } else { a + 1 }] by {}
    assert forall|a: int, b: int|
        #![trigger t[a], t[b]]
        0 <= a < t.len() && 0 <= b < t.len() && t[a].0 == t[b].0 implies a == b by {
        let a2 = if a < i { a } else { a + 1 };
        let b2 = if b < i { b } else { b + 1 };
        assert(s[a2].0 == s[b2].0);
    }
    assert forall|x: K| has_key(t, x) == (has_key(s, x) && x != k) by {
        if has_key(t, x) {
            let a = slot(t, x);
            let a2 = if a < i { a } else { a + 1 };
            assert(s[a2].0 == x);
            assert(s[i].0 == k);
        }
        if has_key(s, x) && x != k {
            let a = slot(s, x);
            assert(s[a].0 == x);
            let a2 = if a < i { a } else { a - 1 };
            assert(t[a2].0 == x);
        }
    }
    assert forall|x: K| #![auto] has_key(t, x) implies map_of(t)[x] == map_of(s).remove(k)[x] by {
        let a = slot(t, x);
        assert(t[a].0 == x);
        lemma_slot(t, a);
        let a2 = if a < i { a } else { a + 1 };
        lemma_slot(s, a2);
    }
    assert(map_of(t) =~= map_of(s).remove(k));
}

pub proof fn lemma_absent<K, V>(s: Seq<(K, V)>, k: K)
    requires
        !has_key(s, k),
    ensures
        !map_of(s).dom().contains(k),
        map_of(s).remove(k) == map_of(s),
{
    assert(map_of(s).remove(k) =~= map_of(s));
}

/// A table holds as many entries as keys.
pub proof fn lemma_key_count<K, V>(s: Seq<(K, V)>)
    requires
        distinct_keys(s),
    ensures
        map_of(s).dom().finite(),
        map_of(s).dom().len() == s.len(),
    decreases s.len(),
{
    if s.len() == 0 {
        assert(map_of(s).dom() =~= Set::empty());
    } else {
        let t = s.drop_last();
        let (k, v) = s.last();
        assert(distinct_keys(t));
        assert(t.push((k, v)) =~= s);
        assert(!has_key(t, k));
        lemma_key_count(t);
        lemma_push(t, k, v);
        assert(map_of(s).dom() =~= map_of(t).dom().insert(k));
    }
}

/// The sum of `f` over the values of a list of entries.
pub open spec fn weight<K, V>(s: Seq<(K, V)>, f: spec_fn(V) -> nat) -> nat
    decreases s.len(),
{
    if s.len() == 0 {
        0
    } else {
        weight(s.drop_last(), f) + f(s.last().1)
    }
}

pub proof fn lemma_weight_push<K, V>(s: Seq<(K, V)>, e: (K, V), f: spec_fn(V) -> nat)
    ensures
        weight(s.push(e), f) == weight(s, f) + f(e.1),
{
    assert(s.push(e).drop_last() =~= s);
}

pub proof fn lemma_weight_remove<K, V>(s: Seq<(K, V)>, i: int, f: spec_fn(V) -> nat)
    requires
        0 <= i < s.len(),
    ensures
        weight(s, f) == weight(s.remove(i), f) + f(s[i].1),
    decreases s.len(),
{
    if i == s.len() - 1 {
        assert(s.remove(i) =~= s.drop_last());
    } else {
        lemma_weight_remove(s.drop_last(), i, f);
        assert(s.remove(i).drop_last() =~= s.drop_last().remove(i));
        assert(s.remove(i).last() == s.last());
    }
}

impl<K, V> View for Table<K, V> {
    type V = Map<K, V>;

    open spec fn view(&self) -> Map<K, V> {
        map_of(self.entries@)
    }
}

impl<K: Key, V> Table<K, V> {
    pub open spec fn wf(&self) -> bool {
        distinct_keys(self.entries@)
    }

    pub fn new() -> (t: Self)
        ensures
            t.wf(),
            t@ == Map::<K, V>::empty(),
            t.entries@ == Seq::<(K, V)>::empty(),
    {
        let t = Table { entries: Vec::new() };
        assert(t@ =~= Map::<K, V>::empty());
        t
    }

    pub fn len(&self) -> (n: usize)
        ensures
            n == self.entries@.len(),
    {
        self.entries.len()
    }

    /// The position of the entry for `k`.
    pub fn index_of(&self, k: &K) -> (r: Option<usize>)
        requires
            self.wf(),
        ensures
            r is Some == self@.dom().contains(*k),
            r is Some == has_key(self.entries@, *k),
            r matches Some(i) ==> i < self.entries@.len() && self.entries@[i as int].0 == *k
                && self.entries@[i as int].1 == self@[*k] && slot(self.entries@, *k) == i,
    {
        let mut i: usize = 0;
        while i < self.entries.len()
            invariant
                self.wf(),
                i <= self.entries@.len(),
                forall|j: int| 0 <= j < i ==> (#[trigger] self.entries@[j]).0 != *k,
            decreases self.entries.len() - i,
        {
            if self.entries[i].0.same(k) {
                proof {
                    lemma_slot(self.entries@, i as int);
                }
                return Some(i);
            }
            i += 1;
        }
        None
    }

    pub fn contains(&self, k: &K) -> (b: bool)
        requires
            self.wf(),
        ensures
            b == self@.dom().contains(*k),
    {
        self.index_of(k).is_some()
    }

    pub fn get(&self, k: &K) -> (r: Option<&V>)
        requires
            self.wf(),
        ensures
            r is Some == self@.dom().contains(*k),
            r matches Some(v) ==> *v == self@[*k],
    {
        match self.index_of(k) {
            Some(i) => Some(&self.entries[i].1),
            None => None,
        }
    }

    /// Removes the entry for `k` and hands out its value.
    pub fn take(&mut self, k: &K) -> (r: Option<V>)
        requires
            old(self).wf(),
        ensures
            final(self).wf(),
            final(self)@ == old(self)@.remove(*k),
            r is Some == old(self)@.dom().contains(*k),
            r is Some == has_key(old(self).entries@, *k),
            r matches Some(v) ==> v == old(self)@[*k] && final(self).entries@
                == old(self).entries@.remove(slot(old(self).entries@, *k)) && old(
                self,
            ).entries@[slot(old(self).entries@, *k)] == (*k, v) && 0 <= slot(old(self).entries@, *k)
                < old(self).entries@.len(),
            r is None ==> final(self).entries@ == old(self).entries@,
    {
        match self.index_of(k) {
            Some(i) => {
                proof {
                    lemma_remove(self.entries@, i as int);
                }
                let e = self.entries.remove(i);
                Some(e.1)
            },
            None => {
                proof {
                    lemma_absent(self.entries@, *k);
                }
                None
            },
        }
    }

    /// Sets the value for `k`, and hands out the value that it replaces.
    pub fn insert(&mut self, k: K, v: V) -> (r: Option<V>)
        requires
            old(self).wf(),
        ensures
            final(self).wf(),
            final(self)@ == old(self)@.insert(k, v),
            r is Some == old(self)@.dom().contains(k),
            r matches Some(w) ==> w == old(self)@[k],
            r is None ==> final(self).entries@ == old(self).entries@.push((k, v)),
            r is Some ==> final(self).entries@ == old(self).entries@.remove(
                slot(old(self).entries@, k),
            ).push((k, v)),
    {
        let r = self.take(&k);
        proof {
            assert(!has_key(self.entries@, k)) by {
                if has_key(self.entries@, k) {
                    assert(self@.dom().contains(k));
                }
            }
            lemma_push(self.entries@, k, v);
            assert(old(self)@.remove(k).insert(k, v) =~= old(self)@.insert(k, v));
        }
        self.entries.push((k, v));
        r
    }

    pub fn clear(&mut self)
        ensures
            final(self).wf(),
            final(self)@ == Map::<K, V>::empty(),
            final(self).entries@ == Seq::<(K, V)>::empty(),
    {
        self.entries.clear();
        assert(self@ =~= Map::<K, V>::empty());
    }
}

} // verus!
