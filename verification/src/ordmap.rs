//! A map from strings to values that is walked in the order of its keys.

use crate::text::{lemma_str_order, str_lt, str_order, strictly_sorted, Precedence};
use vstd::prelude::*;

verus! {

/// The map that pairs `keys[i]` with `values[i]`.
pub open spec fn paired<V>(keys: Seq<Seq<char>>, values: Seq<V>) -> Map<Seq<char>, V> {
    Map::new(|k: Seq<char>| keys.contains(k), |k: Seq<char>| values[keys.index_of(k)])
}

/// In a sorted list of keys no key stands twice.
pub proof fn lemma_sorted_distinct(keys: Seq<Seq<char>>)
    requires
        strictly_sorted(keys),
    ensures
        keys.no_duplicates(),
{
    assert forall|i: int, j: int| 0 <= i < keys.len() && 0 <= j < keys.len() && i != j implies keys[i]
        != keys[j] by {
        lemma_str_order(keys[i], keys[j], keys[i]);
    }
}

/// In a sorted list each key is paired with the value at its own position.
pub proof fn lemma_paired_at<V>(keys: Seq<Seq<char>>, values: Seq<V>, i: int)
    requires
        strictly_sorted(keys),
        0 <= i < keys.len(),
    ensures
        paired(keys, values).contains_key(keys[i]),
        paired(keys, values)[keys[i]] == values[i],
        keys.index_of(keys[i]) == i,
{
    lemma_sorted_distinct(keys);
    assert(keys.contains(keys[i]));
    let j = keys.index_of(keys[i]);
    assert(0 <= j < keys.len() && keys[j] == keys[i]);
}

spec fn keys_of<V>(entries: Seq<(String, V)>) -> Seq<Seq<char>> {
    Seq::new(entries.len(), |i: int| entries[i].0@)
}

spec fn values_of<V>(entries: Seq<(String, V)>) -> Seq<V> {
    Seq::new(entries.len(), |i: int| entries[i].1)
}

/// A map keyed by strings. Its entries are kept, and handed out, in the
/// order of their keys.
#[derive(Debug)]
pub struct OrderedMap<V> {
    entries: Vec<(String, V)>,
}

impl<V> View for OrderedMap<V> {
    type V = Map<Seq<char>, V>;

    open spec fn view(&self) -> Map<Seq<char>, V> {
        paired(self.keys(), self.values())
    }
}

impl<V> OrderedMap<V> {
    #[verifier::type_invariant]
    closed spec fn inv(self) -> bool {
        strictly_sorted(self.keys())
    }

    /// The keys, in the order in which the map is walked.
    pub closed spec fn keys(self) -> Seq<Seq<char>> {
        keys_of(self.entries@)
    }

    /// The values, each at the position of its key.
    pub closed spec fn values(self) -> Seq<V> {
        values_of(self.entries@)
    }

    /// The keys increase strictly and each has its value.
    pub open spec fn ordered(self) -> bool {
        &&& strictly_sorted(self.keys())
        &&& self.values().len() == self.keys().len()
    }

    /// An empty map.
    pub fn new() -> (m: Self)
        ensures
            m@ == Map::<Seq<char>, V>::empty(),
            m.keys() == Seq::<Seq<char>>::empty(),
            m.ordered(),
    {
        let m = OrderedMap { entries: Vec::new() };
        assert(m.keys() =~= Seq::<Seq<char>>::empty());
        assert(m@ =~= Map::<Seq<char>, V>::empty());
        m
    }

    /// The number of entries.
    pub fn len(&self) -> (n: usize)
        ensures
            n == self.keys().len(),
            n == self@.len(),
            self@.dom().finite(),
            self@.dom() == self.keys().to_set(),
            forall|i: int|
                0 <= i < n ==> self@.contains_key(#[trigger] self.keys()[i]) && self@[self.keys()[i]]
                    == self.values()[i],
            self.ordered(),
    {
        proof {
            use_type_invariant(self);
            self.lemma_domain();
            assert forall|i: int| 0 <= i < self.keys().len() implies self@.contains_key(
                #[trigger] self.keys()[i],
            ) && self@[self.keys()[i]] == self.values()[i] by {
                lemma_paired_at(self.keys(), self.values(), i);
            }
        }
        self.entries.len()
    }

    /// Whether the map has no entry.
    pub fn is_empty(&self) -> (b: bool)
        ensures
            b == (self.keys().len() == 0),
            b == (self@ == Map::<Seq<char>, V>::empty()),
    {
        proof {
            use_type_invariant(self);
            self.lemma_domain();
            if self.keys().len() == 0 {
                assert(self@ =~= Map::<Seq<char>, V>::empty());
            } else {
                lemma_paired_at(self.keys(), self.values(), 0);
            }
        }
        self.entries.len() == 0
    }

    proof fn lemma_domain(self)
        requires
            strictly_sorted(self.keys()),
        ensures
            self@.dom() == self.keys().to_set(),
            self@.dom().finite(),
            self@.len() == self.keys().len(),
    {
        lemma_sorted_distinct(self.keys());
        assert(self@.dom() =~= self.keys().to_set());
        self.keys().unique_seq_to_set();
    }

    /// The key of the entry at position `i`.
    pub fn key_at(&self, i: usize) -> (k: &String)
        requires
            i < self.keys().len(),
        ensures
            k@ == self.keys()[i as int],
            self@.contains_key(k@),
            self.ordered(),
    {
        proof {
            use_type_invariant(self);
            lemma_paired_at(self.keys(), self.values(), i as int);
        }
        &self.entries[i].0
    }

    /// The value of the entry at position `i`.
    pub fn value_at(&self, i: usize) -> (v: &V)
        requires
            i < self.keys().len(),
        ensures
            *v == self.values()[i as int],
            self@.contains_key(self.keys()[i as int]),
            *v == self@[self.keys()[i as int]],
            self.ordered(),
    {
        proof {
            use_type_invariant(self);
            lemma_paired_at(self.keys(), self.values(), i as int);
        }
        &self.entries[i].1
    }

    /// The first position whose key is not before `k`.
    fn lower_bound(&self, k: &str) -> (r: (usize, bool))
        ensures
            r.0 <= self.keys().len(),
            forall|j: int| 0 <= j < r.0 ==> str_lt(#[trigger] self.keys()[j], k@),
            r.1 ==> r.0 < self.keys().len() && self.keys()[r.0 as int] == k@,
            !r.1 ==> !self.keys().contains(k@),
            !r.1 ==> forall|j: int|
                r.0 <= j < self.keys().len() ==> str_lt(k@, #[trigger] self.keys()[j]),
    {
        proof {
            use_type_invariant(self);
        }
        let mut i: usize = 0;
        while i < self.entries.len()
            invariant
                i <= self.entries.len(),
                strictly_sorted(self.keys()),
                self.keys().len() == self.entries.len(),
                forall|j: int| 0 <= j < i ==> str_lt(#[trigger] self.keys()[j], k@),
            decreases self.entries.len() - i,
        {
            let o = str_order(self.entries[i].0.as_str(), k);
            proof {
                assert(self.keys()[i as int] == self.entries[i as int].0@);
            }
            match o {
                Precedence::Before => {},
                Precedence::Same => {
                    return (i, true);
                },
                Precedence::After => {
                    proof {
                        let keys = self.keys();
                        assert forall|j: int| i <= j < keys.len() implies str_lt(
                            k@,
                            #[trigger] keys[j],
                        ) by {
                            if j > i {
                                lemma_str_order(k@, keys[i as int], keys[j]);
                            }
                        }
                        assert forall|j: int| 0 <= j < keys.len() implies keys[j] != k@ by {
                            lemma_str_order(keys[j], k@, keys[j]);
                        }
                    }
                    return (i, false);
                },
            }
            i += 1;
        }
        proof {
            let keys = self.keys();
            assert forall|j: int| 0 <= j < keys.len() implies keys[j] != k@ by {
                lemma_str_order(keys[j], k@, keys[j]);
            }
        }
        (i, false)
    }

    /// Whether `k` is a key of the map.
    pub fn contains_key(&self, k: &str) -> (b: bool)
        ensures
            b == self@.contains_key(k@),
    {
        self.lower_bound(k).1
    }

    /// The value that `k` is paired with, if any.
    pub fn get(&self, k: &str) -> (r: Option<&V>)
        ensures
            r == (if self@.contains_key(k@) {
                Some(&self@[k@])
            } else {
                None
            }),
    {
        let (i, found) = self.lower_bound(k);
        if found {
            proof {
                use_type_invariant(self);
                lemma_paired_at(self.keys(), self.values(), i as int);
            }
            Some(&self.entries[i].1)
        } else {
            None
        }
    }

    /// Pairs `k` with `v`, in place of what `k` was paired with before.
    pub fn insert(&mut self, k: String, v: V)
        ensures
            final(self)@ == old(self)@.insert(k@, v),
            final(self).keys().len() == final(self)@.len(),
            final(self).ordered(),
    {
        let (i, found) = self.lower_bound(k.as_str());
        let mut taken = OrderedMap { entries: Vec::new() };
        assert(taken.keys() =~= Seq::<Seq<char>>::empty());
        core::mem::swap(self, &mut taken);
        proof {
            use_type_invariant(&taken);
        }
        let ghost keys = taken.keys();
        let ghost values = taken.values();
        let ghost before = taken@;
        let mut entries = taken.entries;
        if found {
            entries.set(i, (k, v));
        } else {
            entries.insert(i, (k, v));
        }
        proof {
            let nk = keys_of(entries@);
            let nv = values_of(entries@);
            if found {
                assert(nk =~= keys);
                assert(strictly_sorted(nk));
                assert(nv =~= values.update(i as int, v));
                assert forall|q: Seq<char>| #[trigger] keys.contains(q) implies paired(nk, nv)[q] == (
                if q == k@ {
                    v
                } else {
                    before[q]
                }) by {
                    let j = keys.index_of(q);
                    lemma_paired_at(keys, values, j);
                    lemma_paired_at(nk, nv, j);
                    lemma_paired_at(keys, values, i as int);
                }
                assert(paired(nk, nv) =~= before.insert(k@, v));
            } else {
                assert(nk =~= keys.insert(i as int, k@));
                assert(nv =~= values.insert(i as int, v));
                assert forall|a: int, b: int| 0 <= a < b < nk.len() implies str_lt(
                    #[trigger] nk[a],
                    #[trigger] nk[b],
                ) by {
                    let oa = if a < i { a } else { a - 1 };
                    let ob = if b < i { b } else { b - 1 };
                    if a != i && b != i {
                        assert(nk[a] == keys[oa]);
                        assert(nk[b] == keys[ob]);
                    } else if a == i {
                        assert(nk[b] == keys[ob]);
                    } else {
                        assert(nk[a] == keys[oa]);
                    }
                }
                lemma_paired_at(nk, nv, i as int);
                assert forall|q: Seq<char>| #[trigger] keys.contains(q) implies nk.contains(q)
                    && paired(nk, nv)[q] == before[q] by {
                    let j = keys.index_of(q);
                    let nj = if j < i { j } else { j + 1 };
                    assert(nk[nj] == q);
                    lemma_paired_at(keys, values, j);
                    lemma_paired_at(nk, nv, nj);
                }
                assert forall|q: Seq<char>| #[trigger] nk.contains(q) implies q == k@
                    || keys.contains(q) by {
                    let nj = nk.index_of(q);
                    if nj != i {
                        let j = if nj < i { nj } else { nj - 1 };
                        assert(keys[j] == q);
                    }
                }
                assert(paired(nk, nv) =~= before.insert(k@, v));
            }
        }
        *self = OrderedMap { entries };
        proof {
            self.lemma_domain();
        }
    }
}

impl<V> OrderedMap<V> {
    /// Takes the entry of `k` out of the map, if there is one, and hands
    /// back its value.
    pub fn remove(&mut self, k: &str) -> (r: Option<V>)
        ensures
            final(self)@ == old(self)@.remove(k@),
            r == (if old(self)@.contains_key(k@) {
                Some(old(self)@[k@])
            } else {
                None
            }),
            final(self).ordered(),
    {
        let (i, found) = self.lower_bound(k);
        if !found {
            proof {
                use_type_invariant(&*self);
                assert(self@ =~= self@.remove(k@));
            }
            return None;
        }
        let mut taken = OrderedMap { entries: Vec::new() };
        assert(taken.keys() =~= Seq::<Seq<char>>::empty());
        core::mem::swap(self, &mut taken);
        proof {
            use_type_invariant(&taken);
        }
        let ghost keys = taken.keys();
        let ghost values = taken.values();
        let ghost before = taken@;
        let mut entries = taken.entries;
        let gone = entries.remove(i);
        proof {
            let nk = keys_of(entries@);
            let nv = values_of(entries@);
            assert(nk =~= keys.remove(i as int));
            assert(nv =~= values.remove(i as int));
            assert forall|a: int, b: int| 0 <= a < b < nk.len() implies str_lt(
                #[trigger] nk[a],
                #[trigger] nk[b],
            ) by {
                let oa = if a < i { a } else { a + 1 };
                let ob = if b < i { b } else { b + 1 };
                assert(nk[a] == keys[oa]);
                assert(nk[b] == keys[ob]);
            }
            lemma_paired_at(keys, values, i as int);
            lemma_sorted_distinct(keys);
            assert forall|q: Seq<char>| #[trigger] nk.contains(q) implies keys.contains(q) && q
                != k@ && paired(nk, nv)[q] == before[q] by {
                let nj = nk.index_of(q);
                let j = if nj < i { nj } else { nj + 1 };
                assert(keys[j] == q);
                lemma_paired_at(keys, values, j);
                lemma_paired_at(nk, nv, nj);
            }
            assert forall|q: Seq<char>| #[trigger] keys.contains(q) && q != k@ implies nk.contains(
                q,
            ) by {
                let j = keys.index_of(q);
                let nj = if j < i { j } else { j - 1 };
                assert(nk[nj] == q);
            }
            assert(paired(nk, nv) =~= before.remove(k@));
        }
        *self = OrderedMap { entries };
        Some(gone.1)
    }
}

impl<V> OrderedMap<V> {
    /// Adds an entry whose key comes after every key of the map.
    pub fn push_last(&mut self, k: String, v: V)
        requires
            forall|i: int| 0 <= i < old(self).keys().len() ==> str_lt(
                #[trigger] old(self).keys()[i],
                k@,
            ),
        ensures
            final(self).keys() == old(self).keys().push(k@),
            final(self).values() == old(self).values().push(v),
            final(self)@ == old(self)@.insert(k@, v),
            final(self).ordered(),
    {
        let mut taken = OrderedMap { entries: Vec::new() };
        assert(taken.keys() =~= Seq::<Seq<char>>::empty());
        core::mem::swap(self, &mut taken);
        proof {
            use_type_invariant(&taken);
        }
        let ghost keys = taken.keys();
        let ghost values = taken.values();
        let ghost before = taken@;
        let mut entries = taken.entries;
        entries.push((k, v));
        proof {
            let nk = keys_of(entries@);
            let nv = values_of(entries@);
            assert(nk =~= keys.push(k@));
            assert(nv =~= values.push(v));
            assert forall|a: int, b: int| 0 <= a < b < nk.len() implies str_lt(
                #[trigger] nk[a],
                #[trigger] nk[b],
            ) by {
                if b < keys.len() {
                    assert(nk[a] == keys[a]);
                    assert(nk[b] == keys[b]);
                }
            }
            lemma_paired_at(nk, nv, keys.len() as int);
            assert forall|q: Seq<char>| #[trigger] keys.contains(q) implies nk.contains(q)
                && paired(nk, nv)[q] == before[q] by {
                let j = keys.index_of(q);
                assert(nk[j] == q);
                lemma_paired_at(keys, values, j);
                lemma_paired_at(nk, nv, j);
            }
            assert forall|q: Seq<char>| #[trigger] nk.contains(q) implies q == k@ || keys.contains(
                q,
            ) by {
                let nj = nk.index_of(q);
                if nj != keys.len() {
                    assert(keys[nj] == q);
                }
            }
            assert(paired(nk, nv) =~= before.insert(k@, v));
        }
        *self = OrderedMap { entries };
    }
}

impl<V: Clone> Clone for OrderedMap<V> {
    /// A map with the same keys, each paired with a clone of its value.
    fn clone(&self) -> (m: Self)
        ensures
            m.keys() == self.keys(),
            m.values().len() == self.values().len(),
            forall|i: int|
                0 <= i < self.values().len() ==> cloned(
                    #[trigger] self.values()[i],
                    m.values()[i],
                ),
            m@.dom() == self@.dom(),
            forall|k: Seq<char>| self@.contains_key(k) ==> cloned(#[trigger] self@[k], m@[k]),
    {
        proof {
            use_type_invariant(self);
        }
        let mut entries: Vec<(String, V)> = Vec::new();
        let mut i: usize = 0;
        while i < self.entries.len()
            invariant
                i <= self.entries.len(),
                entries.len() == i,
                forall|j: int| 0 <= j < i ==> (#[trigger] entries@[j]).0@ == self.entries@[j].0@,
                forall|j: int|
                    0 <= j < i ==> cloned((#[trigger] self.entries@[j]).1, entries@[j].1),
            decreases self.entries.len() - i,
        {
            let k = self.entries[i].0.clone();
            let v = self.entries[i].1.clone();
            entries.push((k, v));
            i += 1;
        }
        proof {
            assert(keys_of(entries@) =~= keys_of(self.entries@));
        }
        let m = OrderedMap { entries };
        proof {
            assert(m@.dom() =~= self@.dom());
            assert forall|k: Seq<char>| self@.contains_key(k) implies cloned(
                #[trigger] self@[k],
                m@[k],
            ) by {
                let i = self.keys().index_of(k);
                assert(self@[k] == self.values()[i]);
                assert(m@[k] == m.values()[i]);
            }
        }
        m
    }
}

/// A set of strings that is walked in the order of its members.
#[derive(Debug)]
pub struct OrderedSet {
    items: OrderedMap<()>,
}

impl View for OrderedSet {
    type V = Set<Seq<char>>;

    open spec fn view(&self) -> Set<Seq<char>> {
        self.members().to_set()
    }
}

impl OrderedSet {
    /// The members, in the order in which the set is walked.
    pub closed spec fn members(self) -> Seq<Seq<char>> {
        self.items.keys()
    }

    /// An empty set.
    pub fn new() -> (s: Self)
        ensures
            s@ == Set::<Seq<char>>::empty(),
            s.members() == Seq::<Seq<char>>::empty(),
            strictly_sorted(s.members()),
    {
        let s = OrderedSet { items: OrderedMap::new() };
        assert(s@ =~= Set::<Seq<char>>::empty());
        s
    }

    /// The number of members.
    pub fn len(&self) -> (n: usize)
        ensures
            n == self.members().len(),
            n == self@.len(),
            self@.finite(),
            strictly_sorted(self.members()),
    {
        let n = self.items.len();
        proof {
            lemma_sorted_distinct(self.members());
            self.members().unique_seq_to_set();
        }
        n
    }

    /// Whether the set has no member.
    pub fn is_empty(&self) -> (b: bool)
        ensures
            b == (self.members().len() == 0),
            b == (self@ == Set::<Seq<char>>::empty()),
    {
        let b = self.items.is_empty();
        proof {
            if self.members().len() == 0 {
                assert(self@ =~= Set::<Seq<char>>::empty());
            } else {
                assert(self.members().contains(self.members()[0]));
                assert(self@.contains(self.members()[0]));
            }
        }
        b
    }

    /// The member at position `i`.
    pub fn member_at(&self, i: usize) -> (k: &String)
        requires
            i < self.members().len(),
        ensures
            k@ == self.members()[i as int],
            self@.contains(k@),
            strictly_sorted(self.members()),
    {
        let k = self.items.key_at(i);
        proof {
            assert(self.members().contains(self.members()[i as int]));
        }
        k
    }

    /// Whether `k` is a member.
    pub fn contains(&self, k: &str) -> (b: bool)
        ensures
            b == self@.contains(k@),
    {
        let b = self.items.contains_key(k);
        proof {
            assert(self.items@.contains_key(k@) == self.members().contains(k@));
        }
        b
    }

    /// Adds `k`. Returns whether it was not a member before.
    pub fn insert(&mut self, k: String) -> (fresh: bool)
        ensures
            final(self)@ == old(self)@.insert(k@),
            fresh == !old(self)@.contains(k@),
            strictly_sorted(final(self).members()),
    {
        let was = self.contains(k.as_str());
        let ghost before = self.items@;
        self.items.insert(k, ());
        proof {
            assert forall|q: Seq<char>| final(self).members().contains(q) == (q == k@ || old(
                self,
            ).members().contains(q)) by {
                assert(final(self).items@.contains_key(q) == final(self).members().contains(q));
                assert(before.contains_key(q) == old(self).members().contains(q));
            }
            assert(final(self)@ =~= old(self)@.insert(k@));
        }
        !was
    }

    /// A set with the same members.
    pub fn copy(&self) -> (s: Self)
        ensures
            s@ == self@,
            s.members() == self.members(),
    {
        let mut out = OrderedSet::new();
        let n = self.len();
        let mut i: usize = 0;
        while i < n
            invariant
                i <= n,
                n == self.members().len(),
                strictly_sorted(self.members()),
                strictly_sorted(out.members()),
                out@ == self.members().take(i as int).to_set(),
            decreases n - i,
        {
            let k = self.member_at(i).clone();
            out.insert(k);
            proof {
                let m = self.members();
                assert(m.take(i + 1) =~= m.take(i as int).push(m[i as int]));
                assert(m.take(i + 1).to_set() =~= m.take(i as int).to_set().insert(m[i as int]))
                    by {
                    assert forall|q: Seq<char>| m.take(i + 1).contains(q) == (q == m[i as int]
                        || m.take(i as int).contains(q)) by {
                        if m.take(i as int).contains(q) {
                            let j = m.take(i as int).index_of(q);
                            assert(m.take(i + 1)[j] == q);
                        }
                        if q == m[i as int] {
                            assert(m.take(i + 1)[i as int] == q);
                        }
                    }
                }
            }
            i += 1;
        }
        proof {
            assert(self.members().take(n as int) =~= self.members());
            lemma_sorted_same_members(out.members(), self.members());
        }
        out
    }
}

impl Clone for OrderedSet {
    fn clone(&self) -> (s: Self)
        ensures
            s@ == self@,
    {
        self.copy()
    }
}

/// Two sorted lists with the same members are the same list.
pub proof fn lemma_sorted_same_members(a: Seq<Seq<char>>, b: Seq<Seq<char>>)
    requires
        strictly_sorted(a),
        strictly_sorted(b),
        a.to_set() == b.to_set(),
    ensures
        a == b,
    decreases a.len(),
{
    lemma_sorted_distinct(a);
    lemma_sorted_distinct(b);
    a.unique_seq_to_set();
    b.unique_seq_to_set();
    if a.len() > 0 {
        let la = a.last();
        let lb = b.last();
        assert(a.contains(la));
        assert(b.to_set().contains(la));
        assert(b.contains(la));
        assert(b.contains(lb));
        assert(a.to_set().contains(lb));
        assert(a.contains(lb));
        let ia = a.index_of(lb);
        let ib = b.index_of(la);
        lemma_str_order(la, lb, la);
        if ia < a.len() - 1 {
            assert(str_lt(a[ia], a[a.len() - 1]));
        }
        if ib < b.len() - 1 {
            assert(str_lt(b[ib], b[b.len() - 1]));
        }
        assert(la == lb);
        let a1 = a.drop_last();
        let b1 = b.drop_last();
        assert forall|q: Seq<char>| a1.contains(q) == b1.contains(q) by {
            if a1.contains(q) {
                let j = a1.index_of(q);
                assert(a[j] == q);
                assert(a.contains(q));
                assert(b.to_set().contains(q));
                assert(b.contains(q));
                let k = b.index_of(q);
                assert(k != b.len() - 1);
                assert(b1[k] == q);
            }
            if b1.contains(q) {
                let j = b1.index_of(q);
                assert(b[j] == q);
                assert(b.contains(q));
                assert(a.to_set().contains(q));
                assert(a.contains(q));
                let k = a.index_of(q);
                assert(k != a.len() - 1);
                assert(a1[k] == q);
            }
        }
        assert(a1.to_set() =~= b1.to_set());
        lemma_sorted_same_members(a1, b1);
        assert(a =~= a1.push(la));
        assert(b =~= b1.push(lb));
    } else {
        assert(a =~= b);
    }
}

} // verus!
