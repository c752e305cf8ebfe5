//! An ordered map from 128-bit identifiers to values.
//!
//! Entries are kept in a vector sorted by strictly increasing key, so that
//! walking the map always visits keys in ascending order (the order the
//! runtime relies on for deterministic output).

use vstd::prelude::*;

verus! {

/// Keys of `s` strictly increase.
pub open spec fn keys_sorted<T>(s: Seq<(u128, T)>) -> bool {
    forall|i: int, j: int| 0 <= i < j < s.len() ==> s[i].0 < s[j].0
}

/// `k` is the key of some entry of `s`.
pub open spec fn has_key<T>(s: Seq<(u128, T)>, k: u128) -> bool {
    exists|i: int| 0 <= i < s.len() && s[i].0 == k
}

/// The position of key `k` in `s` (meaningful when `has_key(s, k)`).
pub open spec fn key_index<T>(s: Seq<(u128, T)>, k: u128) -> int {
    choose|i: int| 0 <= i < s.len() && s[i].0 == k
}

/// The map that a sorted entry sequence stands for.
pub open spec fn seq_to_map<T>(s: Seq<(u128, T)>) -> Map<u128, T> {
    Map::new(|k: u128| has_key(s, k), |k: u128| s[key_index(s, k)].1)
}

/// In a sorted sequence, the entry with key `s[i].0` is at position `i`.
pub proof fn lemma_key_index<T>(s: Seq<(u128, T)>, i: int)
    requires
        keys_sorted(s),
        0 <= i < s.len(),
    ensures
        has_key(s, s[i].0),
        key_index(s, s[i].0) == i,
        seq_to_map(s).contains_key(s[i].0),
        seq_to_map(s)[s[i].0] == s[i].1,
{
    assert(has_key(s, s[i].0));
    let j = key_index(s, s[i].0);
    if j < i {
        assert(s[j].0 < s[i].0);
    } else if j > i {
        assert(s[i].0 < s[j].0);
    }
}

/// The keys of a sorted sequence, in order.
pub open spec fn seq_keys<T>(s: Seq<(u128, T)>) -> Seq<u128> {
    s.map_values(|e: (u128, T)| e.0)
}

/// Position of key `k` in a sorted entry vector, if present.
pub fn entries_find<T>(entries: &Vec<(u128, T)>, k: u128) -> (r: Option<usize>)
    requires
        keys_sorted(entries@),
    ensures
        r matches Some(i) ==> i < entries@.len() && entries@[i as int].0 == k,
        r is None <==> !seq_to_map(entries@).contains_key(k),
{
    let n = entries.len();
    for i in 0..n
        invariant
            n == entries@.len(),
            forall|j: int| 0 <= j < i ==> entries@[j].0 != k,
    {
        if entries[i].0 == k {
            return Some(i);
        }
    }
    None
}

/// Insert `v` under `k` into a sorted entry vector, keeping it sorted.
pub fn entries_insert<T>(entries: &mut Vec<(u128, T)>, k: u128, v: T) -> (r: Option<T>)
    requires
        keys_sorted(old(entries)@),
    ensures
        keys_sorted(final(entries)@),
        seq_to_map(final(entries)@) == seq_to_map(old(entries)@).insert(k, v),
        r is Some <==> seq_to_map(old(entries)@).contains_key(k),
        r matches Some(o) ==> o == seq_to_map(old(entries)@)[k],
        final(entries)@.len() == old(entries)@.len() + if seq_to_map(old(entries)@).contains_key(k) { 0int } else { 1int },
{
    let ghost s = entries@;
    let n = entries.len();
    let mut p: usize = 0;
    while p < n && entries[p].0 < k
        invariant
            n == entries@.len(),
            s == entries@,
            p <= n,
            forall|j: int| 0 <= j < p ==> s[j].0 < k,
        decreases n - p,
    {
        p = p + 1;
    }
    if p < n && entries[p].0 == k {
        let old_entry = entries.remove(p);
        entries.insert(p, (k, v));
        proof {
            let t = entries@;
            assert(t =~= s.update(p as int, (k, v)));
            assert(t == s.update(p as int, (k, v)));
            assert(keys_sorted(t));
            lemma_key_index(s, p as int);
            assert forall|k2: u128| seq_to_map(t).contains_key(k2) == seq_to_map(s).insert(k, v).contains_key(k2)
                by {
                if has_key(s, k2) {
                    let i = key_index(s, k2);
                    assert(t[i].0 == k2);
                }
                if has_key(t, k2) {
                    let i = key_index(t, k2);
                    assert(s[i].0 == k2);
                }
            }
            assert forall|k2: u128| #[trigger] seq_to_map(t).contains_key(k2) implies
                seq_to_map(t)[k2] == seq_to_map(s).insert(k, v)[k2] by {
                let i = key_index(t, k2);
                lemma_key_index(t, i);
                if k2 != k {
                    assert(s[i].0 == k2);
                    lemma_key_index(s, i);
                } else {
                    lemma_key_index(t, p as int);
                }
            }
            assert(seq_to_map(t) =~= seq_to_map(s).insert(k, v));
        }
        Some(old_entry.1)
    } else {
        entries.insert(p, (k, v));
        proof {
            let t = entries@;
            assert(t == s.insert(p as int, (k, v)));
            assert(forall|j: int| p <= j < n ==> s[j].0 > k) by {
                assert forall|j: int| p <= j < n implies s[j].0 > k by {
                    if j > p {
                        assert(s[p as int].0 < s[j].0);
                    }
                }
            }
            assert(keys_sorted(t)) by {
                assert forall|i: int, j: int| 0 <= i < j < t.len() implies t[i].0 < t[j].0 by {
                    if j < p {
                    } else if j == p {
                    } else if i < p {
                        assert(t[j] == s[j - 1]);
                    } else if i == p {
                        assert(t[j] == s[j - 1]);
                    } else {
                        assert(t[i] == s[i - 1]);
                        assert(t[j] == s[j - 1]);
                    }
                }
            }
            assert(!has_key(s, k)) by {
                if has_key(s, k) {
                    let i = key_index(s, k);
                    if i < p {
                    } else {
                    }
                }
            }
            assert forall|k2: u128| seq_to_map(t).contains_key(k2) == seq_to_map(s).insert(k, v).contains_key(k2)
                by {
                if k2 == k {
                    assert(t[p as int].0 == k);
                }
                if has_key(s, k2) {
                    let i = key_index(s, k2);
                    if i < p {
                        assert(t[i].0 == k2);
                    } else {
                        assert(t[i + 1].0 == k2);
                    }
                }
                if has_key(t, k2) {
                    let i = key_index(t, k2);
                    if i < p {
                        assert(s[i].0 == k2);
                    } else if i > p {
                        assert(s[i - 1].0 == k2);
                    }
                }
            }
            assert forall|k2: u128| #[trigger] seq_to_map(t).contains_key(k2) implies
                seq_to_map(t)[k2] == seq_to_map(s).insert(k, v)[k2] by {
                let i = key_index(t, k2);
                lemma_key_index(t, i);
                if i < p {
                    assert(s[i] == t[i]);
                    lemma_key_index(s, i);
                } else if i > p {
                    assert(s[i - 1] == t[i]);
                    lemma_key_index(s, i - 1);
                }
            }
            assert(seq_to_map(t) =~= seq_to_map(s).insert(k, v));
        }
        None
    }
}

/// Remove entry `i` of a sorted entry vector.
pub fn entries_remove_at<T>(entries: &mut Vec<(u128, T)>, i: usize) -> (r: (u128, T))
    requires
        keys_sorted(old(entries)@),
        i < old(entries)@.len(),
    ensures
        keys_sorted(final(entries)@),
        r == old(entries)@[i as int],
        final(entries)@ == old(entries)@.remove(i as int),
        seq_to_map(final(entries)@) == seq_to_map(old(entries)@).remove(r.0),
{
    let ghost s = entries@;
    let r = entries.remove(i);
    proof {
        let t = entries@;
        let k = r.0;
        lemma_key_index(s, i as int);
        assert(keys_sorted(t)) by {
            assert forall|a: int, b: int| 0 <= a < b < t.len() implies t[a].0 < t[b].0 by {
                if a < i && b < i {
                } else if a < i {
                    assert(t[b] == s[b + 1]);
                } else {
                    assert(t[a] == s[a + 1]);
                    assert(t[b] == s[b + 1]);
                }
            }
        }
        assert forall|k2: u128| seq_to_map(t).contains_key(k2) == seq_to_map(s).remove(k).contains_key(k2) by {
            if has_key(s, k2) && k2 != k {
                let a = key_index(s, k2);
                if a < i {
                    assert(t[a].0 == k2);
                } else {
                    assert(a != i);
                    assert(t[a - 1].0 == k2);
                }
            }
            if has_key(t, k2) {
                let a = key_index(t, k2);
                if a < i {
                    assert(s[a].0 == k2);
                    assert(s[a].0 < s[i as int].0);
                } else {
                    assert(s[a + 1].0 == k2);
                    assert(s[i as int].0 < s[a + 1].0);
                }
            }
        }
        assert forall|k2: u128| #[trigger] seq_to_map(t).contains_key(k2) implies
            seq_to_map(t)[k2] == seq_to_map(s).remove(k)[k2] by {
            let a = key_index(t, k2);
            lemma_key_index(t, a);
            if a < i {
                assert(s[a] == t[a]);
                lemma_key_index(s, a);
            } else {
                assert(s[a + 1] == t[a]);
                lemma_key_index(s, a + 1);
            }
        }
        assert(seq_to_map(t) =~= seq_to_map(s).remove(k));
    }
    r
}

/// Replace the value of entry `i` of a sorted entry vector.
pub fn entries_set_at<T>(entries: &mut Vec<(u128, T)>, i: usize, v: T)
    requires
        keys_sorted(old(entries)@),
        i < old(entries)@.len(),
    ensures
        keys_sorted(final(entries)@),
        final(entries)@ == old(entries)@.update(i as int, (old(entries)@[i as int].0, v)),
        seq_to_map(final(entries)@) == seq_to_map(old(entries)@).insert(old(entries)@[i as int].0, v),
{
    let k = entries[i].0;
    let ghost s = entries@;
    let _ = entries.remove(i);
    entries.insert(i, (k, v));
    proof {
        let t = entries@;
        assert(t =~= s.update(i as int, (k, v)));
        assert(t == s.update(i as int, (k, v)));
        assert(keys_sorted(t));
        lemma_key_index(s, i as int);
        assert forall|k2: u128| seq_to_map(t).contains_key(k2) == seq_to_map(s).insert(k, v).contains_key(k2) by {
            if has_key(s, k2) {
                let a = key_index(s, k2);
                assert(t[a].0 == k2);
            }
            if has_key(t, k2) {
                let a = key_index(t, k2);
                assert(s[a].0 == k2);
            }
        }
        assert forall|k2: u128| #[trigger] seq_to_map(t).contains_key(k2) implies
            seq_to_map(t)[k2] == seq_to_map(s).insert(k, v)[k2] by {
            let a = key_index(t, k2);
            lemma_key_index(t, a);
            if k2 != k {
                assert(s[a].0 == k2);
                lemma_key_index(s, a);
            } else {
                lemma_key_index(t, i as int);
            }
        }
        assert(seq_to_map(t) =~= seq_to_map(s).insert(k, v));
    }
}

/// The keys of an entry vector, in order.
pub fn entries_keys<T>(entries: &Vec<(u128, T)>) -> (r: Vec<u128>)
    ensures
        r@ == seq_keys(entries@),
{
    let mut out: Vec<u128> = Vec::new();
    let n = entries.len();
    for i in 0..n
        invariant
            n == entries@.len(),
            out@ == seq_keys(entries@.take(i as int)),
    {
        proof {
            assert(seq_keys(entries@.take(i + 1)) =~= seq_keys(entries@.take(i as int)).push(
                entries@[i as int].0,
            ));
        }
        out.push(entries[i].0);
    }
    proof {
        assert(entries@.take(n as int) =~= entries@);
    }
    out
}

/// A map from identifiers to values, walked in ascending key order.
#[derive(Debug)]
pub struct IdMap<T> {
    entries: Vec<(u128, T)>,
}

impl<T> View for IdMap<T> {
    type V = Map<u128, T>;

    open spec fn view(&self) -> Map<u128, T> {
        seq_to_map(self.entries())
    }
}

impl<T> IdMap<T> {
    /// Keys strictly increase.
    #[verifier::type_invariant]
    spec fn sorted(&self) -> bool {
        keys_sorted(self.entries@)
    }

    /// The entries in ascending key order.
    pub closed spec fn entries(&self) -> Seq<(u128, T)> {
        self.entries@
    }

    /// Create an empty map.
    pub fn new() -> (r: Self)
        ensures
            r.entries() == Seq::<(u128, T)>::empty(),
            r@ == Map::<u128, T>::empty(),
    {
        let r = IdMap { entries: Vec::new() };
        assert(r@ =~= Map::<u128, T>::empty());
        r
    }

    /// Number of entries.
    pub fn len(&self) -> (r: usize)
        ensures
            r == self.entries().len(),
            r == self@.len(),
            keys_sorted(self.entries()),
            self@.dom().finite(),
    {
        proof {
            use_type_invariant(self);
            lemma_map_len(self.entries());
        }
        self.entries.len()
    }

    /// Whether the map is empty.
    pub fn is_empty(&self) -> (r: bool)
        ensures
            r == (self.entries().len() == 0),
            r == (self@.len() == 0),
    {
        proof {
            use_type_invariant(self);
            lemma_map_len(self.entries());
        }
        self.entries.len() == 0
    }

    /// Position of key `k` among the entries, if present.
    pub fn find(&self, k: u128) -> (r: Option<usize>)
        ensures
            r matches Some(i) ==> i < self.entries().len() && self.entries()[i as int].0 == k
                && key_index(self.entries(), k) == i,
            r is None <==> !self@.contains_key(k),
            keys_sorted(self.entries()),
    {
        proof {
            use_type_invariant(self);
        }
        let r = entries_find(&self.entries, k);
        proof {
            if let Some(i) = r {
                lemma_key_index(self.entries@, i as int);
            }
        }
        r
    }

    /// Whether key `k` is present.
    pub fn contains_key(&self, k: u128) -> (r: bool)
        ensures
            r == self@.contains_key(k),
    {
        self.find(k).is_some()
    }

    /// The value stored under `k`, if any.
    pub fn get(&self, k: u128) -> (r: Option<&T>)
        ensures
            r is Some <==> self@.contains_key(k),
            r matches Some(v) ==> *v == self@[k],
    {
        match self.find(k) {
            Some(i) => {
                proof {
                    lemma_key_index(self.entries@, i as int);
                }
                Some(&self.entries[i].1)
            },
            None => None,
        }
    }

    /// The entry at position `i` in ascending key order.
    pub fn entry_at(&self, i: usize) -> (r: &(u128, T))
        requires
            i < self.entries().len(),
        ensures
            *r == self.entries()[i as int],
            self@.contains_key(r.0),
            self@[r.0] == r.1,
            key_index(self.entries(), r.0) == i,
            keys_sorted(self.entries()),
    {
        proof {
            use_type_invariant(self);
            lemma_key_index(self.entries@, i as int);
        }
        &self.entries[i]
    }

    /// The keys in ascending order.
    pub fn keys(&self) -> (r: Vec<u128>)
        ensures
            r@ == seq_keys(self.entries()),
            r@.no_duplicates(),
            keys_sorted(self.entries()),
            forall|k: u128| #[trigger] r@.contains(k) <==> self@.contains_key(k),
    {
        proof {
            use_type_invariant(self);
        }
        let r = entries_keys(&self.entries);
        proof {
            lemma_seq_keys(self.entries@);
        }
        r
    }

    /// References to the values in ascending key order.
    pub fn values(&self) -> (r: Vec<&T>)
        ensures
            r@.len() == self.entries().len(),
            forall|i: int| 0 <= i < r@.len() ==> *r@[i] == self.entries()[i].1,
    {
        let mut out: Vec<&T> = Vec::new();
        let n = self.entries.len();
        for i in 0..n
            invariant
                n == self.entries@.len(),
                out@.len() == i,
                forall|j: int| 0 <= j < i ==> *out@[j] == self.entries@[j].1,
        {
            out.push(&self.entries[i].1);
        }
        out
    }

    /// Insert `v` under `k`, returning the value it replaces.
    pub fn insert(&mut self, k: u128, v: T) -> (r: Option<T>)
        ensures
            final(self)@ == old(self)@.insert(k, v),
            r is Some <==> old(self)@.contains_key(k),
            r matches Some(o) ==> o == old(self)@[k],
            final(self).entries().len() == old(self).entries().len() + if old(self)@.contains_key(k) { 0int } else { 1int },
    {
        proof {
            use_type_invariant(&*self);
        }
        let mut e: Vec<(u128, T)> = Vec::new();
        std::mem::swap(&mut e, &mut self.entries);
        let r = entries_insert(&mut e, k, v);
        self.entries = e;
        r
    }

    /// Remove the entry at position `i`, returning it.
    pub fn remove_at(&mut self, i: usize) -> (r: (u128, T))
        requires
            i < old(self).entries().len(),
        ensures
            r == old(self).entries()[i as int],
            final(self).entries() == old(self).entries().remove(i as int),
            final(self)@ == old(self)@.remove(r.0),
    {
        proof {
            use_type_invariant(&*self);
        }
        let mut e: Vec<(u128, T)> = Vec::new();
        std::mem::swap(&mut e, &mut self.entries);
        let r = entries_remove_at(&mut e, i);
        self.entries = e;
        r
    }

    /// Remove the entry under `k`, returning its value.
    pub fn remove(&mut self, k: u128) -> (r: Option<T>)
        ensures
            final(self)@ == old(self)@.remove(k),
            r is Some <==> old(self)@.contains_key(k),
            r matches Some(v) ==> v == old(self)@[k],
            final(self).entries().len() == old(self).entries().len() - if old(self)@.contains_key(k) { 1int } else { 0int },
    {
        match self.find(k) {
            Some(i) => {
                proof {
                    lemma_key_index(self.entries@, i as int);
                }
                let e = self.remove_at(i);
                Some(e.1)
            },
            None => {
                proof {
                    assert(self@.remove(k) =~= self@);
                }
                None
            },
        }
    }

    /// Replace the value at position `i`, keeping its key.
    pub fn set_at(&mut self, i: usize, v: T)
        requires
            i < old(self).entries().len(),
        ensures
            final(self).entries() == old(self).entries().update(i as int, (old(self).entries()[i as int].0, v)),
            final(self)@ == old(self)@.insert(old(self).entries()[i as int].0, v),
    {
        proof {
            use_type_invariant(&*self);
        }
        let mut e: Vec<(u128, T)> = Vec::new();
        std::mem::swap(&mut e, &mut self.entries);
        entries_set_at(&mut e, i, v);
        self.entries = e;
    }

    /// Remove the entries that `marks` marks, position by position in
    /// ascending key order; the removed entries come back in that order.
    pub fn remove_marked(&mut self, marks: &Vec<bool>) -> (r: Vec<(u128, T)>)
        requires
            marks@.len() == old(self).entries().len(),
        ensures
            r@ == marked(old(self).entries(), marks@),
            forall|i: int| 0 <= i < old(self).entries().len()
                ==> (final(self)@.contains_key(#[trigger] old(self).entries()[i].0) <==> !marks@[i]),
            forall|k: u128| #[trigger] final(self)@.contains_key(k) ==> old(self)@.contains_key(k) && final(self)@[k] == old(self)@[k],
            final(self)@.len() + r@.len() == old(self)@.len(),
            keys_sorted(old(self).entries()),
    {
        proof {
            use_type_invariant(&*self);
        }
        let ghost orig = self.entries@;
        let mut rest: Vec<(u128, T)> = Vec::new();
        std::mem::swap(&mut rest, &mut self.entries);
        let mut kept: Vec<(u128, T)> = Vec::new();
        let mut removed: Vec<(u128, T)> = Vec::new();
        let n = rest.len();
        let mut p: usize = 0;
        while p < n
            invariant
                n == orig.len(),
                n == marks@.len(),
                keys_sorted(orig),
                p <= n,
                rest@ == orig.skip(p as int),
                keys_sorted(kept@),
                forall|a: int, b: int| 0 <= a < kept@.len() && p <= b < n ==> kept@[a].0 < orig[b].0,
                forall|i: int| 0 <= i < p ==> (has_key(kept@, #[trigger] orig[i].0) <==> !marks@[i]),
                forall|a: int| #![trigger kept@[a]] 0 <= a < kept@.len() ==> exists|i: int| 0 <= i < p && #[trigger] orig[i] == kept@[a],
                removed@ == marked(orig.take(p as int), marks@),
                kept@.len() + removed@.len() == p,
            decreases n - p,
        {
            proof {
                assert(rest@[0] == orig[p as int]);
            }
            let e = rest.remove(0);
            proof {
                assert(rest@ =~= orig.skip(p + 1));
                assert(orig.take(p + 1).drop_last() =~= orig.take(p as int));
                assert(orig.take(p + 1).last() == orig[p as int]);
            }
            let ghost kb = kept@;
            if marks[p] {
                removed.push(e);
                proof {
                    assert forall|i: int| 0 <= i < p + 1 implies (has_key(kept@, #[trigger] orig[i].0) <==> !marks@[i]) by {
                        if i == p {
                            if has_key(kept@, orig[i].0) {
                                let a = choose|a: int| 0 <= a < kept@.len() && kept@[a].0 == orig[i].0;
                                assert(kept@[a].0 < orig[p as int].0);
                            }
                        }
                    }
                    assert forall|a: int| #![trigger kept@[a]] 0 <= a < kept@.len() implies exists|i: int| 0 <= i < p + 1 && #[trigger] orig[i] == kept@[a] by {
                        let i = choose|i: int| 0 <= i < p && #[trigger] orig[i] == kept@[a];
                    }
                }
            } else {
                kept.push(e);
                proof {
                    assert forall|a: int, b: int| 0 <= a < kept@.len() && p + 1 <= b < n implies kept@[a].0 < orig[b].0 by {
                        if a == kb.len() {
                            assert(orig[p as int].0 < orig[b].0);
                        } else {
                            assert(kept@[a] == kb[a]);
                        }
                    }
                    assert forall|a: int, b: int| 0 <= a < b < kept@.len() implies kept@[a].0 < kept@[b].0 by {
                        if b == kb.len() {
                            assert(kb[a].0 < orig[p as int].0);
                        }
                    }
                    assert forall|i: int| 0 <= i < p + 1 implies (has_key(kept@, #[trigger] orig[i].0) <==> !marks@[i]) by {
                        if i == p {
                            assert(kept@[kb.len() as int].0 == orig[i].0);
                        } else {
                            assert(orig[i].0 < orig[p as int].0);
                            if has_key(kb, orig[i].0) {
                                let a = choose|a: int| 0 <= a < kb.len() && kb[a].0 == orig[i].0;
                                assert(kept@[a].0 == orig[i].0);
                            }
                            if has_key(kept@, orig[i].0) {
                                let a = choose|a: int| 0 <= a < kept@.len() && kept@[a].0 == orig[i].0;
                                if a < kb.len() {
                                    assert(kb[a].0 == orig[i].0);
                                }
                            }
                        }
                    }
                    assert forall|a: int| #![trigger kept@[a]] 0 <= a < kept@.len() implies exists|i: int| 0 <= i < p + 1 && #[trigger] orig[i] == kept@[a] by {
                        if a == kb.len() {
                            assert(orig[p as int] == kept@[a]);
                        } else {
                            assert(kept@[a] == kb[a]);
                            let i = choose|i: int| 0 <= i < p && #[trigger] orig[i] == kb[a];
                        }
                    }
                }
            }
            p = p + 1;
        }
        proof {
            assert(orig.take(n as int) =~= orig);
            lemma_map_len(orig);
            lemma_map_len(kept@);
            assert forall|i: int| 0 <= i < orig.len() implies (seq_to_map(kept@).contains_key(#[trigger] orig[i].0) <==> !marks@[i]) by {
            }
            assert forall|k: u128| #[trigger] seq_to_map(kept@).contains_key(k)
                implies seq_to_map(orig).contains_key(k) && seq_to_map(kept@)[k] == seq_to_map(orig)[k] by {
                let a = key_index(kept@, k);
                lemma_key_index(kept@, a);
                let i = choose|i: int| 0 <= i < n && #[trigger] orig[i] == kept@[a];
                lemma_key_index(orig, i);
            }
        }
        self.entries = kept;
        removed
    }

    /// Take the entries out, in ascending key order.
    pub fn into_entries(self) -> (r: Vec<(u128, T)>)
        ensures
            r@ == self.entries(),
            keys_sorted(r@),
    {
        proof {
            use_type_invariant(&self);
        }
        self.entries
    }
}

/// The items of `s` whose position `m` marks, in order.
pub open spec fn marked<T>(s: Seq<T>, m: Seq<bool>) -> Seq<T>
    decreases s.len(),
{
    if s.len() == 0 {
        Seq::empty()
    } else {
        marked(s.drop_last(), m) + if m[s.len() - 1] { seq![s.last()] } else { Seq::empty() }
    }
}

/// An item is among the marked items exactly when some marked position
/// holds it.
pub proof fn lemma_marked_contains<T>(s: Seq<T>, m: Seq<bool>, x: T)
    ensures
        marked(s, m).contains(x) <==> exists|i: int| 0 <= i < s.len() && m[i] && #[trigger] s[i] == x,
    decreases s.len(),
{
    if s.len() > 0 {
        let p = s.drop_last();
        lemma_marked_contains(p, m, x);
        let tail: Seq<T> = if m[s.len() - 1] { seq![s.last()] } else { Seq::empty() };
        let all = marked(p, m) + tail;
        if all.contains(x) {
            let j = choose|j: int| 0 <= j < all.len() && all[j] == x;
            if j < marked(p, m).len() {
                assert(marked(p, m)[j] == x);
                assert(marked(p, m).contains(x));
                let i = choose|i: int| 0 <= i < p.len() && m[i] && #[trigger] p[i] == x;
                assert(s[i] == p[i]);
            } else {
                assert(s[s.len() - 1] == x);
            }
        }
        if exists|i: int| 0 <= i < s.len() && m[i] && #[trigger] s[i] == x {
            let i = choose|i: int| 0 <= i < s.len() && m[i] && #[trigger] s[i] == x;
            if i < s.len() - 1 {
                assert(p[i] == x);
                assert(marked(p, m).contains(x));
                let j = choose|j: int| 0 <= j < marked(p, m).len() && marked(p, m)[j] == x;
                assert(all[j] == x);
            } else {
                assert(all[marked(p, m).len() as int] == x);
            }
        }
    }
}

/// A sorted entry sequence stands for a map with as many keys as entries.
pub proof fn lemma_map_len<T>(s: Seq<(u128, T)>)
    requires
        keys_sorted(s),
    ensures
        seq_to_map(s).dom().finite(),
        seq_to_map(s).len() == s.len(),
    decreases s.len(),
{
    if s.len() == 0 {
        assert(seq_to_map(s) =~= Map::<u128, T>::empty());
    } else {
        let p = s.drop_last();
        let e = s.last();
        assert(keys_sorted(p));
        lemma_map_len(p);
        assert(!has_key(p, e.0)) by {
            if has_key(p, e.0) {
                let i = key_index(p, e.0);
                assert(s[i].0 < s[s.len() - 1].0);
            }
        }
        assert(seq_to_map(s).dom() =~= seq_to_map(p).dom().insert(e.0)) by {
            assert forall|k: u128| seq_to_map(s).dom().contains(k) == seq_to_map(p).dom().insert(e.0).contains(k) by {
                if has_key(s, k) {
                    let i = key_index(s, k);
                    if i < s.len() - 1 {
                        assert(p[i].0 == k);
                    }
                }
                if has_key(p, k) {
                    let i = key_index(p, k);
                    assert(s[i].0 == k);
                }
                if k == e.0 {
                    assert(s[s.len() - 1].0 == k);
                }
            }
        }
    }
}

/// The keys of a sorted sequence are distinct and are exactly its map's keys.
pub proof fn lemma_seq_keys<T>(s: Seq<(u128, T)>)
    requires
        keys_sorted(s),
    ensures
        seq_keys(s).no_duplicates(),
        forall|k: u128| #[trigger] seq_keys(s).contains(k) <==> seq_to_map(s).contains_key(k),
{
    let ks = seq_keys(s);
    assert forall|i: int, j: int| 0 <= i < ks.len() && 0 <= j < ks.len() && i != j implies ks[i] != ks[j] by {
        if i < j {
            assert(s[i].0 < s[j].0);
        } else {
            assert(s[j].0 < s[i].0);
        }
    }
    assert forall|k: u128| #[trigger] ks.contains(k) <==> seq_to_map(s).contains_key(k) by {
        if ks.contains(k) {
            let i = choose|i: int| 0 <= i < ks.len() && ks[i] == k;
            assert(s[i].0 == k);
        }
        if has_key(s, k) {
            let i = key_index(s, k);
            assert(ks[i] == k);
        }
    }
}

impl<T: Clone> Clone for IdMap<T> {
    /// Copy every entry; each value is copied by its own `clone`.
    fn clone(&self) -> (r: Self)
        ensures
            r.entries().len() == self.entries().len(),
            forall|i: int| 0 <= i < self.entries().len() ==> (#[trigger] r.entries()[i]).0 == self.entries()[i].0
                && cloned::<T>(self.entries()[i].1, r.entries()[i].1),
    {
        let mut out: Vec<(u128, T)> = Vec::new();
        let n = self.entries.len();
        for i in 0..n
            invariant
                n == self.entries@.len(),
                out@.len() == i,
                forall|j: int| 0 <= j < i ==> (#[trigger] out@[j]).0 == self.entries@[j].0
                    && cloned::<T>(self.entries@[j].1, out@[j].1),
        {
            let k = self.entries[i].0;
            let v = self.entries[i].1.clone();
            out.push((k, v));
        }
        proof {
            use_type_invariant(self);
            lemma_same_keys_sorted(self.entries@, out@);
        }
        IdMap { entries: out }
    }
}

/// Two entry sequences with the same keys in the same order are both
/// sorted or both not.
pub proof fn lemma_same_keys_sorted<T, U>(s: Seq<(u128, T)>, t: Seq<(u128, U)>)
    requires
        s.len() == t.len(),
        forall|i: int| 0 <= i < s.len() ==> (#[trigger] s[i]).0 == t[i].0,
        keys_sorted(s),
    ensures
        keys_sorted(t),
{
    assert forall|i: int, j: int| 0 <= i < j < t.len() implies t[i].0 < t[j].0 by {
        assert(s[i].0 < s[j].0);
    }
}

} // verus!
