//! A string-keyed map of JSON values (node parameters, relation metadata).
//!
//! Entries are kept in ascending key order (by characters, as a `BTreeMap`
//! orders `String` keys); a key occurs at most once.

use vstd::prelude::*;
use crate::json::JsonValue;
use crate::text::{str_eq, str_lt, seq_lt, lemma_seq_lt_irreflexive, lemma_seq_lt_transitive, lemma_seq_lt_total};

verus! {

/// No two entries of `s` share a key.
pub open spec fn str_keys_distinct(s: Seq<(String, JsonValue)>) -> bool {
    forall|i: int, j: int| 0 <= i < j < s.len() ==> s[i].0@ != s[j].0@
}

/// The keys of `s` strictly ascend.
pub open spec fn str_keys_sorted(s: Seq<(String, JsonValue)>) -> bool {
    forall|i: int, j: int| 0 <= i < j < s.len() ==> seq_lt(s[i].0@, s[j].0@)
}

/// Ascending keys are distinct.
pub proof fn lemma_sorted_distinct(s: Seq<(String, JsonValue)>)
    requires
        str_keys_sorted(s),
    ensures
        str_keys_distinct(s),
{
    assert forall|i: int, j: int| 0 <= i < j < s.len() implies s[i].0@ != s[j].0@ by {
        lemma_seq_lt_irreflexive(s[i].0@);
    }
}

/// Some entry of `s` has key `k`.
pub open spec fn has_str_key(s: Seq<(String, JsonValue)>, k: Seq<char>) -> bool {
    exists|i: int| 0 <= i < s.len() && s[i].0@ == k
}

/// The position of key `k` in `s` (meaningful when present).
pub open spec fn str_key_index(s: Seq<(String, JsonValue)>, k: Seq<char>) -> int {
    choose|i: int| 0 <= i < s.len() && s[i].0@ == k
}

/// The map an entry sequence stands for.
pub open spec fn str_seq_to_map(s: Seq<(String, JsonValue)>) -> Map<Seq<char>, JsonValue> {
    Map::new(|k: Seq<char>| has_str_key(s, k), |k: Seq<char>| s[str_key_index(s, k)].1)
}

/// With distinct keys, the entry holding `s[i]`'s key is entry `i`.
pub proof fn lemma_str_key_index(s: Seq<(String, JsonValue)>, i: int)
    requires
        str_keys_distinct(s),
        0 <= i < s.len(),
    ensures
        has_str_key(s, s[i].0@),
        str_key_index(s, s[i].0@) == i,
        str_seq_to_map(s).contains_key(s[i].0@),
        str_seq_to_map(s)[s[i].0@] == s[i].1,
{
    assert(has_str_key(s, s[i].0@));
    let j = str_key_index(s, s[i].0@);
    if j < i {
        assert(s[j].0@ != s[i].0@);
    } else if j > i {
        assert(s[i].0@ != s[j].0@);
    }
}

/// Dropping the last of entries with distinct keys drops its key.
proof fn lemma_str_map_drop_last(s: Seq<(String, JsonValue)>)
    requires
        str_keys_distinct(s),
        s.len() > 0,
    ensures
        str_seq_to_map(s.drop_last()) == str_seq_to_map(s).remove(s.last().0@),
{
    let q = s.drop_last();
    let n = s.len() - 1;
    assert(s[n] == s.last());
    assert forall|k: Seq<char>| #[trigger] str_seq_to_map(q).contains_key(k)
        == str_seq_to_map(s).remove(s.last().0@).contains_key(k) by {
        if has_str_key(q, k) {
            let a = str_key_index(q, k);
            assert(s[a] == q[a]);
            assert(s[a].0@ != s[n].0@);
        }
        if has_str_key(s, k) && k != s.last().0@ {
            let a = str_key_index(s, k);
            assert(q[a] == s[a]);
        }
    }
    assert forall|k: Seq<char>| #[trigger] str_seq_to_map(q).contains_key(k) implies
        str_seq_to_map(q)[k] == str_seq_to_map(s)[k] by {
        let a = str_key_index(q, k);
        assert(q[a] == s[a]);
        assert forall|x: int, y: int| 0 <= x < y < q.len() implies q[x].0@ != q[y].0@ by {
            assert(q[x] == s[x] && q[y] == s[y]);
        }
        lemma_str_key_index(q, a);
        lemma_str_key_index(s, a);
    }
    assert(str_seq_to_map(q) =~= str_seq_to_map(s).remove(s.last().0@));
}

/// Two entry sequences in ascending key order that stand for the same map
/// are the same entries: a parameter map lists its contents in one way
/// only, whatever order they were inserted in.
pub proof fn lemma_sorted_entries_determined(a: Seq<(String, JsonValue)>, b: Seq<(String, JsonValue)>)
    requires
        str_keys_sorted(a),
        str_keys_sorted(b),
        str_seq_to_map(a) == str_seq_to_map(b),
    ensures
        a.len() == b.len(),
        forall|i: int| 0 <= i < a.len() ==> (#[trigger] a[i]).0@ == b[i].0@ && a[i].1 == b[i].1,
    decreases a.len(),
{
    lemma_sorted_distinct(a);
    lemma_sorted_distinct(b);
    if a.len() == 0 {
        if b.len() > 0 {
            lemma_str_key_index(b, 0);
        }
    } else if b.len() == 0 {
        lemma_str_key_index(a, 0);
    } else {
        let na = a.len() - 1;
        let nb = b.len() - 1;
        let ka = a[na].0@;
        let kb = b[nb].0@;
        lemma_str_key_index(a, na);
        lemma_str_key_index(b, nb);
        if ka != kb {
            let j = str_key_index(b, ka);
            let i = str_key_index(a, kb);
            lemma_str_key_index(b, j);
            lemma_str_key_index(a, i);
            lemma_seq_lt_total(ka, kb);
            if seq_lt(ka, kb) {
                assert(i < na);
                lemma_seq_lt_transitive(kb, ka, kb);
                lemma_seq_lt_irreflexive(kb);
            } else {
                assert(j < nb);
                lemma_seq_lt_transitive(ka, kb, ka);
                lemma_seq_lt_irreflexive(ka);
            }
        }
        lemma_str_map_drop_last(a);
        lemma_str_map_drop_last(b);
        assert(a[na] == a.last() && b[nb] == b.last());
        let qa = a.drop_last();
        let qb = b.drop_last();
        assert(str_keys_sorted(qa)) by {
            assert forall|x: int, y: int| 0 <= x < y < qa.len() implies seq_lt(qa[x].0@, qa[y].0@) by {
                assert(qa[x] == a[x] && qa[y] == a[y]);
            }
        }
        assert(str_keys_sorted(qb)) by {
            assert forall|x: int, y: int| 0 <= x < y < qb.len() implies seq_lt(qb[x].0@, qb[y].0@) by {
                assert(qb[x] == b[x] && qb[y] == b[y]);
            }
        }
        lemma_sorted_entries_determined(qa, qb);
        assert forall|i: int| 0 <= i < a.len() implies (#[trigger] a[i]).0@ == b[i].0@ && a[i].1 == b[i].1 by {
            if i < na {
                assert(a[i] == qa[i] && b[i] == qb[i]);
            }
        }
    }
}

/// A map from parameter names to JSON values.
#[derive(Debug)]
pub struct ParamMap {
    entries: Vec<(String, JsonValue)>,
}

impl View for ParamMap {
    type V = Map<Seq<char>, JsonValue>;

    open spec fn view(&self) -> Map<Seq<char>, JsonValue> {
        str_seq_to_map(self.entries())
    }
}

impl ParamMap {
    /// Keys strictly ascend.
    #[verifier::type_invariant]
    spec fn sorted(&self) -> bool {
        str_keys_sorted(self.entries@)
    }

    /// The entries in ascending key order.
    pub closed spec fn entries(&self) -> Seq<(String, JsonValue)> {
        self.entries@
    }

    /// An empty map.
    pub fn new() -> (r: Self)
        ensures
            r@ == Map::<Seq<char>, JsonValue>::empty(),
            r.entries().len() == 0,
    {
        let r = ParamMap { entries: Vec::new() };
        assert(r@ =~= Map::<Seq<char>, JsonValue>::empty());
        r
    }

    /// Number of entries.
    pub fn len(&self) -> (r: usize)
        ensures
            r == self.entries().len(),
    {
        self.entries.len()
    }

    /// The keys, in ascending order.
    pub fn keys(&self) -> (r: Vec<String>)
        ensures
            r@.len() == self.entries().len(),
            forall|i: int| 0 <= i < r@.len() ==> (#[trigger] r@[i])@ == self.entries()[i].0@,
            str_keys_sorted(self.entries()),
    {
        proof {
            use_type_invariant(self);
        }
        let mut out: Vec<String> = Vec::new();
        let n = self.entries.len();
        for i in 0..n
            invariant
                n == self.entries@.len(),
                out@.len() == i,
                forall|j: int| 0 <= j < i ==> (#[trigger] out@[j])@ == self.entries@[j].0@,
        {
            out.push(self.entries[i].0.clone());
        }
        out
    }

    /// Whether the map is empty.
    pub fn is_empty(&self) -> (r: bool)
        ensures
            r == (self.entries().len() == 0),
    {
        self.entries.len() == 0
    }

    /// Position of key `k`, if present.
    fn find(&self, k: &str) -> (r: Option<usize>)
        ensures
            r matches Some(i) ==> i < self.entries().len() && self.entries()[i as int].0@ == k@,
            r is None <==> !self@.contains_key(k@),
            str_keys_distinct(self.entries()),
            str_keys_sorted(self.entries()),
    {
        proof {
            use_type_invariant(self);
            lemma_sorted_distinct(self.entries@);
        }
        let n = self.entries.len();
        for i in 0..n
            invariant
                n == self.entries@.len(),
                str_keys_distinct(self.entries@),
                str_keys_sorted(self.entries@),
                forall|j: int| 0 <= j < i ==> self.entries@[j].0@ != k@,
        {
            if str_eq(self.entries[i].0.as_str(), k) {
                return Some(i);
            }
        }
        None
    }

    /// Whether key `k` is present.
    pub fn contains_key(&self, k: &str) -> (r: bool)
        ensures
            r == self@.contains_key(k@),
    {
        self.find(k).is_some()
    }

    /// The value stored under `k`, if any.
    pub fn get(&self, k: &str) -> (r: Option<&JsonValue>)
        ensures
            r is Some <==> self@.contains_key(k@),
            r matches Some(v) ==> *v == self@[k@],
    {
        match self.find(k) {
            Some(i) => {
                proof {
                    lemma_str_key_index(self.entries@, i as int);
                }
                Some(&self.entries[i].1)
            },
            None => None,
        }
    }

    /// Where an absent key `k` belongs: after the keys before it, before
    /// the keys after it.
    fn position_for(&self, k: &str) -> (p: usize)
        requires
            !self@.contains_key(k@),
        ensures
            p <= self.entries().len(),
            forall|j: int| 0 <= j < p ==> seq_lt(#[trigger] self.entries()[j].0@, k@),
            forall|j: int| p <= j < self.entries().len() ==> seq_lt(k@, #[trigger] self.entries()[j].0@),
    {
        proof {
            use_type_invariant(self);
        }
        let n = self.entries.len();
        for i in 0..n
            invariant
                n == self.entries@.len(),
                !self@.contains_key(k@),
                str_keys_sorted(self.entries@),
                forall|j: int| 0 <= j < i ==> seq_lt(#[trigger] self.entries@[j].0@, k@),
        {
            if str_lt(k, self.entries[i].0.as_str()) {
                proof {
                    assert forall|j: int| i <= j < n implies seq_lt(k@, #[trigger] self.entries@[j].0@) by {
                        if j > i {
                            lemma_seq_lt_transitive(k@, self.entries@[i as int].0@, self.entries@[j].0@);
                        }
                    }
                }
                return i;
            }
            proof {
                let e = self.entries@[i as int];
                if e.0@ == k@ {
                    assert(has_str_key(self.entries@, k@));
                }
                lemma_seq_lt_total(e.0@, k@);
            }
        }
        n
    }

    /// Insert `v` under `k`, returning the value it replaces.  A new key
    /// takes its place in key order.
    pub fn insert(&mut self, k: String, v: JsonValue) -> (r: Option<JsonValue>)
        ensures
            final(self)@ == old(self)@.insert(k@, v),
            r is Some <==> old(self)@.contains_key(k@),
            r matches Some(o) ==> o == old(self)@[k@],
    {
        let ghost s = self.entries@;
        let ghost kv = k@;
        let found = self.find(k.as_str());
        let r = match found {
            Some(i) => {
                proof {
                    lemma_str_key_index(s, i as int);
                }
                let mut entries: Vec<(String, JsonValue)> = Vec::new();
                std::mem::swap(&mut entries, &mut self.entries);
                let (_, old_v) = entries.remove(i);
                entries.insert(i, (k, v));
                proof {
                    let t = entries@;
                    assert(t =~= s.update(i as int, t[i as int]));
                    assert(str_keys_sorted(t)) by {
                        assert forall|a: int, b: int| 0 <= a < b < t.len() implies seq_lt(t[a].0@, t[b].0@) by {
                            assert(t[a].0@ == s[a].0@ && t[b].0@ == s[b].0@);
                        }
                    }
                    lemma_sorted_distinct(t);
                    assert forall|k2: Seq<char>| #[trigger] str_seq_to_map(t).contains_key(k2)
                        == str_seq_to_map(s).insert(kv, v).contains_key(k2) by {
                        if has_str_key(s, k2) {
                            let a = str_key_index(s, k2);
                            assert(t[a].0@ == s[a].0@);
                        }
                        if has_str_key(t, k2) {
                            let a = str_key_index(t, k2);
                            assert(t[a].0@ == s[a].0@);
                        }
                        if k2 == kv {
                            assert(t[i as int].0@ == kv);
                        }
                    }
                    assert forall|k2: Seq<char>| #[trigger] str_seq_to_map(t).contains_key(k2) implies
                        str_seq_to_map(t)[k2] == str_seq_to_map(s).insert(kv, v)[k2] by {
                        let a = str_key_index(t, k2);
                        lemma_str_key_index(t, a);
                        if a == i {
                            assert(k2 == kv);
                        } else {
                            assert(t[a] == s[a]);
                            lemma_str_key_index(s, a);
                            assert(k2 != kv);
                        }
                    }
                    assert(str_seq_to_map(t) =~= str_seq_to_map(s).insert(kv, v));
                }
                self.entries = entries;
                Some(old_v)
            },
            None => {
                let p = self.position_for(k.as_str());
                let mut entries: Vec<(String, JsonValue)> = Vec::new();
                std::mem::swap(&mut entries, &mut self.entries);
                entries.insert(p, (k, v));
                proof {
                    let t = entries@;
                    assert(t == s.insert(p as int, t[p as int]));
                    assert(str_keys_sorted(t)) by {
                        assert forall|a: int, b: int| 0 <= a < b < t.len() implies seq_lt(t[a].0@, t[b].0@) by {
                            if b < p {
                                assert(t[a] == s[a] && t[b] == s[b]);
                            } else if b == p {
                                assert(t[a] == s[a]);
                            } else if a < p {
                                assert(t[a] == s[a] && t[b] == s[b - 1]);
                                lemma_seq_lt_transitive(s[a].0@, kv, s[b - 1].0@);
                            } else if a == p {
                                assert(t[b] == s[b - 1]);
                            } else {
                                assert(t[a] == s[a - 1] && t[b] == s[b - 1]);
                            }
                        }
                    }
                    lemma_sorted_distinct(t);
                    assert forall|k2: Seq<char>| #[trigger] str_seq_to_map(t).contains_key(k2)
                        == str_seq_to_map(s).insert(kv, v).contains_key(k2) by {
                        if has_str_key(s, k2) {
                            let a = str_key_index(s, k2);
                            if a < p {
                                assert(t[a] == s[a]);
                            } else {
                                assert(t[a + 1] == s[a]);
                            }
                        }
                        if has_str_key(t, k2) {
                            let a = str_key_index(t, k2);
                            if a < p {
                                assert(t[a] == s[a]);
                            } else if a > p {
                                assert(t[a] == s[a - 1]);
                            }
                        }
                        if k2 == kv {
                            assert(t[p as int].0@ == kv);
                        }
                    }
                    assert forall|k2: Seq<char>| #[trigger] str_seq_to_map(t).contains_key(k2) implies
                        str_seq_to_map(t)[k2] == str_seq_to_map(s).insert(kv, v)[k2] by {
                        let a = str_key_index(t, k2);
                        lemma_str_key_index(t, a);
                        if a < p {
                            assert(t[a] == s[a]);
                            lemma_str_key_index(s, a);
                            assert(k2 != kv);
                        } else if a > p {
                            assert(t[a] == s[a - 1]);
                            lemma_str_key_index(s, a - 1);
                            assert(k2 != kv);
                        }
                    }
                    assert(str_seq_to_map(t) =~= str_seq_to_map(s).insert(kv, v));
                }
                self.entries = entries;
                None
            },
        };
        r
    }

    /// Insert every entry of `other` (later entries win), as a shallow upsert.
    pub fn merge(&mut self, other: &ParamMap)
        ensures
            final(self)@ == old(self)@.union_prefer_right(other@),
    {
        proof {
            use_type_invariant(other);
            lemma_sorted_distinct(other.entries@);
        }
        let ghost s0 = self@;
        let ghost o = other.entries@;
        let n = other.entries.len();
        for i in 0..n
            invariant
                n == o.len(),
                o == other.entries(),
                str_keys_distinct(o),
                self@ == s0.union_prefer_right(str_seq_to_map(o.take(i as int))),
        {
            let k = other.entries[i].0.clone();
            let v = other.entries[i].1.clone();
            proof {
                let p = o.take(i as int);
                let q = o.take(i + 1);
                assert(q == p.push(o[i as int]));
                assert forall|a: int, b: int| 0 <= a < b < q.len() implies q[a].0@ != q[b].0@ by {
                    assert(q[a] == o[a] && q[b] == o[b]);
                }
                assert(!has_str_key(p, o[i as int].0@)) by {
                    if has_str_key(p, o[i as int].0@) {
                        let a = str_key_index(p, o[i as int].0@);
                        assert(p[a] == o[a]);
                    }
                }
                assert forall|k2: Seq<char>| #[trigger] str_seq_to_map(q).contains_key(k2)
                    == str_seq_to_map(p).insert(o[i as int].0@, o[i as int].1).contains_key(k2) by {
                    if has_str_key(p, k2) {
                        let a = str_key_index(p, k2);
                        assert(q[a] == p[a]);
                    }
                    if has_str_key(q, k2) {
                        let a = str_key_index(q, k2);
                        if a < i {
                            assert(q[a] == p[a]);
                        }
                    }
                    if k2 == o[i as int].0@ {
                        assert(q[i as int] == o[i as int]);
                    }
                }
                assert forall|k2: Seq<char>| #[trigger] str_seq_to_map(q).contains_key(k2) implies
                    str_seq_to_map(q)[k2] == str_seq_to_map(p).insert(o[i as int].0@, o[i as int].1)[k2] by {
                    let a = str_key_index(q, k2);
                    lemma_str_key_index(q, a);
                    if a < i {
                        assert(q[a] == p[a]);
                        lemma_str_key_index(p, a);
                    }
                }
                assert(str_seq_to_map(q) =~= str_seq_to_map(p).insert(o[i as int].0@, o[i as int].1));
            }
            self.insert(k, v);
            proof {
                let p = o.take(i as int);
                let q = o.take(i + 1);
                assert(self@ =~= s0.union_prefer_right(str_seq_to_map(q)));
            }
        }
        proof {
            assert(o.take(n as int) == o);
        }
    }
}

impl Clone for ParamMap {
    fn clone(&self) -> (r: Self)
        ensures
            r.entries() == self.entries(),
            r@ == self@,
    {
        let mut out: Vec<(String, JsonValue)> = Vec::new();
        let n = self.entries.len();
        for i in 0..n
            invariant
                n == self.entries@.len(),
                out@ == self.entries@.take(i as int),
        {
            let k = self.entries[i].0.clone();
            let v = self.entries[i].1.clone();
            proof {
                assert(self.entries@.take(i + 1) == self.entries@.take(i as int).push((k, v)));
            }
            out.push((k, v));
        }
        proof {
            assert(self.entries@.take(n as int) == self.entries@);
            use_type_invariant(self);
        }
        ParamMap { entries: out }
    }
}

} // verus!
