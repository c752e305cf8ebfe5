//! Kahn-style topological ordering of identifiers under directed edges.
//!
//! Edges are `(source, target)` pairs, kept in their given order; several
//! edges may join the same pair.  Nodes that no edge enters start the queue
//! (sorted); after a node is taken from the queue, every target of its edges
//! whose sources have now all been taken joins the queue, each such batch
//! sorted by identifier.

use vstd::prelude::*;

verus! {

/// Some edge enters `y`.
pub open spec fn has_in_edge(y: u128, edges: Seq<(u128, u128)>) -> bool {
    exists|k: int| 0 <= k < edges.len() && edges[k].1 == y
}

/// Every edge entering `y` leaves a node of `done`.
pub open spec fn sources_in(y: u128, edges: Seq<(u128, u128)>, done: Seq<u128>) -> bool {
    forall|k: int| 0 <= k < edges.len() && edges[k].1 == y ==> done.contains(edges[k].0)
}

/// Every edge entering an element of `order` leaves an element that comes
/// earlier in `order`.
pub open spec fn sources_precede(order: Seq<u128>, edges: Seq<(u128, u128)>) -> bool {
    forall|j: int, k: int|
        0 <= j < order.len() && 0 <= k < edges.len() && edges[k].1 == order[j]
            ==> order.take(j).contains(edges[k].0)
}

/// Both ends of every edge are nodes.
pub open spec fn edges_closed(nodes: Seq<u128>, edges: Seq<(u128, u128)>) -> bool {
    forall|k: int| 0 <= k < edges.len() ==> nodes.contains(edges[k].0) && nodes.contains(edges[k].1)
}

/// Every element of `order` is a node.
#[verifier::opaque]
pub open spec fn within(order: Seq<u128>, nodes: Seq<u128>) -> bool {
    forall|i: int| 0 <= i < order.len() ==> nodes.contains(#[trigger] order[i])
}

/// Every node occurs in `order`.
#[verifier::opaque]
pub open spec fn covers(order: Seq<u128>, nodes: Seq<u128>) -> bool {
    forall|x: u128| #[trigger] nodes.contains(x) ==> order.contains(x)
}

/// Every edge between two elements of `order` goes from an earlier to a
/// later position.
#[verifier::opaque]
pub open spec fn edges_forward(order: Seq<u128>, edges: Seq<(u128, u128)>) -> bool {
    forall|k: int, i: int, j: int|
        0 <= k < edges.len() && 0 <= i < order.len() && 0 <= j < order.len()
            && #[trigger] order[i] == edges[k].0 && #[trigger] order[j] == #[trigger] edges[k].1 ==> i < j
}

/// `order` lists every node exactly once, and every edge goes from an
/// earlier to a later position.
#[verifier::opaque]
pub open spec fn is_topological_order(order: Seq<u128>, nodes: Seq<u128>, edges: Seq<(u128, u128)>) -> bool {
    &&& order.no_duplicates()
    &&& order.len() == nodes.len()
    &&& within(order, nodes)
    &&& covers(order, nodes)
    &&& edges_forward(order, edges)
}

/// The nodes can be ordered so that every edge points forward (the graph
/// they form with `edges` has no directed cycle).
pub open spec fn has_topological_order(nodes: Seq<u128>, edges: Seq<(u128, u128)>) -> bool {
    exists|order: Seq<u128>| is_topological_order(order, nodes, edges)
}

/// Every element of `rest` is entered by an edge that leaves an element of
/// `rest`: a witness that the nodes of `rest` lie on or behind a cycle.
#[verifier::opaque]
pub open spec fn cycle_witness(rest: Seq<u128>, edges: Seq<(u128, u128)>) -> bool {
    &&& rest.len() > 0
    &&& forall|i: int| 0 <= i < rest.len() ==> entered_from(#[trigger] rest[i], rest, edges)
}

/// Some edge enters `y` from an element of `from`.
pub open spec fn entered_from(y: u128, from: Seq<u128>, edges: Seq<(u128, u128)>) -> bool {
    exists|k: int| 0 <= k < edges.len() && edges[k].1 == y && from.contains(edges[k].0)
}

proof fn lemma_make_witness(rest: Seq<u128>, edges: Seq<(u128, u128)>)
    requires
        rest.len() > 0,
        forall|i: int| 0 <= i < rest.len() ==> entered_from(#[trigger] rest[i], rest, edges),
    ensures
        cycle_witness(rest, edges),
{
    reveal(cycle_witness);
}

/// Keys of `s` weakly increase.
pub open spec fn ascending(s: Seq<u128>) -> bool {
    forall|i: int, j: int| 0 <= i < j < s.len() ==> s[i] <= s[j]
}

/// A sequence without repeats that lies inside `t` is no longer than `t`.
pub proof fn lemma_distinct_subset_len(s: Seq<u128>, t: Seq<u128>)
    requires
        s.no_duplicates(),
        forall|i: int| 0 <= i < s.len() ==> t.contains(#[trigger] s[i]),
    ensures
        s.len() <= t.len(),
    decreases s.len(),
{
    if s.len() > 0 {
        let x = s.last();
        assert(t.contains(s[s.len() - 1]));
        let p = choose|p: int| 0 <= p < t.len() && t[p] == x;
        let t2 = t.remove(p);
        let s2 = s.drop_last();
        assert forall|i: int| 0 <= i < s2.len() implies t2.contains(#[trigger] s2[i]) by {
            assert(s2[i] == s[i]);
            assert(t.contains(s[i]));
            let q = choose|q: int| 0 <= q < t.len() && t[q] == s[i];
            assert(s[i] != x);
            assert(q != p);
            if q < p {
                assert(t2[q] == s[i]);
            } else {
                assert(t2[q - 1] == s[i]);
            }
        }
        lemma_distinct_subset_len(s2, t2);
    }
}

/// If `s` has no repeats, lies inside `t`, and is as long as `t` (which has
/// no repeats), then every element of `t` is in `s`.
pub proof fn lemma_distinct_subset_full(s: Seq<u128>, t: Seq<u128>)
    requires
        s.no_duplicates(),
        t.no_duplicates(),
        forall|i: int| 0 <= i < s.len() ==> t.contains(#[trigger] s[i]),
        s.len() == t.len(),
    ensures
        forall|x: u128| t.contains(x) ==> s.contains(x),
{
    assert forall|x: u128| t.contains(x) implies s.contains(x) by {
        if !s.contains(x) {
            let p = choose|p: int| 0 <= p < t.len() && t[p] == x;
            let t2 = t.remove(p);
            assert forall|i: int| 0 <= i < s.len() implies t2.contains(#[trigger] s[i]) by {
                assert(t.contains(s[i]));
                let q = choose|q: int| 0 <= q < t.len() && t[q] == s[i];
                assert(q != p);
                if q < p {
                    assert(t2[q] == s[i]);
                } else {
                    assert(t2[q - 1] == s[i]);
                }
            }
            lemma_distinct_subset_len(s, t2);
        }
    }
}

/// The first position of `o` holding an element of `rest`.
proof fn lemma_first_position(o: Seq<u128>, rest: Seq<u128>, i0: int) -> (i: int)
    requires
        0 <= i0 < o.len(),
        rest.contains(o[i0]),
    ensures
        0 <= i <= i0,
        rest.contains(o[i]),
        forall|j: int| 0 <= j < i ==> !rest.contains(#[trigger] o[j]),
    decreases i0,
{
    if exists|j: int| 0 <= j < i0 && rest.contains(#[trigger] o[j]) {
        let j = choose|j: int| 0 <= j < i0 && rest.contains(#[trigger] o[j]);
        lemma_first_position(o, rest, j)
    } else {
        i0
    }
}

/// An edge between two positions of a forward order goes forward.
pub proof fn lemma_edge_forward(o: Seq<u128>, edges: Seq<(u128, u128)>, k: int, i: int, j: int)
    requires
        edges_forward(o, edges),
        0 <= k < edges.len(),
        0 <= i < o.len(),
        0 <= j < o.len(),
        o[i] == edges[k].0,
        o[j] == edges[k].1,
    ensures
        i < j,
{
    reveal(edges_forward);
}

/// No topological order places an element of `rest` first among `rest`
/// when every element of `rest` has a predecessor in `rest`.
proof fn lemma_witness_blocks_one(o: Seq<u128>, rest: Seq<u128>, nodes: Seq<u128>, edges: Seq<(u128, u128)>)
    requires
        cycle_witness(rest, edges),
        forall|i: int| 0 <= i < rest.len() ==> nodes.contains(#[trigger] rest[i]),
    ensures
        !is_topological_order(o, nodes, edges),
{
    if !is_topological_order(o, nodes, edges) {
        return;
    }
    reveal(is_topological_order);
    reveal(cycle_witness);
    assert(nodes.contains(rest[0]));
    assert(o.contains(rest[0])) by {
        reveal(covers);
    }
    let i0 = choose|i: int| 0 <= i < o.len() && o[i] == rest[0];
    let i = lemma_first_position(o, rest, i0);
    let r = o[i];
    let ri = choose|ri: int| 0 <= ri < rest.len() && rest[ri] == r;
    assert(entered_from(rest[ri], rest, edges));
    let k = choose|k: int| 0 <= k < edges.len() && edges[k].1 == rest[ri] && rest.contains(edges[k].0);
    let s = edges[k].0;
    let si = choose|si: int| 0 <= si < rest.len() && rest[si] == s;
    assert(nodes.contains(rest[si]));
    assert(o.contains(s)) by {
        reveal(covers);
    }
    let j = choose|j: int| 0 <= j < o.len() && o[j] == s;
    lemma_edge_forward(o, edges, k, j, i);
    assert(rest.contains(o[j]));
}

/// A cycle witness inside the nodes rules out every topological order.
pub proof fn lemma_witness_blocks_order(rest: Seq<u128>, nodes: Seq<u128>, edges: Seq<(u128, u128)>)
    requires
        cycle_witness(rest, edges),
        forall|i: int| 0 <= i < rest.len() ==> nodes.contains(#[trigger] rest[i]),
    ensures
        !has_topological_order(nodes, edges),
{
    if has_topological_order(nodes, edges) {
        let o = choose|o: Seq<u128>| is_topological_order(o, nodes, edges);
        lemma_witness_blocks_one(o, rest, nodes, edges);
    }
}

/// Whether `x` occurs in `v`.
pub fn contains_id(v: &Vec<u128>, x: u128) -> (r: bool)
    ensures
        r == v@.contains(x),
{
    let n = v.len();
    for i in 0..n
        invariant
            n == v@.len(),
            forall|j: int| 0 <= j < i ==> v@[j] != x,
    {
        if v[i] == x {
            return true;
        }
    }
    false
}

/// Whether `x` occurs among the first `m` elements of `v`.
fn contains_id_prefix(v: &Vec<u128>, m: usize, x: u128) -> (r: bool)
    requires
        m <= v@.len(),
    ensures
        r == v@.take(m as int).contains(x),
{
    for i in 0..m
        invariant
            m <= v@.len(),
            forall|j: int| 0 <= j < i ==> v@[j] != x,
    {
        if v[i] == x {
            proof {
                assert(v@.take(m as int)[i as int] == x);
            }
            return true;
        }
    }
    false
}

/// Sort identifiers ascending (insertion sort), keeping every element.
pub fn sort_ids(v: Vec<u128>) -> (r: Vec<u128>)
    ensures
        ascending(r@),
        r@.len() == v@.len(),
        forall|x: u128| r@.contains(x) <==> v@.contains(x),
        v@.no_duplicates() ==> r@.no_duplicates(),
{
    let mut out: Vec<u128> = Vec::new();
    let n = v.len();
    for i in 0..n
        invariant
            n == v@.len(),
            ascending(out@),
            out@.len() == i,
            forall|x: u128| out@.contains(x) <==> v@.take(i as int).contains(x),
            v@.no_duplicates() ==> out@.no_duplicates(),
    {
        let x = v[i];
        let mut p: usize = 0;
        while p < out.len() && out[p] <= x
            invariant
                p <= out@.len(),
                forall|j: int| 0 <= j < p ==> out@[j] <= x,
            decreases out@.len() - p,
        {
            p = p + 1;
        }
        let ghost old_out = out@;
        out.insert(p, x);
        proof {
            assert(out@ == old_out.insert(p as int, x));
            assert forall|a: int, b: int| 0 <= a < b < out@.len() implies out@[a] <= out@[b] by {
                if b < p {
                } else if b == p {
                } else if a < p {
                    assert(out@[b] == old_out[b - 1]);
                    if p < old_out.len() {
                        assert(old_out[p as int] > x);
                        assert(old_out[p as int] <= old_out[b - 1]);
                    }
                } else if a == p {
                    assert(out@[b] == old_out[b - 1]);
                    assert(old_out[p as int] > x);
                    assert(old_out[p as int] <= old_out[b - 1]);
                } else {
                    assert(out@[a] == old_out[a - 1]);
                    assert(out@[b] == old_out[b - 1]);
                }
            }
            assert(v@.take(i + 1) == v@.take(i as int).push(x));
            assert forall|y: u128| out@.contains(y) <==> v@.take(i + 1).contains(y) by {
                if out@.contains(y) {
                    let q = choose|q: int| 0 <= q < out@.len() && out@[q] == y;
                    if q < p {
                        assert(old_out[q] == y);
                        assert(old_out.contains(y));
                    } else if q > p {
                        assert(old_out[q - 1] == y);
                        assert(old_out.contains(y));
                    }
                    assert(v@.take(i + 1).contains(y) || y == x);
                    if y == x {
                        assert(v@.take(i + 1)[i as int] == x);
                    } else {
                        let w = choose|w: int| 0 <= w < v@.take(i as int).len() && v@.take(i as int)[w] == y;
                        assert(v@.take(i + 1)[w] == y);
                    }
                }
                let vt = v@.take(i + 1);
                if vt.contains(y) {
                    let w = choose|w: int| 0 <= w < vt.len() && vt[w] == y;
                    if w < i {
                        assert(v@.take(i as int)[w] == y);
                        assert(old_out.contains(y));
                        let q = choose|q: int| 0 <= q < old_out.len() && old_out[q] == y;
                        if q < p {
                            assert(out@[q] == y);
                        } else {
                            assert(out@[q + 1] == y);
                        }
                    } else {
                        assert(out@[p as int] == y);
                    }
                }
            }
            if v@.no_duplicates() {
                assert(!old_out.contains(x)) by {
                    if old_out.contains(x) {
                        let w = choose|w: int| 0 <= w < v@.take(i as int).len() && v@.take(i as int)[w] == x;
                        assert(v@[w] == v@[i as int]);
                    }
                }
                assert forall|a: int, b: int| 0 <= a < out@.len() && 0 <= b < out@.len() && a != b implies out@[a] != out@[b] by {
                    if a != p && b != p {
                        let a2 = if a < p { a } else { a - 1 };
                        let b2 = if b < p { b } else { b - 1 };
                        assert(out@[a] == old_out[a2]);
                        assert(out@[b] == old_out[b2]);
                    } else if a == p {
                        let b2 = if b < p { b } else { b - 1 };
                        assert(out@[b] == old_out[b2]);
                    } else {
                        let a2 = if a < p { a } else { a - 1 };
                        assert(out@[a] == old_out[a2]);
                    }
                }
            }
        }
    }
    proof {
        assert(v@.take(n as int) == v@);
    }
    out
}

/// Whether some edge enters `y`.
fn has_in_edge_exec(y: u128, edges: &Vec<(u128, u128)>) -> (r: bool)
    ensures
        r == has_in_edge(y, edges@),
{
    let n = edges.len();
    for k in 0..n
        invariant
            n == edges@.len(),
            forall|j: int| 0 <= j < k ==> edges@[j].1 != y,
    {
        if edges[k].1 == y {
            return true;
        }
    }
    false
}

/// Whether every edge entering `y` leaves one of the first `m` elements of `seq`.
fn sources_in_prefix(y: u128, edges: &Vec<(u128, u128)>, seq: &Vec<u128>, m: usize) -> (r: bool)
    requires
        m <= seq@.len(),
    ensures
        r == sources_in(y, edges@, seq@.take(m as int)),
{
    let n = edges.len();
    for k in 0..n
        invariant
            n == edges@.len(),
            m <= seq@.len(),
            forall|j: int| 0 <= j < k && edges@[j].1 == y ==> seq@.take(m as int).contains(edges@[j].0),
    {
        if edges[k].1 == y {
            if !contains_id_prefix(seq, m, edges[k].0) {
                return false;
            }
        }
    }
    true
}

/// `y` becomes ready when `seq[h]` is taken: an edge leads to it from
/// `seq[h]`, and every edge entering it leaves one of `seq[..=h]`.
pub open spec fn ready_at(edges: Seq<(u128, u128)>, seq: Seq<u128>, h: int, y: u128) -> bool {
    &&& exists|k: int| 0 <= k < edges.len() && edges[k].0 == seq[h] && #[trigger] edges[k].1 == y
    &&& sources_in(y, edges, seq.take(h + 1))
}

/// `b` lists, ascending and once each, the nodes that become ready when
/// `seq[h]` is taken.
pub open spec fn ready_batch(edges: Seq<(u128, u128)>, seq: Seq<u128>, h: int, b: Seq<u128>) -> bool {
    &&& ascending(b)
    &&& b.no_duplicates()
    &&& forall|y: u128| #[trigger] b.contains(y) <==> ready_at(edges, seq, h, y)
}

/// `b` lists, ascending and once each, the nodes that no edge enters.
pub open spec fn start_batch(nodes: Seq<u128>, edges: Seq<(u128, u128)>, b: Seq<u128>) -> bool {
    &&& ascending(b)
    &&& b.no_duplicates()
    &&& forall|y: u128| #[trigger] b.contains(y) <==> (nodes.contains(y) && !has_in_edge(y, edges))
}

/// `seq` is what Kahn's algorithm has queued after taking `ends.len() - 1`
/// nodes: first the nodes that no edge enters, ascending; then, for each
/// node taken in turn, the nodes it makes ready, ascending.  The part
/// queued before `seq[h]` is taken ends at `ends[h]`.
pub open spec fn kahn_trace(nodes: Seq<u128>, edges: Seq<(u128, u128)>, seq: Seq<u128>, ends: Seq<int>) -> bool {
    &&& ends.len() >= 1
    &&& 0 <= ends[0] <= seq.len()
    &&& start_batch(nodes, edges, seq.take(ends[0]))
    &&& ends.last() == seq.len()
    &&& forall|h: int| 0 <= h < ends.len() - 1 ==> h < #[trigger] ends[h] && ends[h] <= ends[h + 1]
        && ready_batch(edges, seq, h, seq.subrange(ends[h], ends[h + 1]))
}

/// `order` is the order Kahn's algorithm gives, having taken every node it
/// queued.
pub open spec fn kahn_ordered(nodes: Seq<u128>, edges: Seq<(u128, u128)>, order: Seq<u128>) -> bool {
    exists|ends: Seq<int>| ends.len() == order.len() + 1 && #[trigger] kahn_trace(nodes, edges, order, ends)
}

/// `rest` holds the nodes that Kahn's algorithm never takes.
pub open spec fn never_ordered(nodes: Seq<u128>, edges: Seq<(u128, u128)>, rest: Seq<u128>) -> bool {
    exists|o: Seq<u128>| #[trigger] kahn_ordered(nodes, edges, o)
        && forall|y: u128| rest.contains(y) <==> (nodes.contains(y) && !o.contains(y))
}

/// Two ascending sequences without repeats that hold the same elements are
/// the same sequence.
pub proof fn lemma_ascending_unique(a: Seq<u128>, b: Seq<u128>)
    requires
        ascending(a),
        ascending(b),
        a.no_duplicates(),
        b.no_duplicates(),
        forall|y: u128| a.contains(y) <==> b.contains(y),
    ensures
        a == b,
    decreases a.len(),
{
    if a.len() == 0 {
        if b.len() > 0 {
            assert(b.contains(b[0]));
        }
        assert(a =~= b);
    } else if b.len() == 0 {
        assert(a.contains(a[0]));
    } else {
        let x = a.last();
        let y = b.last();
        assert(a.contains(x) && b.contains(y));
        let i = choose|i: int| 0 <= i < b.len() && b[i] == x;
        let j = choose|j: int| 0 <= j < a.len() && a[j] == y;
        assert(x <= y && y <= x) by {
            assert(b[i] <= b[b.len() - 1]);
            assert(a[j] <= a[a.len() - 1]);
        }
        let a2 = a.drop_last();
        let b2 = b.drop_last();
        assert forall|z: u128| a2.contains(z) <==> b2.contains(z) by {
            if a2.contains(z) {
                let k = choose|k: int| 0 <= k < a2.len() && a2[k] == z;
                assert(a[k] == z && a[k] != a[a.len() - 1]);
                assert(b.contains(z));
                let m = choose|m: int| 0 <= m < b.len() && b[m] == z;
                assert(m != b.len() - 1);
                assert(b2[m] == z);
            }
            if b2.contains(z) {
                let k = choose|k: int| 0 <= k < b2.len() && b2[k] == z;
                assert(b[k] == z && b[k] != b[b.len() - 1]);
                assert(a.contains(z));
                let m = choose|m: int| 0 <= m < a.len() && a[m] == z;
                assert(m != a.len() - 1);
                assert(a2[m] == z);
            }
        }
        assert(ascending(a2) && ascending(b2));
        assert(a2.no_duplicates() && b2.no_duplicates());
        lemma_ascending_unique(a2, b2);
        assert(a =~= a2.push(x));
        assert(b =~= b2.push(y));
    }
}

/// Which nodes become ready when `seq[h]` is taken depends on `seq[..=h]`
/// alone.
pub proof fn lemma_ready_prefix(edges: Seq<(u128, u128)>, s: Seq<u128>, t: Seq<u128>, h: int)
    requires
        0 <= h < s.len(),
        h < t.len(),
        s.take(h + 1) == t.take(h + 1),
    ensures
        forall|y: u128| ready_at(edges, s, h, y) == ready_at(edges, t, h, y),
{
    assert(s[h] == s.take(h + 1)[h]);
    assert(t[h] == t.take(h + 1)[h]);
}

/// One part of a trace: what taking `seq[g]` queued.
proof fn lemma_trace_part(nodes: Seq<u128>, edges: Seq<(u128, u128)>, s: Seq<u128>, e: Seq<int>, g: int)
    requires
        kahn_trace(nodes, edges, s, e),
        0 <= g < e.len() - 1,
    ensures
        g < e[g] <= e[g + 1] <= s.len(),
        ready_batch(edges, s, g, s.subrange(e[g], e[g + 1])),
        s.take(g + 1) == s.take(e[g]).take(g + 1),
        s.take(e[g + 1]) == s.take(e[g]) + s.subrange(e[g], e[g + 1]),
{
    assert(g < e[g] && e[g] <= e[g + 1]);
    assert(e[g + 1] <= s.len()) by {
        lemma_trace_bounded(nodes, edges, s, e, g + 1);
    }
    assert(s.take(g + 1) =~= s.take(e[g]).take(g + 1));
    assert(s.take(e[g + 1]) =~= s.take(e[g]) + s.subrange(e[g], e[g + 1]));
}

/// Every part of a trace ends within it.
proof fn lemma_trace_bounded(nodes: Seq<u128>, edges: Seq<(u128, u128)>, s: Seq<u128>, e: Seq<int>, h: int)
    requires
        kahn_trace(nodes, edges, s, e),
        0 <= h < e.len(),
    ensures
        e[h] <= s.len(),
    decreases e.len() - h,
{
    if h < e.len() - 1 {
        assert(e[h] <= e[h + 1]);
        lemma_trace_bounded(nodes, edges, s, e, h + 1);
    }
}

/// Two traces of the same nodes and edges agree on their first `h + 1`
/// parts.
proof fn lemma_traces_agree(nodes: Seq<u128>, edges: Seq<(u128, u128)>, s1: Seq<u128>, e1: Seq<int>,
    s2: Seq<u128>, e2: Seq<int>, h: int)
    requires
        kahn_trace(nodes, edges, s1, e1),
        kahn_trace(nodes, edges, s2, e2),
        0 <= h < e1.len(),
        h < e2.len(),
    ensures
        e1[h] == e2[h],
        s1.take(e1[h]) == s2.take(e2[h]),
    decreases h,
{
    if h > 0 {
        let g = h - 1;
        lemma_traces_agree(nodes, edges, s1, e1, s2, e2, g);
        lemma_trace_part(nodes, edges, s1, e1, g);
        lemma_trace_part(nodes, edges, s2, e2, g);
        lemma_ready_prefix(edges, s1, s2, g);
        let b1 = s1.subrange(e1[g], e1[h]);
        let b2 = s2.subrange(e2[g], e2[h]);
        assert forall|y: u128| b1.contains(y) <==> b2.contains(y) by {
            assert(b1.contains(y) == ready_at(edges, s1, g, y));
            assert(b2.contains(y) == ready_at(edges, s2, g, y));
        }
        lemma_ascending_unique(b1, b2);
    } else {
        let b1 = s1.take(e1[0]);
        let b2 = s2.take(e2[0]);
        assert forall|y: u128| b1.contains(y) <==> b2.contains(y) by {
            assert(b1.contains(y) == (nodes.contains(y) && !has_in_edge(y, edges)));
            assert(b2.contains(y) == (nodes.contains(y) && !has_in_edge(y, edges)));
        }
        lemma_ascending_unique(b1, b2);
    }
}

/// Taking the next node and queueing the nodes it makes ready extends a
/// trace.
proof fn lemma_trace_extend(nodes: Seq<u128>, edges: Seq<(u128, u128)>, s0: Seq<u128>, ends: Seq<int>, s1: Seq<u128>)
    requires
        kahn_trace(nodes, edges, s0, ends),
        ends.len() - 1 < s0.len(),
        s1.len() >= s0.len(),
        s1.take(s0.len() as int) == s0,
        ready_batch(edges, s0, ends.len() - 1, s1.subrange(s0.len() as int, s1.len() as int)),
    ensures
        kahn_trace(nodes, edges, s1, ends.push(s1.len() as int)),
{
    let e2 = ends.push(s1.len() as int);
    let hd = ends.len() - 1;
    assert(ends[hd] == s0.len());
    assert(s1.take(ends[0]) =~= s0.take(ends[0]));
    assert forall|h: int| 0 <= h < e2.len() - 1 implies h < #[trigger] e2[h] && e2[h] <= e2[h + 1]
        && ready_batch(edges, s1, h, s1.subrange(e2[h], e2[h + 1])) by {
        assert(s1.take(h + 1) =~= s0.take(h + 1));
        lemma_ready_prefix(edges, s1, s0, h);
        if h < hd {
            assert(h < ends[h] && ends[h] <= ends[h + 1]);
            assert(ready_batch(edges, s0, h, s0.subrange(ends[h], ends[h + 1])));
            lemma_trace_bounded(nodes, edges, s0, ends, h + 1);
            assert(s1.subrange(e2[h], e2[h + 1]) =~= s0.subrange(ends[h], ends[h + 1]));
            assert forall|y: u128| #[trigger] s1.subrange(e2[h], e2[h + 1]).contains(y) <==> ready_at(edges, s1, h, y) by {
                assert(s0.subrange(ends[h], ends[h + 1]).contains(y) == ready_at(edges, s0, h, y));
            }
        } else {
            assert forall|y: u128| #[trigger] s1.subrange(e2[h], e2[h + 1]).contains(y) <==> ready_at(edges, s1, h, y) by {
                assert(s1.subrange(s0.len() as int, s1.len() as int).contains(y) == ready_at(edges, s0, h, y));
            }
        }
    }
}

/// A trace ends with the whole sequence, and each node is taken only once
/// it is queued.
proof fn lemma_trace_ends(nodes: Seq<u128>, edges: Seq<(u128, u128)>, s: Seq<u128>, e: Seq<int>, h: int)
    requires
        kahn_trace(nodes, edges, s, e),
        0 <= h < e.len(),
    ensures
        e[e.len() - 1] == s.len(),
        h < e.len() - 1 ==> h < e[h],
{
}

/// Kahn's algorithm is deterministic: the same nodes and edges give the
/// same order.
pub proof fn lemma_kahn_ordered_unique(nodes: Seq<u128>, edges: Seq<(u128, u128)>, o1: Seq<u128>, o2: Seq<u128>)
    requires
        kahn_ordered(nodes, edges, o1),
        kahn_ordered(nodes, edges, o2),
    ensures
        o1 == o2,
{
    let e1 = choose|ends: Seq<int>| ends.len() == o1.len() + 1 && #[trigger] kahn_trace(nodes, edges, o1, ends);
    let e2 = choose|ends: Seq<int>| ends.len() == o2.len() + 1 && #[trigger] kahn_trace(nodes, edges, o2, ends);
    let m = if o1.len() < o2.len() { o1.len() as int } else { o2.len() as int };
    lemma_traces_agree(nodes, edges, o1, e1, o2, e2, m);
    lemma_trace_ends(nodes, edges, o1, e1, m);
    lemma_trace_ends(nodes, edges, o2, e2, m);
    assert(o1.len() == o2.len());
    assert(o1 =~= o1.take(m));
    assert(o2 =~= o2.take(m));
}

/// The targets of the edges, in order.
pub open spec fn edge_targets(edges: Seq<(u128, u128)>) -> Seq<u128> {
    edges.map_values(|e: (u128, u128)| e.1)
}

/// The state of the ordering after `head` nodes have been taken from the
/// queue `seq[head..]`; `seq[..head]` is the order produced so far.
pub open spec fn kahn_inv(nodes: Seq<u128>, edges: Seq<(u128, u128)>, seq: Seq<u128>, head: int) -> bool {
    &&& seq.no_duplicates()
    &&& 0 <= head <= seq.len()
    &&& sources_precede(seq, edges)
    &&& forall|j: int| head <= j < seq.len() ==> sources_in(#[trigger] seq[j], edges, seq.take(head))
    &&& forall|y: u128| nodes.contains(y) && !has_in_edge(y, edges) ==> #[trigger] seq.contains(y)
    &&& forall|k: int|
        0 <= k < edges.len() && seq.take(head).contains(#[trigger] edges[k].0)
            && sources_in(edges[k].1, edges, seq.take(head)) ==> seq.contains(edges[k].1)
    &&& forall|i: int| 0 <= i < seq.len() ==> (nodes + edge_targets(edges)).contains(#[trigger] seq[i])
}

proof fn lemma_take_contains_mono(s: Seq<u128>, a: int, b: int, x: u128)
    requires
        0 <= a <= b <= s.len(),
        s.take(a).contains(x),
    ensures
        s.take(b).contains(x),
{
    let i = choose|i: int| 0 <= i < s.take(a).len() && s.take(a)[i] == x;
    assert(s.take(b)[i] == x);
}

proof fn lemma_sources_in_mono(y: u128, edges: Seq<(u128, u128)>, s: Seq<u128>, a: int, b: int)
    requires
        0 <= a <= b <= s.len(),
        sources_in(y, edges, s.take(a)),
    ensures
        sources_in(y, edges, s.take(b)),
{
    assert forall|k: int| 0 <= k < edges.len() && edges[k].1 == y implies s.take(b).contains(edges[k].0) by {
        lemma_take_contains_mono(s, a, b, edges[k].0);
    }
}

/// The nodes without incoming edges, sorted: the initial queue.
fn kahn_start(nodes: &Vec<u128>, edges: &Vec<(u128, u128)>) -> (seq: Vec<u128>)
    requires
        nodes@.no_duplicates(),
    ensures
        kahn_inv(nodes@, edges@, seq@, 0),
        start_batch(nodes@, edges@, seq@),
{
    let mut init: Vec<u128> = Vec::new();
    let n = nodes.len();
    for i in 0..n
        invariant
            n == nodes@.len(),
            nodes@.no_duplicates(),
            init@.no_duplicates(),
            forall|j: int| 0 <= j < init@.len() ==> !has_in_edge(#[trigger] init@[j], edges@),
            forall|j: int| 0 <= j < init@.len() ==> nodes@.take(i as int).contains(#[trigger] init@[j]),
            forall|j: int| 0 <= j < i && !has_in_edge(nodes@[j], edges@) ==> init@.contains(#[trigger] nodes@[j]),
    {
        let v = nodes[i];
        let ghost prev = init@;
        if !has_in_edge_exec(v, edges) {
            proof {
                assert(!init@.contains(v)) by {
                    if init@.contains(v) {
                        let j = choose|j: int| 0 <= j < init@.len() && init@[j] == v;
                        assert(nodes@.take(i as int).contains(init@[j]));
                        let q = choose|q: int| 0 <= q < nodes@.take(i as int).len() && nodes@.take(i as int)[q] == v;
                        assert(nodes@[q] == nodes@[i as int]);
                    }
                }
            }
            let ghost old_init = init@;
            init.push(v);
            proof {
                assert forall|a: int, b: int| 0 <= a < init@.len() && 0 <= b < init@.len() && a != b implies init@[a] != init@[b] by {
                    if a < old_init.len() && b < old_init.len() {
                    } else if a < old_init.len() {
                        assert(old_init.contains(init@[a]));
                    } else {
                        assert(old_init.contains(init@[b]));
                    }
                }
            }
        }
        proof {
            assert forall|j: int| 0 <= j < init@.len() implies nodes@.take(i + 1).contains(#[trigger] init@[j]) by {
                if init@[j] == v {
                    assert(nodes@.take(i + 1)[i as int] == v);
                } else {
                    lemma_take_contains_mono(nodes@, i as int, i + 1, init@[j]);
                }
            }
            assert forall|j: int| 0 <= j < i + 1 && !has_in_edge(nodes@[j], edges@) implies init@.contains(#[trigger] nodes@[j]) by {
                if j == i {
                    assert(init@[init@.len() - 1] == v);
                } else {
                    assert(prev.contains(nodes@[j]));
                    let q = choose|q: int| 0 <= q < prev.len() && prev[q] == nodes@[j];
                    assert(init@[q] == prev[q]);
                }
            }
        }
    }
    let seq = sort_ids(init);
    proof {
        assert(nodes@.take(n as int) == nodes@);
        assert forall|y: u128| nodes@.contains(y) && !has_in_edge(y, edges@) implies #[trigger] seq@.contains(y) by {
            let j = choose|j: int| 0 <= j < nodes@.len() && nodes@[j] == y;
            assert(init@.contains(nodes@[j]));
        }
        assert forall|i: int| 0 <= i < seq@.len() implies (nodes@ + edge_targets(edges@)).contains(#[trigger] seq@[i]) by {
            assert(init@.contains(seq@[i]));
            let j = choose|j: int| 0 <= j < init@.len() && init@[j] == seq@[i];
            assert(nodes@.contains(init@[j]));
            let q = choose|q: int| 0 <= q < nodes@.len() && nodes@[q] == seq@[i];
            assert((nodes@ + edge_targets(edges@))[q] == seq@[i]);
        }
        assert forall|j: int| 0 <= j < seq@.len() implies !has_in_edge(#[trigger] seq@[j], edges@) by {
            assert(init@.contains(seq@[j]));
            let q = choose|q: int| 0 <= q < init@.len() && init@[q] == seq@[j];
            assert(!has_in_edge(init@[q], edges@));
        }
        assert(sources_precede(seq@, edges@)) by {
            assert forall|j: int, k: int|
                0 <= j < seq@.len() && 0 <= k < edges@.len() && edges@[k].1 == seq@[j]
                implies seq@.take(j).contains(edges@[k].0) by {
                assert(!has_in_edge(seq@[j], edges@));
            }
        }
        assert forall|j: int| 0 <= j < seq@.len() implies sources_in(#[trigger] seq@[j], edges@, seq@.take(0)) by {
            assert(!has_in_edge(seq@[j], edges@));
        }
        assert forall|y: u128| #[trigger] seq@.contains(y) implies nodes@.contains(y) && !has_in_edge(y, edges@) by {
            assert(init@.contains(y));
            let q = choose|q: int| 0 <= q < init@.len() && init@[q] == y;
            assert(!has_in_edge(init@[q], edges@));
            assert(nodes@.take(n as int).contains(init@[q]));
        }
    }
    seq
}

/// A batch built after taking `seq[head]` keeps the invariant when appended.
proof fn lemma_step_inv(nodes: Seq<u128>, edges: Seq<(u128, u128)>, seq: Seq<u128>, head: int, batch: Seq<u128>, wit: Seq<int>)
    requires
        kahn_inv(nodes, edges, seq, head),
        head < seq.len(),
        batch.no_duplicates(),
        forall|j: int| 0 <= j < batch.len() ==> sources_in(#[trigger] batch[j], edges, seq.take(head + 1)),
        wit.len() == batch.len(),
        forall|j: int| 0 <= j < batch.len() ==> 0 <= #[trigger] wit[j] < edges.len()
            && edges[wit[j]].0 == seq[head] && edges[wit[j]].1 == batch[j],
        forall|k: int| 0 <= k < edges.len() && edges[k].0 == seq[head]
            && sources_in(edges[k].1, edges, seq.take(head + 1)) ==> batch.contains(#[trigger] edges[k].1),
    ensures
        kahn_inv(nodes, edges, seq + batch, head + 1),
{
    let u = seq[head];
    let s2 = seq + batch;
    let p0 = seq.take(head);
    let p1 = seq.take(head + 1);
    assert(s2.take(head + 1) == p1);
    assert(p1 == p0.push(u));
    assert(!p0.contains(u)) by {
        if p0.contains(u) {
            let q = choose|q: int| 0 <= q < p0.len() && p0[q] == u;
            assert(seq[q] == seq[head]);
        }
    }
    // Batch elements are new.
    assert forall|b: int| 0 <= b < batch.len() implies !seq.contains(#[trigger] batch[b]) by {
        let y = batch[b];
        let k = wit[b];
        if seq.contains(y) {
            let j = choose|j: int| 0 <= j < seq.len() && seq[j] == y;
            if j < head {
                assert(seq.take(j).contains(edges[k].0));
                lemma_take_contains_mono(seq, j, head, u);
            } else {
                assert(sources_in(seq[j], edges, p0));
                assert(p0.contains(edges[k].0));
            }
        }
    }
    assert(s2.no_duplicates()) by {
        assert forall|a: int, b: int| 0 <= a < s2.len() && 0 <= b < s2.len() && a != b implies s2[a] != s2[b] by {
            if a < seq.len() && b < seq.len() {
            } else if a < seq.len() {
                assert(s2[b] == batch[b - seq.len()]);
                assert(!seq.contains(batch[b - seq.len()]));
                assert(seq.contains(s2[a]));
            } else if b < seq.len() {
                assert(s2[a] == batch[a - seq.len()]);
                assert(!seq.contains(batch[a - seq.len()]));
                assert(seq.contains(s2[b]));
            } else {
                assert(s2[a] == batch[a - seq.len()]);
                assert(s2[b] == batch[b - seq.len()]);
            }
        }
    }
    assert(sources_precede(s2, edges)) by {
        assert forall|j: int, k: int|
            0 <= j < s2.len() && 0 <= k < edges.len() && edges[k].1 == s2[j]
            implies s2.take(j).contains(edges[k].0) by {
            if j < seq.len() {
                assert(s2.take(j) == seq.take(j));
            } else {
                let y = batch[j - seq.len()];
                assert(s2[j] == y);
                assert(sources_in(y, edges, p1));
                assert(p1.contains(edges[k].0));
                let q = choose|q: int| 0 <= q < p1.len() && p1[q] == edges[k].0;
                assert(s2.take(j)[q] == edges[k].0);
            }
        }
    }
    assert forall|j: int| head + 1 <= j < s2.len() implies sources_in(#[trigger] s2[j], edges, s2.take(head + 1)) by {
        if j < seq.len() {
            assert(s2[j] == seq[j]);
            assert(sources_in(seq[j], edges, p0));
            lemma_sources_in_mono(seq[j], edges, seq, head, head + 1);
        } else {
            assert(s2[j] == batch[j - seq.len()]);
        }
    }
    assert forall|y: u128| nodes.contains(y) && !has_in_edge(y, edges) implies #[trigger] s2.contains(y) by {
        assert(seq.contains(y));
        let q = choose|q: int| 0 <= q < seq.len() && seq[q] == y;
        assert(s2[q] == y);
    }
    assert forall|k: int|
        0 <= k < edges.len() && s2.take(head + 1).contains(#[trigger] edges[k].0)
            && sources_in(edges[k].1, edges, s2.take(head + 1)) implies s2.contains(edges[k].1) by {
        let y = edges[k].1;
        if exists|k2: int| 0 <= k2 < edges.len() && edges[k2].0 == u && edges[k2].1 == y {
            let k2 = choose|k2: int| 0 <= k2 < edges.len() && edges[k2].0 == u && edges[k2].1 == y;
            assert(batch.contains(edges[k2].1));
            let q = choose|q: int| 0 <= q < batch.len() && batch[q] == y;
            assert(s2[seq.len() + q] == y);
        } else {
            assert(sources_in(y, edges, p0)) by {
                assert forall|k3: int| 0 <= k3 < edges.len() && edges[k3].1 == y implies p0.contains(edges[k3].0) by {
                    assert(p1.contains(edges[k3].0));
                    assert(edges[k3].0 != u);
                    let q = choose|q: int| 0 <= q < p1.len() && p1[q] == edges[k3].0;
                    assert(q < head);
                    assert(p0[q] == edges[k3].0);
                }
            }
            assert(p0.contains(edges[k].0)) by {
                let q = choose|q: int| 0 <= q < p1.len() && p1[q] == edges[k].0;
                if q == head {
                    assert(edges[k].0 == u);
                } else {
                    assert(p0[q] == edges[k].0);
                }
            }
            assert(seq.contains(y));
            let q = choose|q: int| 0 <= q < seq.len() && seq[q] == y;
            assert(s2[q] == y);
        }
    }
    assert forall|i: int| 0 <= i < s2.len() implies (nodes + edge_targets(edges)).contains(#[trigger] s2[i]) by {
        if i < seq.len() {
            assert(s2[i] == seq[i]);
        } else {
            let y = batch[i - seq.len()];
            assert(s2[i] == y);
            let k = wit[i - seq.len()];
            assert((nodes + edge_targets(edges))[nodes.len() + k] == y);
        }
    }
}

/// Take `seq[head]` from the queue and append the sorted batch of targets
/// whose sources have now all been taken.
fn kahn_step(nodes: &Vec<u128>, edges: &Vec<(u128, u128)>, seq: &mut Vec<u128>, head: usize)
    requires
        kahn_inv(nodes@, edges@, old(seq)@, head as int),
        head < old(seq)@.len(),
    ensures
        kahn_inv(nodes@, edges@, final(seq)@, head + 1),
        final(seq)@.len() >= old(seq)@.len(),
        final(seq)@.take(old(seq)@.len() as int) == old(seq)@,
        ready_batch(edges@, old(seq)@, head as int, final(seq)@.subrange(old(seq)@.len() as int, final(seq)@.len() as int)),
{
    let len = seq.len();
    let u = seq[head];
    let h1 = head + 1;
    let ghost s0 = seq@;
    let mut batch: Vec<u128> = Vec::new();
    let ghost mut wit: Seq<int> = Seq::empty();
    let n = edges.len();
    for k in 0..n
        invariant
            n == edges@.len(),
            seq@ == s0,
            h1 == head + 1,
            h1 <= s0.len(),
            u == s0[head as int],
            batch@.no_duplicates(),
            wit.len() == batch@.len(),
            forall|j: int| 0 <= j < batch@.len() ==> sources_in(#[trigger] batch@[j], edges@, s0.take(h1 as int)),
            forall|j: int| 0 <= j < batch@.len() ==> 0 <= #[trigger] wit[j] < edges@.len()
                && edges@[wit[j]].0 == u && edges@[wit[j]].1 == batch@[j],
            forall|k2: int| 0 <= k2 < k && edges@[k2].0 == u
                && sources_in(edges@[k2].1, edges@, s0.take(h1 as int)) ==> batch@.contains(#[trigger] edges@[k2].1),
    {
        if edges[k].0 == u {
            let y = edges[k].1;
            if sources_in_prefix(y, edges, seq, h1) && !contains_id(&batch, y) {
                let ghost prev = batch@;
                let ghost pw = wit;
                batch.push(y);
                proof {
                    wit = wit.push(k as int);
                    assert forall|j: int| 0 <= j < batch@.len() implies 0 <= #[trigger] wit[j] < edges@.len()
                        && edges@[wit[j]].0 == u && edges@[wit[j]].1 == batch@[j] by {
                        if j < prev.len() {
                            assert(wit[j] == pw[j]);
                            assert(batch@[j] == prev[j]);
                        }
                    }
                    assert forall|a: int, b: int| 0 <= a < batch@.len() && 0 <= b < batch@.len() && a != b implies batch@[a] != batch@[b] by {
                        if a < prev.len() && b < prev.len() {
                        } else if a < prev.len() {
                            assert(prev.contains(batch@[a]));
                        } else {
                            assert(prev.contains(batch@[b]));
                        }
                    }
                    assert forall|k2: int| 0 <= k2 < k + 1 && edges@[k2].0 == u
                        && sources_in(edges@[k2].1, edges@, s0.take(h1 as int)) implies batch@.contains(#[trigger] edges@[k2].1) by {
                        if k2 == k {
                            assert(batch@[prev.len() as int] == y);
                        } else {
                            assert(prev.contains(edges@[k2].1));
                            let q = choose|q: int| 0 <= q < prev.len() && prev[q] == edges@[k2].1;
                            assert(batch@[q] == prev[q]);
                        }
                    }
                }
            }
        }
    }
    let sorted = sort_ids(batch);
    proof {
        assert forall|j: int| 0 <= j < sorted@.len() implies sources_in(#[trigger] sorted@[j], edges@, s0.take(h1 as int)) by {
            assert(batch@.contains(sorted@[j]));
            let q = choose|q: int| 0 <= q < batch@.len() && batch@[q] == sorted@[j];
            assert(sources_in(batch@[q], edges@, s0.take(h1 as int)));
        }
        let swit = Seq::new(sorted@.len(), |j: int| wit[choose|q: int| 0 <= q < batch@.len() && batch@[q] == sorted@[j]]);
        assert forall|j: int| 0 <= j < sorted@.len() implies 0 <= #[trigger] swit[j] < edges@.len()
            && edges@[swit[j]].0 == s0[head as int] && edges@[swit[j]].1 == sorted@[j] by {
            assert(batch@.contains(sorted@[j]));
            let q = choose|q: int| 0 <= q < batch@.len() && batch@[q] == sorted@[j];
            assert(swit[j] == wit[q]);
        }
        assert forall|k2: int| 0 <= k2 < edges@.len() && edges@[k2].0 == s0[head as int]
            && sources_in(edges@[k2].1, edges@, s0.take(head + 1)) implies sorted@.contains(#[trigger] edges@[k2].1) by {
            assert(batch@.contains(edges@[k2].1));
        }
        lemma_step_inv(nodes@, edges@, s0, head as int, sorted@, swit);
    }
    let m = sorted.len();
    for i in 0..m
        invariant
            m == sorted@.len(),
            seq@ == s0 + sorted@.take(i as int),
    {
        proof {
            assert(s0 + sorted@.take(i + 1) == (s0 + sorted@.take(i as int)).push(sorted@[i as int]));
        }
        seq.push(sorted[i]);
    }
    proof {
        assert(sorted@.take(m as int) == sorted@);
        let f = seq@;
        assert(f.take(s0.len() as int) =~= s0);
        assert(f.subrange(s0.len() as int, f.len() as int) =~= sorted@);
        assert forall|y: u128| #[trigger] sorted@.contains(y) <==> ready_at(edges@, s0, head as int, y) by {
            if sorted@.contains(y) {
                assert(batch@.contains(y));
                let q = choose|q: int| 0 <= q < batch@.len() && batch@[q] == y;
                assert(edges@[wit[q]].0 == s0[head as int] && edges@[wit[q]].1 == y);
                assert(sources_in(batch@[q], edges@, s0.take(h1 as int)));
            }
            if ready_at(edges@, s0, head as int, y) {
                let k = choose|k: int| 0 <= k < edges@.len() && edges@[k].0 == s0[head as int] && #[trigger] edges@[k].1 == y;
                assert(batch@.contains(edges@[k].1));
            }
        }
    }
}

/// Order `nodes` so that every edge points forward (Kahn's algorithm).
///
/// `Ok(order)` lists as many distinct identifiers as there are nodes, and
/// every edge entering an element of `order` leaves an earlier element.
/// When both ends of every edge are nodes, the result is `Ok` exactly when
/// the nodes admit a topological order, and then `order` is one; otherwise
/// `Err(rest)` lists the nodes that were never reached, each entered by an
/// edge from another of them.
pub fn kahn_order(nodes: &Vec<u128>, edges: &Vec<(u128, u128)>) -> (r: Result<Vec<u128>, Vec<u128>>)
    requires
        nodes@.no_duplicates(),
    ensures
        r matches Ok(o) ==> o@.no_duplicates() && o@.len() == nodes@.len() && sources_precede(o@, edges@),
        r matches Ok(o) ==> kahn_ordered(nodes@, edges@, o@),
        r matches Err(rest) ==> never_ordered(nodes@, edges@, rest@),
        r matches Ok(o) ==> (edges_closed(nodes@, edges@) ==> is_topological_order(o@, nodes@, edges@)),
        r matches Err(rest) ==> rest@.no_duplicates() && within(rest@, nodes@),
        r matches Err(rest) ==> (edges_closed(nodes@, edges@) ==> cycle_witness(rest@, edges@)),
        edges_closed(nodes@, edges@) ==> (r is Ok <==> has_topological_order(nodes@, edges@)),
{
    let mut seq = kahn_start(nodes, edges);
    let mut head: usize = 0;
    let ghost bound = (nodes@ + edge_targets(edges@)).len();
    let ghost mut ends: Seq<int> = seq![seq@.len() as int];
    proof {
        assert(seq@.take(seq@.len() as int) =~= seq@);
        assert(ends.last() == seq@.len());
    }
    while head < seq.len()
        invariant
            kahn_inv(nodes@, edges@, seq@, head as int),
            bound == (nodes@ + edge_targets(edges@)).len(),
            kahn_trace(nodes@, edges@, seq@, ends),
            ends.len() == head + 1,
        decreases bound - head,
    {
        let ghost s0 = seq@;
        kahn_step(nodes, edges, &mut seq, head);
        proof {
            lemma_trace_extend(nodes@, edges@, s0, ends, seq@);
            ends = ends.push(seq@.len() as int);
        }
        head = head + 1;
        proof {
            lemma_distinct_subset_len(seq@, nodes@ + edge_targets(edges@));
        }
    }
    proof {
        assert(seq@.take(head as int) == seq@);
        if edges_closed(nodes@, edges@) {
            assert forall|i: int| 0 <= i < seq@.len() implies nodes@.contains(#[trigger] seq@[i]) by {
                let t = nodes@ + edge_targets(edges@);
                assert(t.contains(seq@[i]));
                let q = choose|q: int| 0 <= q < t.len() && t[q] == seq@[i];
                if q >= nodes@.len() {
                    assert(edges@[q - nodes@.len()].1 == seq@[i]);
                } else {
                    assert(nodes@[q] == seq@[i]);
                }
            }
            lemma_distinct_subset_len(seq@, nodes@);
        }
    }
    proof {
        assert(kahn_ordered(nodes@, edges@, seq@));
    }
    if seq.len() == nodes.len() {
        proof {
            if edges_closed(nodes@, edges@) {
                lemma_distinct_subset_full(seq@, nodes@);
                assert(within(seq@, nodes@)) by {
                    reveal(within);
                }
                assert(covers(seq@, nodes@)) by {
                    reveal(covers);
                }
                assert(edges_forward(seq@, edges@)) by {
                    reveal(edges_forward);
                    assert forall|k: int, i: int, j: int|
                        0 <= k < edges@.len() && 0 <= i < seq@.len() && 0 <= j < seq@.len()
                            && #[trigger] seq@[i] == edges@[k].0 && #[trigger] seq@[j] == #[trigger] edges@[k].1
                        implies i < j by {
                        assert(seq@.take(j).contains(edges@[k].0));
                        let q = choose|q: int| 0 <= q < seq@.take(j).len() && seq@.take(j)[q] == edges@[k].0;
                        assert(seq@[q] == seq@[i]);
                    }
                }
                assert(is_topological_order(seq@, nodes@, edges@)) by {
                    reveal(is_topological_order);
                }
            }
        }
        Ok(seq)
    } else {
        let mut rest: Vec<u128> = Vec::new();
        let n = nodes.len();
        for i in 0..n
            invariant
                n == nodes@.len(),
                nodes@.no_duplicates(),
                rest@.no_duplicates(),
                forall|j: int| 0 <= j < rest@.len() ==> nodes@.take(i as int).contains(#[trigger] rest@[j]),
                forall|j: int| 0 <= j < rest@.len() ==> !seq@.contains(#[trigger] rest@[j]),
                forall|j: int| 0 <= j < i && !seq@.contains(nodes@[j]) ==> rest@.contains(#[trigger] nodes@[j]),
        {
            let v = nodes[i];
            let ghost prev = rest@;
            if !contains_id(&seq, v) {
                proof {
                    assert(!rest@.contains(v)) by {
                        if rest@.contains(v) {
                            let j = choose|j: int| 0 <= j < rest@.len() && rest@[j] == v;
                            assert(nodes@.take(i as int).contains(rest@[j]));
                            let q = choose|q: int| 0 <= q < nodes@.take(i as int).len() && nodes@.take(i as int)[q] == v;
                            assert(nodes@[q] == nodes@[i as int]);
                        }
                    }
                }
                rest.push(v);
                proof {
                    assert forall|a: int, b: int| 0 <= a < rest@.len() && 0 <= b < rest@.len() && a != b implies rest@[a] != rest@[b] by {
                        if a < prev.len() && b < prev.len() {
                        } else if a < prev.len() {
                            assert(prev.contains(rest@[a]));
                        } else {
                            assert(prev.contains(rest@[b]));
                        }
                    }
                }
            }
            proof {
                assert forall|j: int| 0 <= j < rest@.len() implies nodes@.take(i + 1).contains(#[trigger] rest@[j]) by {
                    if j < prev.len() {
                        assert(rest@[j] == prev[j]);
                        lemma_take_contains_mono(nodes@, i as int, i + 1, rest@[j]);
                    } else {
                        assert(nodes@.take(i + 1)[i as int] == v);
                    }
                }
                assert forall|j: int| 0 <= j < i + 1 && !seq@.contains(nodes@[j]) implies rest@.contains(#[trigger] nodes@[j]) by {
                    if j == i {
                        assert(rest@[rest@.len() - 1] == v);
                    } else {
                        assert(prev.contains(nodes@[j]));
                        let q = choose|q: int| 0 <= q < prev.len() && prev[q] == nodes@[j];
                        assert(rest@[q] == prev[q]);
                    }
                }
            }
        }
        proof {
            assert(nodes@.take(n as int) == nodes@);
            assert(within(rest@, nodes@)) by {
                reveal(within);
            }
            if edges_closed(nodes@, edges@) {
                assert(rest@.len() > 0) by {
                    if rest@.len() == 0 {
                        assert forall|x: u128| nodes@.contains(x) implies seq@.contains(x) by {
                            let q = choose|q: int| 0 <= q < nodes@.len() && nodes@[q] == x;
                            if !seq@.contains(nodes@[q]) {
                                assert(rest@.contains(nodes@[q]));
                            }
                        }
                        assert forall|i: int| 0 <= i < nodes@.len() implies seq@.contains(#[trigger] nodes@[i]) by {
                            assert(nodes@.contains(nodes@[i]));
                        }
                        lemma_distinct_subset_len(nodes@, seq@);
                    }
                }
                assert forall|ii: int| 0 <= ii < rest@.len() implies entered_from(#[trigger] rest@[ii], rest@, edges@) by {
                    let r = rest@[ii];
                    assert(nodes@.take(n as int).contains(r));
                    assert(nodes@.contains(r));
                    assert(!seq@.contains(r));
                    assert(has_in_edge(r, edges@));
                    let k0 = choose|k: int| 0 <= k < edges@.len() && edges@[k].1 == r;
                    if !(exists|k: int| 0 <= k < edges@.len() && edges@[k].1 == r && !seq@.contains(edges@[k].0)) {
                        assert(sources_in(r, edges@, seq@.take(head as int)));
                        assert(seq@.take(head as int).contains(edges@[k0].0));
                    }
                    let k = choose|k: int| 0 <= k < edges@.len() && edges@[k].1 == r && !seq@.contains(edges@[k].0);
                    let src = edges@[k].0;
                    assert(nodes@.contains(src));
                    let q = choose|q: int| 0 <= q < nodes@.len() && nodes@[q] == src;
                    assert(!seq@.contains(nodes@[q]));
                    assert(rest@.contains(nodes@[q]));
                }
                lemma_make_witness(rest@, edges@);
                assert forall|i: int| 0 <= i < rest@.len() implies nodes@.contains(#[trigger] rest@[i]) by {
                    assert(nodes@.take(n as int).contains(rest@[i]));
                }
                lemma_witness_blocks_order(rest@, nodes@, edges@);
            }
            assert(nodes@.take(n as int) == nodes@);
            assert forall|y: u128| rest@.contains(y) <==> (nodes@.contains(y) && !seq@.contains(y)) by {
                if rest@.contains(y) {
                    let j = choose|j: int| 0 <= j < rest@.len() && rest@[j] == y;
                    assert(nodes@.take(n as int).contains(rest@[j]));
                }
                if nodes@.contains(y) && !seq@.contains(y) {
                    let j = choose|j: int| 0 <= j < nodes@.len() && nodes@[j] == y;
                    assert(rest@.contains(nodes@[j]));
                }
            }
        }
        Err(rest)
    }
}

/// `vs` followed by every edge endpoint not yet listed, in edge order.
pub open spec fn with_endpoints(vs: Seq<u128>, edges: Seq<(u128, u128)>) -> Seq<u128>
    decreases edges.len(),
{
    if edges.len() == 0 {
        vs
    } else {
        let e = edges.last();
        push_absent(push_absent(with_endpoints(vs, edges.drop_last()), e.0), e.1)
    }
}

/// `s` with `x` appended when absent.
pub open spec fn push_absent(s: Seq<u128>, x: u128) -> Seq<u128> {
    if s.contains(x) { s } else { s.push(x) }
}

/// Appending `x` when absent keeps a sequence free of repeats and adds `x`.
pub proof fn lemma_push_absent(s: Seq<u128>, x: u128)
    requires
        s.no_duplicates(),
    ensures
        push_absent(s, x).no_duplicates(),
        forall|y: u128| #[trigger] push_absent(s, x).contains(y) <==> (s.contains(y) || y == x),
{
    let t = push_absent(s, x);
    if !s.contains(x) {
        assert forall|a: int, b: int| 0 <= a < t.len() && 0 <= b < t.len() && a != b implies t[a] != t[b] by {
            if a < s.len() && b < s.len() {
            } else if a < s.len() {
                assert(s.contains(t[a]));
            } else {
                assert(s.contains(t[b]));
            }
        }
        assert forall|y: u128| #[trigger] t.contains(y) <==> (s.contains(y) || y == x) by {
            if t.contains(y) {
                let i = choose|i: int| 0 <= i < t.len() && t[i] == y;
                if i < s.len() {
                    assert(s[i] == y);
                }
            }
            if s.contains(y) {
                let i = choose|i: int| 0 <= i < s.len() && s[i] == y;
                assert(t[i] == y);
            }
            if y == x {
                assert(t[s.len() as int] == y);
            }
        }
    }
}

/// `with_endpoints` has no repeats when `vs` has none, holds `vs`, and holds
/// both ends of every edge.
pub proof fn lemma_with_endpoints(vs: Seq<u128>, edges: Seq<(u128, u128)>)
    requires
        vs.no_duplicates(),
    ensures
        with_endpoints(vs, edges).no_duplicates(),
        forall|y: u128| #[trigger] with_endpoints(vs, edges).contains(y) <==> (vs.contains(y)
            || exists|k: int| 0 <= k < edges.len() && (edges[k].0 == y || edges[k].1 == y)),
    decreases edges.len(),
{
    if edges.len() > 0 {
        let pe = edges.drop_last();
        lemma_with_endpoints(vs, pe);
        let prev = with_endpoints(vs, pe);
        let e = edges.last();
        lemma_push_absent(prev, e.0);
        let p1 = push_absent(prev, e.0);
        lemma_push_absent(p1, e.1);
        assert forall|y: u128| #[trigger] with_endpoints(vs, edges).contains(y) <==> (vs.contains(y)
            || exists|k: int| 0 <= k < edges.len() && (edges[k].0 == y || edges[k].1 == y)) by {
            if exists|k: int| 0 <= k < edges.len() && (edges[k].0 == y || edges[k].1 == y) {
                let k = choose|k: int| 0 <= k < edges.len() && (edges[k].0 == y || edges[k].1 == y);
                if k < edges.len() - 1 {
                    assert(pe[k] == edges[k]);
                }
            }
            if exists|k: int| 0 <= k < pe.len() && (pe[k].0 == y || pe[k].1 == y) {
                let k = choose|k: int| 0 <= k < pe.len() && (pe[k].0 == y || pe[k].1 == y);
                assert(edges[k] == pe[k]);
            }
        }
    }
}

} // verus!
