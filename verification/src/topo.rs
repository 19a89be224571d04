//! Dependency-ordered function linearization: orders functions so that every
//! callee appears before any of its callers, or fails with a cycle error.
//!
//! The layered extraction itself comes from the `topological-sort` crate;
//! Verus sees that structure only through the contracts below, stated over
//! [`ts_nodes`] and [`ts_edges`], the items and dependency links it holds.

use vstd::prelude::*;
use vstd::multiset::Multiset;
use vstd::seq_lib::lemma_no_dup_in_concat;

use topological_sort::TopologicalSort;

use crate::func::Func;
use crate::func::FuncView;
use crate::types::FuncIndex;

verus! {

#[verifier::external_type_specification]
#[verifier::external_body]
#[verifier::reject_recursive_types(T)]
pub struct ExTopologicalSort<T>(TopologicalSort<T>);

/// The items a sort still holds, popped ones excluded.
pub uninterp spec fn ts_nodes(t: TopologicalSort<u32>) -> Set<u32>;

/// The dependency links a sort still holds, as (prerequisite, dependent)
/// pairs between held items; links incident to popped items are gone.
pub uninterp spec fn ts_edges(t: TopologicalSort<u32>) -> Set<(u32, u32)>;

/// Relies on `TopologicalSort::new`: the new sort is empty.
#[verifier::external_body]
fn ts_new() -> (t: TopologicalSort<u32>)
    ensures
        ts_nodes(t) == Set::<u32>::empty(),
        ts_edges(t) == Set::<(u32, u32)>::empty(),
        ts_nodes(t).finite(),
        ts_edges(t).finite(),
{
    TopologicalSort::new()
}

/// Relies on `TopologicalSort::is_empty`: true when no items remain.
#[verifier::external_body]
fn ts_is_empty(t: &TopologicalSort<u32>) -> (r: bool)
    ensures
        r == (ts_nodes(*t) == Set::<u32>::empty()),
{
    t.is_empty()
}

/// Relies on `TopologicalSort::insert`: registers an item without adding any
/// dependency from or to it.
#[verifier::external_body]
fn ts_insert(t: &mut TopologicalSort<u32>, x: u32)
    ensures
        ts_nodes(*final(t)) == ts_nodes(*old(t)).insert(x),
        ts_edges(*final(t)) == ts_edges(*old(t)),
        ts_nodes(*final(t)).finite(),
        ts_edges(*final(t)).finite(),
{
    t.insert(x);
}

/// Relies on `TopologicalSort::add_dependency`: registers both items and the
/// link that `succ` depends on `prec`; a link already present is not doubled.
#[verifier::external_body]
fn ts_add_dependency(t: &mut TopologicalSort<u32>, prec: u32, succ: u32)
    ensures
        ts_nodes(*final(t)) == ts_nodes(*old(t)).insert(prec).insert(succ),
        ts_edges(*final(t)) == ts_edges(*old(t)).insert((prec, succ)),
        ts_nodes(*final(t)).finite(),
        ts_edges(*final(t)).finite(),
{
    t.add_dependency(prec, succ);
}

/// Relies on `TopologicalSort::pop_batch`: removes and returns exactly the
/// items that depend on no other remaining item, in arbitrary order, along
/// with every link incident to them.
#[verifier::external_body]
fn ts_pop_batch(t: &mut TopologicalSort<u32>) -> (r: Vec<u32>)
    ensures
        ({
            let n0 = ts_nodes(*old(t));
            let e0 = ts_edges(*old(t));
            let ready = n0.filter(|x: u32| forall|p: u32| !e0.contains((p, x)));
            &&& r@.no_duplicates()
            &&& r@.to_set() == ready
            &&& ts_nodes(*final(t)) == n0.difference(ready)
            &&& ts_edges(*final(t)) == e0.filter(
                |e: (u32, u32)| !ready.contains(e.0) && !ready.contains(e.1),
            )
            &&& ts_nodes(*final(t)).finite()
            &&& ts_edges(*final(t)).finite()
        }),
{
    t.pop_batch()
}

/// An ordering error: the dependency graph contains a cycle. The unresolved
/// remainder of the graph is carried along, so a caller can diagnose exactly
/// which functions are mutually blocking.
#[derive(Debug)]
pub enum TopoSortError {
    Cycle(TopologicalSort<u32>),
}

/// The key-value view of indexed function pairs.
pub open spec fn pairs_view(v: Seq<(FuncIndex, Func)>) -> Seq<(u32, FuncView)> {
    v.map_values(|p: (FuncIndex, Func)| (p.0.0, p.1@))
}

/// True when some entry carries the key.
pub open spec fn has_key(es: Seq<(u32, FuncView)>, k: u32) -> bool {
    exists|j: int| 0 <= j < es.len() && es[j].0 == k
}

/// True when the entry occurs somewhere in the sequence.
pub open spec fn from_entries(es: Seq<(u32, FuncView)>, e: (u32, FuncView)) -> bool {
    exists|i: int| 0 <= i < es.len() && es[i] == e
}

/// The set of function indices among the entries.
pub open spec fn node_set(es: Seq<(u32, FuncView)>) -> Set<u32> {
    es.map_values(|p: (u32, FuncView)| p.0).to_set()
}

/// The dependency links among the first `n` entries: `(a, b)` is a link when
/// the entry for `b` is among the first `n` and its function calls `a`.
pub open spec fn dep_edges_upto(es: Seq<(u32, FuncView)>, n: int) -> Set<(u32, u32)> {
    Set::new(
        |e: (u32, u32)| exists|j: int| 0 <= j < n && es[j].0 == e.1 && es[j].1.deps().contains(e.0),
    )
}

/// The dependency links among the entries: `(a, b)` is a link when the
/// function stored under `b` calls `a`.
pub open spec fn dep_edges(es: Seq<(u32, FuncView)>) -> Set<(u32, u32)> {
    dep_edges_upto(es, es.len() as int)
}

/// The dependency links with both endpoints inside the given node set.
pub open spec fn edges_within(edges: Set<(u32, u32)>, nodes: Set<u32>) -> Set<(u32, u32)> {
    Set::new(
        |e: (u32, u32)| edges.contains(e) && nodes.contains(e.0) && nodes.contains(e.1),
    )
}

/// The node has a prerequisite within the set.
pub open spec fn blocked_in(s: Set<u32>, edges: Set<(u32, u32)>, n: u32) -> bool {
    exists|p: u32| s.contains(p) && edges.contains((p, n))
}

/// A nonempty set of nodes is mutually blocking when every node in it has a
/// prerequisite within the set.
pub open spec fn blocked_set(s: Set<u32>, nodes: Set<u32>, edges: Set<(u32, u32)>) -> bool {
    &&& s.finite()
    &&& s.len() > 0
    &&& s.subset_of(nodes)
    &&& forall|n: u32| s.contains(n) ==> #[trigger] blocked_in(s, edges, n)
}

/// A dependency graph contains a cycle exactly when some set of nodes is
/// mutually blocking. Direct recursion is the singleton case.
pub open spec fn has_cycle(nodes: Set<u32>, edges: Set<(u32, u32)>) -> bool {
    exists|s: Set<u32>| #[trigger] blocked_set(s, nodes, edges)
}

/// Any pair of mutually recursive functions — or one directly recursive
/// function, taking the two indices equal — makes the dependency graph
/// cyclic.
pub proof fn lemma_mutual_recursion_is_cycle(es: Seq<(u32, FuncView)>, a: u32, b: u32)
    requires
        exists|i: int| 0 <= i < es.len() && es[i].0 == a && es[i].1.deps().contains(b),
        exists|j: int| 0 <= j < es.len() && es[j].0 == b && es[j].1.deps().contains(a),
    ensures
        has_cycle(node_set(es), dep_edges(es)),
{
    let s = Set::<u32>::empty().insert(a).insert(b);
    let i = choose|i: int| 0 <= i < es.len() && es[i].0 == a && es[i].1.deps().contains(b);
    let j = choose|j: int| 0 <= j < es.len() && es[j].0 == b && es[j].1.deps().contains(a);
    assert(blocked_set(s, node_set(es), dep_edges(es))) by {
        assert(es.map_values(|p: (u32, FuncView)| p.0)[i] == a);
        assert(es.map_values(|p: (u32, FuncView)| p.0)[j] == b);
        assert(es.map_values(|p: (u32, FuncView)| p.0).contains(a));
        assert(es.map_values(|p: (u32, FuncView)| p.0).contains(b));
        assert(node_set(es).contains(a));
        assert(node_set(es).contains(b));
        assert(dep_edges(es).contains((b, a)));
        assert(dep_edges(es).contains((a, b)));
        assert(s.len() > 0) by {
            assert(s.contains(a));
            if s.len() == 0 {
                s.lemma_len0_is_empty();
            }
        }
        assert forall|n: u32| s.contains(n) implies #[trigger] blocked_in(
            s,
            dep_edges(es),
            n,
        ) by {
            if n == a {
                assert(s.contains(b) && dep_edges(es).contains((b, a)));
            } else {
                assert(s.contains(a) && dep_edges(es).contains((a, b)));
            }
        }
    }
}

/// True when the sequence is sorted in ascending order.
pub open spec fn sorted_ascending(s: Seq<u32>) -> bool {
    forall|i: int, j: int| 0 <= i < j < s.len() ==> s[i] <= s[j]
}

/// Sorts the vector in ascending order, keeping its multiset of values. Used
/// to make each extraction layer deterministic.
fn sort_u32(v: &mut Vec<u32>)
    ensures
        sorted_ascending(final(v)@),
        final(v)@.to_multiset() == old(v)@.to_multiset(),
{
    broadcast use vstd::seq_lib::group_to_multiset_ensures;
    broadcast use vstd::multiset::group_multiset_axioms;

    let ghost orig = v@;
    let mut out: Vec<u32> = Vec::new();
    while v.len() > 0
        invariant
            out@.to_multiset().add(v@.to_multiset()) == orig.to_multiset(),
            sorted_ascending(out@),
            forall|i: int, j: int|
                0 <= i < out@.len() && 0 <= j < v@.len() ==> out@[i] <= v@[j],
        decreases v@.len(),
    {
        let mut mi: usize = 0;
        let mut q: usize = 1;
        while q < v.len()
            invariant
                0 <= mi < q <= v@.len(),
                forall|j: int| 0 <= j < q ==> v@[mi as int] <= v@[j],
            decreases v@.len() - q,
        {
            if v[q] < v[mi] {
                mi = q;
            }
            q = q + 1;
        }
        let ghost v_before = v@;
        let ghost out_before = out@;
        let x = v.remove(mi);
        out.push(x);
        proof {
            v_before.remove_ensures(mi as int);
            vstd::seq_lib::to_multiset_remove(v_before, mi as int);
            vstd::seq_lib::to_multiset_build(out_before, x);
            vstd::seq_lib::to_multiset_contains(v_before, x);
            assert(out@.drop_last() =~= out_before);
            assert(v_before.contains(x));
            assert(v@.to_multiset() == v_before.to_multiset().remove(x));
            assert(out@.to_multiset() == out_before.to_multiset().insert(x));
            assert(out@.to_multiset().add(v@.to_multiset()) =~= orig.to_multiset());
        }
    }
    proof {
        assert(v@.to_multiset() =~= Multiset::<u32>::empty());
        assert(out@.to_multiset().add(v@.to_multiset()) =~= out@.to_multiset());
    }
    *v = out;
}


/// Every finite nonempty set of indices has a least element.
proof fn lemma_finite_set_min(s: Set<u32>)
    requires
        s.finite(),
        s.len() > 0,
    ensures
        exists|x: u32| s.contains(x) && (forall|y: u32| s.contains(y) ==> x <= y),
    decreases s.len(),
{
    vstd::set_lib::lemma_set_empty_equivalency_len(s);
    let e = choose|e: u32| s.contains(e);
    let s2 = s.remove(e);
    vstd::set_lib::lemma_set_empty_equivalency_len(s2);
    if s2.len() == 0 {
        assert forall|y: u32| s.contains(y) implies e <= y by {
            if y != e {
                assert(s2.contains(y));
                assert(false);
            }
        }
        assert(s.contains(e) && (forall|y: u32| s.contains(y) ==> e <= y));
    } else {
        lemma_finite_set_min(s2);
        let m2 = choose|x: u32| s2.contains(x) && (forall|y: u32| s2.contains(y) ==> x <= y);
        let m: u32 = if e <= m2 {
            e
        } else {
            m2
        };
        assert forall|y: u32| s.contains(y) implies m <= y by {
            if y != e {
                assert(s2.contains(y));
                assert(m2 <= y);
            }
        }
        assert(s.contains(m) && (forall|y: u32| s.contains(y) ==> m <= y));
    }
}

/// The least element of a set of indices.
pub open spec fn set_min(s: Set<u32>) -> u32 {
    choose|x: u32| s.contains(x) && (forall|y: u32| s.contains(y) ==> x <= y)
}

/// The elements of a finite set as a sequence in ascending order.
pub open spec fn sorted_seq_of(s: Set<u32>) -> Seq<u32>
    decreases s.len()
        via sorted_seq_of_decreases
{
    if !s.finite() || s.len() == 0 {
        Seq::empty()
    } else {
        seq![set_min(s)] + sorted_seq_of(s.remove(set_min(s)))
    }
}

#[via_fn]
proof fn sorted_seq_of_decreases(s: Set<u32>) {
    if s.finite() && s.len() > 0 {
        lemma_finite_set_min(s);
        assert(s.contains(set_min(s)));
    }
}

/// [`sorted_seq_of`] is sorted, free of duplicates, and enumerates exactly
/// the set.
#[verifier::rlimit(100)]
proof fn lemma_sorted_seq_of_props(s: Set<u32>)
    requires
        s.finite(),
    ensures
        sorted_ascending(sorted_seq_of(s)),
        sorted_seq_of(s).no_duplicates(),
        sorted_seq_of(s).to_set() == s,
        sorted_seq_of(s).len() == s.len(),
    decreases s.len(),
{
    let r = sorted_seq_of(s);
    if s.len() == 0 {
        vstd::set_lib::lemma_set_empty_equivalency_len(s);
        assert(r =~= Seq::<u32>::empty());
        assert forall|x: u32| r.to_set().contains(x) == s.contains(x) by {}
        assert(r.to_set() =~= s);
    } else {
        lemma_finite_set_min(s);
        let mn = set_min(s);
        assert(s.contains(mn) && (forall|y: u32| s.contains(y) ==> mn <= y));
        let s2 = s.remove(mn);
        lemma_sorted_seq_of_props(s2);
        let r2 = sorted_seq_of(s2);
        assert(r == seq![mn] + r2);
        assert forall|x: u32| r.to_set().contains(x) == s.contains(x) by {
            if r.contains(x) {
                let idx = choose|idx: int| 0 <= idx < r.len() && #[trigger] r[idx] == x;
                if idx == 0 {
                    assert(x == mn);
                } else {
                    assert(r2[idx - 1] == x);
                    assert(r2.contains(x));
                    assert(r2.to_set().contains(x));
                    assert(s2.contains(x));
                }
            }
            if s.contains(x) {
                if x == mn {
                    assert(r[0] == x);
                    assert(r.contains(x));
                } else {
                    assert(s2.contains(x));
                    assert(r2.to_set().contains(x));
                    assert(r2.contains(x));
                    let idx = choose|idx: int| 0 <= idx < r2.len() && #[trigger] r2[idx] == x;
                    assert(r[idx + 1] == x);
                    assert(r.contains(x));
                }
            }
        }
        assert(r.to_set() =~= s);
        assert forall|i0: int, j0: int|
            0 <= i0 < seq![mn].len() && 0 <= j0 < r2.len() implies seq![mn][i0] != r2[j0] by {
            assert(r2.contains(r2[j0]));
            assert(r2.to_set().contains(r2[j0]));
            assert(s2.contains(r2[j0]));
        }
        lemma_no_dup_in_concat(seq![mn], r2);
        assert forall|i0: int, j0: int| 0 <= i0 < j0 < r.len() implies r[i0] <= r[j0] by {
            if i0 == 0 {
                assert(r[j0] == r2[j0 - 1]);
                assert(r2.contains(r2[j0 - 1]));
                assert(r2.to_set().contains(r2[j0 - 1]));
                assert(s2.contains(r2[j0 - 1]));
                assert(s.contains(r2[j0 - 1]));
            } else {
                assert(r[i0] == r2[i0 - 1] && r[j0] == r2[j0 - 1]);
            }
        }
    }
}

/// A sorted duplicate-free sequence is determined by the set of its values.
proof fn lemma_sorted_nodup_unique(a: Seq<u32>, b: Seq<u32>)
    requires
        sorted_ascending(a),
        a.no_duplicates(),
        sorted_ascending(b),
        b.no_duplicates(),
        a.to_set() == b.to_set(),
    ensures
        a == b,
    decreases a.len(),
{
    a.unique_seq_to_set();
    b.unique_seq_to_set();
    if a.len() == 0 {
        assert(a =~= b);
    } else {
        assert(a[0] == b[0]) by {
            assert(a.contains(a[0]));
            assert(a.to_set().contains(a[0]));
            assert(b.to_set().contains(a[0]));
            assert(b.contains(a[0]));
            let i = choose|i: int| 0 <= i < b.len() && #[trigger] b[i] == a[0];
            assert(b[0] <= b[i]);
            assert(b.contains(b[0]));
            assert(b.to_set().contains(b[0]));
            assert(a.to_set().contains(b[0]));
            assert(a.contains(b[0]));
            let j = choose|j: int| 0 <= j < a.len() && #[trigger] a[j] == b[0];
            assert(a[0] <= a[j]);
        }
        let at = a.drop_first();
        let bt = b.drop_first();
        assert forall|x: u32| at.to_set().contains(x) == bt.to_set().contains(x) by {
            if at.contains(x) {
                let i = choose|i: int| 0 <= i < at.len() && #[trigger] at[i] == x;
                assert(a[i + 1] == x);
                assert(x != a[0]);
                assert(a.contains(x));
                assert(b.to_set().contains(x));
                assert(b.contains(x));
                let j = choose|j: int| 0 <= j < b.len() && #[trigger] b[j] == x;
                assert(j != 0);
                assert(bt[j - 1] == x);
                assert(bt.contains(x));
            }
            if bt.contains(x) {
                let i = choose|i: int| 0 <= i < bt.len() && #[trigger] bt[i] == x;
                assert(b[i + 1] == x);
                assert(x != b[0]);
                assert(b.contains(x));
                assert(a.to_set().contains(x));
                assert(a.contains(x));
                let j = choose|j: int| 0 <= j < a.len() && #[trigger] a[j] == x;
                assert(j != 0);
                assert(at[j - 1] == x);
                assert(at.contains(x));
            }
        }
        assert(at.to_set() =~= bt.to_set());
        lemma_sorted_nodup_unique(at, bt);
        assert(a =~= seq![a[0]] + at);
        assert(b =~= seq![b[0]] + bt);
        assert(a =~= b);
    }
}

/// The nodes with no prerequisite among the given nodes.
pub open spec fn ready_within(nodes: Set<u32>, edges: Set<(u32, u32)>) -> Set<u32> {
    nodes.filter(
        |x: u32| forall|p: u32| !(nodes.contains(p) && #[trigger] edges.contains((p, x))),
    )
}

/// The deterministic linearization order of a dependency graph: repeatedly
/// take every node whose prerequisites are all resolved — one Kahn layer —
/// sorted ascending by index, until nothing remains or the remainder is
/// mutually blocking.
pub open spec fn kahn_seq(nodes: Set<u32>, edges: Set<(u32, u32)>) -> Seq<u32>
    decreases nodes.len()
        via kahn_seq_decreases
{
    if !nodes.finite() || nodes.len() == 0 || ready_within(nodes, edges).len() == 0 {
        Seq::empty()
    } else {
        sorted_seq_of(ready_within(nodes, edges)) + kahn_seq(
            nodes.difference(ready_within(nodes, edges)),
            edges,
        )
    }
}

#[via_fn]
proof fn kahn_seq_decreases(nodes: Set<u32>, edges: Set<(u32, u32)>) {
    broadcast use vstd::set_lib::lemma_set_subset_finite;

    if nodes.finite() && nodes.len() > 0 && ready_within(nodes, edges).len() != 0 {
        let rdy = ready_within(nodes, edges);
        assert(rdy.subset_of(nodes));
        assert(rdy.finite());
        vstd::set_lib::lemma_set_empty_equivalency_len(rdy);
        let x = choose|x: u32| rdy.contains(x);
        let rest = nodes.difference(rdy);
        assert(rest.subset_of(nodes.remove(x)));
        vstd::set_lib::lemma_len_subset(rest, nodes.remove(x));
    }
}

/// Sequences with equal multisets hold the same values, and freedom from
/// duplicates carries over.
proof fn lemma_multiset_eq_carries(s1: Seq<u32>, s2: Seq<u32>)
    requires
        s1.to_multiset() == s2.to_multiset(),
    ensures
        s1.to_set() == s2.to_set(),
        s1.no_duplicates() ==> s2.no_duplicates(),
{
    broadcast use vstd::seq_lib::group_to_multiset_ensures;

    assert forall|x: u32| s1.to_set().contains(x) == s2.to_set().contains(x) by {
        vstd::seq_lib::to_multiset_contains(s1, x);
        vstd::seq_lib::to_multiset_contains(s2, x);
        assert(s1.to_multiset().count(x) == s2.to_multiset().count(x));
    }
    assert(s1.to_set() =~= s2.to_set());
    if s1.no_duplicates() {
        s1.lemma_multiset_has_no_duplicates();
        s2.lemma_multiset_has_no_duplicates_conv();
    }
}

/// In a sequence whose every entry has each of its prerequisites at an
/// earlier position, some member of any set drawn from the sequence has no
/// prerequisite within that set.
proof fn lemma_order_has_source(done: Seq<u32>, edges: Set<(u32, u32)>, s: Set<u32>, j0: int)
    requires
        forall|j: int, a: u32|
            0 <= j < done.len() && #[trigger] edges.contains((a, done[j])) ==> exists|i: int|
                0 <= i < j && done[i] == a,
        0 <= j0 < done.len(),
        s.contains(done[j0]),
    ensures
        exists|n: u32|
            s.contains(n) && (forall|p: u32| !(s.contains(p) && edges.contains((p, n)))),
    decreases j0,
{
    let n = done[j0];
    if exists|p: u32| s.contains(p) && edges.contains((p, n)) {
        let p = choose|p: u32| s.contains(p) && edges.contains((p, n));
        assert(edges.contains((p, done[j0])));
        let i = choose|i: int| 0 <= i < j0 && done[i] == p;
        lemma_order_has_source(done, edges, s, i);
    } else {
        assert(s.contains(n) && (forall|p: u32| !(s.contains(p) && edges.contains((p, n)))));
    }
}

/// An emission that is keyed by a consistent prefix covering every node is a
/// correct linearization: its entries are a permutation of the input and
/// every callee stands strictly before each of its callers; and the graph it
/// orders has no cycle.
proof fn lemma_emitted_order_correct(
    es: Seq<(u32, FuncView)>,
    done: Seq<u32>,
    ov: Seq<(u32, FuncView)>,
)
    requires
        forall|i0: int, j0: int| 0 <= i0 < j0 < es.len() ==> es[i0].0 != es[j0].0,
        done.no_duplicates(),
        done.to_set() == node_set(es),
        forall|j: int, a: u32|
            0 <= j < done.len() && #[trigger] dep_edges(es).contains((a, done[j]))
                ==> exists|i0: int| 0 <= i0 < j && done[i0] == a,
        ov.len() == done.len(),
        done.len() == es.len(),
        forall|j: int| 0 <= j < ov.len() ==> #[trigger] ov[j].0 == done[j],
        forall|j: int| 0 <= j < ov.len() ==> from_entries(es, #[trigger] ov[j]),
    ensures
        ov.len() == es.len(),
        forall|i0: int, j0: int| 0 <= i0 < j0 < ov.len() ==> ov[i0].0 != ov[j0].0,
        forall|i: int| 0 <= i < es.len() ==> from_entries(ov, #[trigger] es[i]),
        forall|q0: int, d: u32|
            0 <= q0 < ov.len() && #[trigger] ov[q0].1.deps().contains(d) ==> exists|p: int|
                0 <= p < q0 && ov[p].0 == d,
        !has_cycle(node_set(es), dep_edges(es)),
{
    // the emitted keys are pairwise distinct, so positions are unique
    assert forall|i0: int, j0: int| 0 <= i0 < j0 < ov.len() implies ov[i0].0 != ov[j0].0 by {
        assert(ov[i0].0 == done[i0] && ov[j0].0 == done[j0]);
    }
    // every input entry appears in the output
    assert forall|i: int| 0 <= i < es.len() implies from_entries(ov, #[trigger] es[i]) by {
        let k = es[i].0;
        assert(es.map_values(|p: (u32, FuncView)| p.0)[i] == k);
        assert(node_set(es).contains(k));
        assert(done.contains(k));
        let j = choose|j: int| 0 <= j < done.len() && #[trigger] done[j] == k;
        assert(ov[j].0 == k);
        assert(from_entries(es, ov[j]));
        let i2 = choose|i2: int| 0 <= i2 < es.len() && #[trigger] es[i2] == ov[j];
        assert(es[i2].0 == k);
        if i2 != i {
            assert(false);
        }
        assert(es[i] == ov[j]);
    }
    // every callee stands strictly before each of its callers
    assert forall|q0: int, d: u32|
        0 <= q0 < ov.len() && #[trigger] ov[q0].1.deps().contains(d) implies exists|p: int|
        0 <= p < q0 && ov[p].0 == d by {
        let i = choose|i: int| 0 <= i < es.len() && #[trigger] es[i] == ov[q0];
        assert(es[i].0 == done[q0]);
        assert(es[i].1.deps().contains(d));
        assert(dep_edges(es).contains((d, done[q0])));
        let p = choose|p: int| 0 <= p < q0 && #[trigger] done[p] == d;
        assert(ov[p].0 == d);
    }
    lemma_order_no_cycle(es, done);
}

/// A sequence that covers every node and places each prerequisite before its
/// dependents witnesses that the graph has no mutually blocking set.
/// Under a correct emission order no set of nodes can be mutually blocking.
#[verifier::rlimit(100)]
proof fn lemma_no_blocked_set(es: Seq<(u32, FuncView)>, done: Seq<u32>, s: Set<u32>)
    requires
        done.to_set() == node_set(es),
        forall|j: int, a: u32|
            0 <= j < done.len() && #[trigger] dep_edges(es).contains((a, done[j]))
                ==> exists|i0: int| 0 <= i0 < j && done[i0] == a,
    ensures
        !blocked_set(s, node_set(es), dep_edges(es)),
{
    if blocked_set(s, node_set(es), dep_edges(es)) {
        vstd::set_lib::lemma_set_empty_equivalency_len(s);
        let x = choose|x: u32| s.contains(x);
        assert(node_set(es).contains(x));
        assert(done.to_set().contains(x));
        let j0 = choose|j0: int| 0 <= j0 < done.len() && #[trigger] done[j0] == x;
        lemma_order_has_source(done, dep_edges(es), s, j0);
        let nn = choose|nn: u32|
            s.contains(nn) && (forall|p: u32| !(s.contains(p) && dep_edges(es).contains((p, nn))));
        assert(blocked_in(s, dep_edges(es), nn));
        let p = choose|p: u32| s.contains(p) && dep_edges(es).contains((p, nn));
        assert(false);
    }
}

/// A sequence that covers every node and places each prerequisite before its
/// dependents witnesses that the graph has no mutually blocking set.
proof fn lemma_order_no_cycle(es: Seq<(u32, FuncView)>, done: Seq<u32>)
    requires
        done.to_set() == node_set(es),
        forall|j: int, a: u32|
            0 <= j < done.len() && #[trigger] dep_edges(es).contains((a, done[j]))
                ==> exists|i0: int| 0 <= i0 < j && done[i0] == a,
    ensures
        !has_cycle(node_set(es), dep_edges(es)),
{
    assert forall|s: Set<u32>| !(#[trigger] blocked_set(s, node_set(es), dep_edges(es))) by {
        lemma_no_blocked_set(es, done, s);
    }
}

/// The items registered with the sort after the first `n` functions are
/// processed: their keys and everything their bodies call.
spec fn built_nodes(es: Seq<(u32, FuncView)>, n: int) -> Set<u32> {
    Set::new(
        |x: u32| exists|j: int| 0 <= j < n && (es[j].0 == x || es[j].1.deps().contains(x)),
    )
}

/// The items not yet extracted: all keys except the ones already emitted.
spec fn live_set(es: Seq<(u32, FuncView)>, done: Seq<u32>) -> Set<u32> {
    node_set(es).difference(done.to_set())
}

/// The dependency links both of whose endpoints are not yet extracted.
spec fn live_edges(es: Seq<(u32, FuncView)>, done: Seq<u32>) -> Set<(u32, u32)> {
    Set::new(
        |e: (u32, u32)|
            dep_edges(es).contains(e) && live_set(es, done).contains(e.0) && live_set(
                es,
                done,
            ).contains(e.1),
    )
}

/// An emitted prefix is consistent: no key twice, every key drawn from the
/// entries, and every prerequisite of an emitted key emitted strictly before
/// it.
spec fn emitted_ok(es: Seq<(u32, FuncView)>, done: Seq<u32>) -> bool {
    &&& done.no_duplicates()
    &&& forall|x: u32| done.contains(x) ==> node_set(es).contains(x)
    &&& forall|j: int, a: u32|
        0 <= j < done.len() && #[trigger] dep_edges(es).contains((a, done[j])) ==> exists|i: int|
            0 <= i < j && done[i] == a
}

/// One extraction layer follows the deterministic order: a sorted batch of
/// exactly the ready nodes is the next segment of [`kahn_seq`].
#[verifier::rlimit(100)]
proof fn lemma_layer_step(
    es: Seq<(u32, FuncView)>,
    done0: Seq<u32>,
    live0: Set<u32>,
    edges0: Set<(u32, u32)>,
    batch_s: Seq<u32>,
    ready: Set<u32>,
)
    requires
        live0.finite(),
        live0 == live_set(es, done0),
        edges0 == live_edges(es, done0),
        ready == live0.filter(|x: u32| forall|p: u32| !edges0.contains((p, x))),
        batch_s.to_set() == ready,
        batch_s.no_duplicates(),
        sorted_ascending(batch_s),
        batch_s.len() > 0,
    ensures
        kahn_seq(live0, dep_edges(es)) == batch_s + kahn_seq(
            live0.difference(ready),
            dep_edges(es),
        ),
{
    assert forall|x: u32| ready.contains(x) == ready_within(live0, dep_edges(es)).contains(
        x,
    ) by {
        if ready.contains(x) {
            assert(live0.contains(x));
            assert forall|p: u32|
                !(live0.contains(p) && #[trigger] dep_edges(es).contains((p, x))) by {
                if live0.contains(p) && dep_edges(es).contains((p, x)) {
                    assert(live_edges(es, done0).contains((p, x)));
                    assert(edges0.contains((p, x)));
                    assert(false);
                }
            }
        }
        if ready_within(live0, dep_edges(es)).contains(x) {
            assert(live0.contains(x));
            assert forall|p: u32| !(#[trigger] edges0.contains((p, x))) by {
                if edges0.contains((p, x)) {
                    assert(live_edges(es, done0).contains((p, x)));
                    assert(live0.contains(p) && dep_edges(es).contains((p, x)));
                    assert(false);
                }
            }
        }
    }
    let rdy = ready_within(live0, dep_edges(es));
    assert(ready =~= rdy);
    assert(rdy.finite()) by {
        broadcast use vstd::seq_lib::seq_to_set_is_finite;

        assert(batch_s.to_set().finite());
    }
    assert(rdy.len() > 0) by {
        vstd::set_lib::lemma_set_empty_equivalency_len(rdy);
        assert(batch_s.contains(batch_s[0]));
        assert(rdy.contains(batch_s[0]));
    }
    lemma_sorted_seq_of_props(rdy);
    lemma_sorted_nodup_unique(batch_s, sorted_seq_of(rdy));
    assert(rdy.subset_of(live0));
    vstd::set_lib::lemma_len_subset(rdy, live0);
    assert(live0.len() > 0);
    assert(kahn_seq(live0, dep_edges(es)) == sorted_seq_of(rdy) + kahn_seq(
        live0.difference(rdy),
        dep_edges(es),
    ));
    assert(live0.difference(ready) =~= live0.difference(rdy));
}

/// Orders the functions so that every callee appears strictly before every
/// one of its callers: Kahn-style layered extraction, each layer sorted
/// ascending by index, so the emitted order is the deterministic
/// [`kahn_seq`] of the call graph. Fails exactly when the call graph has a
/// cycle, carrying the unresolved remainder of the graph — a mutually
/// blocking set of functions — for diagnosis.
#[verifier::rlimit(100)]
pub fn topo_sort_functions(functions: Vec<(FuncIndex, Func)>) -> (r: Result<
    Vec<(FuncIndex, Func)>,
    TopoSortError,
>)
    requires
        forall|i: int, j: int|
            0 <= i < j < functions@.len() ==> functions@[i].0.0 != functions@[j].0.0,
        forall|j: int, d: u32|
            0 <= j < functions@.len() && #[trigger] functions@[j].1@.deps().contains(d)
                ==> exists|i: int| 0 <= i < functions@.len() && functions@[i].0.0 == d,
    ensures
        ({
            let es = pairs_view(functions@);
            &&& (r matches Err(c)) == has_cycle(node_set(es), dep_edges(es))
            &&& (r matches Err(c) ==> match c {
                TopoSortError::Cycle(g) => {
                    &&& blocked_set(ts_nodes(g), node_set(es), dep_edges(es))
                    &&& ts_edges(g) == edges_within(dep_edges(es), ts_nodes(g))
                }
            })
            &&& (r matches Ok(out) ==> {
                let ov = pairs_view(out@);
                &&& ov.len() == es.len()
                &&& forall|i: int, j: int| 0 <= i < j < ov.len() ==> ov[i].0 != ov[j].0
                &&& forall|q: int| 0 <= q < ov.len() ==> from_entries(es, #[trigger] ov[q])
                &&& forall|i: int| 0 <= i < es.len() ==> from_entries(ov, #[trigger] es[i])
                &&& forall|q: int, d: u32|
                    0 <= q < ov.len() && #[trigger] ov[q].1.deps().contains(d) ==> exists|p: int|
                        0 <= p < q && ov[p].0 == d
                &&& ov.map_values(|p: (u32, FuncView)| p.0) == kahn_seq(
                    node_set(es),
                    dep_edges(es),
                )
            })
        }),
{
    let ghost es = pairs_view(functions@);
    proof {
        assert(forall|j: int|
            0 <= j < es.len() ==> es[j] == (functions@[j].0.0, functions@[j].1@));
        assert forall|j: int, d: u32|
            0 <= j < es.len() && #[trigger] es[j].1.deps().contains(d) implies exists|i0: int|
            0 <= i0 < es.len() && es[i0].0 == d by {
            assert(functions@[j].1@.deps().contains(d));
            let i0 = choose|i0: int|
                0 <= i0 < functions@.len() && #[trigger] functions@[i0].0.0 == d;
            assert(es[i0].0 == d);
        }
    }
    let n = functions.len();
    let mut ts = ts_new();

    // Register every function and its dependency links.
    let mut i: usize = 0;
    proof {
        assert(ts_nodes(ts) =~= built_nodes(es, 0));
        assert(ts_edges(ts) =~= dep_edges_upto(es, 0));
    }
    while i < n
        invariant
            n == functions@.len(),
            es == pairs_view(functions@),
            forall|i0: int, j0: int| 0 <= i0 < j0 < es.len() ==> es[i0].0 != es[j0].0,
            forall|j: int, d: u32|
                0 <= j < es.len() && #[trigger] es[j].1.deps().contains(d) ==> exists|i0: int|
                    0 <= i0 < es.len() && es[i0].0 == d,
            0 <= i <= n,
            ts_nodes(ts).finite(),
            ts_edges(ts).finite(),
            ts_nodes(ts) == built_nodes(es, i as int),
            ts_edges(ts) == dep_edges_upto(es, i as int),
        decreases n - i,
    {
        let key = functions[i].0.0;
        ts_insert(&mut ts, key);
        proof {
            assert(es[i as int].0 == key);
        }
        let deps = functions[i].1.dependencies();
        let ghost dseq = crate::func::body_deps(es[i as int].1.body);
        proof {
            assert(deps@.map_values(|fi: FuncIndex| fi.0) == dseq);
            assert(ts_nodes(ts) =~= built_nodes(es, i as int).insert(key).union(
                Set::new(|x: u32| exists|t: int| 0 <= t < 0 && dseq[t] == x),
            ));
            assert(ts_edges(ts) =~= dep_edges_upto(es, i as int).union(
                Set::new(
                    |e: (u32, u32)| e.1 == key && exists|t: int| 0 <= t < 0 && dseq[t] == e.0,
                ),
            ));
        }
        let dn = deps.len();
        let mut q: usize = 0;
        while q < dn
            invariant
                n == functions@.len(),
                es == pairs_view(functions@),
                0 <= i < n,
                0 <= q <= dn,
                dn == dseq.len(),
                deps@.map_values(|fi: FuncIndex| fi.0) == dseq,
                dseq == crate::func::body_deps(es[i as int].1.body),
                es[i as int].0 == key,
                ts_nodes(ts).finite(),
                ts_edges(ts).finite(),
                ts_nodes(ts) == built_nodes(es, i as int).insert(key).union(
                    Set::new(|x: u32| exists|t: int| 0 <= t < q && dseq[t] == x),
                ),
                ts_edges(ts) == dep_edges_upto(es, i as int).union(
                    Set::new(
                        |e: (u32, u32)| e.1 == key && exists|t: int| 0 <= t < q && dseq[t] == e.0,
                    ),
                ),
            decreases dn - q,
        {
            let d = deps[q].0;
            ts_add_dependency(&mut ts, d, key);
            proof {
                assert(dseq[q as int] == d);
                assert(ts_nodes(ts) =~= built_nodes(es, i as int).insert(key).union(
                    Set::new(|x: u32| exists|t: int| 0 <= t < q + 1 && dseq[t] == x),
                ));
                assert(ts_edges(ts) =~= dep_edges_upto(es, i as int).union(
                    Set::new(
                        |e: (u32, u32)| e.1 == key && exists|t: int|
                            0 <= t < q + 1 && dseq[t] == e.0,
                    ),
                ));
            }
            q = q + 1;
        }
        proof {
            assert forall|x: u32| ts_nodes(ts).contains(x) implies built_nodes(
                es,
                i + 1,
            ).contains(x) by {
                if exists|t: int| 0 <= t < dseq.len() && dseq[t] == x {
                    assert(dseq.contains(x));
                    assert(es[i as int].1.deps().contains(x));
                }
            }
            assert forall|x: u32| built_nodes(es, i + 1).contains(x) implies ts_nodes(
                ts,
            ).contains(x) by {
                let j = choose|j: int|
                    0 <= j < i + 1 && (es[j].0 == x || es[j].1.deps().contains(x));
                if j < i {
                } else {
                    if es[j].1.deps().contains(x) {
                        assert(dseq.contains(x));
                        let t = choose|t: int| 0 <= t < dseq.len() && dseq[t] == x;
                        assert(exists|t0: int| 0 <= t0 < dseq.len() && dseq[t0] == x);
                    }
                }
            }
            assert(ts_nodes(ts) =~= built_nodes(es, i + 1));
            assert forall|e: (u32, u32)| ts_edges(ts).contains(e) == dep_edges_upto(
                es,
                i + 1,
            ).contains(e) by {
                if ts_edges(ts).contains(e) {
                    if !dep_edges_upto(es, i as int).contains(e) {
                        assert(e.1 == key);
                        assert(dseq.contains(e.0));
                        assert(es[i as int].1.deps().contains(e.0));
                    }
                }
                if dep_edges_upto(es, i + 1).contains(e) {
                    let j = choose|j: int|
                        0 <= j < i + 1 && es[j].0 == e.1 && es[j].1.deps().contains(e.0);
                    if j == i {
                        assert(dseq.contains(e.0));
                        let t = choose|t: int| 0 <= t < dseq.len() && dseq[t] == e.0;
                        assert(exists|t0: int| 0 <= t0 < dseq.len() && dseq[t0] == e.0);
                    }
                }
            }
            assert(ts_edges(ts) =~= dep_edges_upto(es, i + 1));
        }
        i = i + 1;
    }
    proof {
        assert forall|x: u32| built_nodes(es, n as int).contains(x) == node_set(es).contains(
            x,
        ) by {
            if built_nodes(es, n as int).contains(x) {
                let j = choose|j: int|
                    0 <= j < n && (es[j].0 == x || es[j].1.deps().contains(x));
                if es[j].0 == x {
                    assert(es.map_values(|p: (u32, FuncView)| p.0)[j] == x);
                } else {
                    let i0 = choose|i0: int| 0 <= i0 < es.len() && es[i0].0 == x;
                    assert(es.map_values(|p: (u32, FuncView)| p.0)[i0] == x);
                }
                assert(es.map_values(|p: (u32, FuncView)| p.0).contains(x));
            }
            if node_set(es).contains(x) {
                let keys = es.map_values(|p: (u32, FuncView)| p.0);
                assert(keys.contains(x));
                let j = choose|j: int| 0 <= j < keys.len() && #[trigger] keys[j] == x;
                assert(es[j].0 == x);
            }
        }
        assert(ts_nodes(ts) =~= node_set(es));
    }

    // Extract layer after layer, sorting each for determinism.
    let mut done_v: Vec<u32> = Vec::new();
    proof {
        assert(done_v@.to_set() =~= Set::<u32>::empty());
        assert(ts_nodes(ts) =~= live_set(es, done_v@));
        assert forall|e: (u32, u32)| ts_edges(ts).contains(e) == live_edges(
            es,
            done_v@,
        ).contains(e) by {
            if dep_edges(es).contains(e) {
                let j = choose|j: int|
                    0 <= j < es.len() && es[j].0 == e.1 && es[j].1.deps().contains(e.0);
                assert(es.map_values(|p: (u32, FuncView)| p.0)[j] == e.1);
                assert(node_set(es).contains(e.1));
                let i0 = choose|i0: int| 0 <= i0 < es.len() && es[i0].0 == e.0;
                assert(es.map_values(|p: (u32, FuncView)| p.0)[i0] == e.0);
                assert(node_set(es).contains(e.0));
            }
        }
        assert(ts_edges(ts) =~= live_edges(es, done_v@));
        assert(done_v@ + kahn_seq(ts_nodes(ts), dep_edges(es)) =~= kahn_seq(
            node_set(es),
            dep_edges(es),
        ));
    }
    loop
        invariant
            n == functions@.len(),
            es == pairs_view(functions@),
            forall|i0: int, j0: int| 0 <= i0 < j0 < es.len() ==> es[i0].0 != es[j0].0,
            forall|j: int, d: u32|
                0 <= j < es.len() && #[trigger] es[j].1.deps().contains(d) ==> exists|i0: int|
                    0 <= i0 < es.len() && es[i0].0 == d,
            ts_nodes(ts).finite(),
            ts_edges(ts).finite(),
            ts_nodes(ts) == live_set(es, done_v@),
            ts_edges(ts) == live_edges(es, done_v@),
            emitted_ok(es, done_v@),
            done_v@ + kahn_seq(ts_nodes(ts), dep_edges(es)) == kahn_seq(
                node_set(es),
                dep_edges(es),
            ),
        ensures
            ts_nodes(ts) == Set::<u32>::empty(),
            ts_nodes(ts) == live_set(es, done_v@),
            emitted_ok(es, done_v@),
            done_v@ + kahn_seq(ts_nodes(ts), dep_edges(es)) == kahn_seq(
                node_set(es),
                dep_edges(es),
            ),
        decreases ts_nodes(ts).len(),
    {
        if ts_is_empty(&ts) {
            break;
        }
        let ghost live0 = ts_nodes(ts);
        let ghost edges0 = ts_edges(ts);
        let ghost done0 = done_v@;
        let mut batch = ts_pop_batch(&mut ts);
        let ghost ready = live0.filter(|x: u32| forall|p: u32| !edges0.contains((p, x)));
        if batch.len() == 0 {
            proof {
                assert(batch@.to_set() =~= Set::<u32>::empty());
                assert(ts_nodes(ts) =~= live0);
                assert(ts_edges(ts) =~= edges0);
                assert(live0.len() > 0) by {
                    if live0.len() == 0 {
                        live0.lemma_len0_is_empty();
                    }
                }
                assert(blocked_set(live0, node_set(es), dep_edges(es))) by {
                    assert(live0.subset_of(node_set(es)));
                    assert forall|nn: u32| live0.contains(nn) implies #[trigger] blocked_in(
                        live0,
                        dep_edges(es),
                        nn,
                    ) by {
                        assert(!ready.contains(nn));
                        let p = choose|p: u32| edges0.contains((p, nn));
                        assert(live_edges(es, done0).contains((p, nn)));
                        assert(live0.contains(p) && dep_edges(es).contains((p, nn)));
                    }
                }
                assert(ts_edges(ts) =~= edges_within(dep_edges(es), ts_nodes(ts)));
            }
            return Err(TopoSortError::Cycle(ts));
        }
        let ghost batch0 = batch@;
        sort_u32(&mut batch);
        let ghost batch_s = batch@;
        proof {
            lemma_multiset_eq_carries(batch0, batch_s);
            vstd::seq_lib::to_multiset_len(batch0);
            vstd::seq_lib::to_multiset_len(batch_s);
            assert(batch_s.len() == batch0.len());
            assert(batch_s.to_set() == ready);
            assert(batch_s.no_duplicates());
        }
        done_v.append(&mut batch);
        proof {
            let done1 = done_v@;
            assert(done1 == done0 + batch_s);
            // keys already emitted and the new layer are disjoint
            assert forall|i0: int, j0: int|
                0 <= i0 < done0.len() && 0 <= j0 < batch_s.len() implies done0[i0]
                != batch_s[j0] by {
                if done0[i0] == batch_s[j0] {
                    assert(batch_s.contains(batch_s[j0]));
                    assert(ready.contains(batch_s[j0]));
                    assert(done0.contains(done0[i0]));
                    assert(live0.contains(batch_s[j0]));
                    assert(!done0.to_set().contains(batch_s[j0]));
                }
            }
            lemma_no_dup_in_concat(done0, batch_s);
            assert forall|x: u32| done1.contains(x) implies node_set(es).contains(x) by {
                let j = choose|j: int| 0 <= j < done1.len() && done1[j] == x;
                if j < done0.len() {
                    assert(done0.contains(x));
                } else {
                    assert(batch_s[j - done0.len()] == x);
                    assert(batch_s.contains(x));
                    assert(ready.contains(x));
                    assert(live0.contains(x));
                }
            }
            // every prerequisite of a newly emitted key was emitted earlier
            assert forall|j: int, a: u32|
                0 <= j < done1.len() && #[trigger] dep_edges(es).contains(
                    (a, done1[j]),
                ) implies exists|i0: int| 0 <= i0 < j && done1[i0] == a by {
                if j < done0.len() {
                    assert(done1[j] == done0[j]);
                    let i0 = choose|i0: int| 0 <= i0 < j && done0[i0] == a;
                    assert(done1[i0] == a);
                } else {
                    let b = done1[j];
                    assert(batch_s[j - done0.len()] == b);
                    assert(batch_s.contains(b));
                    assert(ready.contains(b));
                    assert(live0.contains(b));
                    // a names a function, so it is a node
                    let jj = choose|jj: int|
                        0 <= jj < es.len() && es[jj].0 == b && es[jj].1.deps().contains(a);
                    let ii = choose|ii: int| 0 <= ii < es.len() && es[ii].0 == a;
                    assert(es.map_values(|p: (u32, FuncView)| p.0)[ii] == a);
                    assert(node_set(es).contains(a));
                    if live0.contains(a) {
                        assert(live_edges(es, done0).contains((a, b)));
                        assert(edges0.contains((a, b)));
                        assert(!ready.contains(b));
                        assert(false);
                    }
                    assert(done0.to_set().contains(a));
                    assert(done0.contains(a));
                    let i0 = choose|i0: int| 0 <= i0 < done0.len() && done0[i0] == a;
                    assert(done1[i0] == a);
                    assert(i0 < done0.len() <= j);
                }
            }
            // the live set and live links shrink to the remaining keys
            assert forall|x: u32| ts_nodes(ts).contains(x) == live_set(es, done1).contains(
                x,
            ) by {
                if ts_nodes(ts).contains(x) {
                    assert(live0.contains(x) && !ready.contains(x));
                    assert(!done0.to_set().contains(x));
                    if done1.contains(x) {
                        let j = choose|j: int| 0 <= j < done1.len() && done1[j] == x;
                        if j < done0.len() {
                            assert(done0.contains(x));
                        } else {
                            assert(batch_s.contains(x));
                        }
                        assert(false);
                    }
                    assert(!done1.to_set().contains(x));
                }
                if live_set(es, done1).contains(x) {
                    assert(!done1.to_set().contains(x));
                    if done0.contains(x) {
                        let j = choose|j: int| 0 <= j < done0.len() && done0[j] == x;
                        assert(done1[j] == x);
                        assert(done1.contains(x));
                        assert(false);
                    }
                    assert(live0.contains(x));
                    if ready.contains(x) {
                        assert(batch_s.to_set().contains(x));
                        let t = choose|t: int| 0 <= t < batch_s.len() && batch_s[t] == x;
                        assert(done1[done0.len() + t] == x);
                        assert(done1.contains(x));
                        assert(false);
                    }
                }
            }
            assert(ts_nodes(ts) =~= live_set(es, done1));
            assert forall|e: (u32, u32)| ts_edges(ts).contains(e) == live_edges(
                es,
                done1,
            ).contains(e) by {
                assert(ts_edges(ts).contains(e) == (edges0.contains(e) && !ready.contains(e.0)
                    && !ready.contains(e.1)));
            }
            assert(ts_edges(ts) =~= live_edges(es, done1));
            // the emitted prefix extends along the deterministic layer order
            lemma_layer_step(es, done0, live0, edges0, batch_s, ready);
            assert(ts_nodes(ts) == live0.difference(ready));
            assert(done1 + kahn_seq(ts_nodes(ts), dep_edges(es)) =~= done0 + kahn_seq(
                live0,
                dep_edges(es),
            ));
            // strictly fewer keys remain
            assert(ready.subset_of(live0));
            broadcast use vstd::set_lib::lemma_set_subset_finite;
            broadcast use vstd::set_lib::lemma_set_disjoint_lens;

            assert(ready.finite());
            assert(batch_s.contains(batch_s[0]));
            assert(ready.contains(batch_s[0]));
            assert(ready.len() > 0) by {
                if ready.len() == 0 {
                    ready.lemma_len0_is_empty();
                }
            }
            assert(ts_nodes(ts).disjoint(ready));
            assert(live0 =~= ts_nodes(ts) + ready);
            assert(live0.len() == ts_nodes(ts).len() + ready.len());
        }
    }
    let ghost done = done_v@;
    proof {
        assert(kahn_seq(ts_nodes(ts), dep_edges(es)) =~= Seq::<u32>::empty());
        assert(done =~= kahn_seq(node_set(es), dep_edges(es)));
        // everything was emitted: the emitted keys are exactly the node set
        assert forall|x: u32| done.to_set().contains(x) == node_set(es).contains(x) by {
            if done.to_set().contains(x) {
                assert(done.contains(x));
            }
            if node_set(es).contains(x) {
                assert(!live_set(es, done).contains(x));
            }
        }
        assert(done.to_set() =~= node_set(es));
        done.unique_seq_to_set();
        let keys = es.map_values(|p: (u32, FuncView)| p.0);
        assert(keys.no_duplicates());
        keys.unique_seq_to_set();
        assert forall|x: u32| keys.to_set().contains(x) == node_set(es).contains(x) by {}
        assert(keys.to_set() =~= node_set(es));
        assert(done.len() == es.len());
    }

    // Emit the functions in the computed order.
    let mut pool = functions;
    let mut out: Vec<(FuncIndex, Func)> = Vec::new();
    let dlen = done_v.len();
    proof {
        assert(done.take(0) =~= Seq::<u32>::empty());
        assert forall|k: u32| has_key(pairs_view(pool@), k) == (node_set(es).contains(k)
            && !done.take(0).contains(k)) by {
            if has_key(pairs_view(pool@), k) {
                let j = choose|j: int|
                    0 <= j < es.len() && #[trigger] pairs_view(pool@)[j].0 == k;
                assert(es.map_values(|p: (u32, FuncView)| p.0)[j] == k);
                assert(node_set(es).contains(k));
            }
            if node_set(es).contains(k) {
                let keys = es.map_values(|p: (u32, FuncView)| p.0);
                assert(keys.contains(k));
                let j = choose|j: int| 0 <= j < keys.len() && #[trigger] keys[j] == k;
                assert(es[j].0 == k);
                assert(pairs_view(pool@)[j].0 == k);
            }
        }
    }
    proof {
        assert forall|t: int|
            0 <= t < pool@.len() implies from_entries(es, #[trigger] pairs_view(pool@)[t]) by {
            assert(pairs_view(pool@)[t] == es[t]);
        }
    }
    let mut q: usize = 0;
    while q < dlen
        invariant
            forall|i0: int, j0: int| 0 <= i0 < j0 < es.len() ==> es[i0].0 != es[j0].0,
            dlen == done.len(),
            done == done_v@,
            done.len() == es.len(),
            done.no_duplicates(),
            done.to_set() == node_set(es),
            forall|j: int, a: u32|
                0 <= j < done.len() && #[trigger] dep_edges(es).contains((a, done[j]))
                    ==> exists|i0: int| 0 <= i0 < j && done[i0] == a,
            0 <= q <= dlen,
            out@.len() == q,
            pool@.len() + q == es.len(),
            forall|t: int|
                0 <= t < pool@.len() ==> from_entries(es, #[trigger] pairs_view(pool@)[t]),
            forall|t1: int, t2: int|
                0 <= t1 < t2 < pool@.len() ==> pairs_view(pool@)[t1].0 != pairs_view(
                    pool@,
                )[t2].0,
            forall|k: u32|
                has_key(pairs_view(pool@), k) == (node_set(es).contains(k) && !done.take(
                    q as int,
                ).contains(k)),
            forall|j: int| 0 <= j < q ==> #[trigger] pairs_view(out@)[j].0 == done[j],
            forall|j: int| 0 <= j < q ==> from_entries(es, #[trigger] pairs_view(out@)[j]),
        decreases dlen - q,
    {
        let key = done_v[q];
        proof {
            assert(done.contains(done[q as int]));
            assert(node_set(es).contains(key));
            if done.take(q as int).contains(key) {
                let dq0 = done.take(q as int);
                let j = choose|j: int| 0 <= j < dq0.len() && #[trigger] dq0[j] == key;
                assert(done[j] == done[q as int]);
                assert(false);
            }
            assert(has_key(pairs_view(pool@), key));
        }
        let mut t: usize = 0;
        while t < pool.len() && pool[t].0.0 != key
            invariant
                0 <= t <= pool@.len(),
                forall|u: int| 0 <= u < t ==> pairs_view(pool@)[u].0 != key,
                has_key(pairs_view(pool@), key),
            decreases pool@.len() - t,
        {
            proof {
                assert(pairs_view(pool@)[t as int].0 == pool@[t as int].0.0);
            }
            t = t + 1;
        }
        proof {
            if t == pool@.len() {
                let j = choose|j: int|
                    0 <= j < pairs_view(pool@).len() && #[trigger] pairs_view(pool@)[j].0 == key;
                assert(false);
            }
            assert(pairs_view(pool@)[t as int].0 == key);
        }
        let ghost pool_before = pool@;
        let ghost out_before = out@;
        proof {
            assert forall|k: u32|
                has_key(pairs_view(pool_before), k) == (node_set(es).contains(k) && !done.take(
                    q as int,
                ).contains(k)) by {
                assert(has_key(pairs_view(pool@), k) == (node_set(es).contains(k) && !done.take(
                    q as int,
                ).contains(k)));
            }
            assert forall|t1: int, t2: int|
                0 <= t1 < t2 < pool_before.len() implies pairs_view(pool_before)[t1].0
                != pairs_view(pool_before)[t2].0 by {
                assert(pairs_view(pool@)[t1].0 != pairs_view(pool@)[t2].0);
            }
            assert forall|t0: int|
                0 <= t0 < pool_before.len() implies from_entries(
                es,
                #[trigger] pairs_view(pool_before)[t0],
            ) by {
                assert(from_entries(es, pairs_view(pool@)[t0]));
            }
        }
        let entry = pool.remove(t);
        out.push(entry);
        proof {
            let pv0 = pairs_view(pool_before);
            let pv1 = pairs_view(pool@);
            pool_before.remove_ensures(t as int);
            pv0.remove_ensures(t as int);
            assert(pv1 =~= pv0.remove(t as int));
            assert(pairs_view(out@) =~= pairs_view(out_before).push(
                (entry.0.0, entry.1@),
            ));
            assert(entry == pool_before[t as int]);
            assert(pairs_view(out@)[q as int].0 == done[q as int]);
            // the prefix of emitted keys grows by exactly this key
            assert forall|k: u32|
                done.take(q + 1).contains(k) == (done.take(q as int).contains(k) || k == done[
                q as int]) by {
                let dq1 = done.take(q + 1);
                let dq0 = done.take(q as int);
                if dq1.contains(k) {
                    let j = choose|j: int| 0 <= j < dq1.len() && #[trigger] dq1[j] == k;
                    if j < q {
                        assert(dq0[j] == k);
                    }
                }
                if dq0.contains(k) {
                    let j = choose|j: int| 0 <= j < dq0.len() && #[trigger] dq0[j] == k;
                    assert(dq1[j] == k);
                }
                if k == done[q as int] {
                    assert(done.take(q + 1)[q as int] == k);
                }
            }
            // the pool now holds exactly the keys not yet emitted
            assert(key == done[q as int]);
            assert(pv0[t as int].0 == key);
            assert forall|k: u32|
                has_key(pv1, k) == (node_set(es).contains(k) && !done.take(q + 1).contains(
                    k,
                )) by {
                if has_key(pv1, k) {
                    let u = choose|u: int| 0 <= u < pv1.len() && #[trigger] pv1[u].0 == k;
                    let u0: int = if u < t { u } else { u + 1 };
                    assert(pv1[u] == pv0[u0]);
                    assert(pv0[u0].0 == k);
                    assert(u0 != t);
                    assert(k != key);
                    assert(has_key(pv0, k));
                    assert(node_set(es).contains(k) && !done.take(q as int).contains(k));
                    assert(!done.take(q + 1).contains(k));
                }
                if node_set(es).contains(k) && !done.take(q + 1).contains(k) {
                    assert(!done.take(q as int).contains(k));
                    assert(has_key(pv0, k));
                    let u0 = choose|u0: int| 0 <= u0 < pv0.len() && #[trigger] pv0[u0].0 == k;
                    assert(k != done[q as int]);
                    assert(u0 != t);
                    if u0 < t {
                        assert(pv1[u0] == pv0[u0]);
                        assert(pv1[u0].0 == k);
                    } else {
                        assert(pv1[u0 - 1] == pv0[u0]);
                        assert(pv1[u0 - 1].0 == k);
                    }
                    assert(has_key(pv1, k));
                }
            }
            assert forall|t0: int|
                0 <= t0 < pool@.len() implies from_entries(es, #[trigger] pairs_view(pool@)[t0]) by {
                let u0: int = if t0 < t { t0 } else { t0 + 1 };
                assert(pv1[t0] == pv0[u0]);
                assert(from_entries(es, pv0[u0]));
            }
        }
        q = q + 1;
    }
    proof {
        lemma_emitted_order_correct(es, done, pairs_view(out@));
        assert(pairs_view(out@).map_values(|p: (u32, FuncView)| p.0) =~= done);
    }

    Ok(out)
}


} // verus!
