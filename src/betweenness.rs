//! Betweenness centrality over all simple paths. For each ordered pair of
//! distinct nodes the library counts the simple paths and, for each node, how
//! many of them pass through it; a node's score is the sum over the pairs of
//! its share, divided by the number of unordered pairs of the other nodes.
use crate::graph::{
    graph_edges, graph_labels, is_simple_path, is_walk, node_count, reachable, simple_paths,
    simple_paths_of, usizes_as_ints, within, RegionGraph,
};
use vstd::prelude::*;

verus! {

/// The paths counted for one ordered pair of nodes: how many there are, and
/// for each node, by index, how many of them pass through it.
pub struct PairPaths {
    pub total: usize,
    pub through: Vec<usize>,
}

/// `v` stands strictly between the two ends of `p`.
pub open spec fn is_interior(p: Seq<int>, v: int) -> bool {
    exists|j: int| 1 <= j < p.len() - 1 && p[j] == v
}

/// The number of paths among `paths` that have `v` strictly inside.
pub open spec fn interior_count(paths: Seq<Seq<int>>, v: int) -> nat
    decreases paths.len(),
{
    if paths.len() == 0 {
        0
    } else {
        interior_count(paths.drop_last(), v) + if is_interior(paths.last(), v) {
            1nat
        } else {
            0nat
        }
    }
}

/// The number of simple paths from `s` to `t`; none from a node to itself.
pub open spec fn pair_total(n: nat, edges: Seq<(int, int)>, s: int, t: int) -> nat {
    if s == t {
        0
    } else {
        simple_paths_of(n, edges, s, t).len()
    }
}

/// The number of simple paths from `s` to `t` that pass through `v`.
pub open spec fn pair_through(n: nat, edges: Seq<(int, int)>, s: int, t: int, v: int) -> nat {
    if s == t {
        0
    } else {
        interior_count(simple_paths_of(n, edges, s, t), v)
    }
}

/// `p` holds the counts of the ordered pair `(s, t)`.
pub open spec fn is_pair_result(n: nat, edges: Seq<(int, int)>, s: int, t: int, p: PairPaths) -> bool {
    &&& p.total == pair_total(n, edges, s, t)
    &&& p.through@.len() == n
    &&& forall|v: int| 0 <= v < n ==> #[trigger] p.through@[v] == pair_through(n, edges, s, t, v)
}

/// What `betweenness_centrality` returns for a graph with `n` nodes and these
/// edges: the counts of each ordered pair, indexed by source and then target.
pub open spec fn is_betweenness_result(n: nat, edges: Seq<(int, int)>, r: Seq<Vec<PairPaths>>) -> bool {
    &&& r.len() == n
    &&& forall|s: int| 0 <= s < n ==> (#[trigger] r[s])@.len() == n
    &&& forall|s: int, t: int|
        0 <= s < n && 0 <= t < n ==> is_pair_result(n, edges, s, t, #[trigger] r[s]@[t])
}

pub proof fn lemma_interior_count_bound(paths: Seq<Seq<int>>, v: int)
    ensures
        interior_count(paths, v) <= paths.len(),
    decreases paths.len(),
{
    if paths.len() > 0 {
        lemma_interior_count_bound(paths.drop_last(), v);
    }
}

/// No path of two nodes or fewer has a node inside it.
pub proof fn lemma_short_paths_have_no_interior(paths: Seq<Seq<int>>, v: int)
    requires
        forall|k: int| 0 <= k < paths.len() ==> (#[trigger] paths[k]).len() <= 2,
    ensures
        interior_count(paths, v) == 0,
    decreases paths.len(),
{
    if paths.len() > 0 {
        let q = paths.drop_last();
        assert forall|k: int| 0 <= k < q.len() implies (#[trigger] q[k]).len() <= 2 by {
            assert(q[k] == paths[k]);
        }
        lemma_short_paths_have_no_interior(q, v);
        assert(paths.last() == paths[paths.len() - 1]);
    }
}

/// A vector of `n` zeros.
fn zeros(n: usize) -> (r: Vec<usize>)
    ensures
        r@.len() == n,
        forall|v: int| 0 <= v < n ==> r@[v] == 0,
{
    let mut r: Vec<usize> = Vec::new();
    for i in 0..n
        invariant
            r@.len() == i,
            forall|v: int| 0 <= v < i ==> r@[v] == 0,
    {
        r.push(0);
    }
    r
}

/// `v` occurs at a position from 1 up to, not including, `hi`.
pub open spec fn seen_before(q: Seq<int>, hi: int, v: int) -> bool {
    exists|jj: int| 1 <= jj < hi && #[trigger] q[jj] == v
}

/// Adds one to the count of each node strictly inside the simple path `p`.
fn add_path(through: &mut Vec<usize>, p: &Vec<usize>, bound: usize)
    requires
        p@.len() >= 2,
        forall|i: int| 0 <= i < p@.len() ==> #[trigger] p@[i] < old(through)@.len(),
        forall|i: int, j: int| 0 <= i < j < p@.len() ==> p@[i] != p@[j],
        forall|v: int| 0 <= v < old(through)@.len() ==> #[trigger] old(through)@[v] <= bound,
        bound < usize::MAX,
    ensures
        final(through)@.len() == old(through)@.len(),
        forall|v: int|
            0 <= v < old(through)@.len() ==> #[trigger] final(through)@[v] == old(through)@[v]
                + if is_interior(usizes_as_ints(p@), v) {
                1usize
            } else {
                0usize
            },
{
    let ghost q = usizes_as_ints(p@);
    let ghost start = through@;
    let last = p.len() - 1;
    for j in 1..last
        invariant
            q == usizes_as_ints(p@),
            last == p@.len() - 1,
            forall|i: int| 0 <= i < p@.len() ==> #[trigger] p@[i] < start.len(),
            forall|i: int, j: int| 0 <= i < j < p@.len() ==> p@[i] != p@[j],
            forall|v: int| 0 <= v < start.len() ==> #[trigger] start[v] <= bound,
            bound < usize::MAX,
            through@.len() == start.len(),
            forall|v: int|
                0 <= v < start.len() ==> #[trigger] through@[v] == start[v] + if seen_before(q, j as int, v) {
                    1usize
                } else {
                    0usize
                },
    {
        let x = p[j];
        proof {
            assert(q[j as int] == x as int);
            if seen_before(q, j as int, x as int) {
                let jj = choose|jj: int| 1 <= jj < j && #[trigger] q[jj] == x as int;
                assert(p@[jj] == p@[j as int]);
            }
        }
        through.set(x, through[x] + 1);
        proof {
            assert forall|v: int| 0 <= v < start.len() implies #[trigger] through@[v] == start[v]
                + if seen_before(q, j + 1, v) {
                1usize
            } else {
                0usize
            } by {
                if v == x as int {
                    assert(q[j as int] == v);
                } else if seen_before(q, j + 1, v) {
                    let jj = choose|jj: int| 1 <= jj < j + 1 && #[trigger] q[jj] == v;
                    assert(jj < j);
                }
            }
        }
    }
    proof {
        assert forall|v: int| 0 <= v < start.len() implies seen_before(q, last as int, v) == is_interior(q, v) by {
            if is_interior(q, v) {
                let jj = choose|jj: int| 1 <= jj < q.len() - 1 && q[jj] == v;
                assert(seen_before(q, last as int, v));
            }
        }
    }
}

/// The counts of one ordered pair of distinct nodes.
fn count_pair(graph: &RegionGraph, s: usize, t: usize) -> (r: PairPaths)
    requires
        s < graph_labels(*graph).len(),
        t < graph_labels(*graph).len(),
        s != t,
    ensures
        is_pair_result(graph_labels(*graph).len(), graph_edges(*graph), s as int, t as int, r),
        !reachable(graph_edges(*graph), s as int, t as int) ==> r.total == 0,
        graph_labels(*graph).len() < 3 ==> forall|v: int|
            0 <= v < graph_labels(*graph).len() ==> #[trigger] r.through@[v] == 0,
{
    let ghost n = graph_labels(*graph).len();
    let ghost edges = graph_edges(*graph);
    let ghost all = simple_paths_of(n, edges, s as int, t as int);
    let count = node_count(graph);
    let paths = simple_paths(graph, s, t);
    let mut through = zeros(count);
    for i in 0..paths.len()
        invariant
            count == n,
            paths@.len() == all.len(),
            forall|k: int| 0 <= k < paths@.len() ==> usizes_as_ints(#[trigger] paths@[k]@) == all[k],
            forall|k: int|
                0 <= k < paths@.len() ==> is_simple_path(
                    n,
                    edges,
                    s as int,
                    t as int,
                    usizes_as_ints(#[trigger] paths@[k]@),
                ),
            through@.len() == n,
            forall|v: int|
                0 <= v < n ==> #[trigger] through@[v] == interior_count(all.take(i as int), v),
    {
        let p = &paths[i];
        let ghost q = all[i as int];
        proof {
            assert(usizes_as_ints(p@) == q);
            assert(is_simple_path(n, edges, s as int, t as int, q));
            assert forall|v: int| 0 <= v < n implies #[trigger] through@[v] <= i by {
                lemma_interior_count_bound(all.take(i as int), v);
            }
            assert(q.len() == p@.len());
            assert forall|a: int| 0 <= a < p@.len() implies #[trigger] p@[a] < through@.len() by {
                assert(q[a] == p@[a] as int);
            }
            assert forall|a: int, b: int| 0 <= a < b < p@.len() implies p@[a] != p@[b] by {
                assert(q[a] == p@[a] as int);
                assert(q[b] == p@[b] as int);
            }
        }
        add_path(&mut through, p, i);
        proof {
            assert(all.take(i as int + 1).drop_last() =~= all.take(i as int));
            assert(all.take(i as int + 1).last() == q);
        }
    }
    proof {
        assert(all.take(all.len() as int) =~= all);
        if paths@.len() > 0 {
            let q = usizes_as_ints(paths@[0]@);
            assert(is_simple_path(n, edges, s as int, t as int, q));
            assert(is_walk(edges, q));
            assert(within(edges, s as int, t as int, (q.len() - 1) as nat));
        }
        if n < 3 {
            assert forall|k: int| 0 <= k < all.len() implies (#[trigger] all[k]).len() <= 2 by {
                let q = usizes_as_ints(paths@[k]@);
                assert(is_simple_path(n, edges, s as int, t as int, q));
                if q.len() > 2 {
                    assert(0 <= q[0] < n && 0 <= q[1] < n && 0 <= q[2] < n);
                    assert(q[0] != q[1] && q[0] != q[2] && q[1] != q[2]);
                }
            }
            assert forall|v: int| 0 <= v < n implies interior_count(all, v) == 0 by {
                lemma_short_paths_have_no_interior(all, v);
            }
        }
    }
    PairPaths { total: paths.len(), through }
}

/// Betweenness centrality over all simple paths, as counts: entry `[s][t]`
/// holds the number of simple paths from `s` to `t` and, for each node, how many
/// of them pass through it. Both orders of a pair are counted. A node's score
/// is the sum, over the pairs with at least one path, of the paths through it
/// divided by the paths of the pair, divided in turn by `pair_normalizer`.
/// The number of simple paths can grow exponentially: meant for small graphs.
pub fn betweenness_centrality(graph: &RegionGraph) -> (r: Vec<Vec<PairPaths>>)
    ensures
        is_betweenness_result(graph_labels(*graph).len(), graph_edges(*graph), r@),
        forall|s: int, t: int|
            0 <= s < r@.len() && 0 <= t < r@.len() && !reachable(graph_edges(*graph), s, t)
                ==> (#[trigger] r@[s]@[t]).total == 0,
        r@.len() < 3 ==> forall|s: int, t: int, v: int|
            0 <= s < r@.len() && 0 <= t < r@.len() && 0 <= v < r@.len()
                ==> #[trigger] r@[s]@[t].through@[v] == 0,
{
    let ghost n = graph_labels(*graph).len();
    let ghost edges = graph_edges(*graph);
    let count = node_count(graph);
    let mut r: Vec<Vec<PairPaths>> = Vec::new();
    for s in 0..count
        invariant
            count == n,
            n == graph_labels(*graph).len(),
            edges == graph_edges(*graph),
            r@.len() == s,
            forall|a: int| 0 <= a < s ==> (#[trigger] r@[a])@.len() == n,
            forall|a: int, b: int|
                0 <= a < s && 0 <= b < n ==> is_pair_result(n, edges, a, b, #[trigger] r@[a]@[b]),
            forall|a: int, b: int|
                0 <= a < s && 0 <= b < n && !reachable(edges, a, b) ==> (#[trigger] r@[a]@[b]).total
                    == 0,
            n < 3 ==> forall|a: int, b: int, v: int|
                0 <= a < s && 0 <= b < n && 0 <= v < n ==> #[trigger] r@[a]@[b].through@[v] == 0,
    {
        let mut row: Vec<PairPaths> = Vec::new();
        for t in 0..count
            invariant
                count == n,
                n == graph_labels(*graph).len(),
                edges == graph_edges(*graph),
                s < n,
                row@.len() == t,
                forall|b: int| 0 <= b < t ==> is_pair_result(n, edges, s as int, b, #[trigger] row@[b]),
                forall|b: int|
                    0 <= b < t && !reachable(edges, s as int, b) ==> (#[trigger] row@[b]).total == 0,
                n < 3 ==> forall|b: int, v: int|
                    0 <= b < t && 0 <= v < n ==> #[trigger] row@[b].through@[v] == 0,
        {
            if s == t {
                let through = zeros(count);
                row.push(PairPaths { total: 0, through });
            } else {
                let p = count_pair(graph, s, t);
                row.push(p);
            }
        }
        r.push(row);
    }
    r
}

/// The number of unordered pairs of nodes other than a given one,
/// `(n - 1)(n - 2) / 2`, that betweenness scores are divided by; `None` for
/// fewer than three nodes, where it would be zero or negative and every score is 0.
pub fn pair_normalizer(node_count: usize) -> (r: Option<u128>)
    ensures
        node_count < 3 <==> r is None,
        r is Some ==> r->0 == (node_count - 1) * (node_count - 2) / 2,
{
    if node_count < 3 {
        None
    } else {
        let a = (node_count - 1) as u128;
        let b = (node_count - 2) as u128;
        assert(a * b <= 0xffff_ffff_ffff_ffff * 0xffff_ffff_ffff_ffffu128) by (nonlinear_arith)
            requires
                a <= 0xffff_ffff_ffff_ffff,
                b <= 0xffff_ffff_ffff_ffff,
        ;
        Some(a * b / 2)
    }
}

/// Betweenness centrality is a function of the graph: two results for the same
/// node count and edges hold the same counts for every pair.
pub proof fn lemma_betweenness_deterministic(
    n: nat,
    edges: Seq<(int, int)>,
    r1: Seq<Vec<PairPaths>>,
    r2: Seq<Vec<PairPaths>>,
)
    requires
        is_betweenness_result(n, edges, r1),
        is_betweenness_result(n, edges, r2),
    ensures
        r1.len() == r2.len(),
        forall|s: int, t: int|
            0 <= s < n && 0 <= t < n ==> (#[trigger] r1[s]@[t]).total == r2[s]@[t].total
                && r1[s]@[t].through@ == r2[s]@[t].through@,
{
    assert forall|s: int, t: int| 0 <= s < n && 0 <= t < n implies (#[trigger] r1[s]@[t]).total
        == r2[s]@[t].total && r1[s]@[t].through@ == r2[s]@[t].through@ by {
        assert(is_pair_result(n, edges, s, t, r1[s]@[t]));
        assert(is_pair_result(n, edges, s, t, r2[s]@[t]));
        assert(r1[s]@[t].through@ =~= r2[s]@[t].through@);
    }
}

} // verus!
