//! Degree and closeness centrality. Each is a pure function of the graph and
//! returns one entry per node, in node-index order.
use crate::graph::{
    distance, graph_edges, graph_labels, hop_distances, incident_count, is_distance, node_count,
    node_label, neighbor_count, reachable, within, RegionGraph,
};
use vstd::prelude::*;

verus! {

/// The sum of the hop distances from `s` to the reachable nodes below `m`.
pub open spec fn total_distance(edges: Seq<(int, int)>, s: int, m: int) -> nat
    decreases m,
{
    if m <= 0 {
        0
    } else {
        total_distance(edges, s, m - 1) + if reachable(edges, s, m - 1) {
            distance(edges, s, m - 1)
        } else {
            0nat
        }
    }
}

/// What `degree_centrality` returns for a graph with these labels and edges.
pub open spec fn is_degree_result(
    labels: Seq<Seq<char>>,
    edges: Seq<(int, int)>,
    r: Seq<(String, usize)>,
) -> bool {
    &&& r.len() == labels.len()
    &&& forall|v: int|
        0 <= v < r.len() ==> (#[trigger] r[v]).0@ == labels[v] && r[v].1 == incident_count(edges, v)
}

/// What `closeness_centrality` returns for a graph with these labels and edges.
pub open spec fn is_closeness_result(
    labels: Seq<Seq<char>>,
    edges: Seq<(int, int)>,
    r: Seq<(String, u128)>,
) -> bool {
    &&& r.len() == labels.len()
    &&& forall|v: int|
        0 <= v < r.len() ==> (#[trigger] r[v]).0@ == labels[v] && r[v].1 == total_distance(
            edges,
            v,
            labels.len() as int,
        )
}

/// Degree centrality: for each node, its label and the number of edges at it.
/// Parallel edges count one each; a self-loop counts once.
pub fn degree_centrality(graph: &RegionGraph) -> (r: Vec<(String, usize)>)
    ensures
        is_degree_result(graph_labels(*graph), graph_edges(*graph), r@),
{
    let n = node_count(graph);
    let mut r: Vec<(String, usize)> = Vec::new();
    for v in 0..n
        invariant
            n == graph_labels(*graph).len(),
            r@.len() == v,
            forall|u: int|
                0 <= u < v ==> (#[trigger] r@[u]).0@ == graph_labels(*graph)[u] && r@[u].1
                    == incident_count(graph_edges(*graph), u),
    {
        let label = node_label(graph, v);
        let degree = neighbor_count(graph, v);
        r.push((label, degree));
    }
    r
}

/// The distance `d` is the only one that `is_distance` admits.
pub proof fn lemma_distance_unique(edges: Seq<(int, int)>, s: int, t: int, d: nat)
    requires
        is_distance(edges, s, t, d),
    ensures
        distance(edges, s, t) == d,
{
    let e = distance(edges, s, t);
    assert(is_distance(edges, s, t, e));
    if e < d {
        assert(!within(edges, s, t, e));
    } else if d < e {
        assert(!within(edges, s, t, d));
    }
}

/// The sum of the hop distances from `s` to every node it reaches, itself
/// included at distance 0; nodes it does not reach add nothing.
fn distance_sum(graph: &RegionGraph, s: usize) -> (r: u128)
    requires
        s < graph_labels(*graph).len(),
    ensures
        r == total_distance(graph_edges(*graph), s as int, graph_labels(*graph).len() as int),
{
    let n = node_count(graph);
    let dists = hop_distances(graph, s);
    let mut total: u128 = 0;
    for t in 0..n
        invariant
            n == graph_labels(*graph).len(),
            dists@.len() == n,
            forall|u: int|
                0 <= u < n ==> (#[trigger] dists@[u] is Some <==> reachable(
                    graph_edges(*graph),
                    s as int,
                    u,
                )),
            forall|u: int|
                0 <= u < n && #[trigger] dists@[u] is Some ==> is_distance(
                    graph_edges(*graph),
                    s as int,
                    u,
                    dists@[u]->0 as nat,
                ),
            total == total_distance(graph_edges(*graph), s as int, t as int),
            total <= t as int * 0x1_0000_0000_0000_0000,
    {
        match dists[t] {
            Some(d) => {
                proof {
                    lemma_distance_unique(graph_edges(*graph), s as int, t as int, d as nat);
                }
                total = total + d as u128;
            },
            None => {},
        }
    }
    total
}

/// Closeness centrality, as the sum it is the reciprocal of: for each node, its
/// label and the sum of its hop distances to the nodes it reaches. The score is
/// `1 / sum` where the sum is positive and 0 where it is 0 (an isolated node).
pub fn closeness_centrality(graph: &RegionGraph) -> (r: Vec<(String, u128)>)
    ensures
        is_closeness_result(graph_labels(*graph), graph_edges(*graph), r@),
{
    let n = node_count(graph);
    let mut r: Vec<(String, u128)> = Vec::new();
    for v in 0..n
        invariant
            n == graph_labels(*graph).len(),
            r@.len() == v,
            forall|u: int|
                0 <= u < v ==> (#[trigger] r@[u]).0@ == graph_labels(*graph)[u] && r@[u].1
                    == total_distance(graph_edges(*graph), u, n as int),
    {
        let label = node_label(graph, v);
        let sum = distance_sum(graph, v);
        r.push((label, sum));
    }
    r
}

/// Adding an edge raises the degree of each of its endpoints by one, whether or
/// not an edge between them is already there, and leaves the other nodes alone.
pub proof fn lemma_added_edge_degree(edges: Seq<(int, int)>, a: int, b: int, v: int)
    ensures
        incident_count(edges.push((a, b)), v) == incident_count(edges, v) + if v == a || v == b {
            1nat
        } else {
            0nat
        },
{
    assert(edges.push((a, b)).drop_last() =~= edges);
}

/// Two parallel edges between distinct nodes add two to the degree of each.
pub proof fn lemma_parallel_edges_degree(edges: Seq<(int, int)>, a: int, b: int)
    requires
        a != b,
    ensures
        incident_count(edges.push((a, b)).push((a, b)), a) == incident_count(edges, a) + 2,
        incident_count(edges.push((a, b)).push((a, b)), b) == incident_count(edges, b) + 2,
{
    lemma_added_edge_degree(edges, a, b, a);
    lemma_added_edge_degree(edges, a, b, b);
    lemma_added_edge_degree(edges.push((a, b)), a, b, a);
    lemma_added_edge_degree(edges.push((a, b)), a, b, b);
}

/// Degree centrality is a function of the graph: two results for the same
/// labels and edges agree label for label and count for count.
pub proof fn lemma_degree_deterministic(
    labels: Seq<Seq<char>>,
    edges: Seq<(int, int)>,
    r1: Seq<(String, usize)>,
    r2: Seq<(String, usize)>,
)
    requires
        is_degree_result(labels, edges, r1),
        is_degree_result(labels, edges, r2),
    ensures
        r1.len() == r2.len(),
        forall|v: int| 0 <= v < r1.len() ==> (#[trigger] r1[v]).0@ == r2[v].0@ && r1[v].1 == r2[v].1,
{
}

/// Closeness centrality is a function of the graph: two results for the same
/// labels and edges agree label for label and sum for sum.
pub proof fn lemma_closeness_deterministic(
    labels: Seq<Seq<char>>,
    edges: Seq<(int, int)>,
    r1: Seq<(String, u128)>,
    r2: Seq<(String, u128)>,
)
    requires
        is_closeness_result(labels, edges, r1),
        is_closeness_result(labels, edges, r2),
    ensures
        r1.len() == r2.len(),
        forall|v: int| 0 <= v < r1.len() ==> (#[trigger] r1[v]).0@ == r2[v].0@ && r1[v].1 == r2[v].1,
{
}

/// A node that `s` does not reach adds nothing to the distance sum of `s`.
pub proof fn lemma_unreachable_adds_nothing(edges: Seq<(int, int)>, s: int, t: int)
    requires
        0 <= t,
        !reachable(edges, s, t),
    ensures
        total_distance(edges, s, t + 1) == total_distance(edges, s, t),
{
}

} // verus!
