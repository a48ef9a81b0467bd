//! The region graph: petgraph's undirected graph with string labels, its
//! mathematical model, and the calls into petgraph that the measures make.
use petgraph::graph::{NodeIndex, UnGraph};
use vstd::prelude::*;

verus! {

#[verifier::external_type_specification]
#[verifier::external_body]
#[verifier::reject_recursive_types(N)]
#[verifier::reject_recursive_types(E)]
#[verifier::reject_recursive_types(Ty)]
#[verifier::reject_recursive_types(Ix)]
pub struct ExGraph<N, E, Ty, Ix>(petgraph::graph::Graph<N, E, Ty, Ix>);

#[verifier::external_type_specification]
#[verifier::external_body]
pub struct ExUndirected(petgraph::Undirected);

/// The graph the measures run on: regions as nodes, shared route segments as
/// edges, parallel edges allowed.
pub type RegionGraph = UnGraph<String, ()>;

/// The node labels of a graph, by node index.
pub uninterp spec fn graph_labels(g: RegionGraph) -> Seq<Seq<char>>;

/// The edges of a graph as pairs of node indices, in the order they were added.
pub uninterp spec fn graph_edges(g: RegionGraph) -> Seq<(int, int)>;

/// The simple paths from `source` to `target` in the order that petgraph's
/// `all_simple_paths` yields them, on a graph of `node_count` nodes whose edges
/// were added in the order of `edges`. A pair of parallel edges on the way gives
/// the same node sequence twice.
pub uninterp spec fn simple_paths_of(
    node_count: nat,
    edges: Seq<(int, int)>,
    source: int,
    target: int,
) -> Seq<Seq<int>>;

/// The number of edges with `v` as an endpoint; a self-loop counts once.
pub open spec fn incident_count(edges: Seq<(int, int)>, v: int) -> nat
    decreases edges.len(),
{
    if edges.len() == 0 {
        0
    } else {
        incident_count(edges.drop_last(), v) + if edges.last().0 == v || edges.last().1 == v {
            1nat
        } else {
            0nat
        }
    }
}

/// Some edge joins `u` and `v`, in either direction.
pub open spec fn adjacent(edges: Seq<(int, int)>, u: int, v: int) -> bool {
    exists|j: int| 0 <= j < edges.len() && (#[trigger] edges[j] == (u, v) || edges[j] == (v, u))
}

/// `w` is a walk: a nonempty sequence of nodes, each step along an edge.
pub open spec fn is_walk(edges: Seq<(int, int)>, w: Seq<int>) -> bool {
    &&& w.len() >= 1
    &&& forall|i: int| 0 <= i < w.len() - 1 ==> adjacent(edges, #[trigger] w[i], w[i + 1])
}

/// A walk of at most `k` edges leads from `s` to `t`.
pub open spec fn within(edges: Seq<(int, int)>, s: int, t: int, k: nat) -> bool {
    exists|w: Seq<int>| #[trigger] is_walk(edges, w) && w.len() <= k + 1 && w[0] == s && w.last() == t
}

/// Some walk leads from `s` to `t`.
pub open spec fn reachable(edges: Seq<(int, int)>, s: int, t: int) -> bool {
    exists|k: nat| #[trigger] within(edges, s, t, k)
}

/// `d` is the number of edges on a shortest walk from `s` to `t`.
pub open spec fn is_distance(edges: Seq<(int, int)>, s: int, t: int, d: nat) -> bool {
    &&& within(edges, s, t, d)
    &&& forall|k: nat| k < d ==> !#[trigger] within(edges, s, t, k)
}

/// The hop distance from `s` to `t`, for a reachable `t`.
pub open spec fn distance(edges: Seq<(int, int)>, s: int, t: int) -> nat {
    choose|d: nat| is_distance(edges, s, t, d)
}

/// `p` is a simple path from `s` to `t` over nodes below `n`: no node twice,
/// each step along an edge.
pub open spec fn is_simple_path(
    n: nat,
    edges: Seq<(int, int)>,
    s: int,
    t: int,
    p: Seq<int>,
) -> bool {
    &&& p.len() >= 2
    &&& p[0] == s
    &&& p.last() == t
    &&& forall|i: int| 0 <= i < p.len() ==> 0 <= #[trigger] p[i] < n
    &&& forall|i: int, j: int| 0 <= i < j < p.len() ==> p[i] != p[j]
    &&& forall|i: int| 0 <= i < p.len() - 1 ==> adjacent(edges, #[trigger] p[i], p[i + 1])
}

pub open spec fn usizes_as_ints(p: Seq<usize>) -> Seq<int> {
    p.map_values(|x: usize| x as int)
}

/// Relies on petgraph's `Graph::node_count`: the number of nodes.
#[verifier::external_body]
pub(crate) fn node_count(g: &RegionGraph) -> (r: usize)
    ensures
        r == graph_labels(*g).len(),
{
    g.node_count()
}

/// Relies on indexing a petgraph `Graph` by node: the label of node `i`.
#[verifier::external_body]
pub(crate) fn node_label(g: &RegionGraph, i: usize) -> (r: String)
    requires
        i < graph_labels(*g).len(),
    ensures
        r@ == graph_labels(*g)[i as int],
{
    g[NodeIndex::new(i)].clone()
}

/// Relies on petgraph's `Graph::neighbors` on an undirected graph: one neighbour
/// for each edge at `i`, a self-loop listed once.
#[verifier::external_body]
pub(crate) fn neighbor_count(g: &RegionGraph, i: usize) -> (r: usize)
    requires
        i < graph_labels(*g).len(),
    ensures
        r == incident_count(graph_edges(*g), i as int),
{
    g.neighbors(NodeIndex::new(i)).count()
}

/// The cost of one edge when distances are counted in hops.
pub fn unit_edge_cost<T>(_edge: T) -> (r: usize)
    ensures
        r == 1,
{
    1
}

/// Relies on petgraph's `dijkstra` with unit edge costs: the result holds each
/// node reachable from `s` with the length of a shortest path to it. Read out
/// here by node index, `None` for a node it does not hold.
#[verifier::external_body]
pub(crate) fn hop_distances(g: &RegionGraph, s: usize) -> (r: Vec<Option<usize>>)
    requires
        s < graph_labels(*g).len(),
    ensures
        r@.len() == graph_labels(*g).len(),
        forall|t: int|
            0 <= t < r@.len() ==> (#[trigger] r@[t] is Some <==> reachable(graph_edges(*g), s as int, t)),
        forall|t: int|
            0 <= t < r@.len() && #[trigger] r@[t] is Some ==> is_distance(
                graph_edges(*g),
                s as int,
                t,
                r@[t]->0 as nat,
            ),
{
    let m = petgraph::algo::dijkstra(g, NodeIndex::new(s), None, |e| unit_edge_cost(e));
    (0..g.node_count()).map(|t| m.get(&NodeIndex::new(t)).copied()).collect()
}

/// Relies on petgraph's `all_simple_paths` with no bound on the number of
/// intermediate nodes: each path it yields starts at `s`, ends at `t`, repeats
/// no node and steps along edges. Nodes are read out as indices.
#[verifier::external_body]
pub(crate) fn simple_paths(g: &RegionGraph, s: usize, t: usize) -> (r: Vec<Vec<usize>>)
    requires
        s < graph_labels(*g).len(),
        t < graph_labels(*g).len(),
        s != t,
    ensures
        r@.len() == simple_paths_of(graph_labels(*g).len(), graph_edges(*g), s as int, t as int).len(),
        forall|k: int|
            0 <= k < r@.len() ==> usizes_as_ints(#[trigger] r@[k]@) == simple_paths_of(
                graph_labels(*g).len(),
                graph_edges(*g),
                s as int,
                t as int,
            )[k],
        forall|k: int|
            0 <= k < r@.len() ==> is_simple_path(
                graph_labels(*g).len(),
                graph_edges(*g),
                s as int,
                t as int,
                usizes_as_ints(#[trigger] r@[k]@),
            ),
{
    petgraph::algo::all_simple_paths::<Vec<NodeIndex>, _, std::collections::hash_map::RandomState>(
        g,
        NodeIndex::new(s),
        NodeIndex::new(t),
        0,
        None,
    ).map(|p| p.into_iter().map(|x| x.index()).collect()).collect()
}

} // verus!
