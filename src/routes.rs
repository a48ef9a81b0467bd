//! Building the region graph from routes: each route is the sequence of regions
//! it passes through, and each two consecutive regions of a route are joined by
//! an edge. A region becomes one node however many routes pass through it; two
//! routes over the same two regions give two parallel edges.
use crate::graph::{graph_edges, graph_labels, RegionGraph};
use crate::regions::{parse_regions, regions_of};
use petgraph::graph::{NodeIndex, UnGraph};
use vstd::prelude::*;

verus! {

/// The regions of each route, as character sequences.
pub open spec fn routes_view(routes: Seq<Vec<String>>) -> Seq<Seq<Seq<char>>> {
    routes.map_values(|r: Vec<String>| r@.map_values(|x: String| x@))
}

/// The consecutive region pairs of one route, in order.
pub open spec fn route_steps(r: Seq<Seq<char>>) -> Seq<(Seq<char>, Seq<char>)> {
    if r.len() == 0 {
        Seq::empty()
    } else {
        Seq::new((r.len() - 1) as nat, |i: int| (r[i], r[i + 1]))
    }
}

/// The consecutive region pairs of all routes, route after route.
pub open spec fn all_steps(routes: Seq<Seq<Seq<char>>>) -> Seq<(Seq<char>, Seq<char>)>
    decreases routes.len(),
{
    if routes.len() == 0 {
        Seq::empty()
    } else {
        all_steps(routes.drop_last()) + route_steps(routes.last())
    }
}

/// The number of region entries over all routes.
pub open spec fn region_total(routes: Seq<Seq<Seq<char>>>) -> nat
    decreases routes.len(),
{
    if routes.len() == 0 {
        0
    } else {
        region_total(routes.drop_last()) + routes.last().len()
    }
}

/// The regions of all routes, route after route.
pub open spec fn flat_regions(routes: Seq<Seq<Seq<char>>>) -> Seq<Seq<char>>
    decreases routes.len(),
{
    if routes.len() == 0 {
        Seq::empty()
    } else {
        flat_regions(routes.drop_last()) + routes.last()
    }
}

/// The distinct entries of `s`, each where it first occurs.
pub open spec fn first_occurrences(s: Seq<Seq<char>>) -> Seq<Seq<char>>
    decreases s.len(),
{
    if s.len() == 0 {
        Seq::empty()
    } else {
        let init = first_occurrences(s.drop_last());
        if init.contains(s.last()) {
            init
        } else {
            init.push(s.last())
        }
    }
}

/// `x` is one of the regions of some route.
pub open spec fn is_region(routes: Seq<Seq<Seq<char>>>, x: Seq<char>) -> bool {
    exists|k: int, i: int| 0 <= k < routes.len() && 0 <= i < routes[k].len() && #[trigger] routes[k][i] == x
}

/// `g` is the graph of `routes`: one node for each distinct region, and one edge
/// for each two consecutive regions of a route, in route order.
pub open spec fn is_graph_of(routes: Seq<Seq<Seq<char>>>, g: RegionGraph) -> bool {
    let labels = graph_labels(g);
    let edges = graph_edges(g);
    &&& labels == first_occurrences(flat_regions(routes))
    &&& labels.no_duplicates()
    &&& forall|v: int| 0 <= v < labels.len() ==> is_region(routes, #[trigger] labels[v])
    &&& forall|k: int, i: int|
        0 <= k < routes.len() && 0 <= i < routes[k].len() ==> labels.contains(#[trigger] routes[k][i])
    &&& edges.len() == all_steps(routes).len()
    &&& forall|j: int|
        0 <= j < edges.len() ==> {
            &&& 0 <= (#[trigger] edges[j]).0 < labels.len()
            &&& 0 <= edges[j].1 < labels.len()
            &&& labels[edges[j].0] == all_steps(routes)[j].0
            &&& labels[edges[j].1] == all_steps(routes)[j].1
        }
}

/// Relies on petgraph's `Graph::new_undirected`: a graph with no nodes and no edges.
#[verifier::external_body]
fn new_graph() -> (r: RegionGraph)
    ensures
        graph_labels(r) == Seq::<Seq<char>>::empty(),
        graph_edges(r) == Seq::<(int, int)>::empty(),
{
    UnGraph::new_undirected()
}

/// Relies on petgraph's `Graph::add_node`: appends a node with this label and
/// returns its index; it panics only once `u32::MAX` nodes are reached.
#[verifier::external_body]
fn add_node(g: &mut RegionGraph, label: String) -> (r: usize)
    requires
        graph_labels(*old(g)).len() < 0xffff_ffff,
    ensures
        r == graph_labels(*old(g)).len(),
        graph_labels(*final(g)) == graph_labels(*old(g)).push(label@),
        graph_edges(*final(g)) == graph_edges(*old(g)),
{
    g.add_node(label).index()
}

/// Relies on petgraph's `Graph::add_edge`: appends an edge between two existing
/// nodes, beside any edge already between them; it panics on a missing node or
/// once `u32::MAX` edges are reached.
#[verifier::external_body]
fn add_edge(g: &mut RegionGraph, a: usize, b: usize)
    requires
        a < graph_labels(*old(g)).len(),
        b < graph_labels(*old(g)).len(),
        graph_edges(*old(g)).len() < 0xffff_ffff,
    ensures
        graph_labels(*final(g)) == graph_labels(*old(g)),
        graph_edges(*final(g)) == graph_edges(*old(g)).push((a as int, b as int)),
{
    g.add_edge(NodeIndex::new(a), NodeIndex::new(b), ());
}

/// The position of `x` in `labels`, if it is there.
fn find_label(labels: &Vec<String>, x: &String) -> (r: Option<usize>)
    ensures
        r is None ==> !labels@.map_values(|s: String| s@).contains(x@),
        r is Some ==> r->0 < labels@.len() && labels@[r->0 as int]@ == x@,
{
    let mut i: usize = 0;
    while i < labels.len()
        invariant
            i <= labels@.len(),
            forall|j: int| 0 <= j < i ==> labels@[j]@ != x@,
        decreases labels@.len() - i,
    {
        if labels[i] == *x {
            return Some(i);
        }
        i = i + 1;
    }
    proof {
        let m = labels@.map_values(|s: String| s@);
        if m.contains(x@) {
            let j = choose|j: int| 0 <= j < m.len() && m[j] == x@;
            assert(labels@[j]@ == m[j]);
        }
    }
    None
}

/// Each edge joins the nodes labelled with the two regions of a step.
pub open spec fn edges_follow(
    labels: Seq<Seq<char>>,
    edges: Seq<(int, int)>,
    steps: Seq<(Seq<char>, Seq<char>)>,
) -> bool {
    &&& edges.len() == steps.len()
    &&& forall|j: int|
        0 <= j < edges.len() ==> {
            &&& 0 <= (#[trigger] edges[j]).0 < labels.len()
            &&& 0 <= edges[j].1 < labels.len()
            &&& labels[edges[j].0] == steps[j].0
            &&& labels[edges[j].1] == steps[j].1
        }
}

pub proof fn lemma_region_total_prefix(routes: Seq<Seq<Seq<char>>>, k: int)
    requires
        0 <= k <= routes.len(),
    ensures
        region_total(routes.take(k)) <= region_total(routes),
    decreases routes.len(),
{
    if k < routes.len() {
        assert(routes.take(k) =~= routes.drop_last().take(k));
        lemma_region_total_prefix(routes.drop_last(), k);
    } else {
        assert(routes.take(k) =~= routes);
    }
}

/// Builds the graph of a list of routes, each given as the regions it passes
/// through in order. Nodes are numbered in the order their region first occurs.
pub fn graph_of_routes(routes: &Vec<Vec<String>>) -> (r: RegionGraph)
    requires
        region_total(routes_view(routes@)) < 0xffff_ffff,
    ensures
        is_graph_of(routes_view(routes@), r),
{
    let ghost rv = routes_view(routes@);
    let mut g = new_graph();
    let mut labels: Vec<String> = Vec::new();
    proof {
        assert(labels@.map_values(|s: String| s@) =~= graph_labels(g));
        assert(rv.take(0) =~= Seq::<Seq<Seq<char>>>::empty());
    }
    for k in 0..routes.len()
        invariant
            rv == routes_view(routes@),
            region_total(rv) < 0xffff_ffff,
            labels@.map_values(|s: String| s@) == graph_labels(g),
            graph_labels(g) == first_occurrences(flat_regions(rv.take(k as int))),
            graph_labels(g).no_duplicates(),
            forall|v: int| 0 <= v < graph_labels(g).len() ==> is_region(rv, #[trigger] graph_labels(g)[v]),
            forall|kk: int, i: int|
                0 <= kk < k && 0 <= i < rv[kk].len() ==> graph_labels(g).contains(#[trigger] rv[kk][i]),
            edges_follow(graph_labels(g), graph_edges(g), all_steps(rv.take(k as int))),
            graph_labels(g).len() <= region_total(rv.take(k as int)),
            graph_edges(g).len() <= region_total(rv.take(k as int)),
    {
        let route = &routes[k];
        let ghost rk = rv[k as int];
        let ghost before = all_steps(rv.take(k as int));
        let ghost base = region_total(rv.take(k as int));
        let ghost flat = flat_regions(rv.take(k as int));
        proof {
            assert(flat + rk.take(0) =~= flat);
            assert(rk == route@.map_values(|x: String| x@));
            assert(rv.take(k + 1).drop_last() =~= rv.take(k as int));
            assert(rv.take(k + 1).last() == rk);
            lemma_region_total_prefix(rv, k + 1);
            assert(route_steps(rk.take(0)) =~= Seq::<(Seq<char>, Seq<char>)>::empty());
            assert(before + route_steps(rk.take(0)) =~= before);
        }
        let mut prev: usize = 0;
        for i in 0..route.len()
            invariant
                rv == routes_view(routes@),
                rk == rv[k as int],
                rk == route@.map_values(|x: String| x@),
                0 <= k < rv.len(),
                before == all_steps(rv.take(k as int)),
                base == region_total(rv.take(k as int)),
                base + rk.len() < 0xffff_ffff,
                labels@.map_values(|s: String| s@) == graph_labels(g),
                flat == flat_regions(rv.take(k as int)),
                graph_labels(g) == first_occurrences(flat + rk.take(i as int)),
                graph_labels(g).no_duplicates(),
                forall|v: int|
                    0 <= v < graph_labels(g).len() ==> is_region(rv, #[trigger] graph_labels(g)[v]),
                forall|kk: int, ii: int|
                    0 <= kk < k && 0 <= ii < rv[kk].len() ==> graph_labels(g).contains(#[trigger] rv[kk][ii]),
                forall|ii: int| 0 <= ii < i ==> graph_labels(g).contains(#[trigger] rk[ii]),
                edges_follow(graph_labels(g), graph_edges(g), before + route_steps(rk.take(i as int))),
                i > 0 ==> prev < graph_labels(g).len() && graph_labels(g)[prev as int] == rk[i - 1],
                graph_labels(g).len() <= base + i,
                graph_edges(g).len() <= base + i,
        {
            let x = &route[i];
            proof {
                assert(rk[i as int] == x@);
                assert((flat + rk.take(i + 1)).drop_last() =~= flat + rk.take(i as int));
                assert((flat + rk.take(i + 1)).last() == x@);
            }
            let idx = match find_label(&labels, x) {
                Some(j) => {
                    proof {
                        assert(graph_labels(g)[j as int] == x@);
                        assert(graph_labels(g).contains(x@));
                    }
                    j
                },
                None => {
                    let ghost old_labels = graph_labels(g);
                    let j = add_node(&mut g, x.clone());
                    labels.push(x.clone());
                    proof {
                        assert(labels@.map_values(|s: String| s@) =~= graph_labels(g));
                        assert(is_region(rv, rv[k as int][i as int]));
                        assert forall|v: int| 0 <= v < graph_labels(g).len() implies is_region(
                            rv,
                            #[trigger] graph_labels(g)[v],
                        ) by {
                            if v < old_labels.len() {
                                assert(graph_labels(g)[v] == old_labels[v]);
                            }
                        }
                        assert forall|a: int, b: int|
                            0 <= a < b < graph_labels(g).len() implies graph_labels(g)[a] != graph_labels(
                                g,
                            )[b] by {
                            if b == old_labels.len() {
                                assert(old_labels.contains(old_labels[a]));
                            }
                        }
                        assert forall|y: Seq<char>| old_labels.contains(y) implies graph_labels(
                            g,
                        ).contains(y) by {
                            let w = choose|w: int| 0 <= w < old_labels.len() && old_labels[w] == y;
                            assert(graph_labels(g)[w] == y);
                        }
                    }
                    j
                },
            };
            proof {
                assert(graph_labels(g)[idx as int] == rk[i as int]);
                assert(graph_labels(g).contains(rk[i as int]));
            }
            let ghost steps_before = before + route_steps(rk.take(i as int));
            if i > 0 {
                add_edge(&mut g, prev, idx);
                proof {
                    assert(before + route_steps(rk.take(i + 1)) =~= steps_before.push(
                        (rk[i - 1], rk[i as int]),
                    ));
                }
            } else {
                proof {
                    assert(before + route_steps(rk.take(i + 1)) =~= steps_before);
                }
            }
            prev = idx;
        }
        proof {
            assert(rk.take(rk.len() as int) =~= rk);
            assert(all_steps(rv.take(k + 1)) == before + route_steps(rk));
            assert(region_total(rv.take(k + 1)) == base + rk.len());
            assert(flat_regions(rv.take(k + 1)) == flat + rk);
        }
    }
    proof {
        assert(rv.take(rv.len() as int) =~= rv);
    }
    g
}

/// The region lists that the route texts give.
pub open spec fn parsed_routes(states: Seq<String>) -> Seq<Seq<Seq<char>>> {
    states.map_values(|s: String| regions_of(s@))
}

/// Builds the graph of a list of routes, each given by the text of its region
/// list, such as `[A, B, C]`.
pub fn build_graph(states: &Vec<String>) -> (r: RegionGraph)
    requires
        region_total(parsed_routes(states@)) < 0xffff_ffff,
    ensures
        is_graph_of(parsed_routes(states@), r),
{
    let mut routes: Vec<Vec<String>> = Vec::new();
    for k in 0..states.len()
        invariant
            routes@.len() == k,
            forall|j: int| 0 <= j < k ==> (#[trigger] routes@[j])@.map_values(|x: String| x@) == regions_of(states@[j]@),
    {
        let regions = parse_regions(states[k].as_str());
        routes.push(regions);
    }
    proof {
        assert(routes_view(routes@) =~= parsed_routes(states@));
    }
    graph_of_routes(&routes)
}

} // verus!
