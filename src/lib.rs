//! Degree, closeness and betweenness centrality over an undirected region
//! graph: regions are nodes, and two regions that follow each other on a route
//! are joined by an edge. The graph is petgraph's; the measures return exact
//! counts and sums, from which the scores are one division away.
use vstd::prelude::*;

pub mod betweenness;
pub mod graph;
pub mod measures;
pub mod regions;
pub mod routes;

verus! {

} // verus!
