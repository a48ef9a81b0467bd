use centrality::regions::parse_regions;
use centrality::routes::{build_graph, graph_of_routes};

#[test]
fn test_build_graph_empty_highways() {
    let highways: Vec<String> = vec![];
    let graph = build_graph(&highways);
    assert_eq!(graph.node_count(), 0);
    assert_eq!(graph.edge_count(), 0);
}

#[test]
fn test_build_graph_multiple_highways() {
    let highway1 = "[\"CA\", \"OR\", \"WA\"]".to_string();
    let highway2 = "[\"CA\", \"AZ\", \"NM\", \"TX\"]".to_string();
    let highways = vec![highway1, highway2];
    let graph = build_graph(&highways);
    assert_eq!(graph.node_count(), 6);
    assert_eq!(graph.edge_count(), 5);
}

#[test]
fn region_lists_are_split_and_trimmed() {
    assert_eq!(parse_regions("['A', 'B' , 'C']"), vec!["A", "B", "C"]);
    assert_eq!(parse_regions("[\"CA\", \"OR\"]"), vec!["\"CA\"", "\"OR\""]);
    assert_eq!(parse_regions("State1"), vec!["State1"]);
    assert_eq!(parse_regions(""), vec![""]);
    assert_eq!(parse_regions("\\[ X,,Y ]\\"), vec!["X", "", "Y"]);
    assert_eq!(parse_regions("[\u{3000}A\u{a0}, \tB\n]"), vec!["A", "B"]);
}

#[test]
fn shared_regions_become_one_node() {
    let routes = vec![
        vec!["A".to_string(), "B".to_string()],
        vec!["B".to_string(), "A".to_string(), "C".to_string()],
    ];
    let g = graph_of_routes(&routes);
    assert_eq!(g.node_count(), 3);
    assert_eq!(g.edge_count(), 3);
    assert_eq!(g[petgraph::graph::NodeIndex::new(2)], "C");
    assert_eq!(g.edges_connecting(0.into(), 1.into()).count(), 2);
}
