use centrality::betweenness::{betweenness_centrality, pair_normalizer};
use centrality::measures::{closeness_centrality, degree_centrality};
use petgraph::graph::UnGraph;

fn graph_of(labels: &[&str], edges: &[(u32, u32)]) -> UnGraph<String, ()> {
    let mut g = UnGraph::<String, ()>::new_undirected();
    for l in labels {
        g.add_node(l.to_string());
    }
    for &(a, b) in edges {
        g.add_edge(a.into(), b.into(), ());
    }
    g
}

fn degrees(g: &UnGraph<String, ()>) -> Vec<(String, usize)> {
    degree_centrality(g)
}

#[test]
fn empty_graph_gives_empty_results() {
    let g = graph_of(&[], &[]);
    assert!(degree_centrality(&g).is_empty());
    assert!(closeness_centrality(&g).is_empty());
    assert!(betweenness_centrality(&g).is_empty());
}

#[test]
fn single_edge_graph() {
    let g = graph_of(&["A", "B"], &[(0, 1)]);
    assert_eq!(degrees(&g), vec![("A".to_string(), 1), ("B".to_string(), 1)]);
    assert_eq!(closeness_centrality(&g), vec![("A".to_string(), 1), ("B".to_string(), 1)]);
    let b = betweenness_centrality(&g);
    assert_eq!(b[0][1].total, 1);
    assert_eq!(b[1][0].total, 1);
    assert_eq!(b[0][0].total, 0);
    for s in 0..2 {
        for t in 0..2 {
            assert_eq!(b[s][t].through, vec![0, 0]);
        }
    }
    assert_eq!(pair_normalizer(2), None);
}

#[test]
fn path_graph_of_three() {
    let g = graph_of(&["A", "B", "C"], &[(0, 1), (1, 2)]);
    assert_eq!(
        degrees(&g),
        vec![("A".to_string(), 1), ("B".to_string(), 2), ("C".to_string(), 1)]
    );
    assert_eq!(
        closeness_centrality(&g),
        vec![("A".to_string(), 3), ("B".to_string(), 2), ("C".to_string(), 3)]
    );
    let b = betweenness_centrality(&g);
    assert_eq!(b[0][2].total, 1);
    assert_eq!(b[0][2].through, vec![0, 1, 0]);
    assert_eq!(b[2][0].total, 1);
    assert_eq!(b[2][0].through, vec![0, 1, 0]);
    assert_eq!(b[0][1].total, 1);
    assert_eq!(b[0][1].through, vec![0, 0, 0]);
    assert_eq!(pair_normalizer(3), Some(1));
}

#[test]
fn parallel_edges_count_in_degree() {
    let one = graph_of(&["A", "B"], &[(0, 1)]);
    let two = graph_of(&["A", "B"], &[(0, 1), (0, 1)]);
    let three = graph_of(&["A", "B"], &[(0, 1), (0, 1), (1, 0)]);
    assert_eq!(degrees(&one), vec![("A".to_string(), 1), ("B".to_string(), 1)]);
    assert_eq!(degrees(&two), vec![("A".to_string(), 2), ("B".to_string(), 2)]);
    assert_eq!(degrees(&three), vec![("A".to_string(), 3), ("B".to_string(), 3)]);
}

#[test]
fn parallel_edges_give_parallel_paths() {
    let g = graph_of(&["A", "B", "C"], &[(0, 1), (0, 1), (1, 2)]);
    let b = betweenness_centrality(&g);
    assert_eq!(b[0][2].total, 2);
    assert_eq!(b[0][2].through, vec![0, 2, 0]);
    assert_eq!(closeness_centrality(&g)[0].1, 3);
}

#[test]
fn self_loop_counts_once() {
    let g = graph_of(&["A", "B"], &[(0, 0), (0, 1)]);
    assert_eq!(degrees(&g), vec![("A".to_string(), 2), ("B".to_string(), 1)]);
}

#[test]
fn normalizer_is_absent_below_three_nodes() {
    assert_eq!(pair_normalizer(0), None);
    assert_eq!(pair_normalizer(1), None);
    assert_eq!(pair_normalizer(2), None);
    assert_eq!(pair_normalizer(3), Some(1));
    assert_eq!(pair_normalizer(4), Some(3));
    assert_eq!(pair_normalizer(10), Some(36));
}

#[test]
fn single_node_graph() {
    let g = graph_of(&["A"], &[]);
    assert_eq!(degrees(&g), vec![("A".to_string(), 0)]);
    assert_eq!(closeness_centrality(&g), vec![("A".to_string(), 0)]);
    let b = betweenness_centrality(&g);
    assert_eq!(b.len(), 1);
    assert_eq!(b[0][0].total, 0);
    assert_eq!(b[0][0].through, vec![0]);
}

#[test]
fn repeated_calls_agree() {
    let g = graph_of(&["A", "B", "C", "D"], &[(0, 1), (1, 2), (2, 3), (3, 0), (0, 2)]);
    assert_eq!(degree_centrality(&g), degree_centrality(&g));
    assert_eq!(closeness_centrality(&g), closeness_centrality(&g));
    let b1 = betweenness_centrality(&g);
    let b2 = betweenness_centrality(&g);
    for s in 0..4 {
        for t in 0..4 {
            assert_eq!(b1[s][t].total, b2[s][t].total);
            assert_eq!(b1[s][t].through, b2[s][t].through);
        }
    }
}

#[test]
fn disconnected_nodes_add_nothing() {
    let g = graph_of(&["A", "B", "C"], &[(0, 1)]);
    assert_eq!(
        closeness_centrality(&g),
        vec![("A".to_string(), 1), ("B".to_string(), 1), ("C".to_string(), 0)]
    );
    let b = betweenness_centrality(&g);
    assert_eq!(b[0][2].total, 0);
    assert_eq!(b[2][1].total, 0);
    assert_eq!(b[0][2].through, vec![0, 0, 0]);
}

#[test]
fn square_counts_all_simple_paths() {
    let g = graph_of(&["A", "B", "C", "D"], &[(0, 1), (1, 2), (2, 3), (3, 0)]);
    let b = betweenness_centrality(&g);
    assert_eq!(b[0][2].total, 2);
    assert_eq!(b[0][2].through, vec![0, 1, 0, 1]);
    assert_eq!(b[0][1].total, 2);
    assert_eq!(b[0][1].through, vec![0, 0, 1, 1]);
    assert_eq!(closeness_centrality(&g)[0].1, 4);
}
