use graphite_plot::graph::{Graph, GraphError, MAX_ORDER};

fn petersen() -> Graph {
    let mut g = Graph::new();
    g.resize(10);
    let edges = [
        (0, 1), (1, 2), (2, 3), (3, 4), (4, 0),
        (0, 5), (1, 6), (2, 7), (3, 8), (4, 9),
        (5, 7), (6, 8), (7, 9), (8, 5), (9, 6),
    ];
    for (u, v) in edges {
        assert_eq!(g.add_edge(u, v), Ok(()));
    }
    g
}

fn sorted(mut v: Vec<usize>) -> Vec<usize> {
    v.sort();
    v
}

#[test]
fn new_graph_is_empty() {
    let g = Graph::new();
    assert_eq!(g.vertex_ct(), 0);
    assert!(g.edges().is_empty());
    assert!(!g.adjacent(0, 0));
}

#[test]
fn add_vertex_returns_old_count() {
    let mut g = Graph::new();
    assert_eq!(g.add_vertex(), 0);
    assert_eq!(g.add_vertex(), 1);
    assert_eq!(g.add_vertex(), 2);
    assert_eq!(g.vertex_ct(), 3);
    assert!(g.edges().is_empty());
}

#[test]
fn add_edge_joins_both_ways() {
    let mut g = Graph::new();
    g.resize(3);
    assert_eq!(g.add_edge(0, 2), Ok(()));
    assert!(g.adjacent(0, 2));
    assert!(g.adjacent(2, 0));
    assert!(!g.adjacent(0, 1));
    assert!(!g.adjacent(1, 2));
    assert_eq!(g.neighbors(0).unwrap(), &vec![2]);
    assert_eq!(g.neighbors(2).unwrap(), &vec![0]);
    assert!(g.neighbors(1).unwrap().is_empty());
}

#[test]
fn add_edge_twice_changes_nothing() {
    let mut g = Graph::new();
    g.resize(2);
    assert_eq!(g.add_edge(0, 1), Ok(()));
    assert_eq!(g.add_edge(0, 1), Ok(()));
    assert_eq!(g.add_edge(1, 0), Ok(()));
    assert_eq!(g.edges(), vec![(0, 1)]);
    assert_eq!(g.neighbors(0).unwrap().len(), 1);
    assert_eq!(g.neighbors(1).unwrap().len(), 1);
}

#[test]
fn add_edge_refuses_out_of_range() {
    let mut g = Graph::new();
    g.resize(2);
    assert_eq!(g.add_edge(0, 2), Err(GraphError::InvalidIndex));
    assert_eq!(g.add_edge(2, 0), Err(GraphError::InvalidIndex));
    assert_eq!(g.add_edge(5, 5), Err(GraphError::InvalidIndex));
    assert!(g.edges().is_empty());
    assert_eq!(g.vertex_ct(), 2);
}

#[test]
fn add_edge_refuses_self_loop() {
    let mut g = Graph::new();
    g.resize(2);
    assert_eq!(g.add_edge(1, 1), Err(GraphError::SelfLoop));
    assert!(g.edges().is_empty());
    assert!(!g.adjacent(1, 1));
}

#[test]
fn adjacent_is_false_outside_the_graph() {
    let g = petersen();
    assert!(!g.adjacent(10, 0));
    assert!(!g.adjacent(0, 10));
    assert!(!g.adjacent(usize::MAX, usize::MAX));
}

#[test]
fn neighbors_refuses_out_of_range() {
    let g = petersen();
    assert_eq!(g.neighbors(10), Err(GraphError::InvalidIndex));
    assert_eq!(Graph::new().neighbors(0), Err(GraphError::InvalidIndex));
}

#[test]
fn petersen_has_fifteen_edges_each_once() {
    let g = petersen();
    let edges = g.edges();
    assert_eq!(edges.len(), 15);
    for (i, (u, v)) in edges.iter().enumerate() {
        assert!(u < v);
        assert!(g.adjacent(*u, *v));
        for other in &edges[i + 1..] {
            assert_ne!(other, &(*u, *v));
        }
    }
    for u in 0..10 {
        assert_eq!(g.neighbors(u).unwrap().len(), 3);
    }
    assert_eq!(sorted(g.neighbors(0).unwrap().clone()), vec![1, 4, 5]);
}

#[test]
fn remove_vertex_compacts_ids() {
    // A path 0 - 1 - 2 - 3 - 4; without 2 it is 0 - 1 and 2 - 3.
    let mut g = Graph::new();
    g.resize(5);
    for u in 0..4 {
        g.add_edge(u, u + 1).unwrap();
    }
    assert_eq!(g.remove_vertex(2), Ok(()));
    assert_eq!(g.vertex_ct(), 4);
    assert_eq!(sorted_pairs(g.edges()), vec![(0, 1), (2, 3)]);
    assert!(!g.adjacent(1, 2));
}

fn sorted_pairs(mut v: Vec<(usize, usize)>) -> Vec<(usize, usize)> {
    v.sort();
    v
}

#[test]
fn remove_first_vertex_shifts_every_edge() {
    let mut g = Graph::new();
    g.resize(4);
    g.add_edge(0, 1).unwrap();
    g.add_edge(1, 2).unwrap();
    g.add_edge(2, 3).unwrap();
    g.add_edge(3, 1).unwrap();
    assert_eq!(g.remove_vertex(0), Ok(()));
    assert_eq!(g.vertex_ct(), 3);
    assert_eq!(sorted_pairs(g.edges()), vec![(0, 1), (0, 2), (1, 2)]);
}

#[test]
fn remove_vertex_refuses_out_of_range() {
    let mut g = petersen();
    assert_eq!(g.remove_vertex(10), Err(GraphError::InvalidIndex));
    assert_eq!(g.vertex_ct(), 10);
    assert_eq!(g.edges().len(), 15);
}

#[test]
fn remove_vertex_refuses_empty_graph() {
    let mut g = Graph::new();
    assert_eq!(g.remove_vertex(0), Err(GraphError::Empty));
    assert_eq!(g.remove_vertex(7), Err(GraphError::Empty));
    assert_eq!(g.vertex_ct(), 0);
}

#[test]
fn remove_only_vertex_leaves_empty_graph() {
    let mut g = Graph::new();
    g.add_vertex();
    assert_eq!(g.remove_vertex(0), Ok(()));
    assert_eq!(g.vertex_ct(), 0);
    assert_eq!(g.add_vertex(), 0);
}

#[test]
fn resize_truncates_from_the_high_end() {
    let mut g = petersen();
    g.resize(5);
    assert_eq!(g.vertex_ct(), 5);
    // Only the outer cycle is left.
    assert_eq!(sorted_pairs(g.edges()), vec![(0, 1), (0, 4), (1, 2), (2, 3), (3, 4)]);
}

#[test]
fn resize_extends_with_isolated_vertices() {
    let mut g = Graph::new();
    g.resize(2);
    g.add_edge(0, 1).unwrap();
    g.resize(4);
    assert_eq!(g.vertex_ct(), 4);
    assert_eq!(g.edges(), vec![(0, 1)]);
    assert!(g.neighbors(2).unwrap().is_empty());
    assert!(g.neighbors(3).unwrap().is_empty());
}

#[test]
fn resize_to_same_count_changes_nothing() {
    let mut g = petersen();
    g.resize(10);
    assert_eq!(g.vertex_ct(), 10);
    assert_eq!(g.edges().len(), 15);
}

#[test]
fn resize_to_zero_empties_the_graph() {
    let mut g = petersen();
    g.resize(0);
    assert_eq!(g.vertex_ct(), 0);
    assert!(g.edges().is_empty());
}

#[test]
fn max_order_fits_the_distance_entries() {
    assert_eq!(MAX_ORDER, i32::MAX as usize);
}
