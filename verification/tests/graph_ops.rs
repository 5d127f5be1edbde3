use igraph::{Graph, GraphError, IntArray};

#[test]
fn test_new_empty_graph() {
    let g = Graph::new(5, false);
    assert_eq!(g.num_vertices(), 5);
    assert_eq!(g.num_edges(), 0);
    assert!(!g.is_directed());

    let d = Graph::new(2, true);
    assert!(d.is_directed());
    assert_eq!(d.num_vertices(), 2);
}

#[test]
fn test_add_vertices_stable_ids() {
    let mut g = Graph::new(2, false);
    g.add_edge(0, 1).unwrap();
    assert!(g.add_vertices(3).is_ok());
    assert_eq!(g.num_vertices(), 5);
    // the existing edge is untouched
    assert_eq!(g.num_edges(), 1);
    let flat = g.edge_vector().into_owned_sequence();
    assert_eq!(flat, vec![0, 1]);
    // and the new vertices accept edges
    assert!(g.add_edge(4, 0).is_ok());
}

#[test]
fn test_add_vertices_negative_rejected() {
    let mut g = Graph::new(2, false);
    assert_eq!(g.add_vertices(-1), Err(GraphError::InvalidParameter));
    assert_eq!(g.num_vertices(), 2);
}

#[test]
fn test_add_edge_out_of_range() {
    let mut g = Graph::new(3, false);
    assert_eq!(g.add_edge(0, 3), Err(GraphError::InvalidParameter));
    assert_eq!(g.num_edges(), 0);
    assert_eq!(g.add_edge(3, 0), Err(GraphError::InvalidParameter));
    assert_eq!(g.num_edges(), 0);
    assert_eq!(g.add_edge(-1, 1), Err(GraphError::InvalidParameter));
    assert_eq!(g.num_edges(), 0);
    assert!(g.add_edge(2, 1).is_ok());
    assert_eq!(g.num_edges(), 1);
    // a rejected edge after a successful one still leaves the count alone
    assert_eq!(g.add_edge(1, 7), Err(GraphError::InvalidParameter));
    assert_eq!(g.num_edges(), 1);
}

#[test]
fn test_add_edges_from_slice_no_partial_mutation() {
    let mut g = Graph::new(3, false);
    g.add_edge(0, 1).unwrap();
    let bad = [(1i64, 2i64), (2, 3), (0, 2)];
    assert_eq!(g.add_edges_from_slice(&bad), Err(GraphError::InvalidParameter));
    // nothing of the batch was appended
    assert_eq!(g.num_edges(), 1);
    let good = [(1i64, 2i64), (0, 2)];
    assert!(g.add_edges_from_slice(&good).is_ok());
    assert_eq!(g.num_edges(), 3);
    let flat = g.edge_vector().into_owned_sequence();
    assert_eq!(flat, vec![0, 1, 1, 2, 0, 2]);
}

#[test]
fn test_add_edges_from_vector() {
    let mut g = Graph::new(4, true);
    let edges = IntArray::from_slice(&[0, 1, 1, 2, 2, 3]);
    assert!(g.add_edges_from_vector(&edges).is_ok());
    assert_eq!(g.num_edges(), 3);

    let odd = IntArray::from_slice(&[0, 1, 2]);
    assert_eq!(g.add_edges_from_vector(&odd), Err(GraphError::InvalidParameter));
    assert_eq!(g.num_edges(), 3);

    let out_of_range = IntArray::from_slice(&[0, 4]);
    assert_eq!(g.add_edges_from_vector(&out_of_range), Err(GraphError::InvalidParameter));
    assert_eq!(g.num_edges(), 3);
}

#[test]
fn test_from_edge_list() {
    let pairs = [(0i64, 1i64), (1, 2), (2, 0)];
    let g = Graph::from_edge_list(&pairs, 3, false).unwrap();
    assert_eq!(g.num_vertices(), 3);
    assert_eq!(g.num_edges(), 3);
    assert!(!g.is_directed());

    assert_eq!(
        Graph::from_edge_list(&pairs, 2, false).err(),
        Some(GraphError::InvalidParameter)
    );
}

#[test]
fn test_lifecycle_many_graphs() {
    // constructing many graphs and releasing each exactly once, in several
    // interleavings, must never double-release: ownership alone guarantees it
    for round in 0..50 {
        let g = Graph::new(round, round % 2 == 0);
        assert_eq!(g.num_vertices(), round as i64);
        // g dropped here
    }
    let mut held: Vec<Graph> = Vec::new();
    for round in 0..50 {
        let mut g = Graph::new(10, false);
        g.add_edge(0, (round % 10) as i64).unwrap();
        held.push(g);
    }
    assert_eq!(held.len(), 50);
    drop(held);
}

#[test]
fn test_degree() {
    // 0-1, 0-2, 1-2, and a self-loop at 3
    let mut g = Graph::new(4, false);
    g.add_edges_from_slice(&[(0, 1), (0, 2), (1, 2), (3, 3)]).unwrap();
    let with_loops = g.degree(true).into_owned_sequence();
    assert_eq!(with_loops, vec![2, 2, 2, 2]);
    let without_loops = g.degree(false).into_owned_sequence();
    assert_eq!(without_loops, vec![2, 2, 2, 0]);
}

#[test]
fn test_degree_of_subset() {
    let mut g = Graph::new(4, false);
    g.add_edges_from_slice(&[(0, 1), (0, 2), (1, 2), (3, 3)]).unwrap();
    let subset = IntArray::from_slice(&[3, 0]);
    let degrees = g.degree_of(&subset, true).unwrap().into_owned_sequence();
    assert_eq!(degrees, vec![2, 2]);
    let degrees = g.degree_of(&subset, false).unwrap().into_owned_sequence();
    assert_eq!(degrees, vec![0, 2]);

    let bad = IntArray::from_slice(&[0, 4]);
    assert_eq!(g.degree_of(&bad, true).err(), Some(GraphError::InvalidParameter));
}

#[test]
fn test_mean_degree() {
    let mut g = Graph::new(4, false);
    g.add_edges_from_slice(&[(0, 1), (1, 2), (3, 3)]).unwrap();
    // self-loop counted: degree sum 6 over 4 vertices
    assert_eq!(g.mean_degree(true), Some((6, 4)));
    // self-loop skipped: degree sum 4 over 4 vertices
    assert_eq!(g.mean_degree(false), Some((4, 4)));

    let empty = Graph::new(0, false);
    // the not-a-number convention for the graph with no vertices
    assert_eq!(empty.mean_degree(true), None);
}
