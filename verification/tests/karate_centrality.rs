use igraph::Graph;

/// The Zachary karate-club friendship graph: 34 vertices, 78 edges.
fn karate_club() -> Graph {
    let edges: [(i64, i64); 78] = [
        (0, 1), (0, 2), (0, 3), (0, 4), (0, 5), (0, 6), (0, 7), (0, 8),
        (0, 10), (0, 11), (0, 12), (0, 13), (0, 17), (0, 19), (0, 21), (0, 31),
        (1, 2), (1, 3), (1, 7), (1, 13), (1, 17), (1, 19), (1, 21), (1, 30),
        (2, 3), (2, 7), (2, 27), (2, 28), (2, 32), (2, 9), (2, 8), (2, 13),
        (3, 7), (3, 12), (3, 13), (4, 6), (4, 10), (5, 6), (5, 10), (5, 16),
        (6, 16), (8, 30), (8, 32), (8, 33), (9, 33), (13, 33), (14, 32), (14, 33),
        (15, 32), (15, 33), (18, 32), (18, 33), (19, 33), (20, 32), (20, 33),
        (22, 32), (22, 33), (23, 25), (23, 27), (23, 32), (23, 33), (23, 29),
        (24, 25), (24, 27), (24, 31), (25, 31), (26, 29), (26, 33), (27, 33),
        (28, 31), (28, 33), (29, 32), (29, 33), (30, 32), (30, 33), (31, 32),
        (31, 33), (32, 33),
    ];
    Graph::from_edge_list(&edges, 34, false).unwrap()
}

#[test]
fn test_karate_max_degree() {
    let g = karate_club();
    assert_eq!(g.num_vertices(), 34);
    assert_eq!(g.num_edges(), 78);
    let degrees = g.degree(true);
    // the most connected member of the club is vertex 33, with degree 17
    assert_eq!(degrees.max(), Some(17));
    assert_eq!(degrees.which_max(), Some(33));
}

#[test]
fn test_karate_degree_sum() {
    let g = karate_club();
    // handshake count: 78 edges and no self-loops give degree sum 156
    let degrees = g.degree(true).into_owned_sequence();
    let total: i64 = degrees.iter().sum();
    assert_eq!(total, 156);
    assert_eq!(g.mean_degree(true), Some((156, 34)));
}
