use igraph::{edge_type_sw_t, Diameter, Graph, GraphError, RandomGenerator};

#[test]
fn test_seed_determinism() {
    let mut a = RandomGenerator::seed(42);
    let mut b = RandomGenerator::seed(42);
    for _ in 0..100 {
        let x = a.get_integer(-50, 50);
        let y = b.get_integer(-50, 50);
        assert_eq!(x, y);
        assert!(-50 <= x && x <= 50);
    }
}

#[test]
fn test_get_integer_bounds() {
    let mut rng = RandomGenerator::seed(7);
    assert_eq!(rng.get_integer(9, 9), 9);
    for _ in 0..200 {
        let v = rng.get_integer(0, 2);
        assert!(0 <= v && v <= 2);
    }
}

#[test]
fn test_gnm_deterministic() {
    let mut rng = RandomGenerator::seed(42);
    let g1 = Graph::erdos_renyi_game_gnm(1000, 1000, false, edge_type_sw_t::SIMPLE, false, &mut rng)
        .unwrap();
    let mut rng = RandomGenerator::seed(42);
    let g2 = Graph::erdos_renyi_game_gnm(1000, 1000, false, edge_type_sw_t::SIMPLE, false, &mut rng)
        .unwrap();
    assert_eq!(g1.num_vertices(), 1000);
    assert_eq!(g1.num_edges(), 1000);
    assert_eq!(
        g1.edge_vector().into_owned_sequence(),
        g2.edge_vector().into_owned_sequence()
    );
}

#[test]
fn test_gnm_diameter_and_mean_degree_repeatable() {
    // seeding fixes the whole pipeline: same graph, same diameter, same mean
    // degree on every run
    let mut rng = RandomGenerator::seed(42);
    let g1 = Graph::erdos_renyi_game_gnm(1000, 1000, false, edge_type_sw_t::SIMPLE, false, &mut rng)
        .unwrap();
    let d1 = g1.diameter(true);
    let mut rng = RandomGenerator::seed(42);
    let g2 = Graph::erdos_renyi_game_gnm(1000, 1000, false, edge_type_sw_t::SIMPLE, false, &mut rng)
        .unwrap();
    let d2 = g2.diameter(true);
    assert_eq!(d1, d2);
    assert!(matches!(d1, Diameter::Finite(_)));

    // a simple graph of exactly 1000 edges over 1000 vertices has mean
    // degree exactly 2
    let (sum, count) = g1.mean_degree(true).unwrap();
    assert_eq!((sum, count), (2000, 1000));
    assert_eq!(sum as f64 / count as f64, 2.0);
    assert_eq!(g2.mean_degree(true), Some((2000, 1000)));
}

#[test]
fn test_gnm_simple_shape() {
    let mut rng = RandomGenerator::seed(5);
    let g = Graph::erdos_renyi_game_gnm(20, 30, false, edge_type_sw_t::SIMPLE, false, &mut rng)
        .unwrap();
    assert_eq!(g.num_vertices(), 20);
    assert_eq!(g.num_edges(), 30);
    let flat = g.edge_vector().into_owned_sequence();
    assert_eq!(flat.len(), 60);
    let mut pairs: Vec<(i64, i64)> = Vec::new();
    for k in 0..30 {
        let (a, b) = (flat[2 * k], flat[2 * k + 1]);
        assert!(0 <= a && a < 20 && 0 <= b && b < 20);
        // no self-loops in the simple model
        assert_ne!(a, b);
        // no parallel duplicates, in either orientation
        let canon = if a <= b { (a, b) } else { (b, a) };
        assert!(!pairs.contains(&canon));
        pairs.push(canon);
    }
}

#[test]
fn test_gnm_multi_no_loops() {
    let mut rng = RandomGenerator::seed(11);
    let g = Graph::erdos_renyi_game_gnm(5, 40, false, edge_type_sw_t::MULTI, false, &mut rng)
        .unwrap();
    assert_eq!(g.num_edges(), 40);
    let flat = g.edge_vector().into_owned_sequence();
    for k in 0..40 {
        assert_ne!(flat[2 * k], flat[2 * k + 1]);
    }
}

#[test]
fn test_gnm_loops_mode() {
    let mut rng = RandomGenerator::seed(3);
    // an undirected graph on 2 vertices admitting self-loops has 3 possible
    // edges; asking for all 3 must succeed and yield them exactly once each
    let g = Graph::erdos_renyi_game_gnm(2, 3, false, edge_type_sw_t::LOOPS, false, &mut rng)
        .unwrap();
    assert_eq!(g.num_edges(), 3);
    let flat = g.edge_vector().into_owned_sequence();
    assert_eq!(flat, vec![0, 0, 0, 1, 1, 1]);
}

#[test]
fn test_gnm_infeasible_edge_count() {
    let mut rng = RandomGenerator::seed(1);
    // 4 vertices allow at most 6 simple undirected edges
    let r = Graph::erdos_renyi_game_gnm(4, 7, false, edge_type_sw_t::SIMPLE, false, &mut rng);
    assert_eq!(r.err(), Some(GraphError::InvalidParameter));
    // 2 vertices with loops allow at most 3; 4 is too many
    let r = Graph::erdos_renyi_game_gnm(2, 4, false, edge_type_sw_t::LOOPS, false, &mut rng);
    assert_eq!(r.err(), Some(GraphError::InvalidParameter));
    // parallel edges need two distinct endpoints
    let r = Graph::erdos_renyi_game_gnm(1, 1, false, edge_type_sw_t::MULTI, false, &mut rng);
    assert_eq!(r.err(), Some(GraphError::InvalidParameter));
    // the empty request is feasible even on the empty graph
    let g = Graph::erdos_renyi_game_gnm(0, 0, false, edge_type_sw_t::SIMPLE, false, &mut rng)
        .unwrap();
    assert_eq!(g.num_vertices(), 0);
    assert_eq!(g.num_edges(), 0);
}

#[test]
fn test_gnm_directed() {
    let mut rng = RandomGenerator::seed(9);
    // 3 vertices allow 6 directed simple edges; ask for all of them
    let g = Graph::erdos_renyi_game_gnm(3, 6, true, edge_type_sw_t::SIMPLE, false, &mut rng)
        .unwrap();
    assert!(g.is_directed());
    assert_eq!(g.num_edges(), 6);
    let flat = g.edge_vector().into_owned_sequence();
    assert_eq!(flat, vec![0, 1, 0, 2, 1, 0, 1, 2, 2, 0, 2, 1]);
}
