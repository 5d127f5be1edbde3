use igraph::{Diameter, Graph, IntArray, RandomGenerator};

#[test]
fn test_lattice_shape() {
    // a 3x4 lattice without wrap-around: 12 vertices and 17 edges
    // (rows: 3 runs of 3 horizontal edges; columns: 4 runs of 2 vertical)
    let g = Graph::square_lattice(3, 4, false).unwrap();
    assert!(!g.is_directed());
    assert_eq!(g.num_vertices(), 12);
    assert_eq!(g.num_edges(), 17);
    let degrees = g.degree(true).into_owned_sequence();
    // corners have 2 neighbors, border vertices 3, inner vertices 4
    assert_eq!(degrees, vec![2, 3, 3, 2, 3, 4, 4, 3, 2, 3, 3, 2]);
}

#[test]
fn test_lattice_periodic_torus() {
    // a 30x30 torus: every vertex gains one right and one down edge
    let g = Graph::square_lattice(30, 30, true).unwrap();
    assert_eq!(g.num_vertices(), 900);
    assert_eq!(g.num_edges(), 1800);
    let degrees = g.degree(true);
    assert_eq!(degrees.max(), Some(4));
    // mean degree of a torus is exactly 4
    assert_eq!(g.mean_degree(true), Some((3600, 900)));
}

#[test]
fn test_lattice_diameter() {
    // without wrap-around the farthest pair is corner to corner
    let open = Graph::square_lattice(4, 4, false).unwrap();
    assert_eq!(open.diameter(true), Diameter::Finite(6));
    // the torus halves both distances
    let torus = Graph::square_lattice(4, 4, true).unwrap();
    assert_eq!(torus.diameter(true), Diameter::Finite(4));
}

#[test]
fn test_lattice_degenerate_sizes() {
    let empty = Graph::square_lattice(0, 7, true).unwrap();
    assert_eq!(empty.num_vertices(), 0);
    assert_eq!(empty.num_edges(), 0);

    // a single row of two vertices: one edge, and no wrap edge is added
    // since it would only duplicate it
    let pair = Graph::square_lattice(1, 2, true).unwrap();
    assert_eq!(pair.num_vertices(), 2);
    assert_eq!(pair.num_edges(), 1);

    // a single vertex gains no self-loop from wrap-around
    let one = Graph::square_lattice(1, 1, true).unwrap();
    assert_eq!(one.num_edges(), 0);
}

#[test]
fn test_lattice_randomized_shortcuts() {
    // the lattice-then-shortcuts flow: seed, build a torus, then append ten
    // random edges drawn from the seeded generator
    let g0 = Graph::square_lattice(30, 30, true).unwrap();
    let base_diameter = g0.diameter(true);

    let mut rng = RandomGenerator::seed(42);
    let mut g = Graph::square_lattice(30, 30, true).unwrap();
    let count = g.num_vertices();
    let mut endpoints = IntArray::with_capacity(20);
    for i in 0..20 {
        let vertex = rng.get_integer(0, count - 1);
        endpoints.set(i, vertex).unwrap();
    }
    g.add_edges_from_vector(&endpoints).unwrap();
    assert_eq!(g.num_edges(), 1810);

    // shortcuts never lengthen a shortest path
    match (base_diameter, g.diameter(true)) {
        (Diameter::Finite(before), Diameter::Finite(after)) => assert!(after <= before),
        _ => panic!("a torus is connected"),
    }

    // and the same seed reproduces the same randomized lattice
    let mut rng2 = RandomGenerator::seed(42);
    let mut h = Graph::square_lattice(30, 30, true).unwrap();
    let mut endpoints2 = IntArray::with_capacity(20);
    for i in 0..20 {
        let vertex = rng2.get_integer(0, count - 1);
        endpoints2.set(i, vertex).unwrap();
    }
    h.add_edges_from_vector(&endpoints2).unwrap();
    assert_eq!(
        g.edge_vector().into_owned_sequence(),
        h.edge_vector().into_owned_sequence()
    );
}
