use igraph::{Diameter, Graph};

#[test]
fn test_diameter_empty_graph() {
    let g = Graph::new(0, false);
    assert_eq!(g.diameter(true), Diameter::NotANumber);
    assert_eq!(g.diameter(false), Diameter::NotANumber);
}

#[test]
fn test_diameter_single_vertex() {
    let g = Graph::new(1, false);
    assert_eq!(g.diameter(true), Diameter::Finite(0));
    assert_eq!(g.diameter(false), Diameter::Finite(0));
}

#[test]
fn test_diameter_path_graph() {
    let g = Graph::from_edge_list(&[(0, 1), (1, 2), (2, 3)], 4, false).unwrap();
    assert_eq!(g.diameter(true), Diameter::Finite(3));
    assert_eq!(g.diameter(false), Diameter::Finite(3));
}

#[test]
fn test_diameter_directed_path() {
    let g = Graph::from_edge_list(&[(0, 1), (1, 2)], 3, true).unwrap();
    // the longest geodesic that exists runs 0 -> 1 -> 2
    assert_eq!(g.diameter(true), Diameter::Finite(2));
    // but 2 cannot reach 0, so counting unreachable pairs gives infinity
    assert_eq!(g.diameter(false), Diameter::Infinite);
}

#[test]
fn test_diameter_disconnected() {
    // two components: a path 0-1-2 and an edge 3-4
    let g = Graph::from_edge_list(&[(0, 1), (1, 2), (3, 4)], 5, false).unwrap();
    assert_eq!(g.diameter(true), Diameter::Finite(2));
    assert_eq!(g.diameter(false), Diameter::Infinite);
}

#[test]
fn test_diameter_cycle() {
    let g = Graph::from_edge_list(&[(0, 1), (1, 2), (2, 3), (3, 4), (4, 0)], 5, false).unwrap();
    assert_eq!(g.diameter(true), Diameter::Finite(2));
}
