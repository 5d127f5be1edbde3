use igraph::{IGRAPH_VERSION_MAJOR, IGRAPH_VERSION_MINOR, IGRAPH_VERSION_PATCH};

#[test]
fn test_igraph_version() {
    let major = IGRAPH_VERSION_MAJOR;
    let minor = IGRAPH_VERSION_MINOR;
    let patch = IGRAPH_VERSION_PATCH;
    assert!(major == 1);
    assert!(minor == 0);
    assert!(patch == 0);
}
