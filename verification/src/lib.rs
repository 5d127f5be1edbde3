//! An ownership-safe core for building and analysing plain topological
//! graphs with signed 64-bit vertex ids.
//!
//! The crate provides three building blocks:
//!
//! - [`IntArray`], an owned, resizable sequence of `i64` used to exchange
//!   vertex and edge lists, with checked positional access;
//! - [`RandomGenerator`], an explicit deterministic random source that makes
//!   every randomized construction reproducible from its seed;
//! - [`Graph`], an exclusively owned graph handle (vertex count, edge list,
//!   directedness) whose resources are released exactly once, when the value
//!   is dropped, by Rust's ownership discipline itself.
//!
//! Construction, mutation and the integer-valued analyses (degree, mean
//! degree, diameter) are verified: each public operation carries a contract
//! that pins down its result, when it succeeds and which error it returns
//! otherwise. Mutating operations validate all parameters first, so a
//! rejected call leaves the graph unchanged.

pub mod errors;
pub mod int_array;
pub mod rng;
pub mod graph;
pub mod gnm;
pub mod diameter;
pub mod lattice;

pub use errors::GraphError;
pub use int_array::IntArray;
pub use rng::RandomGenerator;
pub use graph::Graph;
pub use graph::edge_type_sw_t;
pub use graph::{IGRAPH_VERSION_MAJOR, IGRAPH_VERSION_MINOR, IGRAPH_VERSION_PATCH};
pub use diameter::Diameter;
