use vstd::prelude::*;

use crate::errors::GraphError;
use crate::graph::Graph;

verus! {

/// The edges that vertex `(r, c)` of the lattice contributes: one toward the
/// next column and one toward the next row, each wrapping around to the
/// first coordinate when `periodic` is set and the dimension has at least
/// three entries (on shorter dimensions a wrap edge would duplicate an
/// existing edge or form a self-loop, and is left out).
pub open spec fn lattice_vertex_edges(
    rows: int,
    cols: int,
    periodic: bool,
    r: int,
    c: int,
) -> Seq<(i64, i64)> {
    let v = r * cols + c;
    let right = if c < cols - 1 {
        seq![((v as i64), ((v + 1) as i64))]
    } else if periodic && cols >= 3 {
        seq![((v as i64), ((r * cols) as i64))]
    } else {
        Seq::<(i64, i64)>::empty()
    };
    let down = if r < rows - 1 {
        seq![((v as i64), ((v + cols) as i64))]
    } else if periodic && rows >= 3 {
        seq![((v as i64), (c as i64))]
    } else {
        Seq::<(i64, i64)>::empty()
    };
    right + down
}

/// The lattice edge list from position `(r, c)` on, in row-major order.
pub open spec fn lattice_from(rows: int, cols: int, periodic: bool, r: int, c: int) -> Seq<
    (i64, i64),
>
    decreases rows - r, cols - c,
{
    if r >= rows {
        Seq::<(i64, i64)>::empty()
    } else if c >= cols {
        lattice_from(rows, cols, periodic, r + 1, 0)
    } else {
        lattice_vertex_edges(rows, cols, periodic, r, c) + lattice_from(
            rows,
            cols,
            periodic,
            r,
            c + 1,
        )
    }
}

/// The full edge list of the `rows x cols` lattice.
pub open spec fn lattice_edges(rows: int, cols: int, periodic: bool) -> Seq<(i64, i64)> {
    lattice_from(rows, cols, periodic, 0, 0)
}

/// The requested lattice fits the layer's storage: at most two edges leave
/// each vertex, and the vertex and edge counts must fit the signed 64-bit
/// ids this layer exchanges as well as the host's address space.
pub open spec fn lattice_feasible(rows: int, cols: int) -> bool {
    rows * cols <= 0x1FFF_FFFF_FFFF_FFFF && rows * cols <= usize::MAX
}

proof fn lemma_lattice_cols_zero(rows: int, periodic: bool, r: int)
    ensures
        lattice_from(rows, 0, periodic, r, 0) == Seq::<(i64, i64)>::empty(),
    decreases rows - r,
{
    if r < rows {
        lemma_lattice_cols_zero(rows, periodic, r + 1);
    }
}

impl Graph {
    /// An undirected square lattice: `rows * cols` vertices in row-major
    /// order, each joined to its neighbor in the next column and in the next
    /// row; with `periodic` set, the last column and row wrap around to the
    /// first, making the lattice a torus. A size whose vertex or edge count
    /// cannot be represented is rejected with `InvalidParameter`.
    pub fn square_lattice(rows: usize, cols: usize, periodic: bool) -> (result: Result<
        Graph,
        GraphError,
    >)
        ensures
            result is Ok <==> lattice_feasible(rows as int, cols as int),
            result is Err ==> result == Err::<Graph, GraphError>(GraphError::InvalidParameter),
            result matches Ok(g) ==> g.wf() && !g@.directed && g@.vertex_count == rows * cols
                && g@.edges == lattice_edges(rows as int, cols as int, periodic),
    {
        proof {
            assert((rows as u128) * (cols as u128) == (rows as int) * (cols as int)
                && (rows as u128) * (cols as u128) <= u128::MAX) by (nonlinear_arith)
                requires
                    rows as u128 <= 0xFFFF_FFFF_FFFF_FFFFu128,
                    cols as u128 <= 0xFFFF_FFFF_FFFF_FFFFu128,
            ;
        }
        let nu: u128 = (rows as u128) * (cols as u128);
        if nu > 0x1FFF_FFFF_FFFF_FFFFu128 || nu > usize::MAX as u128 {
            return Err(GraphError::InvalidParameter);
        }
        let n: usize = rows * cols;
        if n == 0 {
            let g = Graph::new(0, false);
            proof {
                if rows as int > 0 {
                    assert(cols == 0) by (nonlinear_arith)
                        requires
                            rows as int > 0,
                            (rows as int) * (cols as int) == 0,
                    ;
                    lemma_lattice_cols_zero(rows as int, periodic, 0);
                }
            }
            return Ok(g);
        }
        proof {
            assert(rows as int >= 1 && cols as int >= 1) by (nonlinear_arith)
                requires
                    (rows as int) * (cols as int) >= 1,
                    rows as int >= 0,
                    cols as int >= 0,
            ;
            assert(rows as int <= (rows as int) * (cols as int) && cols as int <= (rows as int) * (
            cols as int)) by (nonlinear_arith)
                requires
                    1 <= rows as int,
                    1 <= cols as int,
            ;
        }
        let rows_i: i64 = rows as i64;
        let cols_i: i64 = cols as i64;
        let n_i: i64 = n as i64;
        let mut g = Graph::new(n, false);
        proof {
            assert(Seq::<(i64, i64)>::empty() + lattice_edges(
                rows as int,
                cols as int,
                periodic,
            ) =~= lattice_edges(rows as int, cols as int, periodic));
        }
        let mut v: i64 = 0;
        let mut r: i64 = 0;
        while r < rows_i
            invariant
                g.wf(),
                !g@.directed,
                g@.vertex_count == n as int,
                1 <= n <= 0x1FFF_FFFF_FFFF_FFFF,
                n as int == (rows as int) * (cols as int),
                rows_i == rows,
                cols_i == cols,
                n_i == n,
                0 <= r <= rows_i,
                v == r * (cols as int),
                0 <= v <= n_i,
                g@.edges.len() <= 2 * v,
                lattice_edges(rows as int, cols as int, periodic) == g@.edges + lattice_from(
                    rows as int,
                    cols as int,
                    periodic,
                    r as int,
                    0,
                ),
            decreases rows_i - r,
        {
            let mut c: i64 = 0;
            proof {
                assert((r + 1) * (cols as int) <= (rows as int) * (cols as int)
                    && 0 <= r * (cols as int)) by (nonlinear_arith)
                    requires
                        0 <= r < rows as int,
                        0 <= cols as int,
                ;
            }
            while c < cols_i
                invariant
                    g.wf(),
                    !g@.directed,
                    g@.vertex_count == n as int,
                    1 <= n <= 0x1FFF_FFFF_FFFF_FFFF,
                    n as int == (rows as int) * (cols as int),
                    rows_i == rows,
                    cols_i == cols,
                    n_i == n,
                    0 <= r < rows_i,
                    0 <= c <= cols_i,
                    v == r * (cols as int) + c,
                    (r + 1) * (cols as int) <= n as int,
                    0 <= v <= n_i,
                    g@.edges.len() <= 2 * v,
                    lattice_edges(rows as int, cols as int, periodic) == g@.edges + lattice_from(
                        rows as int,
                        cols as int,
                        periodic,
                        r as int,
                        c as int,
                    ),
                decreases cols_i - c,
            {
                let ghost edges_head = g@.edges;
                proof {
                    if r < rows_i - 1 {
                        assert((r + 2) * (cols as int) <= (rows as int) * (cols as int))
                            by (nonlinear_arith)
                            requires
                                r + 2 <= rows as int,
                                0 <= cols as int,
                        ;
                    }
                    assert(cols as int <= (rows as int) * (cols as int)) by (nonlinear_arith)
                        requires
                            1 <= rows as int,
                            0 <= cols as int,
                    ;
                    assert((r + 1) * (cols as int) == r * (cols as int) + cols as int && (r + 2) * (
                    cols as int) == (r + 1) * (cols as int) + cols as int && 0 <= r * (
                    cols as int)) by (nonlinear_arith)
                        requires
                            0 <= r,
                            0 <= cols as int,
                    ;
                }
                if c < cols_i - 1 {
                    match g.add_edge(v, v + 1) {
                        Ok(()) => {},
                        Err(e) => {
                            proof {
                                assert(false);
                            }
                            return Err(e);
                        },
                    }
                } else if periodic && cols_i >= 3 {
                    match g.add_edge(v, v - c) {
                        Ok(()) => {},
                        Err(e) => {
                            proof {
                                assert(false);
                            }
                            return Err(e);
                        },
                    }
                }
                if r < rows_i - 1 {
                    match g.add_edge(v, v + cols_i) {
                        Ok(()) => {},
                        Err(e) => {
                            proof {
                                assert(false);
                            }
                            return Err(e);
                        },
                    }
                } else if periodic && rows_i >= 3 {
                    match g.add_edge(v, c) {
                        Ok(()) => {},
                        Err(e) => {
                            proof {
                                assert(false);
                            }
                            return Err(e);
                        },
                    }
                }
                proof {
                    assert(g@.edges =~= edges_head + lattice_vertex_edges(
                        rows as int,
                        cols as int,
                        periodic,
                        r as int,
                        c as int,
                    ));
                    assert(edges_head + (lattice_vertex_edges(
                        rows as int,
                        cols as int,
                        periodic,
                        r as int,
                        c as int,
                    ) + lattice_from(rows as int, cols as int, periodic, r as int, c as int + 1))
                        =~= (edges_head + lattice_vertex_edges(
                        rows as int,
                        cols as int,
                        periodic,
                        r as int,
                        c as int,
                    )) + lattice_from(rows as int, cols as int, periodic, r as int, c as int + 1));
                }
                v = v + 1;
                c = c + 1;
            }
            proof {
                assert((r + 1) * (cols as int) == r * (cols as int) + cols as int)
                    by (nonlinear_arith);
            }
            r = r + 1;
        }
        proof {
            assert(g@.edges + lattice_from(rows as int, cols as int, periodic, rows as int, 0)
                =~= g@.edges);
        }
        Ok(g)
    }
}

} // verus!
