use vstd::prelude::*;

use crate::errors::GraphError;
use crate::graph::{edge_type_sw_t, max_edges, Graph};
use crate::rng::{draw_below, draw_integer, mix_state, RandomGenerator};

verus! {

/// No edge of `edges` is a self-loop.
pub open spec fn no_loops(edges: Seq<(i64, i64)>) -> bool {
    forall|k: int| 0 <= k < edges.len() ==> (#[trigger] edges[k]).0 != edges[k].1
}

/// `a` and `b` name the same edge: equal as pairs or, in an undirected
/// graph, equal with the endpoints swapped.
pub open spec fn same_edge(directed: bool, a: (i64, i64), b: (i64, i64)) -> bool {
    a == b || (!directed && a.0 == b.1 && a.1 == b.0)
}

/// No two positions of `edges` hold the same edge: the list is free of
/// parallel duplicates.
pub open spec fn distinct_edges(directed: bool, edges: Seq<(i64, i64)>) -> bool {
    forall|k1: int, k2: int|
        0 <= k1 < k2 < edges.len() ==> !same_edge(directed, #[trigger] edges[k1], #[trigger] edges[k2])
}

/// Strict lexicographic order on edge pairs.
pub open spec fn lex_lt(a: (i64, i64), b: (i64, i64)) -> bool {
    a.0 < b.0 || (a.0 == b.0 && a.1 < b.1)
}

/// The requested uniform random graph exists: the counts fit the signed
/// 64-bit ids this layer exchanges, and the edge count does not exceed what
/// the multiplicity policy allows on `n` vertices.
pub open spec fn gnm_feasible(n: int, m: int, directed: bool, mode: edge_type_sw_t) -> bool {
    &&& n <= i64::MAX
    &&& 2 * m <= i64::MAX
    &&& match max_edges(n, directed, mode) {
        Some(mx) => m <= mx,
        None => m == 0 || n >= 2,
    }
}

/// How many candidate edges row `i` offers when candidates are enumerated as
/// `(i, j)`: for a directed graph `j` runs over all vertices (skipping `i`
/// itself unless self-loops are allowed); for an undirected graph only
/// canonical pairs with `j >= i` (or `j > i`) are enumerated.
pub open spec fn row_count(n: int, i: int, directed: bool, with_loops: bool) -> int {
    if directed {
        if with_loops {
            n
        } else {
            n - 1
        }
    } else {
        if with_loops {
            n - i
        } else {
            n - i - 1
        }
    }
}

/// The number of candidate edges in rows `i` and later.
pub open spec fn candidates_from_row(n: int, i: int, directed: bool, with_loops: bool) -> int
    decreases n - i,
{
    if i >= n {
        0
    } else {
        row_count(n, i, directed, with_loops) + candidates_from_row(n, i + 1, directed, with_loops)
    }
}

/// The number of candidate edges of row `i` not yet passed when the scan
/// stands at column `j`.
pub open spec fn row_remaining(n: int, i: int, j: int, directed: bool, with_loops: bool) -> int {
    if directed && !with_loops {
        (n - j) - (if j <= i {
            1int
        } else {
            0int
        })
    } else {
        n - j
    }
}

/// The first candidate column of row `i`: everything for a directed graph,
/// only canonical columns for an undirected one.
pub open spec fn row_start(i: int, directed: bool, with_loops: bool) -> int {
    if directed {
        0
    } else if with_loops {
        i
    } else {
        i + 1
    }
}

/// The edges that selection sampling picks from candidate position `(i, j)`
/// on, and the generator state it leaves behind — a function of the counts
/// and the state alone, which is what makes the construction reproducible.
/// Each candidate still to come is taken with probability
/// `still needed / still remaining`, so exactly `m` edges are picked in all.
pub open spec fn sample_from(
    n: int,
    m: int,
    directed: bool,
    with_loops: bool,
    i: int,
    j: int,
    remaining: int,
    picked: int,
    s: u64,
) -> (Seq<(i64, i64)>, u64)
    decreases n - i, n - j,
{
    if i >= n {
        (Seq::<(i64, i64)>::empty(), s)
    } else if j >= n {
        sample_from(
            n,
            m,
            directed,
            with_loops,
            i + 1,
            row_start(i + 1, directed, with_loops),
            remaining,
            picked,
            s,
        )
    } else if directed && !with_loops && j == i {
        sample_from(n, m, directed, with_loops, i, j + 1, remaining, picked, s)
    } else if picked < m {
        let r = draw_below(s, remaining as u128);
        let s2 = mix_state(mix_state(s));
        if r < (m - picked) as u128 {
            let rest = sample_from(
                n,
                m,
                directed,
                with_loops,
                i,
                j + 1,
                remaining - 1,
                picked + 1,
                s2,
            );
            (seq![(i as i64, j as i64)] + rest.0, rest.1)
        } else {
            sample_from(n, m, directed, with_loops, i, j + 1, remaining - 1, picked, s2)
        }
    } else {
        sample_from(n, m, directed, with_loops, i, j + 1, remaining - 1, picked, s)
    }
}

/// The edges that `count` repeated endpoint draws produce on `n` vertices,
/// and the generator state they leave behind: per edge, one draw for the
/// source and one for the target, the target skipping over the source so
/// that no edge is a self-loop.
pub open spec fn sample_multi(n: int, count: int, s: u64) -> (Seq<(i64, i64)>, u64)
    decreases count,
{
    if count <= 0 {
        (Seq::<(i64, i64)>::empty(), s)
    } else {
        let from = draw_integer(s, 0, (n - 1) as i64);
        let s1 = mix_state(s);
        let t = draw_integer(s1, 0, (n - 2) as i64);
        let s2 = mix_state(s1);
        let to = if t >= from {
            (t + 1) as i64
        } else {
            t
        };
        let rest = sample_multi(n, count - 1, s2);
        (seq![(from, to)] + rest.0, rest.1)
    }
}

/// The edge list of the `G(n, m)` construction and the generator state it
/// leaves behind, as a function of the parameters and the starting state
/// alone. Seeding the generator therefore fixes the graph.
pub open spec fn gnm_edges(n: int, m: int, directed: bool, mode: edge_type_sw_t, s: u64) -> (
    Seq<(i64, i64)>,
    u64,
) {
    match mode {
        edge_type_sw_t::MULTI => sample_multi(n, m, s),
        edge_type_sw_t::SIMPLE => sample_from(
            n,
            m,
            directed,
            false,
            0,
            row_start(0, directed, false),
            candidates_from_row(n, 0, directed, false),
            0,
            s,
        ),
        edge_type_sw_t::LOOPS => sample_from(
            n,
            m,
            directed,
            true,
            0,
            row_start(0, directed, true),
            candidates_from_row(n, 0, directed, true),
            0,
            s,
        ),
    }
}

/// Determinism of randomized construction: the edge list that the `G(n, m)`
/// construction returns is a function of the parameters and the seeded state
/// alone — the contract of `erdos_renyi_game_gnm` pins its result to
/// `gnm_edges` — so two generators seeded alike yield the same graph, draw
/// for draw.
pub proof fn lemma_gnm_deterministic(
    n: int,
    m: int,
    directed: bool,
    mode: edge_type_sw_t,
    s1: u64,
    s2: u64,
)
    requires
        s1 == s2,
    ensures
        gnm_edges(n, m, directed, mode, s1) == gnm_edges(n, m, directed, mode, s2),
{
}

proof fn lemma_candidates_nonneg(n: int, i: int, directed: bool, with_loops: bool)
    requires
        0 <= i,
        1 <= n,
    ensures
        candidates_from_row(n, i, directed, with_loops) >= 0,
    decreases n - i,
{
    if i < n {
        lemma_candidates_nonneg(n, i + 1, directed, with_loops);
    }
}

proof fn lemma_candidates_closed(n: int, i: int, directed: bool, with_loops: bool)
    requires
        0 <= i <= n,
    ensures
        directed && with_loops ==> candidates_from_row(n, i, directed, with_loops) == (n - i) * n,
        directed && !with_loops ==> candidates_from_row(n, i, directed, with_loops) == (n - i) * (n
            - 1),
        !directed && with_loops ==> 2 * candidates_from_row(n, i, directed, with_loops) == (n - i)
            * (n - i + 1),
        !directed && !with_loops ==> 2 * candidates_from_row(n, i, directed, with_loops) == (n - i)
            * (n - i - 1),
    decreases n - i,
{
    if i < n {
        lemma_candidates_closed(n, i + 1, directed, with_loops);
        assert((n - i) * n == n + (n - i - 1) * n) by (nonlinear_arith);
        assert((n - i) * (n - 1) == (n - 1) + (n - i - 1) * (n - 1)) by (nonlinear_arith);
        assert((n - i) * (n - i + 1) == 2 * (n - i) + (n - i - 1) * (n - i)) by (nonlinear_arith);
        assert((n - i) * (n - i - 1) == 2 * (n - i - 1) + (n - i - 1) * (n - i - 2))
            by (nonlinear_arith);
    } else {
        assert((n - i) * n == 0) by (nonlinear_arith)
            requires
                i == n,
        ;
        assert((n - i) * (n - 1) == 0) by (nonlinear_arith)
            requires
                i == n,
        ;
        assert((n - i) * (n - i + 1) == 0) by (nonlinear_arith)
            requires
                i == n,
        ;
        assert((n - i) * (n - i - 1) == 0) by (nonlinear_arith)
            requires
                i == n,
        ;
    }
}

proof fn lemma_sorted_canonical_distinct(directed: bool, edges: Seq<(i64, i64)>)
    requires
        forall|k1: int, k2: int|
            0 <= k1 < k2 < edges.len() ==> lex_lt(#[trigger] edges[k1], #[trigger] edges[k2]),
        !directed ==> forall|k: int|
            0 <= k < edges.len() ==> (#[trigger] edges[k]).0 <= edges[k].1,
    ensures
        distinct_edges(directed, edges),
{
    assert forall|k1: int, k2: int| 0 <= k1 < k2 < edges.len() implies !same_edge(
        directed,
        #[trigger] edges[k1],
        #[trigger] edges[k2],
    ) by {
        assert(lex_lt(edges[k1], edges[k2]));
    }
}

impl Graph {
    /// A uniform random graph in the `G(n, m)` model: `num_edges` edges
    /// selected among `num_vertices` vertices, with self-loops and parallel
    /// duplicates admitted or excluded by `mode`. The result is reproducible:
    /// it is a function of the generator's state, so seeding `rng` beforehand
    /// fixes the graph. `edge_attr` selects labeled edge enumeration and is
    /// accepted for interface compatibility; the returned topology does not
    /// depend on it.
    ///
    /// An edge count beyond what `mode` allows on `num_vertices` vertices —
    /// or a count past the representable signed 64-bit range — is rejected
    /// with `InvalidParameter`.
    pub fn erdos_renyi_game_gnm(
        num_vertices: usize,
        num_edges: usize,
        directed: bool,
        mode: edge_type_sw_t,
        edge_attr: bool,
        rng: &mut RandomGenerator,
    ) -> (r: Result<Graph, GraphError>)
        ensures
            r is Ok <==> gnm_feasible(num_vertices as int, num_edges as int, directed, mode),
            r is Err ==> r == Err::<Graph, GraphError>(GraphError::InvalidParameter) && final(rng)@
                == old(rng)@,
            r matches Ok(g) ==> g.wf() && g@.directed == directed && g@.vertex_count
                == num_vertices && g@.edges.len() == num_edges,
            r matches Ok(g) ==> g@.edges == gnm_edges(
                num_vertices as int,
                num_edges as int,
                directed,
                mode,
                old(rng)@,
            ).0 && final(rng)@ == gnm_edges(
                num_vertices as int,
                num_edges as int,
                directed,
                mode,
                old(rng)@,
            ).1,
            mode != edge_type_sw_t::LOOPS ==> (r matches Ok(g) ==> no_loops(g@.edges)),
            mode != edge_type_sw_t::MULTI ==> (r matches Ok(g) ==> distinct_edges(
                directed,
                g@.edges,
            )),
    {
        if num_vertices as u64 > i64::MAX as u64 {
            return Err(GraphError::InvalidParameter);
        }
        if num_edges as u64 > 0x3FFF_FFFF_FFFF_FFFFu64 {
            return Err(GraphError::InvalidParameter);
        }
        let n: i64 = num_vertices as i64;
        let m: usize = num_edges;
        match mode {
            edge_type_sw_t::MULTI => {
                if m > 0 && n < 2 {
                    return Err(GraphError::InvalidParameter);
                }
                let mut g = Graph::new(num_vertices, directed);
                proof {
                    assert(Seq::<(i64, i64)>::empty() + sample_multi(
                        n as int,
                        m as int,
                        old(rng)@,
                    ).0 =~= sample_multi(n as int, m as int, old(rng)@).0);
                }
                let mut k: usize = 0;
                while k < m
                    invariant
                        g.wf(),
                        g@.directed == directed,
                        g@.vertex_count == n as int,
                        g@.edges.len() == k,
                        k <= m,
                        2 * m <= i64::MAX,
                        m > 0 ==> n >= 2,
                        no_loops(g@.edges),
                        sample_multi(n as int, m as int, old(rng)@).0 == g@.edges + sample_multi(
                            n as int,
                            m - k,
                            rng@,
                        ).0,
                        sample_multi(n as int, m as int, old(rng)@).1 == sample_multi(
                            n as int,
                            m - k,
                            rng@,
                        ).1,
                    decreases m - k,
                {
                    let ghost s_head = rng@;
                    let ghost edges_head = g@.edges;
                    let from = rng.get_integer(0, n - 1);
                    let t = rng.get_integer(0, n - 2);
                    let to = if t >= from {
                        t + 1
                    } else {
                        t
                    };
                    match g.add_edge(from, to) {
                        Ok(()) => {},
                        Err(e) => {
                            proof {
                                assert(false);
                            }
                            return Err(e);
                        },
                    }
                    proof {
                        let rest = sample_multi(n as int, m - k - 1, rng@);
                        assert(sample_multi(n as int, m - k, s_head) == (
                            seq![(from, to)] + rest.0,
                            rest.1,
                        ));
                        assert(edges_head + (seq![(from, to)] + rest.0) =~= edges_head.push(
                            (from, to),
                        ) + rest.0);
                    }
                    k = k + 1;
                }
                proof {
                    assert(g@.edges + sample_multi(n as int, 0, rng@).0 =~= g@.edges);
                }
                Ok(g)
            },
            _ => {
                let with_loops = matches!(mode, edge_type_sw_t::LOOPS);
                let nu: u128 = num_vertices as u128;
                let total: u128 = if directed {
                    if with_loops {
                        proof {
                            assert(nu * nu <= u128::MAX) by (nonlinear_arith)
                                requires
                                    nu < 0x8000_0000_0000_0000,
                            ;
                        }
                        nu * nu
                    } else {
                        if nu == 0 {
                            0
                        } else {
                            proof {
                                assert(nu * (nu - 1) <= u128::MAX) by (nonlinear_arith)
                                    requires
                                        0 < nu < 0x8000_0000_0000_0000,
                                ;
                            }
                            nu * (nu - 1)
                        }
                    }
                } else {
                    if with_loops {
                        proof {
                            assert(nu * (nu + 1) <= u128::MAX) by (nonlinear_arith)
                                requires
                                    nu < 0x8000_0000_0000_0000,
                            ;
                        }
                        nu * (nu + 1) / 2
                    } else {
                        if nu == 0 {
                            0
                        } else {
                            proof {
                                assert(nu * (nu - 1) <= u128::MAX) by (nonlinear_arith)
                                    requires
                                        0 < nu < 0x8000_0000_0000_0000,
                                ;
                            }
                            nu * (nu - 1) / 2
                        }
                    }
                };
                proof {
                    lemma_candidates_closed(n as int, 0, directed, with_loops);
                }
                if m as u128 > total {
                    return Err(GraphError::InvalidParameter);
                }
                let mut g = Graph::new(num_vertices, directed);
                let mut picked: usize = 0;
                let mut remaining: u128 = total;
                let mut i: i64 = 0;
                proof {
                    assert(Seq::<(i64, i64)>::empty() + sample_from(
                        n as int,
                        m as int,
                        directed,
                        with_loops,
                        0,
                        row_start(0, directed, with_loops),
                        candidates_from_row(n as int, 0, directed, with_loops),
                        0,
                        old(rng)@,
                    ).0 =~= sample_from(
                        n as int,
                        m as int,
                        directed,
                        with_loops,
                        0,
                        row_start(0, directed, with_loops),
                        candidates_from_row(n as int, 0, directed, with_loops),
                        0,
                        old(rng)@,
                    ).0);
                }
                while i < n
                    invariant
                        g.wf(),
                        g@.directed == directed,
                        g@.vertex_count == n as int,
                        0 <= i <= n,
                        picked == g@.edges.len(),
                        picked <= m,
                        2 * m <= i64::MAX,
                        remaining == candidates_from_row(n as int, i as int, directed, with_loops),
                        m - picked <= remaining,
                        sample_from(
                            n as int,
                            m as int,
                            directed,
                            with_loops,
                            0,
                            row_start(0, directed, with_loops),
                            candidates_from_row(n as int, 0, directed, with_loops),
                            0,
                            old(rng)@,
                        ).0 == g@.edges + sample_from(
                            n as int,
                            m as int,
                            directed,
                            with_loops,
                            i as int,
                            row_start(i as int, directed, with_loops),
                            remaining as int,
                            picked as int,
                            rng@,
                        ).0,
                        sample_from(
                            n as int,
                            m as int,
                            directed,
                            with_loops,
                            0,
                            row_start(0, directed, with_loops),
                            candidates_from_row(n as int, 0, directed, with_loops),
                            0,
                            old(rng)@,
                        ).1 == sample_from(
                            n as int,
                            m as int,
                            directed,
                            with_loops,
                            i as int,
                            row_start(i as int, directed, with_loops),
                            remaining as int,
                            picked as int,
                            rng@,
                        ).1,
                        forall|k: int| 0 <= k < picked ==> (#[trigger] g@.edges[k]).0 < i,
                        forall|k1: int, k2: int|
                            0 <= k1 < k2 < picked ==> lex_lt(
                                #[trigger] g@.edges[k1],
                                #[trigger] g@.edges[k2],
                            ),
                        !directed ==> forall|k: int|
                            0 <= k < picked ==> (#[trigger] g@.edges[k]).0 <= g@.edges[k].1,
                        !with_loops ==> no_loops(g@.edges),
                    decreases n - i,
                {
                    let jlo: i64 = if directed {
                        0
                    } else if with_loops {
                        i
                    } else {
                        i + 1
                    };
                    let mut j: i64 = jlo;
                    proof {
                        lemma_candidates_nonneg(n as int, i as int + 1, directed, with_loops);
                    }
                    while j < n
                        invariant
                            g.wf(),
                            g@.directed == directed,
                            g@.vertex_count == n as int,
                            0 <= i < n,
                            jlo == (if directed {
                                0
                            } else if with_loops {
                                i as int
                            } else {
                                i as int + 1
                            }),
                            jlo <= j <= n,
                            picked == g@.edges.len(),
                            picked <= m,
                            2 * m <= i64::MAX,
                            remaining == row_remaining(n as int, i as int, j as int, directed, with_loops)
                                + candidates_from_row(n as int, i as int + 1, directed, with_loops),
                            candidates_from_row(n as int, i as int + 1, directed, with_loops) >= 0,
                            m - picked <= remaining,
                            forall|k: int|
                                0 <= k < picked ==> (#[trigger] g@.edges[k]).0 < i || (
                                g@.edges[k].0 == i && g@.edges[k].1 < j),
                            forall|k1: int, k2: int|
                                0 <= k1 < k2 < picked ==> lex_lt(
                                    #[trigger] g@.edges[k1],
                                    #[trigger] g@.edges[k2],
                                ),
                            !directed ==> forall|k: int|
                                0 <= k < picked ==> (#[trigger] g@.edges[k]).0 <= g@.edges[k].1,
                            !with_loops ==> no_loops(g@.edges),
                            sample_from(
                                n as int,
                                m as int,
                                directed,
                                with_loops,
                                0,
                                row_start(0, directed, with_loops),
                                candidates_from_row(n as int, 0, directed, with_loops),
                                0,
                                old(rng)@,
                            ).0 == g@.edges + sample_from(
                                n as int,
                                m as int,
                                directed,
                                with_loops,
                                i as int,
                                j as int,
                                remaining as int,
                                picked as int,
                                rng@,
                            ).0,
                            sample_from(
                                n as int,
                                m as int,
                                directed,
                                with_loops,
                                0,
                                row_start(0, directed, with_loops),
                                candidates_from_row(n as int, 0, directed, with_loops),
                                0,
                                old(rng)@,
                            ).1 == sample_from(
                                n as int,
                                m as int,
                                directed,
                                with_loops,
                                i as int,
                                j as int,
                                remaining as int,
                                picked as int,
                                rng@,
                            ).1,
                        decreases n - j,
                    {
                        let ghost s_head = rng@;
                        let ghost edges_head = g@.edges;
                        let ghost rem_head = remaining as int;
                        let ghost picked_head = picked as int;
                        if !(directed && !with_loops && j == i) {
                            let needed = m - picked;
                            if needed > 0 {
                                let r = rng.next_below(remaining);
                                if r < needed as u128 {
                                    match g.add_edge(i, j) {
                                        Ok(()) => {},
                                        Err(e) => {
                                            proof {
                                                assert(false);
                                            }
                                            return Err(e);
                                        },
                                    }
                                    picked = picked + 1;
                                    proof {
                                        let rest = sample_from(
                                            n as int,
                                            m as int,
                                            directed,
                                            with_loops,
                                            i as int,
                                            j as int + 1,
                                            rem_head - 1,
                                            picked_head + 1,
                                            rng@,
                                        );
                                        assert(sample_from(
                                            n as int,
                                            m as int,
                                            directed,
                                            with_loops,
                                            i as int,
                                            j as int,
                                            rem_head,
                                            picked_head,
                                            s_head,
                                        ) == (seq![(i, j)] + rest.0, rest.1));
                                        assert(edges_head + (seq![(i, j)] + rest.0)
                                            =~= edges_head.push((i, j)) + rest.0);
                                    }
                                } else {
                                    proof {
                                        assert(sample_from(
                                            n as int,
                                            m as int,
                                            directed,
                                            with_loops,
                                            i as int,
                                            j as int,
                                            rem_head,
                                            picked_head,
                                            s_head,
                                        ) == sample_from(
                                            n as int,
                                            m as int,
                                            directed,
                                            with_loops,
                                            i as int,
                                            j as int + 1,
                                            rem_head - 1,
                                            picked_head,
                                            rng@,
                                        ));
                                    }
                                }
                            } else {
                                proof {
                                    assert(sample_from(
                                        n as int,
                                        m as int,
                                        directed,
                                        with_loops,
                                        i as int,
                                        j as int,
                                        rem_head,
                                        picked_head,
                                        s_head,
                                    ) == sample_from(
                                        n as int,
                                        m as int,
                                        directed,
                                        with_loops,
                                        i as int,
                                        j as int + 1,
                                        rem_head - 1,
                                        picked_head,
                                        s_head,
                                    ));
                                }
                            }
                            remaining = remaining - 1;
                        } else {
                            proof {
                                assert(sample_from(
                                    n as int,
                                    m as int,
                                    directed,
                                    with_loops,
                                    i as int,
                                    j as int,
                                    rem_head,
                                    picked_head,
                                    s_head,
                                ) == sample_from(
                                    n as int,
                                    m as int,
                                    directed,
                                    with_loops,
                                    i as int,
                                    j as int + 1,
                                    rem_head,
                                    picked_head,
                                    s_head,
                                ));
                            }
                        }
                        j = j + 1;
                    }
                    proof {
                        assert(sample_from(
                            n as int,
                            m as int,
                            directed,
                            with_loops,
                            i as int,
                            n as int,
                            remaining as int,
                            picked as int,
                            rng@,
                        ) == sample_from(
                            n as int,
                            m as int,
                            directed,
                            with_loops,
                            i as int + 1,
                            row_start(i as int + 1, directed, with_loops),
                            remaining as int,
                            picked as int,
                            rng@,
                        ));
                    }
                    i = i + 1;
                }
                proof {
                    lemma_sorted_canonical_distinct(directed, g@.edges);
                    assert(g@.edges + sample_from(
                        n as int,
                        m as int,
                        directed,
                        with_loops,
                        i as int,
                        row_start(i as int, directed, with_loops),
                        remaining as int,
                        picked as int,
                        rng@,
                    ).0 =~= g@.edges);
                }
                Ok(g)
            },
        }
    }
}

} // verus!
