use vstd::prelude::*;

use crate::errors::GraphError;
use crate::int_array::IntArray;

verus! {

/// The major version of the engine interface generation this layer models.
pub const IGRAPH_VERSION_MAJOR: i64 = 1;

/// The minor version of the engine interface generation this layer models.
pub const IGRAPH_VERSION_MINOR: i64 = 0;

/// The patch version of the engine interface generation this layer models.
pub const IGRAPH_VERSION_PATCH: i64 = 0;

/// Whether generated edges may include self-loops and/or parallel duplicates.
#[derive(Clone, Copy, Debug, PartialEq, Eq, Structural)]
#[allow(non_camel_case_types)]
pub enum edge_type_sw_t {
    /// No self-loops and no parallel edges.
    SIMPLE,
    /// Self-loops allowed; no parallel edges.
    LOOPS,
    /// Parallel edges allowed; no self-loops.
    MULTI,
}

/// The mathematical content of a graph: its directedness, vertex count and
/// ordered edge list.
pub ghost struct GraphModel {
    pub directed: bool,
    pub vertex_count: int,
    pub edges: Seq<(i64, i64)>,
}

/// Both endpoints of `e` are vertex ids of a graph with `n` vertices.
pub open spec fn valid_edge(n: int, e: (i64, i64)) -> bool {
    0 <= e.0 < n && 0 <= e.1 < n
}

/// The most edges a graph with `n` vertices can carry under `mode`, or `None`
/// when `mode` puts no bound on the count (parallel edges allowed).
pub open spec fn max_edges(n: int, directed: bool, mode: edge_type_sw_t) -> Option<int> {
    match mode {
        edge_type_sw_t::SIMPLE => Some(if directed { n * (n - 1) } else { n * (n - 1) / 2 }),
        edge_type_sw_t::LOOPS => Some(if directed { n * n } else { n * (n + 1) / 2 }),
        edge_type_sw_t::MULTI => None,
    }
}

/// An exclusively owned handle to a plain topological graph: a vertex count,
/// a directedness flag fixed at construction, and an ordered list of edges
/// over signed 64-bit vertex ids.
///
/// The handle owns all of its storage. It is released exactly once, when the
/// owning scope ends, by Rust's move semantics: no second release and no use
/// after release can be written, so the lifecycle needs no runtime guard.
/// Read-only analyses borrow the graph immutably and return independently
/// owned results that never alias its storage.
pub struct Graph {
    directed: bool,
    vertex_count: i64,
    edges: Vec<(i64, i64)>,
}

impl View for Graph {
    type V = GraphModel;

    closed spec fn view(&self) -> GraphModel {
        GraphModel {
            directed: self.directed,
            vertex_count: self.vertex_count as int,
            edges: self.edges@,
        }
    }
}

impl Graph {
    /// Every edge endpoint lies in `[0, vertex_count)`, and the counts fit
    /// the signed 64-bit ids this layer exchanges (an edge list is marshaled
    /// as `2 * edge_count` integers).
    pub open spec fn wf(&self) -> bool {
        &&& 0 <= self@.vertex_count <= i64::MAX
        &&& 2 * self@.edges.len() <= i64::MAX
        &&& forall|k: int|
            0 <= k < self@.edges.len() ==> valid_edge(self@.vertex_count, #[trigger] self@.edges[k])
    }

    /// An empty graph: `num_vertices` vertices, no edges, fixed directedness.
    pub fn new(num_vertices: usize, directed: bool) -> (g: Graph)
        requires
            num_vertices <= i64::MAX,
        ensures
            g.wf(),
            g@.directed == directed,
            g@.vertex_count == num_vertices,
            g@.edges == Seq::<(i64, i64)>::empty(),
    {
        let g = Graph { directed, vertex_count: num_vertices as i64, edges: Vec::new() };
        proof {
            assert(g@.edges =~= Seq::<(i64, i64)>::empty());
        }
        g
    }

    /// The edge storage itself, for the crate's own read-only analyses.
    pub(crate) fn edges_ref(&self) -> (e: &Vec<(i64, i64)>)
        ensures
            e@ == self@.edges,
    {
        &self.edges
    }

    /// The number of vertices. Pure, constant-time.
    pub fn num_vertices(&self) -> (n: i64)
        requires
            self.wf(),
        ensures
            n == self@.vertex_count,
    {
        self.vertex_count
    }

    /// The number of edges. Pure, constant-time.
    pub fn num_edges(&self) -> (m: i64)
        requires
            self.wf(),
        ensures
            m == self@.edges.len(),
    {
        self.edges.len() as i64
    }

    /// Whether the graph was constructed as directed. Pure, constant-time.
    pub fn is_directed(&self) -> (d: bool)
        ensures
            d == self@.directed,
    {
        self.directed
    }

    /// Appends `n` new, edgeless vertices. Existing vertex ids are stable:
    /// nothing is renumbered and no edge changes. A negative count, or one
    /// that would push the vertex count past the representable range, is
    /// rejected with `InvalidParameter` and the graph is left unchanged.
    pub fn add_vertices(&mut self, n: i64) -> (r: Result<(), GraphError>)
        requires
            old(self).wf(),
        ensures
            final(self).wf(),
            final(self)@.directed == old(self)@.directed,
            final(self)@.edges == old(self)@.edges,
            0 <= n <= i64::MAX - old(self)@.vertex_count ==> r is Ok
                && final(self)@.vertex_count == old(self)@.vertex_count + n,
            !(0 <= n <= i64::MAX - old(self)@.vertex_count) ==> r == Err::<(), GraphError>(
                GraphError::InvalidParameter,
            ) && final(self)@ == old(self)@,
    {
        if n < 0 || n > i64::MAX - self.vertex_count {
            return Err(GraphError::InvalidParameter);
        }
        self.vertex_count = self.vertex_count + n;
        Ok(())
    }

    /// Appends the single edge `(from, to)`. An endpoint outside
    /// `[0, vertex_count)` is rejected with `InvalidParameter`; a graph whose
    /// edge storage is already at the representable bound answers
    /// `AllocationFailure`. On any error the graph, its edge count included,
    /// is left unchanged.
    pub fn add_edge(&mut self, from: i64, to: i64) -> (r: Result<(), GraphError>)
        requires
            old(self).wf(),
        ensures
            final(self).wf(),
            final(self)@.directed == old(self)@.directed,
            final(self)@.vertex_count == old(self)@.vertex_count,
            !valid_edge(old(self)@.vertex_count, (from, to)) ==> r == Err::<(), GraphError>(
                GraphError::InvalidParameter,
            ) && final(self)@ == old(self)@,
            valid_edge(old(self)@.vertex_count, (from, to))
                && 2 * (old(self)@.edges.len() + 1) > i64::MAX ==> r == Err::<(), GraphError>(
                GraphError::AllocationFailure,
            ) && final(self)@ == old(self)@,
            valid_edge(old(self)@.vertex_count, (from, to))
                && 2 * (old(self)@.edges.len() + 1) <= i64::MAX ==> r is Ok
                && final(self)@.edges == old(self)@.edges.push((from, to)),
    {
        if from < 0 || from >= self.vertex_count || to < 0 || to >= self.vertex_count {
            return Err(GraphError::InvalidParameter);
        }
        if self.edges.len() as u64 >= 0x3FFF_FFFF_FFFF_FFFFu64 {
            return Err(GraphError::AllocationFailure);
        }
        self.edges.push((from, to));
        Ok(())
    }

    /// Appends every edge of `edges_slice`, in order. All parameters are
    /// validated before anything is appended, so a rejected call leaves the
    /// graph unchanged: no partial mutation is ever visible. An endpoint out
    /// of range is `InvalidParameter`; an edge count past the representable
    /// bound is `AllocationFailure`.
    pub fn add_edges_from_slice(&mut self, edges_slice: &[(i64, i64)]) -> (r: Result<
        (),
        GraphError,
    >)
        requires
            old(self).wf(),
        ensures
            final(self).wf(),
            final(self)@.directed == old(self)@.directed,
            final(self)@.vertex_count == old(self)@.vertex_count,
            !(forall|k: int|
                0 <= k < edges_slice@.len() ==> valid_edge(
                    old(self)@.vertex_count,
                    #[trigger] edges_slice@[k],
                )) ==> r == Err::<(), GraphError>(GraphError::InvalidParameter) && final(self)@
                == old(self)@,
            (forall|k: int|
                0 <= k < edges_slice@.len() ==> valid_edge(
                    old(self)@.vertex_count,
                    #[trigger] edges_slice@[k],
                )) && 2 * (old(self)@.edges.len() + edges_slice@.len()) > i64::MAX ==> r == Err::<
                (),
                GraphError,
            >(GraphError::AllocationFailure) && final(self)@ == old(self)@,
            (forall|k: int|
                0 <= k < edges_slice@.len() ==> valid_edge(
                    old(self)@.vertex_count,
                    #[trigger] edges_slice@[k],
                )) && 2 * (old(self)@.edges.len() + edges_slice@.len()) <= i64::MAX ==> r is Ok
                && final(self)@.edges == old(self)@.edges + edges_slice@,
    {
        let mut i: usize = 0;
        while i < edges_slice.len()
            invariant
                old(self).wf(),
                i <= edges_slice@.len(),
                forall|k: int|
                    0 <= k < i ==> valid_edge(self@.vertex_count, #[trigger] edges_slice@[k]),
                self == old(self),
            decreases edges_slice@.len() - i,
        {
            let (from, to) = edges_slice[i];
            if from < 0 || from >= self.vertex_count || to < 0 || to >= self.vertex_count {
                return Err(GraphError::InvalidParameter);
            }
            i = i + 1;
        }
        if edges_slice.len() as u64 > 0x3FFF_FFFF_FFFF_FFFFu64 - self.edges.len() as u64 {
            return Err(GraphError::AllocationFailure);
        }
        let ghost initial = self@.edges;
        let mut j: usize = 0;
        while j < edges_slice.len()
            invariant
                old(self).wf(),
                initial == old(self)@.edges,
                2 * (initial.len() + edges_slice@.len()) <= i64::MAX,
                forall|k: int|
                    0 <= k < edges_slice@.len() ==> valid_edge(
                        old(self)@.vertex_count,
                        #[trigger] edges_slice@[k],
                    ),
                j <= edges_slice@.len(),
                self@.edges == initial + edges_slice@.take(j as int),
                self@.directed == old(self)@.directed,
                self@.vertex_count == old(self)@.vertex_count,
            decreases edges_slice@.len() - j,
        {
            let (from, to) = edges_slice[j];
            self.edges.push((from, to));
            proof {
                assert(self@.edges =~= initial + edges_slice@.take(j + 1 as int));
            }
            j = j + 1;
        }
        proof {
            assert(self@.edges =~= initial + edges_slice@);
        }
        Ok(())
    }

    /// Appends the edges held flat in `edges` as consecutive
    /// `(from, to)` pairs, the exchange format of the array layer. An odd
    /// length or an endpoint out of range is `InvalidParameter`; a count past
    /// the representable bound is `AllocationFailure`. On any error the graph
    /// is left unchanged.
    pub fn add_edges_from_vector(&mut self, edges: &IntArray) -> (r: Result<(), GraphError>)
        requires
            old(self).wf(),
        ensures
            final(self).wf(),
            final(self)@.directed == old(self)@.directed,
            final(self)@.vertex_count == old(self)@.vertex_count,
            !(edges@.len() % 2 == 0 && forall|k: int|
                0 <= k < pairs_of(edges@).len() ==> valid_edge(
                    old(self)@.vertex_count,
                    #[trigger] pairs_of(edges@)[k],
                )) ==> r == Err::<(), GraphError>(GraphError::InvalidParameter) && final(self)@
                == old(self)@,
            (edges@.len() % 2 == 0 && forall|k: int|
                0 <= k < pairs_of(edges@).len() ==> valid_edge(
                    old(self)@.vertex_count,
                    #[trigger] pairs_of(edges@)[k],
                )) && 2 * (old(self)@.edges.len() + pairs_of(edges@).len()) > i64::MAX ==> r
                == Err::<(), GraphError>(GraphError::AllocationFailure) && final(self)@ == old(
                self,
            )@,
            (edges@.len() % 2 == 0 && forall|k: int|
                0 <= k < pairs_of(edges@).len() ==> valid_edge(
                    old(self)@.vertex_count,
                    #[trigger] pairs_of(edges@)[k],
                )) && 2 * (old(self)@.edges.len() + pairs_of(edges@).len()) <= i64::MAX ==> r is Ok
                && final(self)@.edges == old(self)@.edges + pairs_of(edges@),
    {
        let len = edges.size();
        if len % 2 != 0 {
            return Err(GraphError::InvalidParameter);
        }
        let pair_count = len / 2;
        let mut i: usize = 0;
        while i < pair_count
            invariant
                old(self).wf(),
                len == edges@.len(),
                len % 2 == 0,
                pair_count == pairs_of(edges@).len(),
                i <= pair_count,
                forall|k: int|
                    0 <= k < i ==> valid_edge(self@.vertex_count, #[trigger] pairs_of(edges@)[k]),
                self == old(self),
            decreases pair_count - i,
        {
            let from = edges.at(2 * i);
            let to = edges.at(2 * i + 1);
            proof {
                assert(pairs_of(edges@)[i as int] == (from, to));
            }
            if from < 0 || from >= self.vertex_count || to < 0 || to >= self.vertex_count {
                return Err(GraphError::InvalidParameter);
            }
            i = i + 1;
        }
        if pair_count as u64 > 0x3FFF_FFFF_FFFF_FFFFu64 - self.edges.len() as u64 {
            return Err(GraphError::AllocationFailure);
        }
        let ghost initial = self@.edges;
        let mut j: usize = 0;
        while j < pair_count
            invariant
                old(self).wf(),
                initial == old(self)@.edges,
                2 * (initial.len() + pairs_of(edges@).len()) <= i64::MAX,
                len == edges@.len(),
                len % 2 == 0,
                pair_count == pairs_of(edges@).len(),
                j <= pair_count,
                self@.edges == initial + pairs_of(edges@).take(j as int),
                self@.directed == old(self)@.directed,
                self@.vertex_count == old(self)@.vertex_count,
                forall|k: int|
                    0 <= k < pair_count ==> valid_edge(
                        self@.vertex_count,
                        #[trigger] pairs_of(edges@)[k],
                    ),
            decreases pair_count - j,
        {
            let from = edges.at(2 * j);
            let to = edges.at(2 * j + 1);
            proof {
                assert(pairs_of(edges@)[j as int] == (from, to));
            }
            self.edges.push((from, to));
            proof {
                assert(self@.edges =~= initial + pairs_of(edges@).take(j + 1 as int));
            }
            j = j + 1;
        }
        proof {
            assert(self@.edges =~= initial + pairs_of(edges@));
        }
        Ok(())
    }

    /// Builds a graph directly from an explicit ordered sequence of
    /// `(from, to)` pairs. A vertex id outside `[0, vertex_count)`, or a
    /// vertex count past the representable range, is `InvalidParameter`; an
    /// edge count past the representable bound is `AllocationFailure`.
    pub fn from_edge_list(edge_pairs: &[(i64, i64)], vertex_count: usize, directed: bool) -> (r:
        Result<Graph, GraphError>)
        ensures
            !(vertex_count <= i64::MAX && forall|k: int|
                0 <= k < edge_pairs@.len() ==> valid_edge(
                    vertex_count as int,
                    #[trigger] edge_pairs@[k],
                )) ==> r == Err::<Graph, GraphError>(GraphError::InvalidParameter),
            (vertex_count <= i64::MAX && forall|k: int|
                0 <= k < edge_pairs@.len() ==> valid_edge(
                    vertex_count as int,
                    #[trigger] edge_pairs@[k],
                )) && 2 * edge_pairs@.len() > i64::MAX ==> r == Err::<Graph, GraphError>(
                GraphError::AllocationFailure,
            ),
            (vertex_count <= i64::MAX && forall|k: int|
                0 <= k < edge_pairs@.len() ==> valid_edge(
                    vertex_count as int,
                    #[trigger] edge_pairs@[k],
                )) && 2 * edge_pairs@.len() <= i64::MAX ==> (r matches Ok(g) && g.wf()
                && g@.directed == directed && g@.vertex_count == vertex_count && g@.edges
                == edge_pairs@),
    {
        if vertex_count as u64 > i64::MAX as u64 {
            return Err(GraphError::InvalidParameter);
        }
        let mut g = Graph::new(vertex_count, directed);
        match g.add_edges_from_slice(edge_pairs) {
            Ok(()) => {
                proof {
                    assert(Seq::<(i64, i64)>::empty() + edge_pairs@ =~= edge_pairs@);
                }
                Ok(g)
            },
            Err(e) => Err(e),
        }
    }
}

/// The `(from, to)` pairs held flat in `v`: element `2k` is the source and
/// element `2k + 1` the target of pair `k`.
pub open spec fn pairs_of(v: Seq<i64>) -> Seq<(i64, i64)> {
    Seq::new(v.len() / 2, |k: int| (v[2 * k], v[2 * k + 1]))
}

/// The edge list flattened into the exchange format of the array layer:
/// element `2k` is the source and element `2k + 1` the target of edge `k`.
pub open spec fn flat_edges(edges: Seq<(i64, i64)>) -> Seq<i64> {
    Seq::new(2 * edges.len(), |i: int| if i % 2 == 0 { edges[i / 2].0 } else { edges[i / 2].1 })
}

/// How much edge `e` contributes to the degree of vertex `v`: a self-loop
/// counts twice when `loops` is set and not at all otherwise; any other edge
/// counts once per endpoint equal to `v`.
pub open spec fn endpoint_count(e: (i64, i64), v: int, loops: bool) -> int {
    if e.0 == e.1 {
        if e.0 as int == v && loops {
            2
        } else {
            0
        }
    } else {
        (if e.0 as int == v {
            1int
        } else {
            0int
        }) + (if e.1 as int == v {
            1int
        } else {
            0int
        })
    }
}

/// The degree of vertex `v` under the edge list `edges`: the number of edge
/// endpoints equal to `v`, with self-loops counted twice when `loops` is set
/// and skipped otherwise.
pub open spec fn spec_degree(edges: Seq<(i64, i64)>, v: int, loops: bool) -> int
    decreases edges.len(),
{
    if edges.len() == 0 {
        0
    } else {
        spec_degree(edges.drop_last(), v, loops) + endpoint_count(edges.last(), v, loops)
    }
}

/// How much edge `e` contributes to the sum of all vertex degrees: two
/// endpoints, unless it is a self-loop, which contributes two when `loops` is
/// set and nothing otherwise.
pub open spec fn edge_degree_weight(e: (i64, i64), loops: bool) -> int {
    if e.0 == e.1 {
        if loops {
            2
        } else {
            0
        }
    } else {
        2
    }
}

/// The sum of all vertex degrees under the edge list `edges`.
pub open spec fn spec_degree_total(edges: Seq<(i64, i64)>, loops: bool) -> int
    decreases edges.len(),
{
    if edges.len() == 0 {
        0
    } else {
        spec_degree_total(edges.drop_last(), loops) + edge_degree_weight(edges.last(), loops)
    }
}

/// The sum of the degrees of vertices `0 .. n`.
pub open spec fn spec_degree_sum(edges: Seq<(i64, i64)>, n: int, loops: bool) -> int
    decreases n,
{
    if n <= 0 {
        0
    } else {
        spec_degree_sum(edges, n - 1, loops) + spec_degree(edges, n - 1, loops)
    }
}

/// The part of edge `e`'s degree contribution that falls on vertices
/// `0 .. n`.
spec fn endpoint_count_sum(e: (i64, i64), n: int, loops: bool) -> int
    decreases n,
{
    if n <= 0 {
        0
    } else {
        endpoint_count_sum(e, n - 1, loops) + endpoint_count(e, n - 1, loops)
    }
}

proof fn lemma_endpoint_sum(e: (i64, i64), n: int, loops: bool)
    requires
        0 <= n,
    ensures
        endpoint_count_sum(e, n, loops) == (if e.0 == e.1 {
            if 0 <= e.0 < n && loops {
                2int
            } else {
                0int
            }
        } else {
            (if 0 <= e.0 < n {
                1int
            } else {
                0int
            }) + (if 0 <= e.1 < n {
                1int
            } else {
                0int
            })
        }),
    decreases n,
{
    if n > 0 {
        lemma_endpoint_sum(e, n - 1, loops);
    }
}

proof fn lemma_degree_sum_empty(n: int, loops: bool)
    requires
        0 <= n,
    ensures
        spec_degree_sum(Seq::<(i64, i64)>::empty(), n, loops) == 0,
    decreases n,
{
    if n > 0 {
        lemma_degree_sum_empty(n - 1, loops);
    }
}

proof fn lemma_degree_sum_step(edges: Seq<(i64, i64)>, n: int, loops: bool)
    requires
        0 <= n,
        edges.len() > 0,
    ensures
        spec_degree_sum(edges, n, loops) == spec_degree_sum(edges.drop_last(), n, loops)
            + endpoint_count_sum(edges.last(), n, loops),
    decreases n,
{
    if n > 0 {
        lemma_degree_sum_step(edges, n - 1, loops);
    }
}

/// The handshake law: over the vertices of a well-formed graph, the degrees
/// sum to exactly what each edge contributes — two endpoints per edge, a
/// self-loop counting twice when loops count and not at all otherwise. The
/// per-vertex counts of `degree` and the ratio numerator of `mean_degree`
/// therefore agree.
pub proof fn lemma_degree_handshake(edges: Seq<(i64, i64)>, n: int, loops: bool)
    requires
        0 <= n,
        forall|k: int| 0 <= k < edges.len() ==> valid_edge(n, #[trigger] edges[k]),
    ensures
        spec_degree_sum(edges, n, loops) == spec_degree_total(edges, loops),
    decreases edges.len(),
{
    if edges.len() == 0 {
        lemma_degree_sum_empty(n, loops);
        assert(edges =~= Seq::<(i64, i64)>::empty());
    } else {
        assert(valid_edge(n, edges[edges.len() - 1]));
        lemma_degree_handshake(edges.drop_last(), n, loops);
        lemma_degree_sum_step(edges, n, loops);
        lemma_endpoint_sum(edges.last(), n, loops);
    }
}

proof fn lemma_degree_take_step(edges: Seq<(i64, i64)>, i: int, v: int, loops: bool)
    requires
        0 <= i < edges.len(),
    ensures
        spec_degree(edges.take(i + 1), v, loops) == spec_degree(edges.take(i), v, loops)
            + endpoint_count(edges[i], v, loops),
{
    assert(edges.take(i + 1).drop_last() =~= edges.take(i));
    assert(edges.take(i + 1).last() == edges[i]);
}

proof fn lemma_degree_total_take_step(edges: Seq<(i64, i64)>, i: int, loops: bool)
    requires
        0 <= i < edges.len(),
    ensures
        spec_degree_total(edges.take(i + 1), loops) == spec_degree_total(edges.take(i), loops)
            + edge_degree_weight(edges[i], loops),
{
    assert(edges.take(i + 1).drop_last() =~= edges.take(i));
    assert(edges.take(i + 1).last() == edges[i]);
}

impl Graph {
    /// The degree of every vertex, indexed by vertex id: one count per
    /// vertex, honoring both edge directions, with self-loops counted twice
    /// when `loops` is set and skipped otherwise.
    ///
    /// The result is independently owned and does not alias the graph.
    pub fn degree(&self, loops: bool) -> (result: IntArray)
        requires
            self.wf(),
            self@.vertex_count <= usize::MAX,
        ensures
            result@.len() == self@.vertex_count,
            forall|v: int|
                0 <= v < self@.vertex_count ==> result@[v] == spec_degree(
                    self@.edges,
                    v,
                    loops,
                ),
    {
        let n = self.vertex_count as usize;
        let mut counts: Vec<i64> = Vec::new();
        let mut i: usize = 0;
        while i < n
            invariant
                counts@.len() == i <= n,
                forall|v: int| 0 <= v < i ==> counts@[v] == 0,
            decreases n - i,
        {
            counts.push(0);
            i = i + 1;
        }
        let ghost edges = self@.edges;
        proof {
            assert(edges.take(0) =~= Seq::<(i64, i64)>::empty());
        }
        let mut k: usize = 0;
        while k < self.edges.len()
            invariant
                self.wf(),
                edges == self@.edges,
                n == self@.vertex_count,
                counts@.len() == n,
                k <= edges.len(),
                forall|v: int|
                    0 <= v < n ==> #[trigger] counts@[v] == spec_degree(
                        edges.take(k as int),
                        v,
                        loops,
                    ),
                forall|v: int| 0 <= v < n ==> 0 <= #[trigger] counts@[v] <= 2 * k,
            decreases edges.len() - k,
        {
            let (a, b) = self.edges[k];
            proof {
                assert(valid_edge(self@.vertex_count, edges[k as int]));
            }
            if a != b {
                let ai = a as usize;
                let ca = counts[ai];
                counts.set(ai, ca + 1);
                let bi = b as usize;
                let cb = counts[bi];
                counts.set(bi, cb + 1);
            } else if loops {
                let ai = a as usize;
                let ca = counts[ai];
                counts.set(ai, ca + 2);
            }
            proof {
                assert forall|v: int| 0 <= v < n implies #[trigger] counts@[v] == spec_degree(
                    edges.take(k + 1),
                    v,
                    loops,
                ) && 0 <= counts@[v] <= 2 * (k + 1) by {
                    lemma_degree_take_step(edges, k as int, v, loops);
                }
            }
            k = k + 1;
        }
        proof {
            assert(edges.take(edges.len() as int) =~= edges);
        }
        IntArray::from_vec(counts)
    }

    /// The degree of each vertex named by `vertices`, in order: the
    /// subset-selector form of [`Graph::degree`]. A vertex id outside
    /// `[0, vertex_count)` is rejected with `InvalidParameter` and nothing is
    /// computed.
    pub fn degree_of(&self, vertices: &IntArray, loops: bool) -> (r: Result<IntArray, GraphError>)
        requires
            self.wf(),
            self@.vertex_count <= usize::MAX,
        ensures
            r is Ok <==> (forall|k: int|
                0 <= k < vertices@.len() ==> 0 <= #[trigger] vertices@[k] < self@.vertex_count),
            r is Err ==> r == Err::<IntArray, GraphError>(GraphError::InvalidParameter),
            r matches Ok(out) ==> out@.len() == vertices@.len() && forall|k: int|
                0 <= k < vertices@.len() ==> out@[k] == spec_degree(
                    self@.edges,
                    vertices@[k] as int,
                    loops,
                ),
    {
        let len = vertices.size();
        let mut i: usize = 0;
        while i < len
            invariant
                self.wf(),
                len == vertices@.len(),
                i <= len,
                forall|k: int| 0 <= k < i ==> 0 <= #[trigger] vertices@[k] < self@.vertex_count,
            decreases len - i,
        {
            let v = vertices.at(i);
            if v < 0 || v >= self.vertex_count {
                return Err(GraphError::InvalidParameter);
            }
            i = i + 1;
        }
        let all = self.degree(loops);
        let mut out: Vec<i64> = Vec::new();
        let mut k: usize = 0;
        while k < len
            invariant
                self.wf(),
                self@.vertex_count <= usize::MAX,
                len == vertices@.len(),
                k <= len,
                out@.len() == k,
                all@.len() == self@.vertex_count,
                forall|j: int|
                    0 <= j < self@.vertex_count ==> all@[j] == spec_degree(
                        self@.edges,
                        j,
                        loops,
                    ),
                forall|j: int| 0 <= j < len ==> 0 <= #[trigger] vertices@[j] < self@.vertex_count,
                forall|j: int|
                    0 <= j < k ==> out@[j] == spec_degree(self@.edges, vertices@[j] as int, loops),
            decreases len - k,
        {
            let v = vertices.at(k);
            out.push(all.at(v as usize));
            k = k + 1;
        }
        Ok(IntArray::from_vec(out))
    }

    /// The average vertex degree, as the exact ratio
    /// `(sum of all degrees, vertex_count)`; self-loops count twice when
    /// `loops` is set and not at all otherwise. For the graph with no
    /// vertices the mean is undefined — the engine convention's not-a-number
    /// sentinel — and `None` is returned; a caller wanting the floating-point
    /// value divides the two components.
    pub fn mean_degree(&self, loops: bool) -> (r: Option<(i64, i64)>)
        requires
            self.wf(),
        ensures
            r is None <==> self@.vertex_count == 0,
            r matches Some(q) ==> q.0 as int == spec_degree_total(self@.edges, loops)
                && q.0 as int == spec_degree_sum(self@.edges, self@.vertex_count, loops)
                && q.1 as int == self@.vertex_count,
    {
        if self.vertex_count == 0 {
            return None;
        }
        let ghost edges = self@.edges;
        proof {
            assert(edges.take(0) =~= Seq::<(i64, i64)>::empty());
        }
        let mut total: i64 = 0;
        let mut k: usize = 0;
        while k < self.edges.len()
            invariant
                self.wf(),
                edges == self@.edges,
                k <= edges.len(),
                total == spec_degree_total(edges.take(k as int), loops),
                0 <= total <= 2 * k,
            decreases edges.len() - k,
        {
            let (a, b) = self.edges[k];
            if a != b || loops {
                total = total + 2;
            }
            proof {
                lemma_degree_total_take_step(edges, k as int, loops);
            }
            k = k + 1;
        }
        proof {
            assert(edges.take(edges.len() as int) =~= edges);
            lemma_degree_handshake(edges, self@.vertex_count, loops);
        }
        Some((total, self.vertex_count))
    }

    /// The edge list, flattened into a newly owned array of
    /// `2 * edge_count` integers in the exchange format: source then target
    /// of each edge, in insertion order. The result never aliases the graph's
    /// own storage.
    pub fn edge_vector(&self) -> (r: IntArray)
        requires
            self.wf(),
        ensures
            r@ == flat_edges(self@.edges),
    {
        let ghost edges = self@.edges;
        proof {
            assert(flat_edges(edges.take(0)) =~= Seq::<i64>::empty());
        }
        let mut out: Vec<i64> = Vec::new();
        let mut k: usize = 0;
        while k < self.edges.len()
            invariant
                edges == self@.edges,
                k <= edges.len(),
                out@ == flat_edges(edges.take(k as int)),
            decreases edges.len() - k,
        {
            let (a, b) = self.edges[k];
            out.push(a);
            out.push(b);
            proof {
                assert(out@ =~= flat_edges(edges.take(k + 1)));
            }
            k = k + 1;
        }
        proof {
            assert(edges.take(edges.len() as int) =~= edges);
        }
        IntArray::from_vec(out)
    }
}

} // verus!
