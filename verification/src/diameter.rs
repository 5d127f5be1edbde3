use vstd::prelude::*;

use crate::graph::{valid_edge, Graph, GraphModel};

verus! {

/// Edge `e` carries the one-step reachability wave from the set `r` onto
/// vertex `t`: its source is reached and its target is `t` — or, in an
/// undirected graph, the other way round.
pub open spec fn edge_reaches(directed: bool, e: (i64, i64), r: Seq<bool>, t: int) -> bool {
    (e.1 as int == t && 0 <= e.0 < r.len() && r[e.0 as int]) || (!directed && e.0 as int == t && 0
        <= e.1 < r.len() && r[e.1 as int])
}

/// One breadth step: the vertices of `r` together with every vertex that an
/// edge connects from a vertex of `r`.
pub open spec fn spec_step(directed: bool, edges: Seq<(i64, i64)>, r: Seq<bool>) -> Seq<bool> {
    Seq::new(
        r.len(),
        |t: int|
            r[t] || exists|k: int|
                0 <= k < edges.len() && edge_reaches(directed, #[trigger] edges[k], r, t),
    )
}

/// The start of the wave: the source vertex alone.
pub open spec fn initial_reach(n: int, s: int) -> Seq<bool> {
    Seq::new(n as nat, |t: int| t == s)
}

/// The vertices within `k` breadth steps of `s`, as a membership sequence
/// over the `n` vertices.
pub open spec fn reach_within(
    directed: bool,
    edges: Seq<(i64, i64)>,
    n: int,
    s: int,
    k: int,
) -> Seq<bool>
    decreases k,
{
    if k <= 0 {
        initial_reach(n, s)
    } else {
        spec_step(directed, edges, reach_within(directed, edges, n, s, k - 1))
    }
}

/// There is a path of at most `k` edges from `s` to `t`.
pub open spec fn reached(
    directed: bool,
    edges: Seq<(i64, i64)>,
    n: int,
    s: int,
    t: int,
    k: int,
) -> bool {
    0 <= t < n && reach_within(directed, edges, n, s, k)[t]
}

/// `d` is the geodesic distance from `s` to `t`: the length of the shortest
/// path — `t` is within `d` steps of `s` and within no fewer.
pub open spec fn is_distance(
    directed: bool,
    edges: Seq<(i64, i64)>,
    n: int,
    s: int,
    t: int,
    d: int,
) -> bool {
    &&& 0 <= d
    &&& reached(directed, edges, n, s, t, d)
    &&& (d > 0 ==> !reached(directed, edges, n, s, t, d - 1))
}

/// Some path, of whatever length, leads from `s` to `t`.
pub open spec fn connected_pair(g: GraphModel, s: int, t: int) -> bool {
    exists|k: int| 0 <= k && reached(g.directed, g.edges, g.vertex_count, s, t, k)
}

/// The number of `true` entries of a membership sequence.
pub open spec fn count_true(r: Seq<bool>) -> int
    decreases r.len(),
{
    if r.len() == 0 {
        0
    } else {
        count_true(r.drop_last()) + if r.last() {
            1int
        } else {
            0int
        }
    }
}

proof fn lemma_count_le_len(r: Seq<bool>)
    ensures
        0 <= count_true(r) <= r.len(),
    decreases r.len(),
{
    if r.len() > 0 {
        lemma_count_le_len(r.drop_last());
    }
}

proof fn lemma_count_update_true(r: Seq<bool>, t: int)
    requires
        0 <= t < r.len(),
        !r[t],
    ensures
        count_true(r.update(t, true)) == count_true(r) + 1,
    decreases r.len(),
{
    if t == r.len() - 1 {
        assert(r.update(t, true).drop_last() =~= r.drop_last());
    } else {
        assert(r.update(t, true).drop_last() =~= r.drop_last().update(t, true));
        lemma_count_update_true(r.drop_last(), t);
    }
}

proof fn lemma_count_all_false(r: Seq<bool>)
    requires
        forall|t: int| 0 <= t < r.len() ==> !r[t],
    ensures
        count_true(r) == 0,
    decreases r.len(),
{
    if r.len() > 0 {
        lemma_count_all_false(r.drop_last());
    }
}

proof fn lemma_reach_len(directed: bool, edges: Seq<(i64, i64)>, n: int, s: int, k: int)
    requires
        n >= 0,
        k >= 0,
    ensures
        reach_within(directed, edges, n, s, k).len() == n,
    decreases k,
{
    if k > 0 {
        lemma_reach_len(directed, edges, n, s, k - 1);
    }
}

/// The wave never recedes: what is within `k1` steps is within `k2`.
proof fn lemma_reach_mono(
    directed: bool,
    edges: Seq<(i64, i64)>,
    n: int,
    s: int,
    t: int,
    k1: int,
    k2: int,
)
    requires
        0 <= k1 <= k2,
        reached(directed, edges, n, s, t, k1),
    ensures
        reached(directed, edges, n, s, t, k2),
    decreases k2,
{
    if k2 > k1 {
        lemma_reach_mono(directed, edges, n, s, t, k1, k2 - 1);
        lemma_reach_len(directed, edges, n, s, k2 - 1);
    }
}

/// Once one breadth step adds nothing, no number of further steps does.
proof fn lemma_reach_stable(
    directed: bool,
    edges: Seq<(i64, i64)>,
    n: int,
    s: int,
    k0: int,
    k: int,
)
    requires
        0 <= k0 <= k,
        spec_step(directed, edges, reach_within(directed, edges, n, s, k0)) == reach_within(
            directed,
            edges,
            n,
            s,
            k0,
        ),
    ensures
        reach_within(directed, edges, n, s, k) == reach_within(directed, edges, n, s, k0),
    decreases k,
{
    if k > k0 {
        lemma_reach_stable(directed, edges, n, s, k0, k - 1);
    }
}

/// One source's half of the all-pairs computation: the geodesic distance
/// from `s` to every vertex, by breadth saturation. Entry `t` of the result
/// is the distance from `s` to `t`, or `-1` where no path exists.
fn bfs_distances(directed: bool, edges: &Vec<(i64, i64)>, n: usize, s: usize) -> (dist: Vec<i64>)
    requires
        n <= i64::MAX,
        s < n,
        forall|k: int| 0 <= k < edges@.len() ==> valid_edge(n as int, #[trigger] edges@[k]),
    ensures
        dist@.len() == n,
        forall|t: int| 0 <= t < n ==> #[trigger] dist@[t] == -1 || 0 <= dist@[t] <= n,
        forall|t: int|
            0 <= t < n && #[trigger] dist@[t] >= 0 ==> is_distance(
                directed,
                edges@,
                n as int,
                s as int,
                t,
                dist@[t] as int,
            ),
        forall|t: int, k: int|
            0 <= t < n && 0 <= k && #[trigger] reached(directed, edges@, n as int, s as int, t, k)
                ==> 0 <= dist@[t] <= k,
{
    let mut reach: Vec<bool> = Vec::new();
    let mut dist: Vec<i64> = Vec::new();
    let mut c: usize = 0;
    while c < n
        invariant
            c <= n,
            reach@.len() == c,
            dist@.len() == c,
            forall|t: int| 0 <= t < c ==> !(#[trigger] reach@[t]),
            forall|t: int| 0 <= t < c ==> #[trigger] dist@[t] == -1,
        decreases n - c,
    {
        reach.push(false);
        dist.push(-1);
        c = c + 1;
    }
    proof {
        lemma_count_all_false(reach@);
    }
    let ghost r0 = reach@;
    reach.set(s, true);
    dist.set(s, 0);
    proof {
        lemma_count_update_true(r0, s as int);
        assert(reach@ == r0.update(s as int, true));
        assert(reach@ =~= initial_reach(n as int, s as int));
    }
    let mut num_reached: usize = 1;
    let mut rounds: i64 = 0;
    loop
        invariant
            n <= i64::MAX,
            s < n,
            forall|k: int| 0 <= k < edges@.len() ==> valid_edge(n as int, #[trigger] edges@[k]),
            reach@.len() == n,
            dist@.len() == n,
            0 <= rounds,
            reach@ == reach_within(directed, edges@, n as int, s as int, rounds as int),
            num_reached == count_true(reach@),
            rounds + 1 <= num_reached <= n,
            forall|t: int| 0 <= t < n ==> #[trigger] dist@[t] >= -1,
            forall|t: int| 0 <= t < n ==> (#[trigger] dist@[t] >= 0 <==> reach@[t]),
            forall|t: int|
                0 <= t < n && #[trigger] dist@[t] >= 0 ==> 0 <= dist@[t] <= rounds && is_distance(
                    directed,
                    edges@,
                    n as int,
                    s as int,
                    t,
                    dist@[t] as int,
                ),
        ensures
            reach@.len() == n,
            dist@.len() == n,
            0 <= rounds,
            reach@ == reach_within(directed, edges@, n as int, s as int, rounds as int),
            rounds + 1 <= num_reached <= n,
            forall|t: int| 0 <= t < n ==> #[trigger] dist@[t] >= -1,
            forall|t: int| 0 <= t < n ==> (#[trigger] dist@[t] >= 0 <==> reach@[t]),
            forall|t: int|
                0 <= t < n && #[trigger] dist@[t] >= 0 ==> 0 <= dist@[t] <= rounds && is_distance(
                    directed,
                    edges@,
                    n as int,
                    s as int,
                    t,
                    dist@[t] as int,
                ),
            spec_step(directed, edges@, reach@) == reach@,
        decreases n - num_reached,
    {
        let ghost reach0 = reach@;
        let ghost base_count = num_reached as int;
        let mut next: Vec<bool> = Vec::new();
        let mut c2: usize = 0;
        while c2 < n
            invariant
                c2 <= n,
                reach@.len() == n,
                next@.len() == c2,
                forall|t: int| 0 <= t < c2 ==> #[trigger] next@[t] == reach@[t],
            decreases n - c2,
        {
            next.push(reach[c2]);
            c2 = c2 + 1;
        }
        proof {
            assert(next@ =~= reach@);
        }
        let mut changed = false;
        let mut e: usize = 0;
        while e < edges.len()
            invariant
                n <= i64::MAX,
                s < n,
                forall|k: int| 0 <= k < edges@.len() ==> valid_edge(n as int, #[trigger] edges@[k]),
                reach0 == reach@,
                reach@.len() == n,
                next@.len() == n,
                dist@.len() == n,
                0 <= rounds,
                rounds + 1 <= base_count <= n,
                reach@ == reach_within(directed, edges@, n as int, s as int, rounds as int),
                e <= edges@.len(),
                forall|t: int|
                    0 <= t < n ==> #[trigger] next@[t] == (reach0[t] || exists|k: int|
                        0 <= k < e && edge_reaches(directed, #[trigger] edges@[k], reach0, t)),
                num_reached == count_true(next@),
                base_count <= num_reached <= n,
                changed ==> num_reached > base_count,
                !changed ==> next@ == reach0,
                forall|t: int| 0 <= t < n ==> #[trigger] dist@[t] >= -1,
                forall|t: int| 0 <= t < n ==> (#[trigger] dist@[t] >= 0 <==> next@[t]),
                forall|t: int|
                    0 <= t < n && #[trigger] dist@[t] >= 0 ==> 0 <= dist@[t] <= rounds + 1
                        && is_distance(
                        directed,
                        edges@,
                        n as int,
                        s as int,
                        t,
                        dist@[t] as int,
                    ),
            decreases edges@.len() - e,
        {
            let (a, b) = edges[e];
            let au = a as usize;
            let bu = b as usize;
            if reach[au] && !next[bu] {
                proof {
                    assert(edge_reaches(directed, edges@[e as int], reach0, b as int));
                    assert(spec_step(directed, edges@, reach0)[b as int]);
                    assert(reach_within(directed, edges@, n as int, s as int, rounds + 1)
                        == spec_step(directed, edges@, reach0));
                    assert(!reached(directed, edges@, n as int, s as int, b as int, rounds as int));
                    lemma_count_update_true(next@, b as int);
                    lemma_count_le_len(next@.update(b as int, true));
                }
                next.set(bu, true);
                dist.set(bu, rounds + 1);
                num_reached = num_reached + 1;
                changed = true;
            }
            if !directed {
                let reach_b = reach[bu];
                let next_a = next[au];
                if reach_b && !next_a {
                    proof {
                        assert(edge_reaches(directed, edges@[e as int], reach0, a as int));
                        assert(spec_step(directed, edges@, reach0)[a as int]);
                        assert(reach_within(directed, edges@, n as int, s as int, rounds + 1)
                            == spec_step(directed, edges@, reach0));
                        assert(!reached(
                            directed,
                            edges@,
                            n as int,
                            s as int,
                            a as int,
                            rounds as int,
                        ));
                        lemma_count_update_true(next@, a as int);
                        lemma_count_le_len(next@.update(a as int, true));
                    }
                    next.set(au, true);
                    dist.set(au, rounds + 1);
                    num_reached = num_reached + 1;
                    changed = true;
                }
            }
            e = e + 1;
        }
        proof {
            assert(next@ =~= spec_step(directed, edges@, reach0));
        }
        if !changed {
            proof {
                assert(next@ =~= reach@);
                assert(spec_step(directed, edges@, reach@) == reach@);
            }
            break ;
        }
        reach = next;
        rounds = rounds + 1;
    }
    proof {
        assert forall|t: int, k: int|
            0 <= t < n && 0 <= k && #[trigger] reached(directed, edges@, n as int, s as int, t, k)
            implies 0 <= dist@[t] <= k by {
            if k <= rounds {
                lemma_reach_mono(directed, edges@, n as int, s as int, t, k, rounds as int);
                assert(dist@[t] >= 0);
                if dist@[t] > k {
                    lemma_reach_mono(directed, edges@, n as int, s as int, t, k, dist@[t] - 1);
                }
            } else {
                lemma_reach_stable(directed, edges@, n as int, s as int, rounds as int, k);
                assert(reach@[t]);
                assert(dist@[t] >= 0);
            }
        }
    }
    dist
}

/// A pair of vertices has one distance only.
proof fn lemma_distance_unique(
    directed: bool,
    edges: Seq<(i64, i64)>,
    n: int,
    s: int,
    t: int,
    d1: int,
    d2: int,
)
    requires
        is_distance(directed, edges, n, s, t, d1),
        is_distance(directed, edges, n, s, t, d2),
    ensures
        d1 == d2,
{
    if d1 < d2 {
        lemma_reach_mono(directed, edges, n, s, t, d1, d2 - 1);
    }
    if d2 < d1 {
        lemma_reach_mono(directed, edges, n, s, t, d2, d1 - 1);
    }
}

/// The outcome of a diameter computation. The engine's sentinel conventions
/// are preserved as explicit values, not errors: a graph with no vertices has
/// an undefined diameter (the not-a-number sentinel), and a disconnected
/// graph whose unreachable pairs are to be counted has an unbounded one (the
/// positive-infinity sentinel).
#[derive(Clone, Copy, Debug, PartialEq, Eq, Structural)]
pub enum Diameter {
    /// The graph has no vertices.
    NotANumber,
    /// Some pair of vertices is unreachable, and unreachable pairs count.
    Infinite,
    /// The length of the longest geodesic.
    Finite(i64),
}

/// What a diameter computation on the graph model `g` must return: the
/// not-a-number sentinel exactly for the graph with no vertices; the
/// positive-infinity sentinel exactly for a disconnected graph whose
/// unreachable pairs count; otherwise the largest geodesic distance that any
/// vertex pair realizes.
pub open spec fn diameter_outcome(g: GraphModel, unconn: bool, r: Diameter) -> bool {
    &&& (r == Diameter::NotANumber <==> g.vertex_count == 0)
    &&& (r == Diameter::Infinite <==> (g.vertex_count > 0 && !unconn && exists|a: int, b: int|
        0 <= a < g.vertex_count && 0 <= b < g.vertex_count && !connected_pair(g, a, b)))
    &&& (r matches Diameter::Finite(d) ==> 0 <= d && (exists|a: int, b: int|
        0 <= a < g.vertex_count && 0 <= b < g.vertex_count && is_distance(
            g.directed,
            g.edges,
            g.vertex_count,
            a,
            b,
            d as int,
        )) && (forall|a: int, b: int, dd: int|
        0 <= a < g.vertex_count && 0 <= b < g.vertex_count && #[trigger] is_distance(
            g.directed,
            g.edges,
            g.vertex_count,
            a,
            b,
            dd,
        ) ==> dd <= d))
}

/// The diameter is a function of the graph and the convention flag alone:
/// any two results that the contract of `diameter` admits on the same graph
/// are equal. With the constructors' own exact contracts this makes the
/// seeded pipeline — build a graph from a seed, then measure it —
/// reproducible end to end.
pub proof fn lemma_diameter_deterministic(g: GraphModel, unconn: bool, r1: Diameter, r2: Diameter)
    requires
        diameter_outcome(g, unconn, r1),
        diameter_outcome(g, unconn, r2),
    ensures
        r1 == r2,
{
    if g.vertex_count == 0 {
        assert(r1 == Diameter::NotANumber && r2 == Diameter::NotANumber);
    } else if r1 == Diameter::Infinite || r2 == Diameter::Infinite {
        assert(r1 == Diameter::Infinite && r2 == Diameter::Infinite);
    } else {
        let d1 = r1->Finite_0;
        let d2 = r2->Finite_0;
        assert(r1 matches Diameter::Finite(_));
        assert(r2 matches Diameter::Finite(_));
        assert(d1 <= d2 && d2 <= d1);
    }
}

impl Graph {
    /// The length of the longest shortest path over all ordered vertex
    /// pairs, honoring directedness. With `unconn` set, unreachable pairs
    /// are left out and the largest finite geodesic is returned; with it
    /// clear, a disconnected graph yields the positive-infinity sentinel.
    /// The graph with no vertices yields the not-a-number sentinel.
    pub fn diameter(&self, unconn: bool) -> (r: Diameter)
        requires
            self.wf(),
            self@.vertex_count <= usize::MAX,
        ensures
            diameter_outcome(self@, unconn, r),
    {
        let ghost gm = self@;
        let nv = self.num_vertices();
        if nv == 0 {
            return Diameter::NotANumber;
        }
        let n = nv as usize;
        let directed = self.is_directed();
        let edges = self.edges_ref();
        let mut best: i64 = 0;
        let mut disconnected = false;
        proof {
            assert(initial_reach(n as int, 0)[0]);
            assert(reached(gm.directed, gm.edges, n as int, 0, 0, 0));
            assert(is_distance(gm.directed, gm.edges, n as int, 0, 0, 0));
        }
        let mut s: usize = 0;
        while s < n
            invariant
                self.wf(),
                gm == self@,
                n == gm.vertex_count,
                1 <= n <= i64::MAX,
                directed == gm.directed,
                edges@ == gm.edges,
                s <= n,
                0 <= best,
                exists|a: int, b: int|
                    0 <= a < n && 0 <= b < n && is_distance(
                        gm.directed,
                        gm.edges,
                        n as int,
                        a,
                        b,
                        best as int,
                    ),
                forall|a: int, b: int, dd: int|
                    0 <= a < s && 0 <= b < n && #[trigger] is_distance(
                        gm.directed,
                        gm.edges,
                        n as int,
                        a,
                        b,
                        dd,
                    ) ==> dd <= best,
                disconnected <==> exists|a: int, b: int|
                    0 <= a < s && 0 <= b < n && !connected_pair(gm, a, b),
            decreases n - s,
        {
            let dist = bfs_distances(directed, edges, n, s);
            let mut t: usize = 0;
            while t < n
                invariant
                    gm == self@,
                    n == gm.vertex_count,
                    1 <= n <= i64::MAX,
                    directed == gm.directed,
                    edges@ == gm.edges,
                    s < n,
                    t <= n,
                    0 <= best,
                    dist@.len() == n,
                    forall|v: int| 0 <= v < n ==> #[trigger] dist@[v] == -1 || 0 <= dist@[v] <= n,
                    forall|v: int|
                        0 <= v < n && #[trigger] dist@[v] >= 0 ==> is_distance(
                            gm.directed,
                            gm.edges,
                            n as int,
                            s as int,
                            v,
                            dist@[v] as int,
                        ),
                    forall|v: int, k: int|
                        0 <= v < n && 0 <= k && #[trigger] reached(
                            gm.directed,
                            gm.edges,
                            n as int,
                            s as int,
                            v,
                            k,
                        ) ==> 0 <= dist@[v] <= k,
                    exists|a: int, b: int|
                        0 <= a < n && 0 <= b < n && is_distance(
                            gm.directed,
                            gm.edges,
                            n as int,
                            a,
                            b,
                            best as int,
                        ),
                    forall|a: int, b: int, dd: int|
                        0 <= a < s && 0 <= b < n && #[trigger] is_distance(
                            gm.directed,
                            gm.edges,
                            n as int,
                            a,
                            b,
                            dd,
                        ) ==> dd <= best,
                    forall|b: int, dd: int|
                        0 <= b < t && #[trigger] is_distance(
                            gm.directed,
                            gm.edges,
                            n as int,
                            s as int,
                            b,
                            dd,
                        ) ==> dd <= best,
                    disconnected <==> ((exists|a: int, b: int|
                        0 <= a < s && 0 <= b < n && !connected_pair(gm, a, b)) || (exists|b: int|
                        0 <= b < t && !connected_pair(gm, s as int, b))),
                decreases n - t,
            {
                let dv = dist[t];
                if dv < 0 {
                    proof {
                        assert(!connected_pair(gm, s as int, t as int)) by {
                            if connected_pair(gm, s as int, t as int) {
                                let k = choose|k: int|
                                    0 <= k && reached(
                                        gm.directed,
                                        gm.edges,
                                        n as int,
                                        s as int,
                                        t as int,
                                        k,
                                    );
                                assert(dist@[t as int] >= 0);
                            }
                        }
                    }
                    disconnected = true;
                } else {
                    if dv > best {
                        best = dv;
                    }
                    proof {
                        assert(connected_pair(gm, s as int, t as int)) by {
                            assert(reached(
                                gm.directed,
                                gm.edges,
                                n as int,
                                s as int,
                                t as int,
                                dv as int,
                            ));
                        }
                        assert forall|dd: int|
                            0 <= dd && #[trigger] is_distance(
                                gm.directed,
                                gm.edges,
                                n as int,
                                s as int,
                                t as int,
                                dd,
                            ) implies dd <= best by {
                            lemma_distance_unique(
                                gm.directed,
                                gm.edges,
                                n as int,
                                s as int,
                                t as int,
                                dd,
                                dv as int,
                            );
                        }
                    }
                }
                t = t + 1;
            }
            s = s + 1;
        }
        if !unconn && disconnected {
            return Diameter::Infinite;
        }
        proof {
            assert(n as int == self@.vertex_count);
            assert forall|a: int, b: int, dd: int|
                0 <= a < self@.vertex_count && 0 <= b < self@.vertex_count && #[trigger] is_distance(
                    self@.directed,
                    self@.edges,
                    self@.vertex_count,
                    a,
                    b,
                    dd,
                ) implies dd <= best as int by {
                assert(is_distance(gm.directed, gm.edges, n as int, a, b, dd));
            }
            assert(exists|a: int, b: int|
                0 <= a < self@.vertex_count && 0 <= b < self@.vertex_count && is_distance(
                    self@.directed,
                    self@.edges,
                    self@.vertex_count,
                    a,
                    b,
                    best as int,
                ));
            if !unconn {
                assert(!(exists|a: int, b: int|
                    0 <= a < self@.vertex_count && 0 <= b < self@.vertex_count && !connected_pair(
                        self@,
                        a,
                        b,
                    ))) by {
                    if exists|a: int, b: int|
                        0 <= a < self@.vertex_count && 0 <= b < self@.vertex_count
                            && !connected_pair(self@, a, b) {
                        let (a, b) = choose|a: int, b: int|
                            0 <= a < self@.vertex_count && 0 <= b < self@.vertex_count
                                && !connected_pair(self@, a, b);
                        assert(0 <= a < n && 0 <= b < n && !connected_pair(gm, a, b));
                    }
                }
            }
            assert((Diameter::Finite(best) == Diameter::NotANumber <==> self@.vertex_count == 0));
            assert((Diameter::Finite(best) == Diameter::Infinite <==> (self@.vertex_count > 0
                && !unconn && exists|a: int, b: int|
                0 <= a < self@.vertex_count && 0 <= b < self@.vertex_count && !connected_pair(
                    self@,
                    a,
                    b,
                ))));
            assert(forall|a: int, b: int, dd: int|
                0 <= a < self@.vertex_count && 0 <= b < self@.vertex_count && #[trigger] is_distance(
                    self@.directed,
                    self@.edges,
                    self@.vertex_count,
                    a,
                    b,
                    dd,
                ) ==> dd <= best);
            assert(diameter_outcome(self@, unconn, Diameter::Finite(best)));
        }
        Diameter::Finite(best)
    }
}

} // verus!
