//! Coarsening by heavy-edge matching, and the multilevel scheme that
//! partitions the coarse hypergraph and projects the result back.

use vstd::prelude::*;
use crate::hypergraph::{
    Hypergraph,
    HypergraphBuilder,
    HypergraphModel,
    PartitionError,
    UNFIXED,
    flatten_upto,
    lists_edges,
    sum,
    sum_upto,
    lemma_sum_monotone,
};
use crate::laws::lemma_edges_round_trip;
use crate::evaluate::{Metric, valid_assignment, respects_fixed};

verus! {

/// Coarsening stops once a level has at most this many vertices per block.
pub const COARSEST_VERTICES_PER_BLOCK: usize = 160;

/// Upper bound on the depth of the coarsening hierarchy.
pub const MAX_LEVELS: usize = 32;

/// A coarse hypergraph with the map from each fine vertex to its coarse vertex.
pub struct Contraction {
    pub coarse: Hypergraph,
    pub map: Vec<usize>,
}

/// Whether two vertices may share a coarse vertex: at most one is fixed, or
/// both are fixed to the same block.
pub open spec fn compatible_spec(hg: HypergraphModel, x: int, y: int) -> bool {
    hg.fixed[x] == UNFIXED || hg.fixed[y] == UNFIXED || hg.fixed[x] == hg.fixed[y]
}

/// Weight of the vertices below `v` that `map` sends to coarse vertex `c`.
pub open spec fn cluster_weight_upto(hg: HypergraphModel, map: Seq<usize>, c: int, v: int) -> int
    decreases v,
{
    if v <= 0 {
        0
    } else {
        cluster_weight_upto(hg, map, c, v - 1) + if map[v - 1] as int == c {
            hg.vertex_weights[v - 1]
        } else {
            0
        }
    }
}

/// Whether all pins of `edge` land on one coarse vertex.
pub open spec fn collapses_spec(map: Seq<usize>, edge: Seq<u32>) -> bool {
    forall|j: int| 0 <= j < edge.len() ==> map[#[trigger] edge[j] as int] == map[edge[0] as int]
}

/// The pins of `edge` sent through `map`.
pub open spec fn image(map: Seq<usize>, edge: Seq<u32>) -> Seq<u32> {
    Seq::new(edge.len(), |j: int| map[edge[j] as int] as u32)
}

/// The images of the edges below `e` that do not collapse, in order.
pub open spec fn coarse_edges_upto(hg: HypergraphModel, map: Seq<usize>, e: int) -> Seq<Seq<u32>>
    decreases e,
{
    if e <= 0 {
        Seq::empty()
    } else if collapses_spec(map, hg.edges[e - 1]) {
        coarse_edges_upto(hg, map, e - 1)
    } else {
        coarse_edges_upto(hg, map, e - 1).push(image(map, hg.edges[e - 1]))
    }
}

/// The weights of the edges that `coarse_edges_upto` keeps.
pub open spec fn coarse_edge_weights_upto(hg: HypergraphModel, map: Seq<usize>, e: int) -> Seq<int>
    decreases e,
{
    if e <= 0 {
        Seq::empty()
    } else if collapses_spec(map, hg.edges[e - 1]) {
        coarse_edge_weights_upto(hg, map, e - 1)
    } else {
        coarse_edge_weights_upto(hg, map, e - 1).push(hg.edge_weights[e - 1])
    }
}

/// The weights fit the ranges of a hypergraph description: every coarse
/// weight is then an `i32` and every coarse vertex a `u32`.
pub open spec fn coarsenable(hg: HypergraphModel) -> bool {
    &&& hg.vertices <= u32::MAX + 1
    &&& sum(hg.vertex_weights) <= i32::MAX
    &&& forall|e: int| 0 <= e < hg.edges.len() ==> #[trigger] hg.edge_weights[e] <= i32::MAX
}

/// `mate` pairs compatible distinct vertices symmetrically; an entry of
/// `vertices` leaves a vertex unpaired.
pub open spec fn matching(hg: HypergraphModel, mate: Seq<usize>) -> bool {
    &&& mate.len() == hg.vertices
    &&& forall|x: int| 0 <= x < mate.len() ==> #[trigger] mate[x] <= hg.vertices
    &&& forall|x: int|
        0 <= x < mate.len() && #[trigger] mate[x] < hg.vertices ==> mate[mate[x] as int] == x && mate[x]
            != x && compatible_spec(hg, x, mate[x] as int)
}

/// Some vertex has a partner.
pub open spec fn paired(hg: HypergraphModel, mate: Seq<usize>) -> bool {
    exists|x: int| 0 <= x < mate.len() && #[trigger] mate[x] < hg.vertices
}

/// No pin of edge `e` other than `u` may share a coarse vertex with `u`.
pub open spec fn no_partner_in(hg: HypergraphModel, u: int, e: int) -> bool {
    forall|j: int|
        0 <= j < hg.edges[e].len() ==> #[trigger] hg.edges[e][j] as int == u || !compatible_spec(
            hg,
            u,
            hg.edges[e][j] as int,
        )
}

/// Some edge has two distinct pins that may share a coarse vertex.
pub open spec fn contractible(hg: HypergraphModel) -> bool {
    exists|e: int, a: int, b: int|
        0 <= e < hg.edges.len() && 0 <= a < hg.edges[e].len() && 0 <= b < hg.edges[e].len() && (
        #[trigger] hg.edges[e][a]) != (#[trigger] hg.edges[e][b]) && compatible_spec(
            hg,
            hg.edges[e][a] as int,
            hg.edges[e][b] as int,
        )
}

/// What a contraction of `fine` guarantees.
pub open spec fn contraction_ok(fine: &Hypergraph, c: &Contraction) -> bool {
    &&& c.coarse.wf()
    &&& c.coarse@.blocks == fine@.blocks
    &&& c.coarse@.vertices <= fine@.vertices
    &&& c.map@.len() == fine@.vertices
    &&& forall|v: int| 0 <= v < fine@.vertices ==> (#[trigger] c.map@[v] as int) < c.coarse@.vertices
    &&& forall|v: int|
        0 <= v < fine@.vertices && #[trigger] fine@.fixed[v] != UNFIXED ==> c.coarse@.fixed[c.map@[v] as int]
            == fine@.fixed[v]
    // each coarse vertex holds one or two compatible fine vertices
    &&& forall|x: int, y: int, z: int|
        0 <= x < fine@.vertices && 0 <= y < fine@.vertices && 0 <= z < fine@.vertices && x != y && y
            != z && x != z ==> !(#[trigger] c.map@[x] == #[trigger] c.map@[y] && c.map@[y]
            == #[trigger] c.map@[z])
    &&& forall|x: int, y: int|
        0 <= x < fine@.vertices && 0 <= y < fine@.vertices && #[trigger] c.map@[x] == #[trigger] c.map@[y]
            ==> compatible_spec(fine@, x, y)
    // each coarse vertex weighs what its fine vertices weigh together
    &&& forall|k: int|
        0 <= k < c.coarse@.vertices ==> #[trigger] c.coarse@.vertex_weights[k] == cluster_weight_upto(
            fine@,
            c.map@,
            k,
            fine@.vertices as int,
        )
    // contraction shrinks the hypergraph whenever some edge allows it
    &&& contractible(fine@) ==> c.coarse@.vertices < fine@.vertices
    // the coarse edges are the images of the fine edges that do not collapse
    &&& c.coarse@.edges == coarse_edges_upto(fine@, c.map@, fine@.edges.len() as int)
    &&& c.coarse@.edge_weights == coarse_edge_weights_upto(fine@, c.map@, fine@.edges.len() as int)
}

proof fn lemma_flatten_same(a: Seq<Seq<u32>>, b: Seq<Seq<u32>>, i: int)
    requires
        0 <= i <= b.len() <= a.len(),
        forall|x: int| 0 <= x < b.len() ==> a[x] == b[x],
    ensures
        flatten_upto(a, i) == flatten_upto(b, i),
    decreases i,
{
    if i > 0 {
        lemma_flatten_same(a, b, i - 1);
    }
}

proof fn lemma_cluster_weight_bounds(hg: HypergraphModel, map: Seq<usize>, c: int, v: int)
    requires
        hg.well_formed(),
        0 <= v <= hg.vertices,
    ensures
        0 <= cluster_weight_upto(hg, map, c, v) <= sum_upto(hg.vertex_weights, v),
    decreases v,
{
    if v > 0 {
        lemma_cluster_weight_bounds(hg, map, c, v - 1);
        assert(hg.vertex_weights[v - 1] >= 0);
    }
}

proof fn lemma_sum_bounded(s: Seq<int>, i: int, bound: int)
    requires
        0 <= i <= s.len(),
        forall|x: int| 0 <= x < s.len() ==> 0 <= #[trigger] s[x] <= bound,
    ensures
        0 <= sum_upto(s, i) <= i * bound,
    decreases i,
{
    if i > 0 {
        lemma_sum_bounded(s, i - 1, bound);
        assert((i - 1) * bound + bound == i * bound) by (nonlinear_arith);
    }
}

proof fn lemma_sum_prefix(s: Seq<int>, t: Seq<int>, i: int)
    requires
        0 <= i <= s.len(),
        i <= t.len(),
        forall|x: int| 0 <= x < i ==> s[x] == t[x],
    ensures
        sum_upto(s, i) == sum_upto(t, i),
    decreases i,
{
    if i > 0 {
        lemma_sum_prefix(s, t, i - 1);
    }
}

proof fn lemma_coarse_edge_weight_sum(hg: HypergraphModel, map: Seq<usize>, e: int)
    requires
        hg.well_formed(),
        0 <= e <= hg.edges.len(),
    ensures
        0 <= sum(coarse_edge_weights_upto(hg, map, e)) <= sum_upto(hg.edge_weights, e),
        coarse_edge_weights_upto(hg, map, e).len() == coarse_edges_upto(hg, map, e).len(),
        forall|x: int|
            0 <= x < coarse_edge_weights_upto(hg, map, e).len() ==> 0 <= #[trigger] coarse_edge_weights_upto(hg, map, e)[x],
    decreases e,
{
    if e > 0 {
        lemma_coarse_edge_weight_sum(hg, map, e - 1);
        let prev = coarse_edge_weights_upto(hg, map, e - 1);
        if !collapses_spec(map, hg.edges[e - 1]) {
            let cur = prev.push(hg.edge_weights[e - 1]);
            lemma_sum_prefix(cur, prev, prev.len() as int);
            assert(hg.edge_weights[e - 1] >= 0);
        }
    }
}

impl Hypergraph {
    /// Whether `v` and `u` may share a coarse vertex: at most one is fixed, or
    /// both are fixed to the same block.
    fn compatible(&self, v: usize, u: usize) -> (r: bool)
        requires
            self.wf(),
            v < self@.vertices,
            u < self@.vertices,
        ensures
            r == (self@.fixed[v as int] == UNFIXED || self@.fixed[u as int] == UNFIXED
                || self@.fixed[v as int] == self@.fixed[u as int]),
    {
        let fv = self.fixed_block(v);
        let fu = self.fixed_block(u);
        fv == UNFIXED || fu == UNFIXED || fv == fu
    }

    /// Whether the pins of an edge all land on one coarse vertex (or there
    /// are none), so that the coarse edge could never be cut.
    fn collapses(&self, map: &Vec<usize>, pins: &[u32]) -> (r: bool)
        requires
            self.wf(),
            map@.len() == self@.vertices,
            forall|j: int| 0 <= j < pins@.len() ==> (#[trigger] pins@[j] as int) < self@.vertices,
        ensures
            r == forall|j: int|
                0 <= j < pins@.len() ==> map@[#[trigger] pins@[j] as int] == map@[pins@[0] as int],
    {
        if pins.len() == 0 {
            return true;
        }
        let first = map[pins[0] as usize];
        let mut j: usize = 1;
        while j < pins.len()
            invariant
                1 <= j <= pins@.len(),
                first == map@[pins@[0] as int],
                map@.len() == self@.vertices,
                forall|x: int| 0 <= x < pins@.len() ==> (#[trigger] pins@[x] as int) < self@.vertices,
                forall|x: int| 0 <= x < j ==> map@[#[trigger] pins@[x] as int] == first,
            decreases pins@.len() - j,
        {
            if map[pins[j] as usize] != first {
                return false;
            }
            j = j + 1;
        }
        true
    }

    /// Pairs each unmatched vertex with the unmatched neighbour that shares its
    /// heaviest edge (lowest identifier on ties); `vertices` marks a vertex
    /// left alone.
    fn heavy_edge_matching(&self) -> (mate: Vec<usize>)
        requires
            self.wf(),
        ensures
            mate@.len() == self@.vertices,
            matching(self@, mate@),
            contractible(self@) ==> paired(self@, mate@),
    {
        let n = self.vertex_count();
        let mut mate: Vec<usize> = Vec::new();
        let mut v: usize = 0;
        while v < n
            invariant
                v <= n,
                mate@.len() == v,
                forall|x: int| 0 <= x < v ==> #[trigger] mate@[x] == n,
            decreases n - v,
        {
            mate.push(n);
            v = v + 1;
        }
        let mut v: usize = 0;
        while v < n
            invariant
                v <= n == self@.vertices,
                self.wf(),
                mate@.len() == n,
                matching(self@, mate@),
                !paired(self@, mate@) ==> forall|u: int, e: int|
                    0 <= u < v && 0 <= e < self@.edges.len() && #[trigger] self@.edge_contains(e, u)
                        ==> no_partner_in(self@, u, e),
            decreases n - v,
        {
            if mate[v] == n {
                let mut best: usize = n;
                let mut best_w: u64 = 0;
                let incident = self.incident_edges(v);
                let edge_total = self.edge_count();
                let mut i: usize = 0;
                while i < incident.len()
                    invariant
                        i <= incident@.len(),
                        edge_total == self@.edges.len(),
                        incident@ == self@.incident(v as int),
                        v < n == self@.vertices,
                        self.wf(),
                        mate@.len() == n,
                        mate@[v as int] == n,
                        best <= n,
                        best < n ==> best != v && mate@[best as int] == n && compatible_spec(self@, v as int, best as int),
                        matching(self@, mate@),
                        !paired(self@, mate@) && best == n ==> forall|ii: int|
                            0 <= ii < i ==> no_partner_in(self@, v as int, #[trigger] incident@[ii] as int),
                    decreases incident@.len() - i,
                {
                    let e = incident[i];
                    proof {
                        crate::laws::lemma_incidence_round_trip(self@, v as int);
                        assert(self@.incident(v as int)[i as int] < self@.edges.len());
                    }
                    let w = self.edge_weight(e);
                    let pins = self.edge_pins(e);
                    let mut j: usize = 0;
                    while j < pins.len()
                        invariant
                            j <= pins@.len(),
                            e < self@.edges.len(),
                            pins@ == self@.edges[e as int],
                            v < n == self@.vertices,
                            self.wf(),
                            mate@.len() == n,
                            mate@[v as int] == n,
                            best <= n,
                            best < n ==> best != v && mate@[best as int] == n && compatible_spec(self@, v as int, best as int),
                            matching(self@, mate@),
                            incident@ == self@.incident(v as int),
                            i < incident@.len(),
                            !paired(self@, mate@) && best == n ==> forall|ii: int|
                                0 <= ii < i ==> no_partner_in(self@, v as int, #[trigger] incident@[ii] as int),
                            !paired(self@, mate@) && best == n ==> forall|jj: int|
                                0 <= jj < j ==> #[trigger] pins@[jj] as int == v || !compatible_spec(
                                    self@,
                                    v as int,
                                    pins@[jj] as int,
                                ),
                        decreases pins@.len() - j,
                    {
                        let u = pins[j] as usize;
                        assert((self@.edges[e as int][j as int] as int) < self@.vertices);
                        proof {
                            if !paired(self@, mate@) {
                                assert(!(mate@[u as int] < n));
                            }
                        }
                        if u != v && mate[u] == n && self.compatible(v, u) && (best == n || w
                            > best_w || (w == best_w && u < best)) {
                            best = u;
                            best_w = w;
                        }
                        proof {
                            if !paired(self@, mate@) && best == n {
                                assert forall|jj: int| 0 <= jj < j + 1 implies #[trigger] pins@[jj] as int == v || !compatible_spec(
                                    self@,
                                    v as int,
                                    pins@[jj] as int,
                                ) by {
                                    if jj == j {
                                        assert(pins@[jj] as int == u as int);
                                    }
                                }
                            }
                        }
                        j = j + 1;
                    }
                    proof {
                        if !paired(self@, mate@) && best == n {
                            assert forall|jj: int| 0 <= jj < self@.edges[e as int].len() implies #[trigger] self@.edges[e as int][jj] as int == v || !compatible_spec(
                                self@,
                                v as int,
                                self@.edges[e as int][jj] as int,
                            ) by {
                                assert(pins@[jj] == self@.edges[e as int][jj]);
                            }
                            assert(no_partner_in(self@, v as int, e as int));
                            assert forall|ii: int| 0 <= ii < i + 1 implies no_partner_in(self@, v as int, #[trigger] incident@[ii] as int) by {
                                if ii == i {
                                    assert(incident@[ii] == e);
                                }
                            }
                        }
                    }
                    i = i + 1;
                }
                proof {
                    if !paired(self@, mate@) && best == n {
                        crate::laws::lemma_incidence_round_trip(self@, v as int);
                        assert forall|e: int| 0 <= e < self@.edges.len() && #[trigger] self@.edge_contains(e, v as int) implies no_partner_in(self@, v as int, e) by {
                            assert(incident@.contains(e as usize));
                            let ii = choose|ii: int| 0 <= ii < incident@.len() && incident@[ii] == e as usize;
                            assert(no_partner_in(self@, v as int, incident@[ii] as int));
                        }
                    }
                }
                if best < n {
                    let ghost before = mate@;
                    mate.set(v, best);
                    mate.set(best, v);
                    proof {
                        assert forall|x: int| 0 <= x < n && #[trigger] mate@[x] < n implies mate@[mate@[x] as int] == x && mate@[x] != x && compatible_spec(self@, x, mate@[x] as int) by {
                            if x != v && x != best {
                                assert(before[x] == mate@[x]);
                                assert(before[before[x] as int] == x);
                            }
                        }
                        assert(mate@[v as int] < n);
                    }
                }
            }
            v = v + 1;
        }
        proof {
            if contractible(self@) && !paired(self@, mate@) {
                let (e, a, b) = choose|e: int, a: int, b: int|
                    0 <= e < self@.edges.len() && 0 <= a < self@.edges[e].len() && 0 <= b < self@.edges[e].len() && (
                    #[trigger] self@.edges[e][a]) != (#[trigger] self@.edges[e][b]) && compatible_spec(
                        self@,
                        self@.edges[e][a] as int,
                        self@.edges[e][b] as int,
                    );
                let u = self@.edges[e][a] as int;
                assert(u < n);
                assert(self@.edge_contains(e, u));
                assert(no_partner_in(self@, u, e));
                assert(self@.edges[e][b] as int == u || !compatible_spec(self@, u, self@.edges[e][b] as int));
            }
        }
        mate
    }

    /// The non-collapsing edges sent through `map`, as CSR arrays with their
    /// weights; succeeds whenever the weights fit the ranges of a description.
    fn contract_edges(&self, map: &Vec<usize>, next: usize) -> (r: Option<(Vec<u32>, Vec<u64>, Vec<i32>)>)
        requires
            self.wf(),
            map@.len() == self@.vertices,
            forall|x: int| 0 <= x < self@.vertices ==> #[trigger] map@[x] < next,
            next <= self@.vertices,
        ensures
            coarsenable(self@) ==> r is Some,
            r matches Some((flat, offsets, ew)) ==> {
                let es = coarse_edges_upto(self@, map@, self@.edges.len() as int);
                &&& flat@ == flatten_upto(es, es.len() as int)
                &&& offsets@.len() == es.len() + 1
                &&& forall|i: int| 0 <= i <= es.len() ==> #[trigger] offsets@[i] == flatten_upto(es, i).len()
                &&& forall|j: int| 0 <= j < flat@.len() ==> (#[trigger] flat@[j] as int) < next
                &&& ew@.len() == es.len()
                &&& forall|i: int|
                    0 <= i < es.len() ==> #[trigger] ew@[i] as int == coarse_edge_weights_upto(
                        self@,
                        map@,
                        self@.edges.len() as int,
                    )[i]
            },
    {
        let m = self.edge_count();
        let ghost es = coarse_edges_upto(self@, map@, 0);
        let mut flat: Vec<u32> = Vec::new();
        let mut offsets: Vec<u64> = vec![0];
        let mut edge_weights: Vec<i32> = Vec::new();
        let mut e: usize = 0;
        while e < m
            invariant
                e <= m == self@.edges.len(),
                self.wf(),
                map@.len() == self@.vertices,
                forall|x: int| 0 <= x < self@.vertices ==> #[trigger] map@[x] < next,
                next <= self@.vertices,
                es == coarse_edges_upto(self@, map@, e as int),
                flat@ == flatten_upto(es, es.len() as int),
                offsets@.len() == es.len() + 1,
                forall|i: int| 0 <= i <= es.len() ==> #[trigger] offsets@[i] == flatten_upto(es, i).len(),
                forall|j: int| 0 <= j < flat@.len() ==> (#[trigger] flat@[j] as int) < next,
                edge_weights@.len() == es.len(),
                forall|i: int|
                    0 <= i < es.len() ==> #[trigger] edge_weights@[i] as int == coarse_edge_weights_upto(
                        self@,
                        map@,
                        e as int,
                    )[i],
                coarse_edge_weights_upto(self@, map@, e as int).len() == es.len(),
            decreases m - e,
        {
            proof {
                lemma_coarse_edge_weight_sum(self@, map@, e as int);
            }
            let w = self.edge_weight(e);
            let pins = self.edge_pins(e);
            if self.collapses(&map, pins) {
                e = e + 1;
                proof {
                    es = coarse_edges_upto(self@, map@, e as int);
                }
                continue;
            }
            if w > i32::MAX as u64 {
                return None;
            }
            let ghost img = image(map@, pins@);
            let mut j: usize = 0;
            while j < pins.len()
                invariant
                    j <= pins@.len(),
                    e < self@.edges.len(),
                    pins@ == self@.edges[e as int],
                    img == image(map@, pins@),
                    self.wf(),
                    map@.len() == self@.vertices,
                    forall|x: int| 0 <= x < self@.vertices ==> #[trigger] map@[x] < next,
                    next <= self@.vertices,
                    flat@ == flatten_upto(es, es.len() as int) + img.subrange(0, j as int),
                    forall|jj: int| 0 <= jj < flat@.len() ==> (#[trigger] flat@[jj] as int) < next,
                decreases pins@.len() - j,
            {
                assert((self@.edges[e as int][j as int] as int) < self@.vertices);
                let t = map[pins[j] as usize];
                if t > u32::MAX as usize {
                    return None;
                }
                flat.push(t as u32);
                j = j + 1;
                assert(img.subrange(0, j as int) =~= img.subrange(0, j - 1).push(img[j - 1]));
            }
            assert(img.subrange(0, j as int) =~= img);
            let ghost old_es = es;
            proof {
                es = coarse_edges_upto(self@, map@, e + 1);
                assert(es == old_es.push(img));
                assert forall|i: int| 0 <= i <= old_es.len() implies flatten_upto(es, i) == flatten_upto(old_es, i) by {
                    lemma_flatten_same(es, old_es, i);
                }
                assert(flatten_upto(es, es.len() as int) == flatten_upto(old_es, old_es.len() as int) + img);
            }
            offsets.push(flat.len() as u64);
            edge_weights.push(w as i32);
            e = e + 1;
        }
        Some((flat, offsets, edge_weights))
    }

    /// Contracts each matched pair into one coarse vertex whose weight is the
    /// pair's total; a coarse vertex is fixed where one of its vertices is.
    /// Edges whose pins all land on one coarse vertex are dropped; the others
    /// keep their weight. Succeeds whenever the weights fit the ranges of a
    /// hypergraph description.
    #[verifier::rlimit(60)]
    pub fn coarsen(&self) -> (r: Option<Contraction>)
        requires
            self.wf(),
        ensures
            r matches Some(c) ==> contraction_ok(self, &c),
            coarsenable(self@) ==> r is Some,
    {
        let n = self.vertex_count();
        let k = self.block_count();
        let mate = self.heavy_edge_matching();
        let mut map: Vec<usize> = Vec::new();
        let mut next: usize = 0;
        let mut v: usize = 0;
        while v < n
            invariant
                v <= n == self@.vertices == mate@.len(),
                matching(self@, mate@),
                next <= v,
                map@.len() == v,
                forall|x: int| 0 <= x < v ==> #[trigger] map@[x] < next,
                forall|x: int, y: int|
                    0 <= x < v && 0 <= y < v && #[trigger] map@[x] == #[trigger] map@[y] ==> x == y
                        || mate@[x] as int == y,
                (exists|x: int| 0 <= x < v && (#[trigger] mate@[x] as int) < x) ==> next < v,
            decreases n - v,
        {
            let m = mate[v];
            if m < v {
                let c = map[m];
                proof {
                    assert(mate@[m as int] == v);
                    assert forall|y: int| 0 <= y < v && map@[y] == c implies y == m as int by {
                        if y != m as int {
                            assert(mate@[y] as int == m as int);
                            assert(mate@[mate@[y] as int] == y);
                        }
                    }
                }
                map.push(c);
                proof {
                    assert forall|x: int, y: int|
                        0 <= x < v + 1 && 0 <= y < v + 1 && #[trigger] map@[x] == #[trigger] map@[y] implies x == y
                            || mate@[x] as int == y by {
                        if x == v && y < v {
                            assert(y == m as int);
                        } else if y == v && x < v {
                            assert(x == m as int);
                        }
                    }
                }
            } else {
                map.push(next);
                next = next + 1;
            }
            proof {
                if exists|x: int| 0 <= x < v + 1 && (#[trigger] mate@[x] as int) < x {
                    let x = choose|x: int| 0 <= x < v + 1 && (#[trigger] mate@[x] as int) < x;
                    if x < v {
                        assert(exists|x: int| 0 <= x < v && (#[trigger] mate@[x] as int) < x);
                    }
                }
            }
            v = v + 1;
        }
        proof {
            if paired(self@, mate@) {
                let x = choose|x: int| 0 <= x < mate@.len() && #[trigger] mate@[x] < self@.vertices;
                let y = mate@[x] as int;
                assert(mate@[y] as int == x);
                if y < x {
                    assert((mate@[x] as int) < x);
                } else {
                    assert((mate@[y] as int) < y);
                }
                assert(next < n);
            }
        }
        let mut weights: Vec<i32> = Vec::new();
        let mut fixed: Vec<i32> = Vec::new();
        let mut c: usize = 0;
        while c < next
            invariant
                c <= next,
                weights@.len() == c,
                fixed@.len() == c,
                forall|x: int| 0 <= x < c ==> #[trigger] weights@[x] == 0,
                forall|x: int| 0 <= x < c ==> #[trigger] fixed@[x] == UNFIXED,
            decreases next - c,
        {
            weights.push(0);
            fixed.push(UNFIXED);
            c = c + 1;
        }
        let mut v: usize = 0;
        while v < n
            invariant
                v <= n == self@.vertices == map@.len() == mate@.len(),
                k == self@.blocks,
                self.wf(),
                matching(self@, mate@),
                weights@.len() == next,
                fixed@.len() == next,
                forall|x: int| 0 <= x < n ==> #[trigger] map@[x] < next,
                forall|x: int, y: int|
                    0 <= x < n && 0 <= y < n && #[trigger] map@[x] == #[trigger] map@[y] ==> x == y
                        || mate@[x] as int == y,
                forall|c: int|
                    0 <= c < next ==> #[trigger] weights@[c] as int == cluster_weight_upto(
                        self@,
                        map@,
                        c,
                        v as int,
                    ),
                forall|c: int|
                    0 <= c < next ==> #[trigger] fixed@[c] == UNFIXED || (0 <= fixed@[c] < k),
                forall|x: int|
                    0 <= x < v && #[trigger] self@.fixed[x] != UNFIXED ==> fixed@[map@[x] as int]
                        == self@.fixed[x],
            decreases n - v,
        {
            let w = self.vertex_weight(v);
            if w > i32::MAX as u64 {
                proof {
                    lemma_sum_monotone(self@.vertex_weights, 0, v as int);
                    lemma_sum_monotone(self@.vertex_weights, v + 1, n as int);
                }
                return None;
            }
            let t = map[v];
            proof {
                lemma_cluster_weight_bounds(self@, map@, t as int, v + 1);
                lemma_sum_monotone(self@.vertex_weights, v + 1, n as int);
                assert(weights@[t as int] as int == cluster_weight_upto(self@, map@, t as int, v as int));
                assert(cluster_weight_upto(self@, map@, t as int, v + 1) == weights@[t as int] + w);
            }
            match weights[t].checked_add(w as i32) {
                Some(s) => weights.set(t, s),
                None => return None,
            }
            let f = self.fixed_block(v);
            if f != UNFIXED {
                proof {
                    assert forall|x: int| 0 <= x < v && self@.fixed[x] != UNFIXED && map@[x] == t implies self@.fixed[x] == f by {
                        assert(mate@[x] as int == v as int);
                        assert(compatible_spec(self@, x, v as int));
                    }
                }
                fixed.set(t, f);
            }
            v = v + 1;
        }
        let m = self.edge_count();
        let (flat, offsets, edge_weights) = match self.contract_edges(&map, next) {
            Some(parts) => parts,
            None => return None,
        };
        let ghost es = coarse_edges_upto(self@, map@, m as int);
        let builder = HypergraphBuilder {
            blocks: k,
            vertices: next,
            edges: edge_weights.len(),
            edges_flat: flat,
            edge_indices: offsets,
            edge_weights: Some(edge_weights),
            vertex_weights: Some(weights),
            fixed_vertices: Some(fixed),
        };
        let ghost cf = fixed@;
        let ghost cw = weights@;
        let ghost cew = edge_weights@;
        proof {
            lemma_edges_round_trip(builder, es);
            assert(builder.model().edges == es);
            lemma_coarse_edge_weight_sum(self@, map@, m as int);
            let cews = coarse_edge_weights_upto(self@, map@, m as int);
            assert(builder.model().edge_weights =~= cews);
            if coarsenable(self@) {
                // the description is valid and its sums fit
                assert forall|c: int| 0 <= c < next implies 0 <= #[trigger] cw[c] <= i32::MAX by {
                    lemma_cluster_weight_bounds(self@, map@, c, n as int);
                }
                let mw = builder.model().vertex_weights;
                assert forall|c: int| 0 <= c < mw.len() implies 0 <= #[trigger] mw[c] <= i32::MAX by {
                    assert(mw[c] == cw[c] as int);
                }
                lemma_sum_bounded(mw, next as int, i32::MAX as int);
                assert(next * (i32::MAX as int) <= u64::MAX) by (nonlinear_arith)
                    requires
                        next <= u32::MAX + 1,
                ;
                lemma_sum_monotone(self@.edge_weights, 0, m as int);
                let k1 = k - 1;
                assert(sum(cews) * k1 <= sum(self@.edge_weights) * k1) by (nonlinear_arith)
                    requires
                        sum(cews) <= sum(self@.edge_weights),
                        k1 >= 1,
                ;
                assert forall|i: int| 0 <= i < cew.len() implies #[trigger] cew[i] >= 0 by {
                    assert(cew[i] as int == cews[i]);
                }
                assert(builder.input_valid());
                assert(builder.weights_fit());
            }
        }
        match builder.build() {
            Ok(coarse) => {
                let r = Contraction { coarse, map };
                proof {
                    assert forall|v: int|
                        0 <= v < self@.vertices && #[trigger] self@.fixed[v] != UNFIXED implies r.coarse@.fixed[r.map@[v] as int]
                            == self@.fixed[v] by {
                        assert(r.coarse@.fixed[r.map@[v] as int] == cf[r.map@[v] as int] as int);
                    }
                    assert forall|c: int|
                        0 <= c < r.coarse@.vertices implies #[trigger] r.coarse@.vertex_weights[c]
                            == cluster_weight_upto(self@, map@, c, n as int) by {
                        assert(r.coarse@.vertex_weights[c] == cw[c] as int);
                    }
                    assert forall|x: int, y: int|
                        0 <= x < n && 0 <= y < n && #[trigger] map@[x] == #[trigger] map@[y] implies compatible_spec(self@, x, y) by {
                        if x != y {
                            assert(mate@[x] as int == y);
                        }
                    }
                    assert forall|x: int, y: int, z: int|
                        0 <= x < n && 0 <= y < n && 0 <= z < n && x != y && y != z && x != z implies !(
                        #[trigger] map@[x] == #[trigger] map@[y] && map@[y] == #[trigger] map@[z]) by {
                        if map@[x] == map@[y] && map@[y] == map@[z] {
                            assert(mate@[x] as int == y);
                            assert(mate@[x] as int == z);
                        }
                    }
                }
                Some(r)
            },
            Err(err) => {
                proof {
                    if coarsenable(self@) {
                        assert(builder.input_valid() && builder.weights_fit());
                        assert(err == PartitionError::InvalidInput || err == PartitionError::WeightOverflow);
                    }
                }
                None
            },
        }
    }

    /// An assignment built level by level: coarsen while the hypergraph is
    /// large and contraction shrinks it, assign on the coarsest level, then
    /// project each level's assignment to the finer one and refine it.
    pub fn multilevel_assignment(
        &self,
        metric: Metric,
        eps_num: u32,
        eps_den: u32,
        passes: usize,
        levels: usize,
    ) -> (r: Vec<i32>)
        requires
            self.wf(),
        ensures
            valid_assignment(self@, r@),
            respects_fixed(self@, r@),
        decreases levels,
    {
        let n = self.vertex_count();
        let k = self.block_count();
        if levels > 0 && n / k > COARSEST_VERTICES_PER_BLOCK {
            if let Some(c) = self.coarsen() {
                if c.coarse.vertex_count() < n {
                    let coarse_part = c.coarse.multilevel_assignment(
                        metric,
                        eps_num,
                        eps_den,
                        passes,
                        levels - 1,
                    );
                    let mut part = self.project(&c, coarse_part.as_slice());
                    self.refine(&mut part, metric, eps_num, eps_den, passes);
                    return part;
                }
            }
        }
        let mut seed: Vec<i32> = Vec::new();
        let mut v: usize = 0;
        while v < n
            invariant
                v <= n,
                seed@.len() == v,
            decreases n - v,
        {
            seed.push(UNFIXED);
            v = v + 1;
        }
        let mut part = self.initial_assignment(seed.as_slice(), eps_num, eps_den);
        self.refine(&mut part, metric, eps_num, eps_den, passes);
        part
    }

    /// Gives each vertex the block of its coarse vertex.
    fn project(&self, c: &Contraction, coarse_part: &[i32]) -> (r: Vec<i32>)
        requires
            self.wf(),
            contraction_ok(self, c),
            valid_assignment(c.coarse@, coarse_part@),
            respects_fixed(c.coarse@, coarse_part@),
        ensures
            valid_assignment(self@, r@),
            respects_fixed(self@, r@),
            forall|v: int| 0 <= v < self@.vertices ==> r@[v] == coarse_part@[#[trigger] c.map@[v] as int],
    {
        let n = self.vertex_count();
        let mut part: Vec<i32> = Vec::new();
        let mut v: usize = 0;
        while v < n
            invariant
                v <= n == self@.vertices,
                contraction_ok(self, c),
                valid_assignment(c.coarse@, coarse_part@),
                part@.len() == v,
                forall|x: int| 0 <= x < v ==> part@[x] == coarse_part@[#[trigger] c.map@[x] as int],
            decreases n - v,
        {
            assert((c.map@[v as int] as int) < c.coarse@.vertices);
            part.push(coarse_part[c.map[v]]);
            v = v + 1;
        }
        proof {
            assert forall|v: int| 0 <= v < self@.vertices implies 0 <= #[trigger] part@[v] < self@.blocks by {
                assert(part@[v] == coarse_part@[c.map@[v] as int]);
                assert((c.map@[v] as int) < c.coarse@.vertices);
            }
            assert forall|v: int|
                0 <= v < self@.vertices && #[trigger] self@.fixed[v] != UNFIXED implies part@[v] as int
                    == self@.fixed[v] by {
                assert(part@[v] == coarse_part@[c.map@[v] as int]);
                assert((c.map@[v] as int) < c.coarse@.vertices);
                assert(c.coarse@.fixed[c.map@[v] as int] == self@.fixed[v]);
            }
        }
        part
    }
}

} // verus!
