//! The hypergraph store and the builder that validates its raw CSR input.

use vstd::prelude::*;

verus! {

/// Sentinel in a fixed-vertex array: the vertex may go to any block.
pub const UNFIXED: i32 = -1;

/// Why a hypergraph could not be built or a partition could not be computed.
#[derive(Debug, Clone, Copy, PartialEq, Eq, Structural)]
pub enum PartitionError {
    /// Malformed incidence data, a bad block count or imbalance, or a length mismatch.
    InvalidInput,
    /// The weights are well formed but their sums do not fit in 64 bits.
    WeightOverflow,
}

/// Raw description of a hypergraph, checked by `build`.
///
/// `edge_indices` holds `edges + 1` offsets into `edges_flat`; the pins of edge
/// `e` are `edges_flat[edge_indices[e]..edge_indices[e + 1]]`.
pub struct HypergraphBuilder {
    pub blocks: usize,
    pub vertices: usize,
    pub edges: usize,
    pub edges_flat: Vec<u32>,
    pub edge_indices: Vec<u64>,
    pub edge_weights: Option<Vec<i32>>,
    pub vertex_weights: Option<Vec<i32>>,
    pub fixed_vertices: Option<Vec<i32>>,
}

/// Mathematical picture of a built hypergraph.
pub ghost struct HypergraphModel {
    pub vertices: nat,
    pub blocks: nat,
    /// The pins of each hyperedge, in input order.
    pub edges: Seq<Seq<u32>>,
    pub edge_weights: Seq<int>,
    pub vertex_weights: Seq<int>,
    /// The block a vertex is fixed to, or `UNFIXED`.
    pub fixed: Seq<int>,
}

impl HypergraphModel {
    pub open spec fn well_formed(self) -> bool {
        &&& 2 <= self.blocks <= i32::MAX
        &&& self.edge_weights.len() == self.edges.len()
        &&& self.vertex_weights.len() == self.vertices
        &&& self.fixed.len() == self.vertices
        &&& forall|e: int, j: int|
            0 <= e < self.edges.len() && 0 <= j < self.edges[e].len() ==> (
            #[trigger] self.edges[e][j] as int) < self.vertices
        &&& forall|e: int| 0 <= e < self.edges.len() ==> #[trigger] self.edge_weights[e] >= 0
        &&& forall|v: int| 0 <= v < self.vertices ==> #[trigger] self.vertex_weights[v] >= 0
        &&& forall|v: int|
            0 <= v < self.vertices ==> #[trigger] self.fixed[v] == UNFIXED || (0 <= self.fixed[v]
                < self.blocks)
    }

    /// Whether edge `e` has vertex `v` among its pins.
    pub open spec fn edge_contains(self, e: int, v: int) -> bool {
        exists|j: int| 0 <= j < self.edges[e].len() && self.edges[e][j] as int == v
    }

    /// The edges below `e` that contain `v`, in increasing order.
    pub open spec fn incident_upto(self, v: int, e: int) -> Seq<usize>
        decreases e,
    {
        if e <= 0 {
            Seq::empty()
        } else if self.edge_contains(e - 1, v) {
            self.incident_upto(v, e - 1).push((e - 1) as usize)
        } else {
            self.incident_upto(v, e - 1)
        }
    }

    /// The edges that contain `v`, each once, in increasing order.
    pub open spec fn incident(self, v: int) -> Seq<usize> {
        self.incident_upto(v, self.edges.len() as int)
    }
}

/// Sum of the first `i` entries of `s`.
pub open spec fn sum_upto(s: Seq<int>, i: int) -> int
    decreases i,
{
    if i <= 0 {
        0
    } else {
        sum_upto(s, i - 1) + s[i - 1]
    }
}

pub open spec fn sum(s: Seq<int>) -> int {
    sum_upto(s, s.len() as int)
}

/// Pins of edge `e` in a CSR pair.
pub open spec fn csr_edge(offsets: Seq<u64>, flat: Seq<u32>, e: int) -> Seq<u32> {
    flat.subrange(offsets[e] as int, offsets[e + 1] as int)
}

/// Well-formed CSR incidence over `vertices` vertices.
pub open spec fn csr_valid(offsets: Seq<u64>, flat: Seq<u32>, vertices: int) -> bool {
    &&& offsets.len() >= 1
    &&& offsets[0] == 0
    &&& forall|i: int| 0 <= i < offsets.len() - 1 ==> #[trigger] offsets[i] <= offsets[i + 1]
    &&& offsets[offsets.len() - 1] == flat.len()
    &&& forall|j: int| 0 <= j < flat.len() ==> (#[trigger] flat[j] as int) < vertices
}

/// A weight array of the given length with no negative entry, or none at all.
pub open spec fn weights_valid(w: Option<Vec<i32>>, len: int) -> bool {
    match w {
        Some(w) => w@.len() == len && forall|i: int| 0 <= i < len ==> #[trigger] w@[i] >= 0,
        None => true,
    }
}

/// The weights given, or unit weights.
pub open spec fn weights_or_unit(w: Option<Vec<i32>>, len: int) -> Seq<int> {
    match w {
        Some(w) => Seq::new(len as nat, |i: int| w@[i] as int),
        None => Seq::new(len as nat, |i: int| 1int),
    }
}

/// A fixed-vertex array of length `vertices` whose entries are blocks or `UNFIXED`.
pub open spec fn fixed_valid(f: Option<Vec<i32>>, vertices: int, blocks: int) -> bool {
    match f {
        Some(f) => f@.len() == vertices && forall|v: int|
            0 <= v < vertices ==> #[trigger] f@[v] == UNFIXED || (0 <= f@[v] < blocks),
        None => true,
    }
}

pub open spec fn fixed_or_none(f: Option<Vec<i32>>, vertices: int) -> Seq<int> {
    match f {
        Some(f) => Seq::new(vertices as nat, |v: int| f@[v] as int),
        None => Seq::new(vertices as nat, |v: int| UNFIXED as int),
    }
}

impl HypergraphBuilder {
    /// Whether `build` accepts the description (weights sums aside).
    pub open spec fn input_valid(&self) -> bool {
        &&& 2 <= self.blocks <= i32::MAX
        &&& csr_valid(self.edge_indices@, self.edges_flat@, self.vertices as int)
        &&& self.edges + 1 == self.edge_indices@.len()
        &&& weights_valid(self.edge_weights, self.edges as int)
        &&& weights_valid(self.vertex_weights, self.vertices as int)
        &&& fixed_valid(self.fixed_vertices, self.vertices as int, self.blocks as int)
    }

    /// The hypergraph that a valid description stands for.
    pub open spec fn model(&self) -> HypergraphModel {
        HypergraphModel {
            vertices: self.vertices as nat,
            blocks: self.blocks as nat,
            edges: Seq::new(
                self.edges as nat,
                |e: int| csr_edge(self.edge_indices@, self.edges_flat@, e),
            ),
            edge_weights: weights_or_unit(self.edge_weights, self.edges as int),
            vertex_weights: weights_or_unit(self.vertex_weights, self.vertices as int),
            fixed: fixed_or_none(self.fixed_vertices, self.vertices as int),
        }
    }

    /// Whether the weight sums that partitioning needs fit in 64 bits: the total
    /// vertex weight, and the total edge weight times `blocks - 1`.
    pub open spec fn weights_fit(&self) -> bool {
        &&& sum(self.model().vertex_weights) <= u64::MAX
        &&& sum(self.model().edge_weights) * (self.blocks - 1) <= u64::MAX
    }

    /// Sets the weight of each hyperedge (unit weights otherwise).
    pub fn edge_weights(self, weights: &[i32]) -> (r: Self)
        ensures
            r == (HypergraphBuilder { edge_weights: Some(r.edge_weights->0), ..self }),
            r.edge_weights->0@ == weights@,
    {
        let mut s = self;
        s.edge_weights = Some(vstd::slice::slice_to_vec(weights));
        s
    }

    /// Sets the weight of each vertex (unit weights otherwise).
    pub fn vertex_weights(self, weights: &[i32]) -> (r: Self)
        ensures
            r == (HypergraphBuilder { vertex_weights: Some(r.vertex_weights->0), ..self }),
            r.vertex_weights->0@ == weights@,
    {
        let mut s = self;
        s.vertex_weights = Some(vstd::slice::slice_to_vec(weights));
        s
    }

    /// Fixes vertices to blocks; an entry of `UNFIXED` leaves the vertex free.
    pub fn fixed_vertices(self, partitions: &[i32]) -> (r: Self)
        ensures
            r == (HypergraphBuilder { fixed_vertices: Some(r.fixed_vertices->0), ..self }),
            r.fixed_vertices->0@ == partitions@,
    {
        let mut s = self;
        s.fixed_vertices = Some(vstd::slice::slice_to_vec(partitions));
        s
    }
}


/// `s` read as integers.
pub open spec fn as_ints(s: Seq<u64>) -> Seq<int> {
    Seq::new(s.len(), |i: int| s[i] as int)
}

/// Whether one of `pins[start..j]` is `u`.
pub open spec fn seen(pins: Seq<u32>, start: int, j: int, u: int) -> bool {
    exists|jj: int| start <= jj < j && pins[jj] as int == u
}

pub proof fn lemma_sum_monotone(s: Seq<int>, i: int, j: int)
    requires
        0 <= i <= j <= s.len(),
        forall|x: int| 0 <= x < s.len() ==> #[trigger] s[x] >= 0,
    ensures
        sum_upto(s, i) <= sum_upto(s, j),
    decreases j - i,
{
    if i < j {
        lemma_sum_monotone(s, i, j - 1);
    }
}

proof fn lemma_offsets_monotone(off: Seq<u64>)
    requires
        forall|i: int| 0 <= i < off.len() - 1 ==> #[trigger] off[i] <= off[i + 1],
    ensures
        forall|i: int, j: int| 0 <= i <= j < off.len() ==> off[i] <= off[j],
{
    assert forall|i: int, j: int| 0 <= i <= j < off.len() implies off[i] <= off[j] by {
        lemma_offsets_step(off, i, j);
    }
}

proof fn lemma_offsets_step(off: Seq<u64>, i: int, j: int)
    requires
        forall|k: int| 0 <= k < off.len() - 1 ==> #[trigger] off[k] <= off[k + 1],
        0 <= i <= j < off.len(),
    ensures
        off[i] <= off[j],
    decreases j - i,
{
    if i < j {
        lemma_offsets_step(off, i, j - 1);
        assert(off[j - 1] <= off[j]);
    }
}

impl HypergraphModel {
    proof fn lemma_incident_below(self, v: int, e: int)
        ensures
            forall|x: int|
                0 <= x < self.incident_upto(v, e).len() ==> #[trigger] self.incident_upto(v, e)[x]
                    < e,
        decreases e,
    {
        if e > 0 {
            self.lemma_incident_below(v, e - 1);
            let prev = self.incident_upto(v, e - 1);
            assert forall|x: int| 0 <= x < self.incident_upto(v, e).len() implies #[trigger] self.incident_upto(v, e)[x] < e by {
                if x < prev.len() {
                    assert(prev[x] < e - 1);
                }
            }
        }
    }
}

/// Checks the CSR arrays against `vertices`.
fn check_csr(offsets: &Vec<u64>, flat: &Vec<u32>, vertices: usize) -> (r: bool)
    ensures
        r == csr_valid(offsets@, flat@, vertices as int),
{
    if offsets.len() == 0 || offsets[0] != 0 || offsets[offsets.len() - 1] != flat.len() as u64 {
        return false;
    }
    let mut i: usize = 0;
    while i + 1 < offsets.len()
        invariant
            i + 1 <= offsets.len(),
            forall|x: int| 0 <= x < i ==> #[trigger] offsets@[x] <= offsets@[x + 1],
        decreases offsets.len() - i,
    {
        if offsets[i] > offsets[i + 1] {
            return false;
        }
        i = i + 1;
    }
    let mut j: usize = 0;
    while j < flat.len()
        invariant
            j <= flat.len(),
            forall|x: int| 0 <= x < j ==> (#[trigger] flat@[x] as int) < vertices,
        decreases flat.len() - j,
    {
        if flat[j] as usize >= vertices {
            return false;
        }
        j = j + 1;
    }
    true
}

/// Checks an optional weight array.
fn check_weights(w: &Option<Vec<i32>>, len: usize) -> (r: bool)
    ensures
        r == weights_valid(*w, len as int),
{
    match w {
        None => true,
        Some(ws) => {
            if ws.len() != len {
                return false;
            }
            let mut i: usize = 0;
            while i < len
                invariant
                    i <= len == ws@.len(),
                    *w == Some(*ws),
                    forall|x: int| 0 <= x < i ==> #[trigger] ws@[x] >= 0,
                decreases len - i,
            {
                if ws[i] < 0 {
                    assert(ws@[i as int] < 0);
                    return false;
                }
                i = i + 1;
            }
            true
        },
    }
}

/// Checks an optional fixed-vertex array.
fn check_fixed(f: &Option<Vec<i32>>, vertices: usize, blocks: usize) -> (r: bool)
    requires
        blocks <= i32::MAX,
    ensures
        r == fixed_valid(*f, vertices as int, blocks as int),
{
    match f {
        None => true,
        Some(fs) => {
            if fs.len() != vertices {
                return false;
            }
            let mut i: usize = 0;
            while i < vertices
                invariant
                    i <= vertices == fs@.len(),
                    blocks <= i32::MAX,
                    *f == Some(*fs),
                    forall|x: int|
                        0 <= x < i ==> #[trigger] fs@[x] == UNFIXED || (0 <= fs@[x] < blocks),
                decreases vertices - i,
            {
                if fs[i] != UNFIXED && (fs[i] < 0 || fs[i] >= blocks as i32) {
                    assert(!(fs@[i as int] == UNFIXED || (0 <= fs@[i as int] < blocks)));
                    return false;
                }
                i = i + 1;
            }
            true
        },
    }
}

/// The weights of a checked array as `u64`, unit weights when there is none.
fn weights_to_u64(w: &Option<Vec<i32>>, len: usize) -> (r: Vec<u64>)
    requires
        weights_valid(*w, len as int),
    ensures
        as_ints(r@) == weights_or_unit(*w, len as int),
{
    let mut r: Vec<u64> = Vec::new();
    let mut i: usize = 0;
    while i < len
        invariant
            i <= len,
            weights_valid(*w, len as int),
            r@.len() == i,
            forall|x: int| 0 <= x < i ==> #[trigger] r@[x] as int == weights_or_unit(*w, len as int)[x],
        decreases len - i,
    {
        match w {
            Some(w) => r.push(w[i] as u64),
            None => r.push(1),
        }
        i = i + 1;
    }
    assert(as_ints(r@) =~= weights_or_unit(*w, len as int));
    r
}

/// The sum of `w`, when it fits in 64 bits.
fn checked_total(w: &Vec<u64>) -> (r: Option<u64>)
    ensures
        r is Some <==> sum(as_ints(w@)) <= u64::MAX,
        r matches Some(t) ==> t == sum(as_ints(w@)),
{
    let ghost s = as_ints(w@);
    let mut acc: u64 = 0;
    let mut i: usize = 0;
    while i < w.len()
        invariant
            i <= w.len(),
            s == as_ints(w@),
            acc == sum_upto(s, i as int),
        decreases w.len() - i,
    {
        match acc.checked_add(w[i]) {
            Some(a) => acc = a,
            None => {
                proof {
                    lemma_sum_monotone(s, i + 1, s.len() as int);
                }
                return None;
            },
        }
        i = i + 1;
    }
    Some(acc)
}


/// A validated hypergraph with its vertex-to-edge incidence lists; it does not
/// change after construction.
pub struct Hypergraph {
    vertices: usize,
    blocks: usize,
    offsets: Vec<usize>,
    pins: Vec<u32>,
    edge_weights: Vec<u64>,
    vertex_weights: Vec<u64>,
    fixed: Vec<i32>,
    incident: Vec<Vec<usize>>,
    total_vertex_weight: u64,
}

/// The pins of edge `e` in the store's own CSR arrays.
spec fn store_edge(offsets: Seq<usize>, pins: Seq<u32>, e: int) -> Seq<u32> {
    pins.subrange(offsets[e] as int, offsets[e + 1] as int)
}

impl View for Hypergraph {
    type V = HypergraphModel;

    closed spec fn view(&self) -> HypergraphModel {
        HypergraphModel {
            vertices: self.vertices as nat,
            blocks: self.blocks as nat,
            edges: Seq::new(
                (self.offsets@.len() - 1) as nat,
                |e: int| store_edge(self.offsets@, self.pins@, e),
            ),
            edge_weights: as_ints(self.edge_weights@),
            vertex_weights: as_ints(self.vertex_weights@),
            fixed: Seq::new(self.fixed@.len(), |v: int| self.fixed@[v] as int),
        }
    }
}

impl Hypergraph {
    /// Internal consistency of the store with its model.
    pub closed spec fn inv(&self) -> bool {
        &&& self.offsets@.len() >= 1
        &&& self.offsets@[0] == 0
        &&& forall|i: int, j: int|
            0 <= i <= j < self.offsets@.len() ==> self.offsets@[i] <= self.offsets@[j]
        &&& self.offsets@[self.offsets@.len() - 1] == self.pins@.len()
        &&& self.edge_weights@.len() == self.offsets@.len() - 1
        &&& self.vertex_weights@.len() == self.vertices
        &&& self.fixed@.len() == self.vertices
        &&& self.incident@.len() == self.vertices
        &&& forall|v: int|
            0 <= v < self.vertices ==> (#[trigger] self.incident@[v])@ == self@.incident(v)
        &&& self.total_vertex_weight == sum(self@.vertex_weights)
    }

    /// A built hypergraph: consistent, well formed, and with weight sums that fit.
    pub open spec fn wf(&self) -> bool {
        &&& self.inv()
        &&& self@.well_formed()
        &&& sum(self@.vertex_weights) <= u64::MAX
        &&& sum(self@.edge_weights) * (self@.blocks - 1) <= u64::MAX
    }
}

/// For each vertex, the edges that contain it.
fn build_incidence(vertices: usize, offsets: &Vec<usize>, pins: &Vec<u32>, Ghost(
    model,
): Ghost<HypergraphModel>) -> (r: Vec<Vec<usize>>)
    requires
        offsets@.len() >= 1,
        forall|i: int, j: int| 0 <= i <= j < offsets@.len() ==> offsets@[i] <= offsets@[j],
        offsets@[offsets@.len() - 1] == pins@.len(),
        forall|j: int| 0 <= j < pins@.len() ==> (#[trigger] pins@[j] as int) < vertices,
        model.edges.len() == offsets@.len() - 1,
        forall|e: int|
            0 <= e < model.edges.len() ==> #[trigger] model.edges[e] == store_edge(
                offsets@,
                pins@,
                e,
            ),
    ensures
        r@.len() == vertices,
        forall|v: int| 0 <= v < vertices ==> (#[trigger] r@[v])@ == model.incident(v),
{
    let mut inc: Vec<Vec<usize>> = Vec::new();
    let mut v: usize = 0;
    while v < vertices
        invariant
            v <= vertices,
            inc@.len() == v,
            forall|u: int| 0 <= u < v ==> (#[trigger] inc@[u])@ == Seq::<usize>::empty(),
        decreases vertices - v,
    {
        inc.push(Vec::new());
        v = v + 1;
    }
    let m = offsets.len() - 1;
    let mut e: usize = 0;
    while e < m
        invariant
            e <= m == offsets@.len() - 1,
            offsets@.len() >= 1,
            forall|i: int, j: int| 0 <= i <= j < offsets@.len() ==> offsets@[i] <= offsets@[j],
            offsets@[offsets@.len() - 1] == pins@.len(),
            forall|j: int| 0 <= j < pins@.len() ==> (#[trigger] pins@[j] as int) < vertices,
            model.edges.len() == m,
            forall|x: int|
                0 <= x < model.edges.len() ==> #[trigger] model.edges[x] == store_edge(
                    offsets@,
                    pins@,
                    x,
                ),
            inc@.len() == vertices,
            forall|u: int| 0 <= u < vertices ==> (#[trigger] inc@[u])@ == model.incident_upto(u, e as int),
        decreases m - e,
    {
        let start = offsets[e];
        let end = offsets[e + 1];
        let mut j = start;
        while j < end
            invariant
                start <= j <= end <= pins@.len(),
                start == offsets@[e as int],
                end == offsets@[e + 1],
                e < m,
                forall|jj: int| 0 <= jj < pins@.len() ==> (#[trigger] pins@[jj] as int) < vertices,
                inc@.len() == vertices,
                forall|u: int|
                    0 <= u < vertices ==> (#[trigger] inc@[u])@ == if seen(pins@, start as int, j as int, u) {
                        model.incident_upto(u, e as int).push(e)
                    } else {
                        model.incident_upto(u, e as int)
                    },
            decreases end - j,
        {
            let p = pins[j] as usize;
            let len = inc[p].len();
            proof {
                model.lemma_incident_below(p as int, e as int);
                if !seen(pins@, start as int, j as int, p as int) && len > 0 {
                    assert(inc@[p as int]@[len - 1] < e);
                }
            }
            if len == 0 || inc[p][len - 1] != e {
                inc[p].push(e);
            }
            proof {
                assert(seen(pins@, start as int, j + 1, p as int)) by {
                    assert(pins@[j as int] as int == p as int);
                }
                assert forall|u: int| 0 <= u < vertices implies (#[trigger] inc@[u])@ == if seen(pins@, start as int, j + 1, u) {
                    model.incident_upto(u, e as int).push(e)
                } else {
                    model.incident_upto(u, e as int)
                } by {
                    if u != p as int {
                        if seen(pins@, start as int, j + 1, u) {
                            let jj = choose|jj: int| start <= jj < j + 1 && pins@[jj] as int == u;
                            assert(jj != j);
                        }
                    }
                }
            }
            j = j + 1;
        }
        proof {
            assert forall|u: int| 0 <= u < vertices implies (#[trigger] inc@[u])@ == model.incident_upto(u, e + 1) by {
                let edge = model.edges[e as int];
                assert(edge == store_edge(offsets@, pins@, e as int));
                if seen(pins@, start as int, end as int, u) {
                    let jj = choose|jj: int| start <= jj < end && pins@[jj] as int == u;
                    assert(edge[jj - start] == pins@[jj]);
                }
                if model.edge_contains(e as int, u) {
                    let k = choose|k: int| 0 <= k < edge.len() && edge[k] as int == u;
                    assert(pins@[start + k] == edge[k]);
                }
            }
        }
        e = e + 1;
    }
    inc
}


proof fn lemma_csr_pins_bounded(offsets: Seq<u64>, flat: Seq<u32>, vertices: int)
    requires
        csr_valid(offsets, flat, vertices),
    ensures
        forall|e: int, j: int|
            0 <= e < offsets.len() - 1 && 0 <= j < csr_edge(offsets, flat, e).len() ==> (
            #[trigger] csr_edge(offsets, flat, e)[j] as int) < vertices,
{
    assert forall|e: int, j: int|
        0 <= e < offsets.len() - 1 && 0 <= j < csr_edge(offsets, flat, e).len() implies (
        #[trigger] csr_edge(offsets, flat, e)[j] as int) < vertices by {
        lemma_offsets_step(offsets, e + 1, offsets.len() - 1);
        assert(csr_edge(offsets, flat, e)[j] == flat[offsets[e] + j]);
    }
}

/// The CSR offsets as `usize`; each is at most the pin count.
fn offsets_to_usize(edge_indices: &Vec<u64>, pin_count: usize) -> (r: Vec<usize>)
    requires
        edge_indices@.len() >= 1,
        forall|i: int| 0 <= i < edge_indices@.len() - 1 ==> #[trigger] edge_indices@[i] <= edge_indices@[i + 1],
        edge_indices@[edge_indices@.len() - 1] == pin_count,
    ensures
        r@.len() == edge_indices@.len(),
        forall|x: int| 0 <= x < r@.len() ==> r@[x] as int == #[trigger] edge_indices@[x] as int,
        forall|a: int, b: int| 0 <= a <= b < r@.len() ==> r@[a] <= r@[b],
        r@[r@.len() - 1] == pin_count,
{
    proof {
        lemma_offsets_monotone(edge_indices@);
    }
    let mut offsets: Vec<usize> = Vec::new();
    let mut i: usize = 0;
    while i < edge_indices.len()
        invariant
            i <= edge_indices@.len(),
            offsets@.len() == i,
            forall|a: int, b: int|
                0 <= a <= b < edge_indices@.len() ==> edge_indices@[a] <= edge_indices@[b],
            edge_indices@[edge_indices@.len() - 1] == pin_count,
            forall|x: int| 0 <= x < i ==> offsets@[x] as int == #[trigger] edge_indices@[x] as int,
        decreases edge_indices@.len() - i,
    {
        let o = edge_indices[i];
        assert(o <= pin_count);
        let ou = o as usize;
        assert(ou as int == o as int);
        offsets.push(ou);
        i = i + 1;
    }
    assert forall|a: int, b: int| 0 <= a <= b < offsets@.len() implies offsets@[a] <= offsets@[b] by {
        assert(offsets@[a] as int == edge_indices@[a] as int);
        assert(offsets@[b] as int == edge_indices@[b] as int);
    }
    offsets
}

/// `len` copies of `UNFIXED`, or the given fixed-vertex array.
fn fixed_to_vec(f: Option<Vec<i32>>, vertices: usize) -> (r: Vec<i32>)
    requires
        f matches Some(fs) ==> fs@.len() == vertices,
    ensures
        r@.len() == vertices,
        forall|v: int| 0 <= v < vertices ==> r@[v] as int == #[trigger] fixed_or_none(f, vertices as int)[v],
{
    match f {
        Some(fs) => fs,
        None => {
            let mut r: Vec<i32> = Vec::new();
            let mut i: usize = 0;
            while i < vertices
                invariant
                    i <= vertices,
                    r@.len() == i,
                    forall|v: int| 0 <= v < i ==> r@[v] == UNFIXED,
                decreases vertices - i,
            {
                r.push(UNFIXED);
                i = i + 1;
            }
            r
        },
    }
}

impl HypergraphBuilder {
    /// Validates the description and builds the hypergraph store.
    #[verifier::rlimit(30)]
    pub fn build(self) -> (r: Result<Hypergraph, PartitionError>)
        ensures
            r == Err::<Hypergraph, PartitionError>(PartitionError::InvalidInput) <==> !self.input_valid(),
            r == Err::<Hypergraph, PartitionError>(PartitionError::WeightOverflow) <==> self.input_valid()
                && !self.weights_fit(),
            r matches Ok(h) ==> h.wf() && h@ == self.model(),
    {
        let ghost old_self = self;
        if self.blocks < 2 || self.blocks > i32::MAX as usize || self.edge_indices.len() == 0
            || self.edges != self.edge_indices.len() - 1 {
            return Err(PartitionError::InvalidInput);
        }
        if !check_csr(&self.edge_indices, &self.edges_flat, self.vertices) || !check_weights(
            &self.edge_weights,
            self.edges,
        ) || !check_weights(&self.vertex_weights, self.vertices) || !check_fixed(
            &self.fixed_vertices,
            self.vertices,
            self.blocks,
        ) {
            return Err(PartitionError::InvalidInput);
        }
        let ghost model = self.model();
        let ew = weights_to_u64(&self.edge_weights, self.edges);
        let vw = weights_to_u64(&self.vertex_weights, self.vertices);
        let total_vertex_weight = match checked_total(&vw) {
            Some(t) => t,
            None => return Err(PartitionError::WeightOverflow),
        };
        let total_edge_weight = match checked_total(&ew) {
            Some(t) => t,
            None => {
                proof {
                    let t = sum(as_ints(ew@));
                    let k1 = self.blocks - 1;
                    assert(t * k1 > u64::MAX) by (nonlinear_arith)
                        requires
                            t > u64::MAX,
                            k1 >= 1,
                    ;
                }
                return Err(PartitionError::WeightOverflow);
            },
        };
        if total_edge_weight.checked_mul((self.blocks - 1) as u64).is_none() {
            return Err(PartitionError::WeightOverflow);
        }
        let HypergraphBuilder {
            blocks,
            vertices,
            edges,
            edges_flat,
            edge_indices,
            edge_weights: _,
            vertex_weights: _,
            fixed_vertices,
        } = self;
        let offsets = offsets_to_usize(&edge_indices, edges_flat.len());
        let fixed = fixed_to_vec(fixed_vertices, vertices);
        proof {
            assert forall|e: int| 0 <= e < model.edges.len() implies #[trigger] model.edges[e]
                == store_edge(offsets@, edges_flat@, e) by {
                assert(offsets@[e] as int == edge_indices@[e] as int);
                assert(offsets@[e + 1] as int == edge_indices@[e + 1] as int);
            }
        }
        let incident = build_incidence(vertices, &offsets, &edges_flat, Ghost(model));
        let h = Hypergraph {
            vertices,
            blocks,
            offsets,
            pins: edges_flat,
            edge_weights: ew,
            vertex_weights: vw,
            fixed,
            incident,
            total_vertex_weight,
        };
        proof {
            assert(h@.edges =~= model.edges);
            assert(h@.fixed =~= model.fixed);
            assert(h@ == model);
            lemma_csr_pins_bounded(edge_indices@, edges_flat@, vertices as int);
        }
        Ok(h)
    }
}


/// The concatenation of the first `i` edges.
pub open spec fn flatten_upto(edges: Seq<Seq<u32>>, i: int) -> Seq<u32>
    decreases i,
{
    if i <= 0 {
        Seq::empty()
    } else {
        flatten_upto(edges, i - 1) + edges[i - 1]
    }
}

/// CSR arrays that list `edges` in order.
pub open spec fn lists_edges(b: HypergraphBuilder, edges: Seq<Seq<u32>>) -> bool {
    &&& b.edges == edges.len()
    &&& b.edges_flat@ == flatten_upto(edges, edges.len() as int)
    &&& b.edge_indices@.len() == edges.len() + 1
    &&& forall|i: int|
        0 <= i <= edges.len() ==> #[trigger] b.edge_indices@[i] == flatten_upto(edges, i).len()
}

/// The vertices below `v` that the incidence matrix puts in edge `e`, ascending.
pub open spec fn column_upto(incidence: Seq<Vec<bool>>, e: int, v: int) -> Seq<u32>
    decreases v,
{
    if v <= 0 {
        Seq::empty()
    } else if incidence[v - 1]@[e] {
        column_upto(incidence, e, v - 1).push((v - 1) as u32)
    } else {
        column_upto(incidence, e, v - 1)
    }
}

/// The edges of an incidence matrix whose rows are vertices.
pub open spec fn matrix_edges(incidence: Seq<Vec<bool>>, edges: int) -> Seq<Seq<u32>> {
    Seq::new(edges as nat, |e: int| column_upto(incidence, e, incidence.len() as int))
}

pub open spec fn no_options(b: HypergraphBuilder) -> bool {
    &&& b.edge_weights is None
    &&& b.vertex_weights is None
    &&& b.fixed_vertices is None
}

impl Hypergraph {
    /// Describes a hypergraph by CSR arrays: edge `e` has the pins
    /// `edges_flat[edge_indices[e]..edge_indices[e + 1]]`. An empty offset
    /// array describes no edge count; `build` rejects it.
    pub fn from_raw(blocks: usize, vertices: usize, edges_flat: &[u32], edge_indices: &[u64]) -> (r:
        HypergraphBuilder)
        ensures
            r.blocks == blocks,
            r.vertices == vertices,
            edge_indices@.len() >= 1 ==> r.edges == edge_indices@.len() - 1,
            r.edges_flat@ == edges_flat@,
            r.edge_indices@ == edge_indices@,
            no_options(r),
    {
        HypergraphBuilder {
            blocks,
            vertices,
            edges: if edge_indices.len() == 0 {
                0
            } else {
                edge_indices.len() - 1
            },
            edges_flat: vstd::slice::slice_to_vec(edges_flat),
            edge_indices: vstd::slice::slice_to_vec(edge_indices),
            edge_weights: None,
            vertex_weights: None,
            fixed_vertices: None,
        }
    }

    /// Describes a hypergraph by the list of its edges.
    pub fn from_edges(blocks: usize, vertices: usize, edges: &[Vec<u32>]) -> (r: HypergraphBuilder)
        ensures
            r.blocks == blocks,
            r.vertices == vertices,
            lists_edges(r, edges@.map_values(|x: Vec<u32>| x@)),
            no_options(r),
    {
        let ghost es = edges@.map_values(|x: Vec<u32>| x@);
        let mut edges_flat: Vec<u32> = Vec::new();
        let mut edge_indices: Vec<u64> = vec![0];
        let mut e: usize = 0;
        while e < edges.len()
            invariant
                e <= edges@.len() == es.len(),
                es == edges@.map_values(|x: Vec<u32>| x@),
                edges_flat@ == flatten_upto(es, e as int),
                edge_indices@.len() == e + 1,
                forall|i: int| 0 <= i <= e ==> #[trigger] edge_indices@[i] == flatten_upto(es, i).len(),
            decreases edges@.len() - e,
        {
            let edge = &edges[e];
            let mut j: usize = 0;
            while j < edge.len()
                invariant
                    j <= edge@.len(),
                    edge@ == es[e as int],
                    e < es.len(),
                    edges_flat@ == flatten_upto(es, e as int) + edge@.subrange(0, j as int),
                decreases edge@.len() - j,
            {
                edges_flat.push(edge[j]);
                j = j + 1;
                assert(edge@.subrange(0, j as int) =~= edge@.subrange(0, j - 1).push(edge@[j - 1]));
            }
            assert(edge@.subrange(0, j as int) =~= edge@);
            edge_indices.push(edges_flat.len() as u64);
            e = e + 1;
        }
        HypergraphBuilder {
            blocks,
            vertices,
            edges: edges.len(),
            edges_flat,
            edge_indices,
            edge_weights: None,
            vertex_weights: None,
            fixed_vertices: None,
        }
    }

    /// Describes a hypergraph by an incidence matrix: vertex `v` is a pin of
    /// edge `e` when `incidence[v][e]` holds.
    pub fn from_incidence(blocks: usize, vertices: usize, edges: usize, incidence: &[Vec<bool>]) -> (r:
        HypergraphBuilder)
        requires
            incidence@.len() == vertices,
            vertices <= u32::MAX + 1,
            forall|v: int| 0 <= v < vertices ==> (#[trigger] incidence@[v])@.len() >= edges,
        ensures
            r.blocks == blocks,
            r.vertices == vertices,
            lists_edges(r, matrix_edges(incidence@, edges as int)),
            no_options(r),
    {
        let ghost es = matrix_edges(incidence@, edges as int);
        let mut edges_flat: Vec<u32> = Vec::new();
        let mut edge_indices: Vec<u64> = vec![0];
        let mut e: usize = 0;
        while e < edges
            invariant
                e <= edges == es.len(),
                es == matrix_edges(incidence@, edges as int),
                incidence@.len() == vertices <= u32::MAX + 1,
                forall|v: int| 0 <= v < vertices ==> (#[trigger] incidence@[v])@.len() >= edges,
                edges_flat@ == flatten_upto(es, e as int),
                edge_indices@.len() == e + 1,
                forall|i: int| 0 <= i <= e ==> #[trigger] edge_indices@[i] == flatten_upto(es, i).len(),
            decreases edges - e,
        {
            let mut v: usize = 0;
            while v < vertices
                invariant
                    v <= vertices == incidence@.len() <= u32::MAX + 1,
                    e < edges,
                    forall|u: int| 0 <= u < vertices ==> (#[trigger] incidence@[u])@.len() >= edges,
                    edges_flat@ == flatten_upto(es, e as int) + column_upto(incidence@, e as int, v as int),
                decreases vertices - v,
            {
                if incidence[v][e] {
                    edges_flat.push(v as u32);
                }
                v = v + 1;
            }
            edge_indices.push(edges_flat.len() as u64);
            e = e + 1;
        }
        HypergraphBuilder {
            blocks,
            vertices,
            edges,
            edges_flat,
            edge_indices,
            edge_weights: None,
            vertex_weights: None,
            fixed_vertices: None,
        }
    }

    pub fn vertex_count(&self) -> (r: usize)
        ensures
            r == self@.vertices,
    {
        self.vertices
    }

    pub fn block_count(&self) -> (r: usize)
        ensures
            r == self@.blocks,
    {
        self.blocks
    }

    pub fn edge_count(&self) -> (r: usize)
        requires
            self.wf(),
        ensures
            r == self@.edges.len(),
    {
        self.offsets.len() - 1
    }

    /// The pins of edge `e`, as given at construction.
    pub fn edge_pins(&self, e: usize) -> (r: &[u32])
        requires
            self.wf(),
            e < self@.edges.len(),
        ensures
            r@ == self@.edges[e as int],
    {
        let n_off = self.offsets.len();
        assert(e + 1 < n_off);
        let a = self.offsets[e];
        let b = self.offsets[e + 1];
        vstd::slice::slice_subrange(self.pins.as_slice(), a, b)
    }

    /// The edges that contain `v`, each once, in increasing order.
    pub fn incident_edges(&self, v: usize) -> (r: &[usize])
        requires
            self.wf(),
            v < self@.vertices,
        ensures
            r@ == self@.incident(v as int),
    {
        self.incident[v].as_slice()
    }

    pub fn edge_weight(&self, e: usize) -> (r: u64)
        requires
            self.wf(),
            e < self@.edges.len(),
        ensures
            r == self@.edge_weights[e as int],
    {
        self.edge_weights[e]
    }

    pub fn vertex_weight(&self, v: usize) -> (r: u64)
        requires
            self.wf(),
            v < self@.vertices,
        ensures
            r == self@.vertex_weights[v as int],
    {
        self.vertex_weights[v]
    }

    /// The block that `v` is fixed to, or `UNFIXED`.
    pub fn fixed_block(&self, v: usize) -> (r: i32)
        requires
            self.wf(),
            v < self@.vertices,
        ensures
            r == self@.fixed[v as int],
    {
        self.fixed[v]
    }

    pub fn total_vertex_weight(&self) -> (r: u64)
        requires
            self.wf(),
        ensures
            r == sum(self@.vertex_weights),
    {
        self.total_vertex_weight
    }
}

} // verus!
