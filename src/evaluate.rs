//! The partition evaluator: objective values and block weights.

use vstd::prelude::*;
use crate::hypergraph::{
    Hypergraph,
    HypergraphModel,
    PartitionError,
    UNFIXED,
    sum,
    sum_upto,
    lemma_sum_monotone,
};

verus! {

/// The objective that partitioning minimises.
#[derive(Debug, Clone, Copy, PartialEq, Eq, Structural)]
pub enum Metric {
    /// Total weight of the hyperedges that span more than one block.
    Cut,
    /// Sum over hyperedges of weight times (blocks spanned - 1).
    Km1,
}

/// One block in `[0, blocks)` for every vertex.
pub open spec fn valid_assignment(hg: HypergraphModel, part: Seq<i32>) -> bool {
    &&& part.len() == hg.vertices
    &&& forall|v: int| 0 <= v < part.len() ==> 0 <= #[trigger] part[v] < hg.blocks
}

/// Every fixed vertex sits in its block.
pub open spec fn respects_fixed(hg: HypergraphModel, part: Seq<i32>) -> bool {
    forall|v: int|
        0 <= v < hg.vertices && #[trigger] hg.fixed[v] != UNFIXED ==> part[v] as int == hg.fixed[v]
}

/// Whether some pin of `edge` lies in block `b`.
pub open spec fn touches(edge: Seq<u32>, part: Seq<i32>, b: int) -> bool {
    exists|j: int| 0 <= j < edge.len() && part[edge[j] as int] == b
}

/// How many of the blocks below `b` the edge touches.
pub open spec fn connectivity_upto(edge: Seq<u32>, part: Seq<i32>, b: int) -> int
    decreases b,
{
    if b <= 0 {
        0
    } else {
        connectivity_upto(edge, part, b - 1) + if touches(edge, part, b - 1) {
            1int
        } else {
            0int
        }
    }
}

/// How many blocks edge `e` spans.
pub open spec fn connectivity(hg: HypergraphModel, part: Seq<i32>, e: int) -> int {
    connectivity_upto(hg.edges[e], part, hg.blocks as int)
}

/// What edge `e` adds to the objective.
pub open spec fn edge_cost(hg: HypergraphModel, part: Seq<i32>, metric: Metric, e: int) -> int {
    let lambda = connectivity(hg, part, e);
    let w = hg.edge_weights[e];
    if lambda <= 1 {
        0
    } else {
        match metric {
            Metric::Cut => w,
            Metric::Km1 => w * (lambda - 1),
        }
    }
}

pub open spec fn objective_upto(hg: HypergraphModel, part: Seq<i32>, metric: Metric, e: int) -> int
    decreases e,
{
    if e <= 0 {
        0
    } else {
        objective_upto(hg, part, metric, e - 1) + edge_cost(hg, part, metric, e - 1)
    }
}

/// The objective value of an assignment.
pub open spec fn objective(hg: HypergraphModel, part: Seq<i32>, metric: Metric) -> int {
    objective_upto(hg, part, metric, hg.edges.len() as int)
}

/// Weight of the vertices below `v` in block `b`.
pub open spec fn block_weight_upto(hg: HypergraphModel, part: Seq<i32>, b: int, v: int) -> int
    decreases v,
{
    if v <= 0 {
        0
    } else {
        block_weight_upto(hg, part, b, v - 1) + if part[v - 1] == b {
            hg.vertex_weights[v - 1]
        } else {
            0
        }
    }
}

/// Total weight of the vertices in block `b`.
pub open spec fn block_weight(hg: HypergraphModel, part: Seq<i32>, b: int) -> int {
    block_weight_upto(hg, part, b, hg.vertices as int)
}

/// `ceil(total weight / blocks)`.
pub open spec fn even_share(hg: HypergraphModel) -> int {
    (sum(hg.vertex_weights) + hg.blocks - 1) / (hg.blocks as int)
}

/// Every block weighs at most `(1 + num / den) * ceil(total / blocks)`.
pub open spec fn balanced(hg: HypergraphModel, part: Seq<i32>, num: int, den: int) -> bool {
    forall|b: int|
        0 <= b < hg.blocks ==> #[trigger] block_weight(hg, part, b) * den <= (den + num)
            * even_share(hg)
}

/// How far block `b` exceeds the imbalance bound, scaled by `den`.
pub open spec fn excess(hg: HypergraphModel, part: Seq<i32>, num: int, den: int, b: int) -> int {
    let over = block_weight(hg, part, b) * den - (den + num) * even_share(hg);
    if over > 0 {
        over
    } else {
        0
    }
}

/// Total excess of the blocks below `b`.
pub open spec fn overload_upto(hg: HypergraphModel, part: Seq<i32>, num: int, den: int, b: int) -> int
    decreases b,
{
    if b <= 0 {
        0
    } else {
        overload_upto(hg, part, num, den, b - 1) + excess(hg, part, num, den, b - 1)
    }
}

/// A feasible assignment: valid, honouring fixed vertices, and balanced.
pub open spec fn feasible(hg: HypergraphModel, part: Seq<i32>, num: int, den: int) -> bool {
    &&& valid_assignment(hg, part)
    &&& respects_fixed(hg, part)
    &&& balanced(hg, part, num, den)
}

/// Objective and block weights of an assignment.
pub struct Evaluation {
    pub objective: u64,
    pub block_weights: Vec<u64>,
}

pub proof fn lemma_connectivity_bounds(edge: Seq<u32>, part: Seq<i32>, b: int)
    requires
        b >= 0,
    ensures
        0 <= connectivity_upto(edge, part, b) <= b,
    decreases b,
{
    if b > 0 {
        lemma_connectivity_bounds(edge, part, b - 1);
    }
}

pub proof fn lemma_objective_bounds(hg: HypergraphModel, part: Seq<i32>, metric: Metric, e: int)
    requires
        hg.well_formed(),
        0 <= e <= hg.edges.len(),
    ensures
        0 <= objective_upto(hg, part, metric, e) <= sum_upto(hg.edge_weights, e) * (hg.blocks - 1),
    decreases e,
{
    if e > 0 {
        lemma_objective_bounds(hg, part, metric, e - 1);
        let lambda = connectivity(hg, part, e - 1);
        lemma_connectivity_bounds(hg.edges[e - 1], part, hg.blocks as int);
        let w = hg.edge_weights[e - 1];
        let k1 = hg.blocks - 1;
        assert(w >= 0);
        assert(0 <= edge_cost(hg, part, metric, e - 1) <= w * k1) by {
            assert(w <= w * k1) by (nonlinear_arith)
                requires
                    w >= 0,
                    k1 >= 1,
            ;
            if lambda > 1 {
                assert(0 <= w * (lambda - 1) <= w * k1) by (nonlinear_arith)
                    requires
                        w >= 0,
                        1 <= lambda - 1 <= k1,
                ;
            }
        }
        let s = sum_upto(hg.edge_weights, e - 1);
        assert(s * k1 + w * k1 == (s + w) * k1) by (nonlinear_arith);
    }
}

pub proof fn lemma_block_weight_bounds(hg: HypergraphModel, part: Seq<i32>, b: int, v: int)
    requires
        hg.well_formed(),
        0 <= v <= hg.vertices,
    ensures
        0 <= block_weight_upto(hg, part, b, v) <= sum_upto(hg.vertex_weights, v),
    decreases v,
{
    if v > 0 {
        lemma_block_weight_bounds(hg, part, b, v - 1);
        assert(hg.vertex_weights[v - 1] >= 0);
    }
}

impl Hypergraph {
    /// How many blocks edge `e` spans.
    fn edge_connectivity(&self, part: &[i32], e: usize) -> (r: usize)
        requires
            self.wf(),
            valid_assignment(self@, part@),
            e < self@.edges.len(),
        ensures
            r == connectivity(self@, part@, e as int),
    {
        let pins = self.edge_pins(e);
        let k = self.block_count();
        let ghost edge = self@.edges[e as int];
        let mut count: usize = 0;
        let mut b: usize = 0;
        while b < k
            invariant
                b <= k == self@.blocks <= i32::MAX,
                pins@ == edge,
                self.wf(),
                e < self@.edges.len(),
                edge == self@.edges[e as int],
                valid_assignment(self@, part@),
                count == connectivity_upto(edge, part@, b as int),
                count <= b,
            decreases k - b,
        {
            let mut found = false;
            let mut j: usize = 0;
            while j < pins.len()
                invariant
                    j <= pins@.len(),
                    pins@ == edge,
                    b < k == self@.blocks,
                    self.wf(),
                    e < self@.edges.len(),
                    edge == self@.edges[e as int],
                    valid_assignment(self@, part@),
                    found == exists|jj: int| 0 <= jj < j && part@[edge[jj] as int] == b,
                decreases pins@.len() - j,
            {
                assert((self@.edges[e as int][j as int] as int) < self@.vertices);
                let pb = b as i32;
                if part[pins[j] as usize] == pb {
                    found = true;
                }
                j = j + 1;
            }
            if found {
                count = count + 1;
            }
            b = b + 1;
        }
        count
    }

    /// The objective value of a valid assignment.
    pub fn objective(&self, part: &[i32], metric: Metric) -> (r: u64)
        requires
            self.wf(),
            valid_assignment(self@, part@),
        ensures
            r == objective(self@, part@, metric),
    {
        let m = self.edge_count();
        let k = self.block_count();
        let mut acc: u64 = 0;
        let mut e: usize = 0;
        while e < m
            invariant
                e <= m == self@.edges.len(),
                k == self@.blocks,
                self.wf(),
                valid_assignment(self@, part@),
                acc == objective_upto(self@, part@, metric, e as int),
            decreases m - e,
        {
            let lambda = self.edge_connectivity(part, e);
            let w = self.edge_weight(e);
            proof {
                let hg = self@;
                lemma_objective_bounds(hg, part@, metric, e + 1);
                lemma_objective_bounds(hg, part@, metric, e as int);
                lemma_connectivity_bounds(hg.edges[e as int], part@, k as int);
                lemma_sum_monotone(hg.edge_weights, e + 1, m as int);
                let k1 = k - 1;
                assert(sum_upto(hg.edge_weights, e + 1) * k1 <= sum(hg.edge_weights) * k1)
                    by (nonlinear_arith)
                    requires
                        sum_upto(hg.edge_weights, e + 1) <= sum(hg.edge_weights),
                        k1 >= 1,
                ;
            }
            let cost: u64 = if lambda <= 1 {
                0
            } else {
                match metric {
                    Metric::Cut => w,
                    Metric::Km1 => w * ((lambda - 1) as u64),
                }
            };
            acc = acc + cost;
            e = e + 1;
        }
        acc
    }

    /// The weight of each block under a valid assignment.
    pub fn block_weights(&self, part: &[i32]) -> (r: Vec<u64>)
        requires
            self.wf(),
            valid_assignment(self@, part@),
        ensures
            r@.len() == self@.blocks,
            forall|b: int| 0 <= b < self@.blocks ==> r@[b] == #[trigger] block_weight(self@, part@, b),
    {
        let k = self.block_count();
        let n = self.vertex_count();
        let mut weights: Vec<u64> = Vec::new();
        let mut b: usize = 0;
        while b < k
            invariant
                b <= k,
                weights@.len() == b,
                forall|x: int| 0 <= x < b ==> weights@[x] == 0,
            decreases k - b,
        {
            weights.push(0);
            b = b + 1;
        }
        let mut v: usize = 0;
        while v < n
            invariant
                v <= n == self@.vertices,
                k == self@.blocks,
                self.wf(),
                valid_assignment(self@, part@),
                weights@.len() == k,
                forall|x: int|
                    0 <= x < k ==> weights@[x] == #[trigger] block_weight_upto(self@, part@, x, v as int),
            decreases n - v,
        {
            let p = part[v] as usize;
            let w = self.vertex_weight(v);
            proof {
                lemma_block_weight_bounds(self@, part@, p as int, v + 1);
                lemma_sum_monotone(self@.vertex_weights, v + 1, n as int);
                assert(weights@[p as int] == block_weight_upto(self@, part@, p as int, v as int));
                assert(block_weight_upto(self@, part@, p as int, v + 1) == weights@[p as int] + w);
            }
            weights.set(p, weights[p] + w);
            proof {
                assert forall|x: int| 0 <= x < k implies weights@[x] == #[trigger] block_weight_upto(self@, part@, x, v + 1) by {
                    if x != p as int {
                        assert(block_weight_upto(self@, part@, x, v + 1) == block_weight_upto(self@, part@, x, v as int));
                    }
                }
            }
            v = v + 1;
        }
        weights
    }

    /// Whether every block weighs at most `(1 + eps_num / eps_den)` times the
    /// even share `ceil(total weight / blocks)`.
    pub fn is_balanced(&self, part: &[i32], eps_num: u32, eps_den: u32) -> (r: bool)
        requires
            self.wf(),
            valid_assignment(self@, part@),
        ensures
            r == balanced(self@, part@, eps_num as int, eps_den as int),
    {
        let weights = self.block_weights(part);
        let k = self.block_count();
        let total = self.total_vertex_weight();
        let share: u128 = (total as u128 + k as u128 - 1) / (k as u128);
        assert(share == even_share(self@));
        assert(share <= total) by (nonlinear_arith)
            requires
                share == (total + k - 1) / (k as int),
                k >= 2,
        ;
        assert((eps_den + eps_num) * share <= 0x2_0000_0000 * u64::MAX) by (nonlinear_arith)
            requires
                eps_den + eps_num <= 0x2_0000_0000,
                share <= u64::MAX,
        ;
        let limit: u128 = (eps_den as u128 + eps_num as u128) * share;
        let mut b: usize = 0;
        while b < k
            invariant
                b <= k == self@.blocks,
                weights@.len() == k,
                forall|x: int| 0 <= x < k ==> weights@[x] == #[trigger] block_weight(self@, part@, x),
                limit == (eps_den + eps_num) * even_share(self@),
                forall|x: int|
                    0 <= x < b ==> #[trigger] block_weight(self@, part@, x) * eps_den <= (eps_den
                        + eps_num) * even_share(self@),
            decreases k - b,
        {
            let wb = weights[b];
            assert(wb * eps_den <= u64::MAX * u32::MAX) by (nonlinear_arith)
                requires
                    wb <= u64::MAX,
                    eps_den <= u32::MAX,
            ;
            if (wb as u128) * (eps_den as u128) > limit {
                assert(weights@[b as int] == block_weight(self@, part@, b as int));
                return false;
            }
            b = b + 1;
        }
        true
    }

    /// Total excess of the blocks over the imbalance bound, each block's excess
    /// measured as `weight * eps_den - (eps_den + eps_num) * even share` when
    /// positive; zero exactly when the assignment is balanced.
    pub fn overload(&self, part: &[i32], eps_num: u32, eps_den: u32) -> (r: u128)
        requires
            self.wf(),
            valid_assignment(self@, part@),
        ensures
            r == overload_upto(self@, part@, eps_num as int, eps_den as int, self@.blocks as int),
            (r == 0) == balanced(self@, part@, eps_num as int, eps_den as int),
    {
        let weights = self.block_weights(part);
        let k = self.block_count();
        let total = self.total_vertex_weight();
        let share: u128 = (total as u128 + k as u128 - 1) / (k as u128);
        assert(share <= total) by (nonlinear_arith)
            requires
                share == (total + k - 1) / (k as int),
                k >= 2,
        ;
        assert((eps_den + eps_num) * share <= 0x2_0000_0000 * u64::MAX) by (nonlinear_arith)
            requires
                eps_den + eps_num <= 0x2_0000_0000,
                share <= u64::MAX,
        ;
        let limit: u128 = (eps_den as u128 + eps_num as u128) * share;
        let mut acc: u128 = 0;
        let mut b: usize = 0;
        while b < k
            invariant
                b <= k == self@.blocks,
                weights@.len() == k,
                forall|x: int| 0 <= x < k ==> weights@[x] == #[trigger] block_weight(self@, part@, x),
                limit == (eps_den + eps_num) * even_share(self@),
                acc == overload_upto(self@, part@, eps_num as int, eps_den as int, b as int),
                acc <= b * 0x1_0000_0000_0000_0000_0000_0000,
                k <= i32::MAX,
                (acc == 0) == forall|x: int|
                    0 <= x < b ==> #[trigger] block_weight(self@, part@, x) * eps_den <= (eps_den
                        + eps_num) * even_share(self@),
            decreases k - b,
        {
            let wb = weights[b];
            assert(wb * eps_den <= u64::MAX * u32::MAX) by (nonlinear_arith)
                requires
                    wb <= u64::MAX,
                    eps_den <= u32::MAX,
            ;
            let scaled = (wb as u128) * (eps_den as u128);
            assert(weights@[b as int] == block_weight(self@, part@, b as int));
            assert(scaled <= 0x1_0000_0000_0000_0000_0000_0000) by (nonlinear_arith)
                requires
                    scaled == wb * eps_den,
                    wb <= u64::MAX,
                    eps_den <= u32::MAX,
            ;
            assert(acc + 0x1_0000_0000_0000_0000_0000_0000 <= (b + 1) * 0x1_0000_0000_0000_0000_0000_0000)
                by (nonlinear_arith)
                requires
                    acc <= b * 0x1_0000_0000_0000_0000_0000_0000,
            ;
            assert((b + 1) * 0x1_0000_0000_0000_0000_0000_0000 <= 0x8000_0000 * 0x1_0000_0000_0000_0000_0000_0000)
                by (nonlinear_arith)
                requires
                    b + 1 <= 0x8000_0000,
            ;
            if scaled > limit {
                acc = acc + (scaled - limit);
            }
            proof {
                if acc == 0 {
                    assert forall|x: int| 0 <= x < b + 1 implies #[trigger] block_weight(self@, part@, x) * eps_den <= (eps_den
                        + eps_num) * even_share(self@) by {
                        if x == b {
                            assert(block_weight(self@, part@, x) == wb);
                        }
                    }
                }
            }
            b = b + 1;
        }
        acc
    }

    /// Objective and block weights of an assignment; `InvalidInput` when it
    /// does not give every vertex a block in `[0, blocks)`.
    pub fn evaluate(&self, part: &[i32], metric: Metric) -> (r: Result<Evaluation, PartitionError>)
        requires
            self.wf(),
        ensures
            r is Err <==> !valid_assignment(self@, part@),
            r is Err ==> r == Err::<Evaluation, PartitionError>(PartitionError::InvalidInput),
            r matches Ok(ev) ==> ev.objective == objective(self@, part@, metric) && ev.block_weights@.len()
                == self@.blocks && forall|b: int|
                0 <= b < self@.blocks ==> ev.block_weights@[b] == #[trigger] block_weight(
                    self@,
                    part@,
                    b,
                ),
    {
        if !self.check_assignment(part) {
            return Err(PartitionError::InvalidInput);
        }
        let objective = self.objective(part, metric);
        let block_weights = self.block_weights(part);
        Ok(Evaluation { objective, block_weights })
    }

    /// Whether `part` gives every vertex a block in `[0, blocks)`.
    pub fn check_assignment(&self, part: &[i32]) -> (r: bool)
        requires
            self.wf(),
        ensures
            r == valid_assignment(self@, part@),
    {
        let n = self.vertex_count();
        let k = self.block_count();
        if part.len() != n {
            return false;
        }
        let mut v: usize = 0;
        while v < n
            invariant
                v <= n == part@.len() == self@.vertices,
                k == self@.blocks <= i32::MAX,
                forall|x: int| 0 <= x < v ==> 0 <= #[trigger] part@[x] < k,
            decreases n - v,
        {
            if part[v] < 0 || part[v] >= k as i32 {
                assert(!(0 <= part@[v as int] < k));
                return false;
            }
            v = v + 1;
        }
        true
    }
}

} // verus!
