//! The driver: initial assignment, move-based refinement, and the two entry
//! points that partition from scratch or improve a given assignment.

use vstd::prelude::*;
use crate::hypergraph::{Hypergraph, HypergraphModel, PartitionError, UNFIXED};
use crate::coarsening::MAX_LEVELS;
use crate::hypergraph::{sum, sum_upto};
use crate::evaluate::{
    block_weight,
    block_weight_upto,
    even_share,
    Metric,
    valid_assignment,
    respects_fixed,
    balanced,
    feasible,
    objective,
};

verus! {

/// Settings for one partitioning call.
#[derive(Debug, Clone, Copy, PartialEq, Eq, Structural)]
pub struct Context {
    /// The objective that refinement minimises.
    pub metric: Metric,
    /// How many refinement passes `partition` runs at most.
    pub refinement_passes: usize,
}

/// Refinement passes of a context read from configuration lines.
pub const DEFAULT_REFINEMENT_PASSES: usize = 16;

/// The configuration line `objective=cut`, as bytes.
pub open spec fn cut_line() -> Seq<u8> {
    seq![111u8, 98u8, 106u8, 101u8, 99u8, 116u8, 105u8, 118u8, 101u8, 61u8, 99u8, 117u8, 116u8]
}

/// The configuration line `objective=km1`, as bytes.
pub open spec fn km1_line() -> Seq<u8> {
    seq![111u8, 98u8, 106u8, 101u8, 99u8, 116u8, 105u8, 118u8, 101u8, 61u8, 107u8, 109u8, 49u8]
}

/// The metric that configuration lines select: the last `objective=` line
/// naming `cut` or `km1` decides, and `Km1` when there is none.
pub open spec fn metric_of_lines(lines: Seq<Seq<u8>>) -> Metric
    decreases lines.len(),
{
    if lines.len() == 0 {
        Metric::Km1
    } else if lines.last() == cut_line() {
        Metric::Cut
    } else if lines.last() == km1_line() {
        Metric::Km1
    } else {
        metric_of_lines(lines.drop_last())
    }
}

fn bytes_equal(a: &[u8], b: &[u8]) -> (r: bool)
    ensures
        r == (a@ == b@),
{
    if a.len() != b.len() {
        return false;
    }
    let mut i: usize = 0;
    while i < a.len()
        invariant
            i <= a@.len() == b@.len(),
            forall|j: int| 0 <= j < i ==> a@[j] == b@[j],
        decreases a@.len() - i,
    {
        if a[i] != b[i] {
            return false;
        }
        i = i + 1;
    }
    assert(a@ =~= b@);
    true
}

impl Context {
    /// A context from the lines of a configuration file: `objective=cut` or
    /// `objective=km1` selects the metric (the last such line wins, `Km1` by
    /// default); other lines are ignored.
    pub fn from_config_lines(lines: &[Vec<u8>]) -> (r: Context)
        ensures
            r.metric == metric_of_lines(lines@.map_values(|l: Vec<u8>| l@)),
            r.refinement_passes == DEFAULT_REFINEMENT_PASSES,
    {
        let ghost all = lines@.map_values(|l: Vec<u8>| l@);
        let cut: Vec<u8> = vec![111u8, 98u8, 106u8, 101u8, 99u8, 116u8, 105u8, 118u8, 101u8, 61u8, 99u8, 117u8, 116u8];
        let km1: Vec<u8> = vec![111u8, 98u8, 106u8, 101u8, 99u8, 116u8, 105u8, 118u8, 101u8, 61u8, 107u8, 109u8, 49u8];
        assert(cut@ =~= cut_line());
        assert(km1@ =~= km1_line());
        let mut metric = Metric::Km1;
        let mut i: usize = 0;
        while i < lines.len()
            invariant
                i <= lines@.len() == all.len(),
                all == lines@.map_values(|l: Vec<u8>| l@),
                cut@ == cut_line(),
                km1@ == km1_line(),
                metric == metric_of_lines(all.subrange(0, i as int)),
            decreases lines@.len() - i,
        {
            assert(all.subrange(0, i + 1).drop_last() =~= all.subrange(0, i as int));
            assert(all.subrange(0, i + 1).last() == lines@[i as int]@);
            if bytes_equal(lines[i].as_slice(), cut.as_slice()) {
                metric = Metric::Cut;
            } else if bytes_equal(lines[i].as_slice(), km1.as_slice()) {
                metric = Metric::Km1;
            }
            i = i + 1;
        }
        assert(all.subrange(0, i as int) =~= all);
        Context { metric, refinement_passes: DEFAULT_REFINEMENT_PASSES }
    }

    pub fn new(metric: Metric, refinement_passes: usize) -> (r: Context)
        ensures
            r.metric == metric,
            r.refinement_passes == refinement_passes,
    {
        Context { metric, refinement_passes }
    }
}

/// Whether a returned assignment meets the imbalance bound.
#[derive(Debug, Clone, Copy, PartialEq, Eq, Structural)]
pub enum Status {
    Balanced,
    /// No balanced assignment was found; the assignment is the best effort.
    BalanceViolated,
}

/// The outcome of a partitioning call.
pub struct Solution {
    pub objective: u64,
    pub assignment: Vec<i32>,
    pub status: Status,
}

/// What every returned solution satisfies.
pub open spec fn solution_ok(
    hg: HypergraphModel,
    s: Solution,
    metric: Metric,
    num: int,
    den: int,
) -> bool {
    &&& valid_assignment(hg, s.assignment@)
    &&& respects_fixed(hg, s.assignment@)
    &&& s.objective == objective(hg, s.assignment@, metric)
    &&& (s.status == Status::Balanced) == balanced(hg, s.assignment@, num, den)
}

/// Every vertex weighs 1 and none is fixed.
pub open spec fn unit_and_free(hg: HypergraphModel) -> bool {
    forall|v: int|
        0 <= v < hg.vertices ==> #[trigger] hg.vertex_weights[v] == 1 && hg.fixed[v] == UNFIXED
}

proof fn lemma_sum_ones(s: Seq<int>, i: int)
    requires
        0 <= i <= s.len(),
        forall|x: int| 0 <= x < s.len() ==> #[trigger] s[x] == 1,
    ensures
        sum_upto(s, i) == i,
    decreases i,
{
    if i > 0 {
        lemma_sum_ones(s, i - 1);
    }
}

proof fn lemma_block_weight_prefix(hg: HypergraphModel, p: Seq<i32>, q: Seq<i32>, b: int, v: int)
    requires
        0 <= v <= p.len(),
        v <= q.len(),
        forall|x: int| 0 <= x < v ==> p[x] == q[x],
    ensures
        block_weight_upto(hg, p, b, v) == block_weight_upto(hg, q, b, v),
    decreases v,
{
    if v > 0 {
        lemma_block_weight_prefix(hg, p, q, b, v - 1);
    }
}

/// The first block with room for `w` more weight, else the lightest block.
fn choose_block(loads: &Vec<u64>, w: u64, limit: u128, den: u32) -> (r: usize)
    requires
        loads@.len() >= 1,
    ensures
        r < loads@.len(),
{
    let mut lightest: usize = 0;
    let mut b: usize = 0;
    while b < loads.len()
        invariant
            b <= loads@.len(),
            lightest < loads@.len(),
        decreases loads@.len() - b,
    {
        let load = loads[b].saturating_add(w);
        assert(load * den <= u64::MAX * u32::MAX) by (nonlinear_arith)
            requires
                load <= u64::MAX,
                den <= u32::MAX,
        ;
        if (load as u128) * (den as u128) <= limit {
            return b;
        }
        if loads[b] < loads[lightest] {
            lightest = b;
        }
        b = b + 1;
    }
    lightest
}

impl Hypergraph {
    /// Whether every vertex weighs 1 and none is fixed.
    fn is_unit_and_free(&self) -> (r: bool)
        requires
            self.wf(),
        ensures
            r == unit_and_free(self@),
    {
        let n = self.vertex_count();
        let mut v: usize = 0;
        while v < n
            invariant
                v <= n == self@.vertices,
                self.wf(),
                forall|x: int|
                    0 <= x < v ==> #[trigger] self@.vertex_weights[x] == 1 && self@.fixed[x] == UNFIXED,
            decreases n - v,
        {
            if self.vertex_weight(v) != 1 || self.fixed_block(v) != UNFIXED {
                assert(!(self@.vertex_weights[v as int] == 1 && self@.fixed[v as int] == UNFIXED));
                return false;
            }
            v = v + 1;
        }
        true
    }

    /// Consecutive runs of `ceil(vertices / blocks)` vertices per block: with
    /// unit weights no block exceeds the even share.
    fn chunked_assignment(&self) -> (r: Vec<i32>)
        requires
            self.wf(),
            unit_and_free(self@),
        ensures
            valid_assignment(self@, r@),
            respects_fixed(self@, r@),
            forall|b: int| 0 <= b < self@.blocks ==> #[trigger] block_weight(self@, r@, b) <= even_share(self@),
    {
        let n = self.vertex_count();
        let k = self.block_count();
        let total = self.total_vertex_weight();
        proof {
            lemma_sum_ones(self@.vertex_weights, n as int);
        }
        assert(total == n);
        let share128: u128 = (total as u128 + k as u128 - 1) / (k as u128);
        assert(share128 <= total) by (nonlinear_arith)
            requires
                share128 == (total + k - 1) / (k as int),
                k >= 2,
        ;
        let share: usize = share128 as usize;
        assert(share == even_share(self@));
        assert(share * k >= n) by (nonlinear_arith)
            requires
                share == (n + k - 1) / (k as int),
                k >= 2,
        ;
        let mut part: Vec<i32> = Vec::new();
        if n == 0 {
            return part;
        }
        assert(share >= 1) by (nonlinear_arith)
            requires
                share == (n + k - 1) / (k as int),
                k >= 2,
                n >= 1,
        ;
        let mut b: usize = 0;
        let mut filled: usize = 0;
        let mut v: usize = 0;
        while v < n
            invariant
                v <= n == self@.vertices,
                k == self@.blocks <= i32::MAX,
                self.wf(),
                unit_and_free(self@),
                share >= 1,
                share * k >= n,
                share == even_share(self@),
                part@.len() == v,
                v == b * share + filled,
                filled < share,
                forall|x: int| 0 <= x < v ==> 0 <= #[trigger] part@[x] < k,
                forall|x: int|
                    0 <= x < k ==> #[trigger] block_weight_upto(self@, part@, x, v as int) == if x < b {
                        share as int
                    } else if x == b {
                        filled as int
                    } else {
                        0
                    },
            decreases n - v,
        {
            assert(b < k) by (nonlinear_arith)
                requires
                    b * share + filled < n,
                    share * k >= n,
                    share >= 1,
                    filled >= 0,
            ;
            let ghost before = part@;
            part.push(b as i32);
            proof {
                assert forall|x: int| 0 <= x < k implies #[trigger] block_weight_upto(self@, part@, x, v as int)
                    == block_weight_upto(self@, before, x, v as int) by {
                    lemma_block_weight_prefix(self@, part@, before, x, v as int);
                }
                assert(self@.vertex_weights[v as int] == 1);
            }
            let ghost old_b = b;
            let ghost old_filled = filled;
            filled = filled + 1;
            v = v + 1;
            if filled == share {
                assert((b + 1) * share == b * share + share) by (nonlinear_arith);
                b = b + 1;
                filled = 0;
            }
            proof {
                assert forall|x: int| 0 <= x < k implies #[trigger] block_weight_upto(self@, part@, x, v as int) == if x < b {
                    share as int
                } else if x == b {
                    filled as int
                } else {
                    0
                } by {
                    assert(block_weight_upto(self@, part@, x, v as int) == block_weight_upto(self@, part@, x, v - 1) + if part@[v - 1] == x {
                        1int
                    } else {
                        0int
                    });
                    assert(part@[v - 1] as int == old_b);
                }
            }
        }
        proof {
            assert forall|x: int| 0 <= x < k implies #[trigger] block_weight(self@, part@, x) <= even_share(self@) by {
                assert(block_weight(self@, part@, x) == block_weight_upto(self@, part@, x, n as int));
            }
            assert forall|x: int| 0 <= x < n && #[trigger] self@.fixed[x] != UNFIXED implies part@[x] as int == self@.fixed[x] by {
                assert(self@.vertex_weights[x] == 1);
            }
        }
        part
    }

    /// Puts fixed vertices in their blocks and keeps the block of each free
    /// vertex whose `seed` entry is a block; fills the others greedily.
    pub(crate) fn initial_assignment(&self, seed: &[i32], eps_num: u32, eps_den: u32) -> (r: Vec<i32>)
        requires
            self.wf(),
            seed@.len() == self@.vertices,
        ensures
            valid_assignment(self@, r@),
            respects_fixed(self@, r@),
            forall|v: int|
                0 <= v < self@.vertices && self@.fixed[v] == UNFIXED && 0 <= #[trigger] seed@[v]
                    < self@.blocks ==> r@[v] == seed@[v],
    {
        let n = self.vertex_count();
        let k = self.block_count();
        let total = self.total_vertex_weight();
        let share: u128 = (total as u128 + k as u128 - 1) / (k as u128);
        assert(share <= total) by (nonlinear_arith)
            requires
                share == (total + k - 1) / (k as int),
                k >= 2,
        ;
        assert((eps_den + eps_num) * share <= 0x2_0000_0000 * u64::MAX) by (nonlinear_arith)
            requires
                eps_den + eps_num <= 0x2_0000_0000,
                share <= u64::MAX,
        ;
        let limit: u128 = (eps_den as u128 + eps_num as u128) * share;
        let mut loads: Vec<u64> = Vec::new();
        let mut b: usize = 0;
        while b < k
            invariant
                b <= k,
                loads@.len() == b,
            decreases k - b,
        {
            loads.push(0);
            b = b + 1;
        }
        let mut part: Vec<i32> = Vec::new();
        let mut v: usize = 0;
        while v < n
            invariant
                v <= n == self@.vertices == seed@.len(),
                k == self@.blocks,
                self.wf(),
                loads@.len() == k,
                part@.len() == v,
                forall|x: int|
                    0 <= x < v ==> #[trigger] part@[x] == UNFIXED || (0 <= part@[x] < k),
                forall|x: int|
                    0 <= x < v && self@.fixed[x] != UNFIXED ==> #[trigger] part@[x] == self@.fixed[x],
                forall|x: int|
                    0 <= x < v && self@.fixed[x] == UNFIXED && 0 <= #[trigger] seed@[x] < k
                        ==> part@[x] == seed@[x],
            decreases n - v,
        {
            let f = self.fixed_block(v);
            let w = self.vertex_weight(v);
            let chosen: i32 = if f != UNFIXED {
                f
            } else if 0 <= seed[v] && seed[v] < k as i32 {
                seed[v]
            } else {
                UNFIXED
            };
            if chosen != UNFIXED {
                let c = chosen as usize;
                loads.set(c, loads[c].saturating_add(w));
            }
            part.push(chosen);
            v = v + 1;
        }
        let mut v: usize = 0;
        while v < n
            invariant
                v <= n == self@.vertices == seed@.len(),
                k == self@.blocks,
                self.wf(),
                loads@.len() == k,
                part@.len() == n,
                forall|x: int| 0 <= x < v ==> 0 <= #[trigger] part@[x] < k,
                forall|x: int|
                    0 <= x < n ==> #[trigger] part@[x] == UNFIXED || (0 <= part@[x] < k),
                forall|x: int|
                    0 <= x < n && self@.fixed[x] != UNFIXED ==> #[trigger] part@[x] == self@.fixed[x],
                forall|x: int|
                    0 <= x < n && self@.fixed[x] == UNFIXED && 0 <= #[trigger] seed@[x] < k
                        ==> part@[x] == seed@[x],
            decreases n - v,
        {
            if part[v] == UNFIXED {
                let w = self.vertex_weight(v);
                let c = choose_block(&loads, w, limit, eps_den);
                loads.set(c, loads[c].saturating_add(w));
                part.set(v, c as i32);
            }
            v = v + 1;
        }
        part
    }

    /// Moves free vertices one at a time while that improves the assignment:
    /// while unbalanced, towards less overload (then a lower objective); once
    /// balanced, towards a lower objective without losing balance. Runs at most `passes` passes over the vertices.
    pub(crate) fn refine(&self, part: &mut Vec<i32>, metric: Metric, eps_num: u32, eps_den: u32, passes: usize)
        requires
            self.wf(),
            valid_assignment(self@, old(part)@),
            respects_fixed(self@, old(part)@),
        ensures
            valid_assignment(self@, final(part)@),
            respects_fixed(self@, final(part)@),
            balanced(self@, old(part)@, eps_num as int, eps_den as int) ==> balanced(
                self@,
                final(part)@,
                eps_num as int,
                eps_den as int,
            ) && objective(self@, final(part)@, metric) <= objective(self@, old(part)@, metric),
    {
        let ghost start = part@;
        let ghost start_bal = balanced(self@, start, eps_num as int, eps_den as int);
        let n = self.vertex_count();
        let k = self.block_count();
        let mut current = self.objective(part.as_slice(), metric);
        let mut over = self.overload(part.as_slice(), eps_num, eps_den);
        let mut bal = over == 0;
        let mut pass: usize = 0;
        while pass < passes
            invariant
                pass <= passes,
                n == self@.vertices,
                k == self@.blocks,
                self.wf(),
                valid_assignment(self@, part@),
                respects_fixed(self@, part@),
                current == objective(self@, part@, metric),
                bal == balanced(self@, part@, eps_num as int, eps_den as int),
                bal == (over == 0),
                start_bal == balanced(self@, start, eps_num as int, eps_den as int),
                start_bal ==> bal && current <= objective(self@, start, metric),
            decreases passes - pass,
        {
            let mut improved = false;
            let mut v: usize = 0;
            while v < n
                invariant
                    v <= n == self@.vertices,
                    k == self@.blocks,
                    self.wf(),
                    valid_assignment(self@, part@),
                    respects_fixed(self@, part@),
                    current == objective(self@, part@, metric),
                    bal == balanced(self@, part@, eps_num as int, eps_den as int),
                    bal == (over == 0),
                    start_bal ==> bal && current <= objective(self@, start, metric),
                decreases n - v,
            {
                if self.fixed_block(v) == UNFIXED {
                    let mut b: usize = 0;
                    while b < k
                        invariant
                            b <= k == self@.blocks <= i32::MAX,
                            v < n == self@.vertices,
                            self@.fixed[v as int] == UNFIXED,
                            self.wf(),
                            valid_assignment(self@, part@),
                            respects_fixed(self@, part@),
                            current == objective(self@, part@, metric),
                            bal == balanced(self@, part@, eps_num as int, eps_den as int),
                            bal == (over == 0),
                            start_bal ==> bal && current <= objective(self@, start, metric),
                        decreases k - b,
                    {
                        let before = part[v];
                        let target = b as i32;
                        if target != before {
                            let ghost snapshot = part@;
                            part.set(v, target);
                            let cost = self.objective(part.as_slice(), metric);
                            let cost_over = self.overload(part.as_slice(), eps_num, eps_den);
                            let cost_bal = cost_over == 0;
                            let better = if bal {
                                cost_bal && cost < current
                            } else {
                                cost_over < over || (cost_over == over && cost < current)
                            };
                            if better {
                                current = cost;
                                over = cost_over;
                                bal = cost_bal;
                                improved = true;
                            } else {
                                part.set(v, before);
                                assert(part@ =~= snapshot);
                            }
                        }
                        b = b + 1;
                    }
                }
                v = v + 1;
            }
            if !improved {
                break;
            }
            pass = pass + 1;
        }
    }
}


impl Hypergraph {
    /// Computes a k-way assignment, with imbalance `eps_num / eps_den`, that
    /// honours the fixed vertices. `InvalidInput` when `eps_den` is zero.
    pub fn partition(&self, context: &Context, eps_num: u32, eps_den: u32) -> (r: Result<
        Solution,
        PartitionError,
    >)
        requires
            self.wf(),
        ensures
            r is Err <==> eps_den == 0,
            r is Err ==> r == Err::<Solution, PartitionError>(PartitionError::InvalidInput),
            r matches Ok(s) ==> solution_ok(self@, s, context.metric, eps_num as int, eps_den as int),
            r matches Ok(s) ==> unit_and_free(self@) ==> s.status == Status::Balanced,
    {
        if eps_den == 0 {
            return Err(PartitionError::InvalidInput);
        }
        let mut part = self.multilevel_assignment(
            context.metric,
            eps_num,
            eps_den,
            context.refinement_passes,
            MAX_LEVELS,
        );
        if !self.is_balanced(part.as_slice(), eps_num, eps_den) && self.is_unit_and_free() {
            part = self.chunked_assignment();
            proof {
                assert forall|b: int| 0 <= b < self@.blocks implies #[trigger] block_weight(self@, part@, b) * eps_den
                    <= (eps_den + eps_num) * even_share(self@) by {
                    let w = block_weight(self@, part@, b);
                    let sh = even_share(self@);
                    crate::evaluate::lemma_block_weight_bounds(self@, part@, b, self@.vertices as int);
                    assert(w * eps_den <= (eps_den + eps_num) * sh) by (nonlinear_arith)
                        requires
                            0 <= w <= sh,
                            eps_den >= 0,
                            eps_num >= 0,
                    ;
                }
            }
            self.refine(&mut part, context.metric, eps_num, eps_den, context.refinement_passes);
        }
        Ok(self.solution(part, context.metric, eps_num, eps_den))
    }

    /// Refines `previous` for at most `iterations` passes. Fixed vertices are
    /// put in their blocks first and free vertices without a block in
    /// `[0, blocks)` are placed greedily. When `previous` is feasible the
    /// result is balanced and its objective is no worse. `InvalidInput` when
    /// `eps_den` is zero or `previous` has the wrong length.
    pub fn improve_partition(
        &self,
        context: &Context,
        eps_num: u32,
        eps_den: u32,
        previous: &[i32],
        iterations: usize,
    ) -> (r: Result<Solution, PartitionError>)
        requires
            self.wf(),
        ensures
            r is Err <==> eps_den == 0 || previous@.len() != self@.vertices,
            r is Err ==> r == Err::<Solution, PartitionError>(PartitionError::InvalidInput),
            r matches Ok(s) ==> solution_ok(self@, s, context.metric, eps_num as int, eps_den as int),
            r matches Ok(s) ==> feasible(self@, previous@, eps_num as int, eps_den as int) ==> s.status
                == Status::Balanced && s.objective <= objective(self@, previous@, context.metric),
    {
        if eps_den == 0 || previous.len() != self.vertex_count() {
            return Err(PartitionError::InvalidInput);
        }
        let mut part = self.initial_assignment(previous, eps_num, eps_den);
        proof {
            if feasible(self@, previous@, eps_num as int, eps_den as int) {
                assert forall|v: int| 0 <= v < self@.vertices implies part@[v] == previous@[v] by {
                    if self@.fixed[v] == UNFIXED {
                        assert(0 <= previous@[v] < self@.blocks);
                    }
                }
                assert(part@ =~= previous@);
            }
        }
        self.refine(&mut part, context.metric, eps_num, eps_den, iterations);
        Ok(self.solution(part, context.metric, eps_num, eps_den))
    }

    /// Packs a valid assignment with its objective and balance status.
    fn solution(&self, part: Vec<i32>, metric: Metric, eps_num: u32, eps_den: u32) -> (r: Solution)
        requires
            self.wf(),
            valid_assignment(self@, part@),
            respects_fixed(self@, part@),
        ensures
            r.assignment@ == part@,
            solution_ok(self@, r, metric, eps_num as int, eps_den as int),
    {
        let objective = self.objective(part.as_slice(), metric);
        let status = if self.is_balanced(part.as_slice(), eps_num, eps_den) {
            Status::Balanced
        } else {
            Status::BalanceViolated
        };
        Solution { objective, assignment: part, status }
    }
}

} // verus!
