//! Properties that relate several operations of the library.

use vstd::prelude::*;
use crate::hypergraph::{HypergraphBuilder, HypergraphModel, flatten_upto, lists_edges};
use crate::evaluate::{Evaluation, Metric, objective, block_weight};

verus! {

proof fn lemma_flatten_prefix(es: Seq<Seq<u32>>, i: int, j: int)
    requires
        0 <= i <= j <= es.len(),
    ensures
        flatten_upto(es, i).len() <= flatten_upto(es, j).len(),
        flatten_upto(es, j).subrange(0, flatten_upto(es, i).len() as int) == flatten_upto(es, i),
    decreases j - i,
{
    if i < j {
        lemma_flatten_prefix(es, i, j - 1);
        let a = flatten_upto(es, i);
        let b = flatten_upto(es, j - 1);
        assert(flatten_upto(es, j) == b + es[j - 1]);
        assert(flatten_upto(es, j).subrange(0, a.len() as int) =~= b.subrange(0, a.len() as int));
    } else {
        assert(flatten_upto(es, j).subrange(0, flatten_upto(es, i).len() as int) =~= flatten_upto(es, i));
    }
}

/// Building from a list of edges and reading the edges back gives the same
/// list: every edge, in order, with its pins in order, none lost or repeated.
pub proof fn lemma_edges_round_trip(b: HypergraphBuilder, edges: Seq<Seq<u32>>)
    requires
        lists_edges(b, edges),
    ensures
        b.model().edges == edges,
{
    let m = edges.len() as int;
    assert forall|e: int| 0 <= e < m implies #[trigger] b.model().edges[e] == edges[e] by {
        lemma_flatten_prefix(edges, e + 1, m);
        let f = flatten_upto(edges, e);
        let g = flatten_upto(edges, e + 1);
        assert(g == f + edges[e]);
        let all = flatten_upto(edges, m);
        assert(all.subrange(f.len() as int, g.len() as int) =~= g.subrange(f.len() as int, g.len() as int));
        assert(g.subrange(f.len() as int, g.len() as int) =~= edges[e]);
    }
    assert(b.model().edges =~= edges);
}

proof fn lemma_incident_upto_exact(hg: HypergraphModel, v: int, upto: int)
    requires
        0 <= upto <= hg.edges.len() <= usize::MAX,
    ensures
        forall|e: int|
            0 <= e < upto ==> (hg.incident_upto(v, upto).contains(e as usize) <==> hg.edge_contains(
                e,
                v,
            )),
        forall|i: int, j: int|
            0 <= i < j < hg.incident_upto(v, upto).len() ==> hg.incident_upto(v, upto)[i]
                < hg.incident_upto(v, upto)[j],
        forall|i: int|
            0 <= i < hg.incident_upto(v, upto).len() ==> hg.incident_upto(v, upto)[i] < upto,
    decreases upto,
{
    if upto > 0 {
        lemma_incident_upto_exact(hg, v, upto - 1);
        let prev = hg.incident_upto(v, upto - 1);
        let cur = hg.incident_upto(v, upto);
        assert forall|e: int| 0 <= e < upto implies (cur.contains(e as usize) <==> hg.edge_contains(
            e,
            v,
        )) by {
            if e < upto - 1 {
                if cur.contains(e as usize) {
                    let i = choose|i: int| 0 <= i < cur.len() && cur[i] == e as usize;
                    if i < prev.len() {
                        assert(prev.contains(e as usize));
                    }
                }
                if prev.contains(e as usize) {
                    let i = choose|i: int| 0 <= i < prev.len() && prev[i] == e as usize;
                    assert(cur[i] == e as usize);
                }
            } else {
                if hg.edge_contains(e, v) {
                    assert(cur[cur.len() - 1] == e as usize);
                }
                if cur.contains(e as usize) {
                    let i = choose|i: int| 0 <= i < cur.len() && cur[i] == e as usize;
                    if i < prev.len() {
                        assert(prev[i] < upto - 1);
                    }
                }
            }
        }
    }
}

/// The incidence query of a vertex lists exactly the edges that contain it,
/// each once and in increasing order.
pub proof fn lemma_incidence_round_trip(hg: HypergraphModel, v: int)
    requires
        hg.edges.len() <= usize::MAX,
    ensures
        forall|e: int|
            0 <= e < hg.edges.len() ==> (hg.incident(v).contains(e as usize) <==> hg.edge_contains(
                e,
                v,
            )),
        forall|i: int, j: int|
            0 <= i < j < hg.incident(v).len() ==> hg.incident(v)[i] < hg.incident(v)[j],
        forall|i: int| 0 <= i < hg.incident(v).len() ==> hg.incident(v)[i] < hg.edges.len(),
{
    lemma_incident_upto_exact(hg, v, hg.edges.len() as int);
}

/// Evaluation is a function of the hypergraph and the assignment: two
/// evaluations of the same pair agree in objective and in every block weight.
pub proof fn lemma_evaluation_pure(
    hg: HypergraphModel,
    part: Seq<i32>,
    metric: Metric,
    first: Evaluation,
    second: Evaluation,
)
    requires
        first.objective == objective(hg, part, metric),
        second.objective == objective(hg, part, metric),
        first.block_weights@.len() == hg.blocks,
        second.block_weights@.len() == hg.blocks,
        forall|b: int|
            0 <= b < hg.blocks ==> first.block_weights@[b] == #[trigger] block_weight(hg, part, b),
        forall|b: int|
            0 <= b < hg.blocks ==> second.block_weights@[b] == #[trigger] block_weight(hg, part, b),
    ensures
        first.objective == second.objective,
        first.block_weights@ == second.block_weights@,
{
    assert forall|b: int| 0 <= b < hg.blocks implies first.block_weights@[b] == second.block_weights@[b] by {
        assert(first.block_weights@[b] == block_weight(hg, part, b));
        assert(second.block_weights@[b] == block_weight(hg, part, b));
    }
    assert(first.block_weights@ =~= second.block_weights@);
}

} // verus!
