//! What a graph computes, and why constant propagation does not change it.
//!
//! The value of a node is what its operator makes of the values of its
//! inputs; the value of a graph input is supplied from outside. A fact is
//! sound when the value it holds is the value that the graph computes.

use vstd::prelude::*;
use crate::analyser::types::GenericFact;
use crate::errors::TractError;
use crate::model::{ModelValue, OutletId};
use crate::ops::OperatorValue;
use crate::optim::prop_const::{folded_at, folds, fresh_const, same_but_sources};
use crate::tensor::TensorValue;

verus! {

/// What an operator at node `n` gives for the values `inputs`: a graph
/// input gives what `env` supplies for its node, any other operator what its
/// evaluation gives.
pub open spec fn node_result(
    op: OperatorValue,
    env: Map<int, Seq<TensorValue>>,
    n: int,
    inputs: Seq<TensorValue>,
) -> Result<Seq<TensorValue>, TractError> {
    match op {
        OperatorValue::Source(_) => if env.dom().contains(n) {
            Ok(env[n])
        } else {
            Err(TractError::UnimplementedVariant)
        },
        _ => op.eval(inputs),
    }
}

/// The values on the outlets of node `n`. The ranking `rank` only serves to
/// walk the graph from a node to the nodes before it.
pub open spec fn eval_node(g: ModelValue, rank: Seq<nat>, env: Map<int, Seq<TensorValue>>, n: int) -> Result<
    Seq<TensorValue>,
    TractError,
>
    decreases rank[n], 1 + g.nodes[n].inputs.len(),
{
    match eval_inputs(g, rank, env, n, g.nodes[n].inputs.len() as int) {
        Err(e) => Err(e),
        Ok(values) => node_result(g.nodes[n].op, env, n, values),
    }
}

/// The values on the first `upto` inlets of node `n`.
pub open spec fn eval_inputs(
    g: ModelValue,
    rank: Seq<nat>,
    env: Map<int, Seq<TensorValue>>,
    n: int,
    upto: int,
) -> Result<Seq<TensorValue>, TractError>
    decreases rank[n], upto,
{
    if upto <= 0 {
        Ok(Seq::empty())
    } else {
        match eval_inputs(g, rank, env, n, upto - 1) {
            Err(e) => Err(e),
            Ok(values) => match g.source(n, upto - 1) {
                None => Err(TractError::DanglingEdge),
                Some(o) => if rank[o.node as int] < rank[n] {
                    match eval_node(g, rank, env, o.node as int) {
                        Err(e) => Err(e),
                        Ok(outs) => if o.slot < outs.len() {
                            Ok(values.push(outs[o.slot as int]))
                        } else {
                            Err(TractError::DanglingEdge)
                        },
                    }
                } else {
                    Err(TractError::CyclicGraph)
                },
            },
        }
    }
}

/// The value on outlet `k` of node `n`.
pub open spec fn outlet_value(
    g: ModelValue,
    rank: Seq<nat>,
    env: Map<int, Seq<TensorValue>>,
    n: int,
    k: int,
) -> Result<TensorValue, TractError> {
    match eval_node(g, rank, env, n) {
        Err(e) => Err(e),
        Ok(outs) => if 0 <= k < outs.len() {
            Ok(outs[k])
        } else {
            Err(TractError::DanglingEdge)
        },
    }
}

/// Every fact that holds a value holds the value that the graph computes on
/// its outlet.
pub open spec fn facts_sound(g: ModelValue, rank: Seq<nat>, env: Map<int, Seq<TensorValue>>) -> bool {
    forall|n: int, k: int|
        0 <= n < g.nodes.len() && 0 <= k < g.nodes[n].outputs.len() ==> (g.nodes[n].outputs[k].value matches GenericFact::Only(
            v,
        ) ==> #[trigger] outlet_value(g, rank, env, n, k) == Ok::<TensorValue, TractError>(v))
}

/// The values on the outputs of the graph.
pub open spec fn graph_outputs(g: ModelValue, rank: Seq<nat>, env: Map<int, Seq<TensorValue>>) -> Seq<
    Result<TensorValue, TractError>,
> {
    Seq::new(
        g.outputs.len(),
        |k: int| outlet_value(g, rank, env, g.outputs[k].node as int, g.outputs[k].slot as int),
    )
}

/// What a node computes does not depend on the ranking by which the graph is
/// walked.
pub proof fn lemma_rank_irrelevant(
    g: ModelValue,
    first: Seq<nat>,
    second: Seq<nat>,
    env: Map<int, Seq<TensorValue>>,
    n: int,
)
    requires
        g.wf(),
        g.ranked_by(first),
        g.ranked_by(second),
        0 <= n < g.nodes.len(),
    ensures
        eval_node(g, first, env, n) == eval_node(g, second, env, n),
    decreases first[n], 1 + g.nodes[n].inputs.len(),
{
    lemma_rank_irrelevant_inputs(g, first, second, env, n, g.nodes[n].inputs.len() as int);
}

/// The same, for the values on the first `upto` inlets of a node.
pub proof fn lemma_rank_irrelevant_inputs(
    g: ModelValue,
    first: Seq<nat>,
    second: Seq<nat>,
    env: Map<int, Seq<TensorValue>>,
    n: int,
    upto: int,
)
    requires
        g.wf(),
        g.ranked_by(first),
        g.ranked_by(second),
        0 <= n < g.nodes.len(),
        upto <= g.nodes[n].inputs.len(),
    ensures
        eval_inputs(g, first, env, n, upto) == eval_inputs(g, second, env, n, upto),
    decreases first[n], upto,
{
    if upto > 0 {
        lemma_rank_irrelevant_inputs(g, first, second, env, n, upto - 1);
        assert(g.has_inlet(n, upto - 1));
        match g.source(n, upto - 1) {
            None => {},
            Some(o) => {
                assert(g.has_outlet(o));
                lemma_rank_irrelevant(g, first, second, env, o.node as int);
            },
        }
    }
}

/// After constant folding every node of the graph computes what it computed
/// before, provided the facts of the graph were sound.
pub proof fn lemma_folding_keeps_values(
    g: ModelValue,
    h: ModelValue,
    before: Seq<nat>,
    after: Seq<nat>,
    env: Map<int, Seq<TensorValue>>,
    n: int,
)
    requires
        g.wf(),
        h.wf(),
        folds(g, h),
        g.ranked_by(before),
        h.ranked_by(after),
        facts_sound(g, before, env),
        0 <= n < g.nodes.len(),
    ensures
        eval_node(h, after, env, n) == eval_node(g, before, env, n),
    decreases after[n], 1 + h.nodes[n].inputs.len(),
{
    assert(same_but_sources(g.nodes[n], h.nodes[n]));
    lemma_folding_keeps_inputs(g, h, before, after, env, n, h.nodes[n].inputs.len() as int);
}

/// The same, for the values on the first `upto` inlets of a node.
pub proof fn lemma_folding_keeps_inputs(
    g: ModelValue,
    h: ModelValue,
    before: Seq<nat>,
    after: Seq<nat>,
    env: Map<int, Seq<TensorValue>>,
    n: int,
    upto: int,
)
    requires
        g.wf(),
        h.wf(),
        folds(g, h),
        g.ranked_by(before),
        h.ranked_by(after),
        facts_sound(g, before, env),
        0 <= n < g.nodes.len(),
        upto <= h.nodes[n].inputs.len(),
    ensures
        eval_inputs(h, after, env, n, upto) == eval_inputs(g, before, env, n, upto),
    decreases after[n], upto,
{
    assert(same_but_sources(g.nodes[n], h.nodes[n]));
    if upto > 0 {
        lemma_folding_keeps_inputs(g, h, before, after, env, n, upto - 1);
        let i = upto - 1;
        assert(g.has_inlet(n, i));
        assert(h.has_inlet(n, i));
        if h.source(n, i) == g.source(n, i) {
            match g.source(n, i) {
                None => {},
                Some(o) => {
                    assert(g.has_outlet(o));
                    lemma_folding_keeps_values(g, h, before, after, env, o.node as int);
                },
            }
        } else {
            assert(folded_at(g, h, n, i));
            let o = g.source(n, i).unwrap();
            let c = h.source(n, i).unwrap();
            let v = g.fact(o).value->Only_0;
            assert(g.has_outlet(o));
            // in the graph before, the fact is sound
            assert(outlet_value(g, before, env, o.node as int, o.slot as int) == Ok::<
                TensorValue,
                TractError,
            >(v));
            // in the graph after, the constant gives the same value
            assert(fresh_const(h.nodes[c.node as int], c.node as int));
            assert(eval_inputs(h, after, env, c.node as int, 0) == Ok::<Seq<TensorValue>, TractError>(
                Seq::empty(),
            ));
            assert(eval_node(h, after, env, c.node as int) == Ok::<Seq<TensorValue>, TractError>(
                seq![v],
            ));
        }
    }
}

/// Constant folding does not change what the graph computes: on the same
/// values for the graph inputs, every output of the graph has the value it
/// had, whenever the facts of the graph were sound.
pub proof fn lemma_folding_keeps_outputs(
    g: ModelValue,
    h: ModelValue,
    before: Seq<nat>,
    after: Seq<nat>,
    env: Map<int, Seq<TensorValue>>,
)
    requires
        g.wf(),
        h.wf(),
        folds(g, h),
        g.ranked_by(before),
        h.ranked_by(after),
        facts_sound(g, before, env),
    ensures
        graph_outputs(h, after, env) == graph_outputs(g, before, env),
{
    assert forall|k: int| 0 <= k < g.outputs.len() implies outlet_value(
        h,
        after,
        env,
        h.outputs[k].node as int,
        h.outputs[k].slot as int,
    ) == outlet_value(g, before, env, g.outputs[k].node as int, g.outputs[k].slot as int) by {
        assert(g.has_outlet(g.outputs[k]));
        lemma_folding_keeps_values(g, h, before, after, env, g.outputs[k].node as int);
    }
    assert(graph_outputs(h, after, env) =~= graph_outputs(g, before, env));
}

} // verus!
