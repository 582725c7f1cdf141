//! Reduction: every operator is asked whether the facts known by now allow
//! a simpler operator in its place, and is replaced by what it proposes.

use vstd::prelude::*;
use crate::analyser::propagate::{gather, node_facts};
use crate::errors::{TractError, TractResult};
use crate::model::{lemma_with_op, Model, ModelValue};
use crate::ops::{OperatorValue, ReductionPhase};
use crate::optim::OptimizerPass;

verus! {

/// What reducing node `n` gives: the graph with the operator replaced, when
/// the operator proposes a replacement and the node has the inputs that the
/// replacement takes (`DanglingEdge`); `None` when it proposes none.
pub open spec fn reduce_node_spec(g: ModelValue, n: int, phase: ReductionPhase) -> Result<
    Option<ModelValue>,
    TractError,
> {
    match g.nodes[n].op.reduce(node_facts(g, n).inputs, phase) {
        Err(e) => Err(e),
        Ok(None) => Ok(None),
        Ok(Some(axes)) => if g.can_rewire(n, seq![0usize]) {
            Ok(Some(g.with_op(n, OperatorValue::AddDims(axes), seq![0usize])))
        } else {
            Err(TractError::DanglingEdge)
        },
    }
}

/// What reducing the nodes from `n` on gives: the graph reached, and whether
/// an operator was replaced or the error that ended the pass.
pub open spec fn reduce_from(g: ModelValue, n: int, phase: ReductionPhase, changed: bool) -> (ModelValue, Result<bool, TractError>)
    decreases g.nodes.len() - n,
{
    if n < 0 || n >= g.nodes.len() {
        (g, Ok(changed))
    } else {
        match reduce_node_spec(g, n, phase) {
            Err(e) => (g, Err(e)),
            Ok(None) => reduce_from(g, n + 1, phase, changed),
            Ok(Some(h)) => if h.nodes.len() == g.nodes.len() {
                reduce_from(h, n + 1, phase, true)
            } else {
                (h, Ok(true))
            },
        }
    }
}

/// The pass that replaces operators by what they propose in a given phase.
#[derive(Clone, Copy, Debug, PartialEq, Eq, Structural)]
pub struct Reduce(pub ReductionPhase);

impl OptimizerPass for Reduce {
    open spec fn outcome(&self, before: ModelValue, after: ModelValue, r: Result<bool, TractError>) -> bool {
        (after, r) == reduce_from(before, 0, self.0, false)
    }

    /// Asks every node once, in order. The first error ends the pass; the
    /// operators replaced before it stay replaced.
    fn pass(&self, model: &mut Model) -> (r: TractResult<bool>)
        ensures
            (final(model)@, r) == reduce_from(old(model)@, 0, self.0, false),
    {
        let ghost g0 = model@;
        let ghost mut witness: int = 0;
        let count = model.nodes().len();
        let mut changed = false;
        let mut n: usize = 0;
        while n < count
            invariant
                n <= count,
                count == model@.nodes.len(),
                count == g0.nodes.len(),
                model@.consistent(),
                g0 == old(model)@,
                reduce_from(model@, n as int, self.0, changed) == reduce_from(g0, 0, self.0, false),
                !changed ==> model@ == g0,
                changed ==> 0 <= witness < n && model@.nodes[witness].op != g0.nodes[witness].op,
                forall|m: int| n <= m < count ==> model@.nodes[m] == g0.nodes[m],
            decreases count - n,
        {
            let ghost g = model@;
            let gathered = gather(model, n);
            let proposal = match model.op(n).reduce(
                &gathered.facts.inputs,
                &gathered.facts.outputs,
                self.0,
            ) {
                Ok(p) => p,
                Err(e) => {
                    return Err(e);
                },
            };
            match proposal {
                Some(rewire) => {
                    proof {
                        if g.can_rewire(n as int, seq![0usize]) {
                            lemma_with_op(g, n as int, rewire.new_op@, seq![0usize]);
                        }
                    }
                    match model.replace_op(n, rewire.new_op, &rewire.rewired) {
                        Ok(_) => {},
                        Err(e) => {
                            return Err(e);
                        },
                    }
                    proof {
                        if !changed {
                            witness = n as int;
                        }
                    }
                    changed = true;
                },
                None => {},
            }
            n += 1;
        }
        Ok(changed)
    }
}

} // verus!
