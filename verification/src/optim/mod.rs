//! Passes that rewrite a graph, and the loop that applies them.

pub mod evaluation;
pub mod prop_const;
pub mod reduce;

use vstd::prelude::*;
use crate::analyser::propagate::{analyse, analyse_spec, lemma_saturated_is_fixed, sweep_from};
use crate::errors::{NodeError, TractError, TractResult};
use crate::model::{Model, ModelValue};
use crate::optim::prop_const::PropConst;
use crate::optim::reduce::Reduce;

verus! {

/// A transformation of a whole graph.
pub trait OptimizerPass {
    /// Whether the pass may turn the graph `before` into the graph `after`
    /// and then report `r`.
    spec fn outcome(&self, before: ModelValue, after: ModelValue, r: Result<bool, TractError>) -> bool;

    /// Rewrites the graph and tells whether it changed anything. A pass
    /// takes a consistent graph and leaves a consistent graph, so that every
    /// inlet has exactly one source before and after it.
    fn pass(&self, model: &mut Model) -> (r: TractResult<bool>)
        requires
            old(model)@.consistent(),
        ensures
            final(model)@.consistent(),
            self.outcome(old(model)@, final(model)@, r),
            r matches Ok(changed) ==> (changed <==> final(model)@ != old(model)@),
    ;
}

/// One of the passes of this crate.
#[derive(Clone, Copy, Debug, PartialEq, Eq, Structural)]
pub enum Pass {
    Reduce(Reduce),
    PropConst(PropConst),
}

impl OptimizerPass for Pass {
    open spec fn outcome(&self, before: ModelValue, after: ModelValue, r: Result<bool, TractError>) -> bool {
        match *self {
            Pass::Reduce(p) => p.outcome(before, after, r),
            Pass::PropConst(p) => p.outcome(before, after, r),
        }
    }

    fn pass(&self, model: &mut Model) -> (r: TractResult<bool>) {
        match self {
            Pass::Reduce(p) => p.pass(model),
            Pass::PropConst(p) => p.pass(model),
        }
    }
}

/// How long analysis and optimisation may go on.
#[derive(Clone, Copy, Debug, PartialEq, Eq, Structural)]
pub struct Limits {
    /// The rounds that the rules of one node may take.
    pub rounds: usize,
    /// The sweeps over the graph that one analysis may take.
    pub sweeps: usize,
    /// The cycles of analysis and passes that optimisation may take.
    pub cycles: usize,
}

/// Why optimisation failed.
#[derive(Clone, Copy, Debug, PartialEq, Eq, Structural)]
pub enum OptimError {
    /// The analysis found an error at a node.
    Analysis(NodeError),
    /// The pass at position `index` failed.
    Pass { index: usize, kind: TractError },
}

/// How optimisation ended.
#[derive(Clone, Copy, Debug, PartialEq, Eq, Structural)]
pub struct Outcome {
    /// The passes of the last cycle changed nothing.
    pub settled: bool,
    /// The analysis of the last cycle ended with a sweep that changed no
    /// fact.
    pub saturated: bool,
    /// The cycles that were run.
    pub cycles: usize,
}

/// `graphs` holds the graph before the first pass and the graph after each
/// of the passes that were applied, in order, none of which failed.
pub open spec fn passes_ran(passes: Seq<Pass>, graphs: Seq<ModelValue>) -> bool {
    &&& 1 <= graphs.len() <= passes.len() + 1
    &&& forall|k: int|
        0 <= k < graphs.len() - 1 ==> (#[trigger] passes[k]).outcome(
            graphs[k],
            graphs[k + 1],
            Ok(graphs[k + 1] != graphs[k]),
        )
}

/// The pass at position `k` changed the graph.
pub open spec fn changed_at(graphs: Seq<ModelValue>, k: int) -> bool {
    graphs[k + 1] != graphs[k]
}

/// One of the passes that were applied changed the graph.
pub open spec fn changed_in(graphs: Seq<ModelValue>) -> bool {
    exists|k: int| 0 <= k < graphs.len() - 1 && #[trigger] changed_at(graphs, k)
}

/// One whole cycle turned the graph `before` into the graph `after`: the
/// analysis succeeded, every pass was applied once, and one of them changed
/// the graph.
pub open spec fn cycle_ran(passes: Seq<Pass>, limits: Limits, before: ModelValue, after: ModelValue) -> bool {
    let analysed = analyse_spec(before, limits.rounds as nat, limits.sweeps as nat);
    &&& analysed.1 is Ok
    &&& exists|graphs: Seq<ModelValue>| #[trigger]
        passes_ran(passes, graphs) && graphs.len() == passes.len() + 1 && graphs[0] == analysed.0
            && graphs.last() == after && changed_in(graphs)
}

/// Cycle `k` turned the graph at its start into the graph at the start of
/// the next cycle.
pub open spec fn cycle_at(passes: Seq<Pass>, limits: Limits, starts: Seq<ModelValue>, k: int) -> bool {
    cycle_ran(passes, limits, starts[k], starts[k + 1])
}

/// `starts` holds the graph at the start of each cycle, every one of which
/// but the last was a whole cycle that changed the graph.
pub open spec fn cycles_ran(passes: Seq<Pass>, limits: Limits, starts: Seq<ModelValue>) -> bool {
    &&& starts.len() >= 1
    &&& forall|k: int| 0 <= k < starts.len() - 1 ==> #[trigger] cycle_at(passes, limits, starts, k)
}

/// How the passes of the last cycle ended. Either every pass was applied
/// and none changed the graph, which has then settled; or the pass after
/// those that were applied failed, and its error is reported with its
/// position.
pub open spec fn passes_ended(
    passes: Seq<Pass>,
    graphs: Seq<ModelValue>,
    saturated: bool,
    cycles: int,
    after: ModelValue,
    r: Result<Outcome, OptimError>,
) -> bool {
    if graphs.len() == passes.len() + 1 {
        &&& !changed_in(graphs)
        &&& after == graphs.last()
        &&& r == Ok::<Outcome, OptimError>(Outcome { settled: true, saturated, cycles: cycles as usize })
    } else {
        &&& r matches Err(OptimError::Pass { index, kind })
        &&& index == graphs.len() - 1
        &&& passes[graphs.len() - 1].outcome(graphs.last(), after, Err(kind))
    }
}

/// How optimisation ended after the whole cycles whose starts `starts`
/// holds. If no cycle is left, the graph is as the last cycle left it, and
/// has not settled. Else the graph is analysed once more: an error of the
/// analysis is reported with the graph that the analysis reached; after a
/// successful analysis the passes are applied as `passes_ended` says.
pub open spec fn ended(
    passes: Seq<Pass>,
    limits: Limits,
    starts: Seq<ModelValue>,
    after: ModelValue,
    r: Result<Outcome, OptimError>,
) -> bool {
    let cycles = starts.len() - 1;
    if cycles >= limits.cycles {
        &&& cycles == limits.cycles
        &&& after == starts.last()
        &&& r == Ok::<Outcome, OptimError>(
            Outcome {
                settled: false,
                saturated: cycles > 0 && analyse_spec(
                    starts[cycles - 1],
                    limits.rounds as nat,
                    limits.sweeps as nat,
                ).1 == Ok::<bool, NodeError>(true),
                cycles: limits.cycles,
            },
        )
    } else {
        match analyse_spec(starts.last(), limits.rounds as nat, limits.sweeps as nat) {
            (reached, Err(e)) => after == reached && r == Err::<Outcome, OptimError>(
                OptimError::Analysis(e),
            ),
            (analysed, Ok(saturated)) => exists|graphs: Seq<ModelValue>| #[trigger]
                passes_ran(passes, graphs) && graphs[0] == analysed && passes_ended(
                    passes,
                    graphs,
                    saturated,
                    cycles + 1,
                    after,
                    r,
                ),
        }
    }
}

/// What optimisation makes of the graph `before`: whole cycles are run as
/// long as they change the graph and the limit allows, and then optimisation
/// ends as `ended` says.
pub open spec fn optimized(
    passes: Seq<Pass>,
    limits: Limits,
    before: ModelValue,
    after: ModelValue,
    r: Result<Outcome, OptimError>,
) -> bool {
    exists|starts: Seq<ModelValue>| #[trigger]
        cycles_ran(passes, limits, starts) && starts[0] == before && ended(passes, limits, starts, after, r)
}

/// After one more pass, a pass has changed the graph if one had before or
/// this one did.
proof fn lemma_changed_push(graphs: Seq<ModelValue>, g: ModelValue)
    requires
        graphs.len() >= 1,
    ensures
        changed_in(graphs.push(g)) == (changed_in(graphs) || g != graphs.last()),
{
    let longer = graphs.push(g);
    let last = graphs.len() - 1;
    if changed_in(graphs) {
        let k = choose|k: int| 0 <= k < graphs.len() - 1 && #[trigger] changed_at(graphs, k);
        assert(changed_at(longer, k));
    }
    if g != graphs.last() {
        assert(changed_at(longer, last));
    }
    if changed_in(longer) {
        let k = choose|k: int| 0 <= k < longer.len() - 1 && #[trigger] changed_at(longer, k);
        if k < last {
            assert(changed_at(graphs, k));
        }
    }
}

/// After one more whole cycle that changed the graph, the cycles that were
/// run are one more.
proof fn lemma_cycles_push(passes: Seq<Pass>, limits: Limits, starts: Seq<ModelValue>, g: ModelValue)
    requires
        cycles_ran(passes, limits, starts),
        cycle_ran(passes, limits, starts.last(), g),
    ensures
        cycles_ran(passes, limits, starts.push(g)),
{
    let longer = starts.push(g);
    assert forall|k: int| 0 <= k < longer.len() - 1 implies #[trigger] cycle_at(passes, limits, longer, k) by {
        if k < starts.len() - 1 {
            assert(cycle_at(passes, limits, starts, k));
        }
    }
}

/// Optimises a graph: the facts are analysed, then every pass is applied
/// once, and so on until a cycle in which no pass changes anything, or until
/// `limits.cycles` cycles were run. Running out of cycles is no failure: the
/// outcome then says that the graph has not settled. The first error of an
/// analysis or of a pass ends the optimisation and is reported; the graph
/// then is as the failing step left it. A graph that has settled after a
/// saturated analysis is one that a further sweep of the analysis leaves as
/// it is.
pub fn optimize(model: &mut Model, passes: &Vec<Pass>, limits: &Limits) -> (r: Result<Outcome, OptimError>)
    requires
        old(model)@.consistent(),
    ensures
        final(model)@.consistent(),
        optimized(passes@, *limits, old(model)@, final(model)@, r),
        r matches Ok(outcome) ==> {
            &&& outcome.cycles <= limits.cycles
            &&& !outcome.settled ==> outcome.cycles == limits.cycles
            &&& outcome.settled ==> outcome.cycles >= 1
            &&& outcome.settled && outcome.saturated ==> sweep_from(
                final(model)@,
                0,
                limits.rounds as nat,
                false,
            ) == (final(model)@, Ok::<bool, NodeError>(false))
        },
{
    let ghost g0 = model@;
    let ghost mut starts: Seq<ModelValue> = seq![g0];
    let mut cycles: usize = 0;
    let mut saturated = false;
    while cycles < limits.cycles
        invariant
            cycles <= limits.cycles,
            model@.consistent(),
            g0 == old(model)@,
            cycles_ran(passes@, *limits, starts),
            starts.len() == cycles + 1,
            starts[0] == g0,
            starts.last() == model@,
            saturated == (cycles > 0 && analyse_spec(
                starts[cycles - 1],
                limits.rounds as nat,
                limits.sweeps as nat,
            ).1 == Ok::<bool, NodeError>(true)),
        decreases limits.cycles - cycles,
    {
        let ghost start = model@;
        let found = match analyse(model, limits.rounds, limits.sweeps) {
            Ok(s) => s,
            Err(e) => {
                proof {
                    assert(ended(passes@, *limits, starts, model@, Err(OptimError::Analysis(e))));
                }
                return Err(OptimError::Analysis(e));
            },
        };
        let ghost analysed = model@;
        let ghost mut graphs: Seq<ModelValue> = seq![analysed];
        proof {
            if found {
                lemma_saturated_is_fixed(start, limits.rounds as nat, limits.sweeps as nat);
            }
            assert(!changed_in(graphs));
        }
        let mut changed = false;
        let mut k: usize = 0;
        while k < passes.len()
            invariant
                k <= passes.len(),
                model@.consistent(),
                !changed ==> model@ == analysed,
                passes_ran(passes@, graphs),
                graphs.len() == k + 1,
                graphs[0] == analysed,
                graphs.last() == model@,
                changed == changed_in(graphs),
                cycles < limits.cycles,
                cycles_ran(passes@, *limits, starts),
                starts.len() == cycles + 1,
                starts[0] == old(model)@,
                starts.last() == start,
                analyse_spec(start, limits.rounds as nat, limits.sweeps as nat) == (
                    analysed,
                    Ok::<bool, NodeError>(found),
                ),
            decreases passes.len() - k,
        {
            let ghost before = model@;
            match passes[k].pass(model) {
                Ok(c) => {
                    if c {
                        changed = true;
                    }
                },
                Err(kind) => {
                    proof {
                        let r = Err::<Outcome, OptimError>(OptimError::Pass { index: k, kind });
                        assert(passes_ended(passes@, graphs, found, cycles + 1, model@, r));
                        assert(passes_ran(passes@, graphs) && graphs[0] == analysed && passes_ended(
                            passes@,
                            graphs,
                            found,
                            cycles + 1,
                            model@,
                            r,
                        ));
                        assert(ended(passes@, *limits, starts, model@, r));
                    }
                    return Err(OptimError::Pass { index: k, kind });
                },
            }
            proof {
                lemma_changed_push(graphs, model@);
                let longer = graphs.push(model@);
                assert forall|j: int| 0 <= j < longer.len() - 1 implies (#[trigger] passes@[j]).outcome(
                    longer[j],
                    longer[j + 1],
                    Ok(longer[j + 1] != longer[j]),
                ) by {
                    if j < graphs.len() - 1 {
                        assert(passes@[j].outcome(graphs[j], graphs[j + 1], Ok(graphs[j + 1] != graphs[j])));
                    }
                }
                graphs = longer;
            }
            k += 1;
        }
        if !changed {
            proof {
                let r = Ok::<Outcome, OptimError>(
                    Outcome { settled: true, saturated: found, cycles: (cycles + 1) as usize },
                );
                assert(passes_ran(passes@, graphs) && graphs[0] == analysed && passes_ended(
                    passes@,
                    graphs,
                    found,
                    cycles + 1,
                    model@,
                    r,
                ));
                assert(ended(passes@, *limits, starts, model@, r));
            }
            return Ok(Outcome { settled: true, saturated: found, cycles: cycles + 1 });
        }
        proof {
            assert(passes_ran(passes@, graphs) && graphs.len() == passes@.len() + 1 && graphs[0]
                == analysed && graphs.last() == model@ && changed_in(graphs));
            assert(cycle_ran(passes@, *limits, start, model@));
            lemma_cycles_push(passes@, *limits, starts, model@);
            starts = starts.push(model@);
        }
        saturated = found;
        cycles += 1;
    }
    proof {
        assert(ended(
            passes@,
            *limits,
            starts,
            model@,
            Ok(Outcome { settled: false, saturated, cycles }),
        ));
    }
    Ok(Outcome { settled: false, saturated, cycles })
}

} // verus!
