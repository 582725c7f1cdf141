//! Analysis of a graph: the rules of every node are solved against the facts
//! on its edges, and what they narrow is written back to the edges, from
//! where it reaches the neighbours of the node.

use vstd::prelude::*;
use crate::analyser::laws::{
    lemma_refines_reflexive,
    lemma_refines_transitive,
    lemma_unified_refines,
    refines,
};
use crate::analyser::rules::{Facts, FactsValue, TensorProxy};
use crate::analyser::solver::{solve, Solver};
use crate::analyser::types::{TensorFact, TensorFactValue};
use crate::errors::{NodeError, TractError, TractResult};
use crate::model::{lemma_same_edges, Model, ModelValue, OutletId};

verus! {

/// The handles on the first `count` inputs, or outputs, of a node.
pub open spec fn proxies(count: nat, output: bool) -> Seq<TensorProxy> {
    Seq::new(count, |i: int| TensorProxy { output, index: i as usize })
}

/// The facts on the edges of node `n`: for each inlet the fact on its
/// source, for each outlet its own fact.
pub open spec fn node_facts(g: ModelValue, n: int) -> FactsValue {
    FactsValue {
        inputs: Seq::new(g.nodes[n].inputs.len(), |i: int| g.fact(g.source(n, i).unwrap())),
        outputs: g.nodes[n].outputs,
    }
}

/// The outlets that the facts of node `n` belong to: its own outlets, then
/// the sources of its inlets.
pub open spec fn targets(g: ModelValue, n: int) -> Seq<OutletId> {
    Seq::new(g.nodes[n].outputs.len(), |k: int| OutletId { node: n as usize, slot: k as usize })
        + Seq::new(g.nodes[n].inputs.len(), |i: int| g.source(n, i).unwrap())
}

/// For each of the first `upto` outlets, the fact on it unified with the
/// fact that the rules narrowed it to. `ContradictoryFact` when the two
/// contradict.
pub open spec fn unified_upto(
    g: ModelValue,
    targets: Seq<OutletId>,
    facts: Seq<TensorFactValue>,
    upto: int,
) -> Result<Seq<TensorFactValue>, TractError>
    decreases upto,
{
    if upto <= 0 {
        Ok(Seq::empty())
    } else {
        match unified_upto(g, targets, facts, upto - 1) {
            Err(e) => Err(e),
            Ok(us) => match g.fact(targets[upto - 1]).unify_spec(facts[upto - 1]) {
                Err(_) => Err(TractError::ContradictoryFact),
                Ok(u) => Ok(us.push(u)),
            },
        }
    }
}

/// The graph with the first `upto` facts written to their outlets, in order.
pub open spec fn written(g: ModelValue, targets: Seq<OutletId>, facts: Seq<TensorFactValue>, upto: int) -> ModelValue
    decreases upto,
{
    if upto <= 0 {
        g
    } else {
        written(g, targets, facts, upto - 1).with_fact(targets[upto - 1], facts[upto - 1])
    }
}

/// Whether one of the first `upto` facts differs from the fact on its
/// outlet.
pub open spec fn differs_upto(g: ModelValue, targets: Seq<OutletId>, facts: Seq<TensorFactValue>, upto: int) -> bool
    decreases upto,
{
    if upto <= 0 {
        false
    } else {
        differs_upto(g, targets, facts, upto - 1) || facts[upto - 1] != g.fact(targets[upto - 1])
    }
}

/// What analysing one node gives: the graph with the narrowed facts, and
/// whether a fact changed. The rules of the operator are solved in at most
/// `rounds` rounds against the facts on the edges of the node; each narrowed
/// fact is unified with the fact on its outlet and written there.
pub open spec fn analyse_node_spec(g: ModelValue, n: int, rounds: nat) -> Result<
    (ModelValue, bool),
    TractError,
> {
    let node = g.nodes[n];
    match node.op.rules(proxies(node.inputs.len(), false), proxies(node.outputs.len(), true)) {
        Err(e) => Err(e),
        Ok(rules) => match solve(rules, node_facts(g, n), rounds) {
            Err(e) => Err(e),
            Ok(solution) => if solution.facts.inputs.len() != node.inputs.len()
                || solution.facts.outputs.len() != node.outputs.len() {
                Err(TractError::ArityMismatch)
            } else {
                let narrowed = solution.facts.outputs + solution.facts.inputs;
                let all = targets(g, n);
                match unified_upto(g, all, narrowed, all.len() as int) {
                    Err(e) => Err(e),
                    Ok(us) => Ok(
                        (written(g, all, us, all.len() as int), differs_upto(g, all, us, all.len() as int)),
                    ),
                }
            },
        },
    }
}

/// Writing facts to outlets that the graph has keeps its nodes, its edges
/// and its consistency.
pub proof fn lemma_written(g: ModelValue, targets: Seq<OutletId>, facts: Seq<TensorFactValue>, upto: int)
    requires
        g.wf(),
        0 <= upto <= targets.len(),
        forall|t: int| 0 <= t < targets.len() ==> g.has_outlet(#[trigger] targets[t]),
    ensures
        same_structure(g, written(g, targets, facts, upto)),
        written(g, targets, facts, upto).wf(),
        g.consistent() ==> written(g, targets, facts, upto).consistent(),
    decreases upto,
{
    if upto > 0 {
        lemma_written(g, targets, facts, upto - 1);
        let h = written(g, targets, facts, upto - 1);
        let o = targets[upto - 1];
        assert(g.has_outlet(o));
        let k = h.with_fact(o, facts[upto - 1]);
        assert forall|n: int| 0 <= n < h.nodes.len() implies (#[trigger] k.nodes[n]).id == h.nodes[n].id
            && k.nodes[n].inputs == h.nodes[n].inputs && k.nodes[n].outputs.len()
            >= h.nodes[n].outputs.len() by {}
        lemma_same_edges(h, k);
    }
}

/// `h` has the nodes and edges of `g`; only facts may differ.
pub open spec fn same_structure(g: ModelValue, h: ModelValue) -> bool {
    &&& h.outputs == g.outputs
    &&& h.nodes.len() == g.nodes.len()
    &&& forall|n: int|
        0 <= n < g.nodes.len() ==> {
            let a = g.nodes[n];
            let b = #[trigger] h.nodes[n];
            a.id == b.id && a.name == b.name && a.op == b.op && a.inputs == b.inputs
                && a.outputs.len() == b.outputs.len()
        }
}

/// Every outlet that the facts of a node belong to is an outlet of the
/// graph.
pub proof fn lemma_targets_exist(g: ModelValue, n: int)
    requires
        g.consistent(),
        0 <= n < g.nodes.len(),
    ensures
        forall|t: int| 0 <= t < targets(g, n).len() ==> g.has_outlet(#[trigger] targets(g, n)[t]),
        targets(g, n).len() == g.nodes[n].outputs.len() + g.nodes[n].inputs.len(),
{
    let all = targets(g, n);
    let produced = g.nodes[n].outputs.len() as int;
    assert forall|t: int| 0 <= t < all.len() implies g.has_outlet(#[trigger] all[t]) by {
        if t >= produced {
            assert(g.has_inlet(n, t - produced));
        }
    }
}

/// Once a fact contradicts the fact on its outlet, unifying more facts
/// fails in the same way.
pub proof fn lemma_unified_fails(
    g: ModelValue,
    targets: Seq<OutletId>,
    facts: Seq<TensorFactValue>,
    at: int,
    upto: int,
)
    requires
        0 <= at <= upto,
        unified_upto(g, targets, facts, at) is Err,
    ensures
        unified_upto(g, targets, facts, upto) == Err::<Seq<TensorFactValue>, TractError>(
            TractError::ContradictoryFact,
        ),
    decreases upto,
{
    if at < upto {
        lemma_unified_fails(g, targets, facts, at, upto - 1);
    } else {
        lemma_unified_error(g, targets, facts, at);
    }
}

/// Unifying facts fails with `ContradictoryFact` or not at all.
pub proof fn lemma_unified_error(g: ModelValue, targets: Seq<OutletId>, facts: Seq<TensorFactValue>, upto: int)
    ensures
        unified_upto(g, targets, facts, upto) matches Err(e) ==> e == TractError::ContradictoryFact,
        unified_upto(g, targets, facts, upto) matches Ok(us) ==> us.len() == (if upto <= 0 {
            0
        } else {
            upto
        }),
    decreases upto,
{
    if upto > 0 {
        lemma_unified_error(g, targets, facts, upto - 1);
    }
}

/// The facts on the edges of a node, the handles on its inputs and outputs,
/// and the outlets that the facts belong to.
pub struct Gathered {
    pub facts: Facts,
    pub in_proxies: Vec<TensorProxy>,
    pub out_proxies: Vec<TensorProxy>,
    pub all: Vec<OutletId>,
}

/// Reads the facts on the edges of node `node`.
pub fn gather(model: &Model, node: usize) -> (r: Gathered)
    requires
        model@.consistent(),
        node < model@.nodes.len(),
    ensures
        r.facts@ == node_facts(model@, node as int),
        r.in_proxies@ == proxies(model@.nodes[node as int].inputs.len(), false),
        r.out_proxies@ == proxies(model@.nodes[node as int].outputs.len(), true),
        r.all@ == targets(model@, node as int),
{
    let ghost g = model@;
    let arity = model.input_count(node);
    let produced = model.output_count(node);
    let mut inputs: Vec<TensorFact> = Vec::new();
    let mut in_proxies: Vec<TensorProxy> = Vec::new();
    let mut all: Vec<OutletId> = Vec::new();
    let mut out_proxies: Vec<TensorProxy> = Vec::new();
    let mut outputs: Vec<TensorFact> = Vec::new();
    let mut k: usize = 0;
    while k < produced
        invariant
            k <= produced,
            model@ == g,
            g.consistent(),
            node < g.nodes.len(),
            produced == g.nodes[node as int].outputs.len(),
            out_proxies@ =~= proxies(k as nat, true),
            outputs@.len() == k,
            forall|j: int| 0 <= j < k ==> (#[trigger] outputs@[j])@ == g.nodes[node as int].outputs[j],
            all@ =~= Seq::new(k as nat, |j: int| OutletId { node: node, slot: j as usize }),
        decreases produced - k,
    {
        let o = OutletId::new(node, k);
        assert(g.has_outlet(o));
        let fact = match model.fact(o) {
            Ok(f) => f.clone(),
            Err(_) => TensorFact::default(),
        };
        outputs.push(fact);
        out_proxies.push(TensorProxy::output(k));
        all.push(o);
        k += 1;
    }
    let mut i: usize = 0;
    while i < arity
        invariant
            i <= arity,
            model@ == g,
            g.consistent(),
            node < g.nodes.len(),
            arity == g.nodes[node as int].inputs.len(),
            produced == g.nodes[node as int].outputs.len(),
            in_proxies@ =~= proxies(i as nat, false),
            inputs@.len() == i,
            forall|j: int|
                0 <= j < i ==> (#[trigger] inputs@[j])@ == g.fact(g.source(node as int, j).unwrap()),
            all@ =~= targets(g, node as int).take(produced + i),
        decreases arity - i,
    {
        proof {
            assert(g.has_inlet(node as int, i as int));
        }
        let o = match model.input(node, i) {
            Some(o) => o,
            None => OutletId::new(node, 0),
        };
        assert(g.has_outlet(o));
        let fact = match model.fact(o) {
            Ok(f) => f.clone(),
            Err(_) => TensorFact::default(),
        };
        inputs.push(fact);
        in_proxies.push(TensorProxy::input(i));
        all.push(o);
        i += 1;
    }
    let facts = Facts { inputs, outputs };
    proof {
        assert(facts@.outputs =~= g.nodes[node as int].outputs);
        assert(facts@.inputs =~= node_facts(g, node as int).inputs);
        assert(all@ =~= targets(g, node as int));
    }
    Gathered { facts, in_proxies, out_proxies, all }
}

/// Unifies each narrowed fact with the fact on its outlet, and tells
/// whether one of them differs from the fact on its outlet.
fn unify_all(model: &Model, all: &Vec<OutletId>, narrowed: &Facts) -> (r: TractResult<(Vec<TensorFact>, bool)>)
    requires
        model@.wf(),
        all@.len() == narrowed@.outputs.len() + narrowed@.inputs.len(),
        forall|t: int| 0 <= t < all@.len() ==> model@.has_outlet(#[trigger] all@[t]),
    ensures
        match unified_upto(model@, all@, narrowed@.outputs + narrowed@.inputs, all@.len() as int) {
            Ok(us) => r matches Ok((v, changed)) && v.deep_view() == us && changed == differs_upto(
                model@,
                all@,
                us,
                all@.len() as int,
            ),
            Err(kind) => r matches Err(e) && e == kind,
        },
{
    let ghost g = model@;
    let ghost facts = narrowed@.outputs + narrowed@.inputs;
    let produced = narrowed.outputs.len();
    let count = all.len();
    let mut unified: Vec<TensorFact> = Vec::new();
    let mut changed = false;
    let mut t: usize = 0;
    assert(unified.deep_view() =~= Seq::<TensorFactValue>::empty());
    while t < count
        invariant
            t <= count,
            count == all@.len(),
            model@ == g,
            produced == narrowed@.outputs.len(),
            count == narrowed@.outputs.len() + narrowed@.inputs.len(),
            facts == narrowed@.outputs + narrowed@.inputs,
            unified@.len() == t,
            unified_upto(g, all@, facts, t as int) == Ok::<Seq<TensorFactValue>, TractError>(
                unified.deep_view(),
            ),
            changed == differs_upto(g, all@, unified.deep_view(), t as int),
            forall|j: int| 0 <= j < count ==> g.has_outlet(#[trigger] all@[j]),
        decreases count - t,
    {
        let o = all[t];
        assert(g.has_outlet(all@[t as int]));
        let narrow = if t < produced {
            &narrowed.outputs[t]
        } else {
            &narrowed.inputs[t - produced]
        };
        assert(narrow@ == facts[t as int]);
        let current = match model.fact(o) {
            Ok(f) => f,
            Err(e) => {
                return Err(e);
            },
        };
        let u = match current.unify(narrow) {
            Ok(u) => u,
            Err(_) => {
                proof {
                    assert(unified_upto(g, all@, facts, t + 1) is Err);
                    lemma_unified_fails(g, all@, facts, t + 1, count as int);
                }
                return Err(TractError::ContradictoryFact);
            },
        };
        let ghost before = unified.deep_view();
        if !u.same_as(current) {
            changed = true;
        }
        unified.push(u);
        proof {
            assert(unified.deep_view() =~= before.push(u@));
            lemma_differs_prefix(g, all@, before, unified.deep_view(), t as int);
        }
        t += 1;
    }
    Ok((unified, changed))
}

/// Writes each fact to its outlet, in order.
fn write_all(model: &mut Model, all: &Vec<OutletId>, facts: &Vec<TensorFact>)
    requires
        old(model)@.wf(),
        all@.len() == facts@.len(),
        forall|t: int| 0 <= t < all@.len() ==> old(model)@.has_outlet(#[trigger] all@[t]),
    ensures
        final(model)@ == written(old(model)@, all@, facts.deep_view(), all@.len() as int),
{
    let ghost g = model@;
    let count = all.len();
    let mut w: usize = 0;
    while w < count
        invariant
            w <= count,
            count == all@.len(),
            facts@.len() == count,
            g.wf(),
            model@ == written(g, all@, facts.deep_view(), w as int),
            forall|j: int| 0 <= j < count ==> g.has_outlet(#[trigger] all@[j]),
        decreases count - w,
    {
        proof {
            lemma_written(g, all@, facts.deep_view(), w as int);
            assert(g.has_outlet(all@[w as int]));
        }
        let f = facts[w].clone();
        assert(f@ == facts.deep_view()[w as int]);
        let _ = model.set_fact(all[w], f);
        w += 1;
    }
}

/// Analyses node `node`: solves the rules of its operator against the facts
/// on its edges and writes what they narrow back to the edges. Tells whether
/// a fact changed. On failure the graph stays as it is.
pub fn analyse_node(model: &mut Model, node: usize, max_rounds: usize) -> (r: TractResult<bool>)
    requires
        old(model)@.consistent(),
        node < old(model)@.nodes.len(),
    ensures
        final(model)@.consistent(),
        narrows(old(model)@, final(model)@),
        match analyse_node_spec(old(model)@, node as int, max_rounds as nat) {
            Ok((g, changed)) => r matches Ok(c) && c == changed && final(model)@ == g,
            Err(kind) => r matches Err(e) && e == kind && final(model)@ == old(model)@,
        },
{
    let ghost g = model@;
    proof {
        lemma_narrows_reflexive(g);
        lemma_analysed_node_narrows(g, node as int, max_rounds as nat);
        lemma_targets_exist(g, node as int);
        lemma_written(g, targets(g, node as int), Seq::empty(), 0);
    }
    let gathered = gather(model, node);
    let arity = gathered.facts.inputs.len();
    let produced = gathered.facts.outputs.len();
    let mut solver = Solver::new();
    model.op(node).rules(&mut solver, &gathered.in_proxies, &gathered.out_proxies)?;
    assert(solver@ =~= g.nodes[node as int].op.rules(
        gathered.in_proxies@,
        gathered.out_proxies@,
    )->Ok_0);
    let solution = solver.infer(gathered.facts, max_rounds)?;
    if solution.facts.inputs.len() != arity || solution.facts.outputs.len() != produced {
        return Err(TractError::ArityMismatch);
    }
    let (unified, changed) = unify_all(model, &gathered.all, &solution.facts)?;
    proof {
        lemma_unified_error(
            g,
            gathered.all@,
            solution.facts@.outputs + solution.facts@.inputs,
            gathered.all@.len() as int,
        );
        lemma_written(g, gathered.all@, unified.deep_view(), gathered.all@.len() as int);
    }
    write_all(model, &gathered.all, &unified);
    Ok(changed)
}

/// Whether facts differ from those on their outlets does not depend on the
/// facts after them.
pub proof fn lemma_differs_prefix(
    g: ModelValue,
    targets: Seq<OutletId>,
    shorter: Seq<TensorFactValue>,
    longer: Seq<TensorFactValue>,
    upto: int,
)
    requires
        0 <= upto <= shorter.len() <= longer.len(),
        forall|j: int| 0 <= j < shorter.len() ==> shorter[j] == longer[j],
    ensures
        differs_upto(g, targets, shorter, upto) == differs_upto(g, targets, longer, upto),
    decreases upto,
{
    if upto > 0 {
        lemma_differs_prefix(g, targets, shorter, longer, upto - 1);
    }
}

/// What one sweep over the nodes from `n` on gives: the graph after
/// analysing each of them in turn, and whether a fact changed. The first
/// error ends the sweep and names its node; the graph then keeps what was
/// narrowed before that node.
pub open spec fn sweep_from(g: ModelValue, n: int, rounds: nat, changed: bool) -> (ModelValue, Result<bool, NodeError>)
    decreases g.nodes.len() - n,
{
    if n < 0 || n >= g.nodes.len() {
        (g, Ok(changed))
    } else {
        match analyse_node_spec(g, n, rounds) {
            Err(kind) => (g, Err(NodeError { node: n as usize, kind })),
            Ok((h, c)) => if h.nodes.len() == g.nodes.len() {
                sweep_from(h, n + 1, rounds, changed || c)
            } else {
                (h, Ok(changed || c))
            },
        }
    }
}

/// What analysing a graph gives: sweeps are made until one changes no fact,
/// at most `sweeps` of them. The result is the graph reached, and whether
/// the last sweep changed nothing or the error that ended the analysis.
pub open spec fn analyse_spec(g: ModelValue, rounds: nat, sweeps: nat) -> (ModelValue, Result<bool, NodeError>)
    decreases sweeps,
{
    if sweeps == 0 {
        (g, Ok(false))
    } else {
        match sweep_from(g, 0, rounds, false) {
            (h, Err(e)) => (h, Err(e)),
            (h, Ok(changed)) => if changed {
                analyse_spec(h, rounds, (sweeps - 1) as nat)
            } else {
                (h, Ok(true))
            },
        }
    }
}

/// Analyses the whole graph: every node in turn, again and again until a
/// sweep changes no fact, at most `max_sweeps` times. Tells whether the
/// facts are saturated. On failure the graph keeps what was narrowed before
/// the failing node, whose own facts stay as they were.
pub fn analyse(model: &mut Model, max_rounds: usize, max_sweeps: usize) -> (r: Result<bool, NodeError>)
    requires
        old(model)@.consistent(),
    ensures
        final(model)@.consistent(),
        narrows(old(model)@, final(model)@),
        (final(model)@, r) == analyse_spec(old(model)@, max_rounds as nat, max_sweeps as nat),
{
    let ghost g0 = model@;
    proof {
        lemma_analysis_narrows(g0, max_rounds as nat, max_sweeps as nat);
    }
    let ghost goal = analyse_spec(g0, max_rounds as nat, max_sweeps as nat);
    let mut left = max_sweeps;
    while left > 0
        invariant
            model@.consistent(),
            same_structure(g0, model@),
            goal == analyse_spec(g0, max_rounds as nat, max_sweeps as nat),
            g0 == old(model)@,
            narrows(g0, goal.0),
            analyse_spec(model@, max_rounds as nat, left as nat) == goal,
        decreases left,
    {
        let ghost start = model@;
        let count = model.nodes().len();
        let mut changed = false;
        let mut n: usize = 0;
        while n < count
            invariant
                n <= count,
                left > 0,
                count == model@.nodes.len(),
                model@.consistent(),
                same_structure(g0, model@),
                goal == analyse_spec(g0, max_rounds as nat, max_sweeps as nat),
                g0 == old(model)@,
                narrows(g0, goal.0),
                analyse_spec(start, max_rounds as nat, left as nat) == goal,
                sweep_from(model@, n as int, max_rounds as nat, changed) == sweep_from(
                    start,
                    0,
                    max_rounds as nat,
                    false,
                ),
            decreases count - n,
        {
            match analyse_node(model, n, max_rounds) {
                Ok(c) => {
                    if c {
                        changed = true;
                    }
                },
                Err(kind) => {
                    return Err(NodeError { node: n, kind });
                },
            }
            n += 1;
        }
        if !changed {
            return Ok(true);
        }
        left -= 1;
    }
    Ok(false)
}

/// Writing to every outlet the fact that is on it changes nothing.
pub proof fn lemma_written_same(g: ModelValue, targets: Seq<OutletId>, facts: Seq<TensorFactValue>, upto: int)
    requires
        g.wf(),
        0 <= upto <= targets.len(),
        forall|t: int| 0 <= t < targets.len() ==> g.has_outlet(#[trigger] targets[t]),
        !differs_upto(g, targets, facts, upto),
    ensures
        written(g, targets, facts, upto) == g,
    decreases upto,
{
    if upto > 0 {
        lemma_written_same(g, targets, facts, upto - 1);
        let o = targets[upto - 1];
        assert(g.has_outlet(o));
        let h = g.with_fact(o, facts[upto - 1]);
        assert(h.nodes[o.node as int].outputs =~= g.nodes[o.node as int].outputs);
        assert(h.nodes =~= g.nodes);
    }
}

/// A sweep that changes no fact leaves the graph as it is.
pub proof fn lemma_sweep_unchanged(g: ModelValue, n: int, rounds: nat)
    requires
        g.consistent(),
        0 <= n <= g.nodes.len(),
        sweep_from(g, n, rounds, false).1 == Ok::<bool, NodeError>(false),
    ensures
        sweep_from(g, n, rounds, false).0 == g,
    decreases g.nodes.len() - n,
{
    if n < g.nodes.len() {
        match analyse_node_spec(g, n, rounds) {
            Err(kind) => {},
            Ok((h, c)) => {
                lemma_analysed_node(g, n, rounds);
                if c {
                    lemma_sweep_changed(h, n + 1, rounds);
                } else {
                    lemma_sweep_unchanged(h, n + 1, rounds);
                }
            },
        }
    }
}

/// A sweep that starts after a change reports a change, unless it fails.
pub proof fn lemma_sweep_changed(g: ModelValue, n: int, rounds: nat)
    requires
        0 <= n <= g.nodes.len(),
    ensures
        sweep_from(g, n, rounds, true).1 != Ok::<bool, NodeError>(false),
    decreases g.nodes.len() - n,
{
    if n < g.nodes.len() {
        match analyse_node_spec(g, n, rounds) {
            Err(kind) => {},
            Ok((h, c)) => {
                if h.nodes.len() == g.nodes.len() {
                    lemma_sweep_changed(h, n + 1, rounds);
                }
            },
        }
    }
}

/// Analysing a node keeps the nodes and edges of the graph and its
/// consistency, and leaves the graph as it is when no fact changes.
pub proof fn lemma_analysed_node(g: ModelValue, n: int, rounds: nat)
    requires
        g.consistent(),
        0 <= n < g.nodes.len(),
    ensures
        analyse_node_spec(g, n, rounds) matches Ok((h, c)) ==> h.consistent() && same_structure(g, h)
            && (!c ==> h == g),
{
    let node = g.nodes[n];
    lemma_targets_exist(g, n);
    match node.op.rules(proxies(node.inputs.len(), false), proxies(node.outputs.len(), true)) {
        Err(e) => {},
        Ok(rules) => match solve(rules, node_facts(g, n), rounds) {
            Err(e) => {},
            Ok(solution) => {
                let narrowed = solution.facts.outputs + solution.facts.inputs;
                let all = targets(g, n);
                match unified_upto(g, all, narrowed, all.len() as int) {
                    Err(e) => {},
                    Ok(us) => {
                        lemma_written(g, all, us, all.len() as int);
                        if !differs_upto(g, all, us, all.len() as int) {
                            lemma_written_same(g, all, us, all.len() as int);
                        }
                    },
                }
            },
        },
    }
}

/// Analysis that ends saturated has reached a graph that one more sweep
/// leaves as it is.
pub proof fn lemma_saturated_is_fixed(g: ModelValue, rounds: nat, sweeps: nat)
    requires
        g.consistent(),
        analyse_spec(g, rounds, sweeps).1 == Ok::<bool, NodeError>(true),
    ensures
        sweep_from(analyse_spec(g, rounds, sweeps).0, 0, rounds, false) == (
            analyse_spec(g, rounds, sweeps).0,
            Ok::<bool, NodeError>(false),
        ),
    decreases sweeps,
{
    if sweeps > 0 {
        match sweep_from(g, 0, rounds, false) {
            (h, Err(e)) => {},
            (h, Ok(changed)) => {
                if changed {
                    lemma_sweep_consistent(g, 0, rounds, false);
                    lemma_saturated_is_fixed(h, rounds, (sweeps - 1) as nat);
                } else {
                    lemma_sweep_unchanged(g, 0, rounds);
                }
            },
        }
    }
}

/// A sweep keeps the nodes and edges of the graph and its consistency.
pub proof fn lemma_sweep_consistent(g: ModelValue, n: int, rounds: nat, changed: bool)
    requires
        g.consistent(),
        0 <= n <= g.nodes.len(),
    ensures
        sweep_from(g, n, rounds, changed).0.consistent(),
        same_structure(g, sweep_from(g, n, rounds, changed).0),
    decreases g.nodes.len() - n,
{
    if n < g.nodes.len() {
        match analyse_node_spec(g, n, rounds) {
            Err(kind) => {},
            Ok((h, c)) => {
                lemma_analysed_node(g, n, rounds);
                lemma_sweep_consistent(h, n + 1, rounds, changed || c);
            },
        }
    }
}

/// `h` has the nodes and edges of `g`, and every fact of `h` says all that
/// the fact of `g` on the same outlet says.
pub open spec fn narrows(g: ModelValue, h: ModelValue) -> bool {
    &&& same_structure(g, h)
    &&& forall|n: int, k: int|
        0 <= n < g.nodes.len() && 0 <= k < g.nodes[n].outputs.len() ==> refines(
            #[trigger] h.nodes[n].outputs[k],
            g.nodes[n].outputs[k],
        )
}

/// Every graph narrows itself.
pub proof fn lemma_narrows_reflexive(g: ModelValue)
    ensures
        narrows(g, g),
{
    assert forall|n: int, k: int|
        0 <= n < g.nodes.len() && 0 <= k < g.nodes[n].outputs.len() implies refines(
        #[trigger] g.nodes[n].outputs[k],
        g.nodes[n].outputs[k],
    ) by {
        lemma_refines_reflexive(g.nodes[n].outputs[k]);
    }
}

/// Narrowing a narrowed graph narrows the graph.
pub proof fn lemma_narrows_transitive(g: ModelValue, h: ModelValue, k: ModelValue)
    requires
        narrows(g, h),
        narrows(h, k),
    ensures
        narrows(g, k),
{
    assert forall|n: int| 0 <= n < g.nodes.len() implies {
        let a = g.nodes[n];
        let b = #[trigger] k.nodes[n];
        a.id == b.id && a.name == b.name && a.op == b.op && a.inputs == b.inputs && a.outputs.len()
            == b.outputs.len()
    } by {
        let middle = h.nodes[n];
    }
    assert forall|n: int, j: int|
        0 <= n < g.nodes.len() && 0 <= j < g.nodes[n].outputs.len() implies refines(
        #[trigger] k.nodes[n].outputs[j],
        g.nodes[n].outputs[j],
    ) by {
        let middle = h.nodes[n];
        assert(refines(h.nodes[n].outputs[j], g.nodes[n].outputs[j]));
        assert(refines(k.nodes[n].outputs[j], h.nodes[n].outputs[j]));
        lemma_refines_transitive(k.nodes[n].outputs[j], h.nodes[n].outputs[j], g.nodes[n].outputs[j]);
    }
}

/// Writing to outlets facts that say all that the facts on them say narrows
/// the graph.
pub proof fn lemma_written_narrows(g: ModelValue, targets: Seq<OutletId>, facts: Seq<TensorFactValue>, upto: int)
    requires
        g.wf(),
        0 <= upto <= targets.len(),
        upto <= facts.len(),
        forall|t: int| 0 <= t < targets.len() ==> g.has_outlet(#[trigger] targets[t]),
        forall|t: int| 0 <= t < upto ==> refines(#[trigger] facts[t], g.fact(targets[t])),
    ensures
        narrows(g, written(g, targets, facts, upto)),
    decreases upto,
{
    lemma_written(g, targets, facts, upto);
    if upto == 0 {
        lemma_narrows_reflexive(g);
    } else {
        lemma_written_narrows(g, targets, facts, upto - 1);
        lemma_written(g, targets, facts, upto - 1);
        let h = written(g, targets, facts, upto - 1);
        let o = targets[upto - 1];
        let k = h.with_fact(o, facts[upto - 1]);
        assert(g.has_outlet(o));
        assert(refines(facts[upto - 1], g.fact(o)));
        assert forall|n: int, j: int|
            0 <= n < g.nodes.len() && 0 <= j < g.nodes[n].outputs.len() implies refines(
            #[trigger] k.nodes[n].outputs[j],
            g.nodes[n].outputs[j],
        ) by {
            let before = h.nodes[n];
            if n == o.node && j == o.slot {
            } else {
                assert(k.nodes[n].outputs[j] == h.nodes[n].outputs[j]);
                assert(refines(h.nodes[n].outputs[j], g.nodes[n].outputs[j]));
            }
        }
    }
}

/// Each of the facts that were unified with the facts on their outlets says
/// all that the fact on its outlet says.
pub proof fn lemma_unified_refine(g: ModelValue, targets: Seq<OutletId>, narrowed: Seq<TensorFactValue>, upto: int)
    ensures
        unified_upto(g, targets, narrowed, upto) matches Ok(us) ==> forall|t: int|
            0 <= t < upto ==> refines(#[trigger] us[t], g.fact(targets[t])),
    decreases upto,
{
    if upto > 0 {
        lemma_unified_refine(g, targets, narrowed, upto - 1);
        lemma_unified_error(g, targets, narrowed, upto - 1);
        if let Ok(us) = unified_upto(g, targets, narrowed, upto) {
            let shorter = unified_upto(g, targets, narrowed, upto - 1)->Ok_0;
            lemma_unified_refines(g.fact(targets[upto - 1]), narrowed[upto - 1]);
            assert forall|t: int| 0 <= t < upto implies refines(#[trigger] us[t], g.fact(targets[t])) by {
                if t < upto - 1 {
                    assert(us[t] == shorter[t]);
                }
            }
        }
    }
}

/// Analysing a node only narrows the facts of the graph.
pub proof fn lemma_analysed_node_narrows(g: ModelValue, n: int, rounds: nat)
    requires
        g.consistent(),
        0 <= n < g.nodes.len(),
    ensures
        analyse_node_spec(g, n, rounds) matches Ok((h, c)) ==> narrows(g, h),
{
    let node = g.nodes[n];
    lemma_targets_exist(g, n);
    match node.op.rules(proxies(node.inputs.len(), false), proxies(node.outputs.len(), true)) {
        Err(e) => {},
        Ok(rules) => match solve(rules, node_facts(g, n), rounds) {
            Err(e) => {},
            Ok(solution) => {
                let narrowed = solution.facts.outputs + solution.facts.inputs;
                let all = targets(g, n);
                match unified_upto(g, all, narrowed, all.len() as int) {
                    Err(e) => {},
                    Ok(us) => {
                        lemma_unified_refine(g, all, narrowed, all.len() as int);
                        lemma_unified_error(g, all, narrowed, all.len() as int);
                        lemma_written_narrows(g, all, us, all.len() as int);
                    },
                }
            },
        },
    }
}

/// A sweep only narrows the facts of the graph.
pub proof fn lemma_sweep_narrows(g: ModelValue, n: int, rounds: nat, changed: bool)
    requires
        g.consistent(),
        0 <= n <= g.nodes.len(),
    ensures
        narrows(g, sweep_from(g, n, rounds, changed).0),
    decreases g.nodes.len() - n,
{
    if n < g.nodes.len() {
        match analyse_node_spec(g, n, rounds) {
            Err(kind) => {
                lemma_narrows_reflexive(g);
            },
            Ok((h, c)) => {
                lemma_analysed_node(g, n, rounds);
                lemma_analysed_node_narrows(g, n, rounds);
                lemma_sweep_narrows(h, n + 1, rounds, changed || c);
                lemma_narrows_transitive(g, h, sweep_from(h, n + 1, rounds, changed || c).0);
            },
        }
    } else {
        lemma_narrows_reflexive(g);
    }
}

/// Analysis only narrows the facts of the graph: whatever was known of an
/// outlet before is known of it afterwards, also when the analysis fails.
pub proof fn lemma_analysis_narrows(g: ModelValue, rounds: nat, sweeps: nat)
    requires
        g.consistent(),
    ensures
        narrows(g, analyse_spec(g, rounds, sweeps).0),
    decreases sweeps,
{
    if sweeps == 0 {
        lemma_narrows_reflexive(g);
    } else {
        lemma_sweep_narrows(g, 0, rounds, false);
        lemma_sweep_consistent(g, 0, rounds, false);
        match sweep_from(g, 0, rounds, false) {
            (h, Err(e)) => {},
            (h, Ok(changed)) => {
                if changed {
                    lemma_analysis_narrows(h, rounds, (sweeps - 1) as nat);
                    lemma_narrows_transitive(g, h, analyse_spec(h, rounds, (sweeps - 1) as nat).0);
                }
            },
        }
    }
}

} // verus!
