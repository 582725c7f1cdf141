use tract_core::analyser::macros::{dimfact, dimfact_any, shapefact, shapefact_open, typefact};
use tract_core::analyser::propagate::{analyse, analyse_node};
use tract_core::analyser::rules::{DimExp, Facts, IntExp, Rule, TensorProxy, TypeExp, ValueClosure};
use tract_core::analyser::solver::Solver;
use tract_core::analyser::types::{GenericFact, TensorFact};
use tract_core::dim::TDim;
use tract_core::errors::{NodeError, TractError};
use tract_core::model::{InletId, Model, OutletId};
use tract_core::ops::expand_dims::ExpandDims;
use tract_core::ops::nn::Softmax;
use tract_core::ops::source::{Noop, Source, UnimplementedOp};
use tract_core::ops::{Operator, ReductionPhase};
use tract_core::optim::prop_const::PropConst;
use tract_core::optim::reduce::Reduce;
use tract_core::optim::{optimize, Limits, OptimError, OptimizerPass, Pass};
use tract_core::tensor::{DatumType, Tensor};

fn other(name: &str) -> Operator {
    Operator::Unimplemented(UnimplementedOp::new(name.to_string(), String::new()))
}

fn scalar(v: i64) -> Tensor {
    Tensor::scalar(DatumType::I32, v)
}

fn add_known_const(model: &mut Model, name: &str, value: Tensor) -> usize {
    let id = model.add_const(name.to_string(), value.clone());
    model.set_fact(OutletId::new(id, 0), TensorFact::from_tensor(value)).unwrap();
    id
}

/// Const(2) and Const(3) feed a node whose output is known to be 5, which
/// feeds a consumer that is the output of the graph.
fn sum_graph() -> Model {
    let mut model = Model::new();
    let two = add_known_const(&mut model, "two", scalar(2));
    let three = add_known_const(&mut model, "three", scalar(3));
    let sum = model.add_node("sum".to_string(), other("Add"));
    model.add_edge(OutletId::new(two, 0), InletId::new(sum, 0)).unwrap();
    model.add_edge(OutletId::new(three, 0), InletId::new(sum, 1)).unwrap();
    model.set_fact(OutletId::new(sum, 0), TensorFact::from_tensor(scalar(5))).unwrap();
    let consumer = model.add_node("consumer".to_string(), other("Identity"));
    model.add_edge(OutletId::new(sum, 0), InletId::new(consumer, 0)).unwrap();
    model.set_outputs(vec![OutletId::new(consumer, 0)]).unwrap();
    model.check_edges().unwrap();
    model
}

#[test]
fn constant_propagation_folds_a_known_sum() {
    let mut model = sum_graph();
    assert_eq!(model.nodes().len(), 4);
    assert_eq!(PropConst.pass(&mut model), Ok(true));
    assert_eq!(model.nodes().len(), 5);
    let konst = &model.nodes()[4];
    assert_eq!(konst.id, 4);
    assert_eq!(konst.name, "Const-4");
    assert!(konst.inputs.is_empty());
    match &konst.op {
        Operator::Const(c) => assert_eq!(c.value(), &scalar(5)),
        other => panic!("unexpected operator {:?}", other),
    }
    assert_eq!(model.fact(OutletId::new(4, 0)), Ok(&TensorFact::from_tensor(scalar(5))));
    assert_eq!(model.nodes()[3].inputs, vec![Some(OutletId::new(4, 0))]);
    assert_eq!(model.nodes()[2].inputs, vec![Some(OutletId::new(0, 0)), Some(OutletId::new(1, 0))]);
    assert_eq!(model.outputs(), &vec![OutletId::new(3, 0)]);
    assert_eq!(model.check_edges(), Ok(()));
}

#[test]
fn constant_propagation_is_idempotent_on_the_sum() {
    let mut model = sum_graph();
    assert_eq!(PropConst.pass(&mut model), Ok(true));
    let nodes = model.nodes().len();
    assert_eq!(PropConst.pass(&mut model), Ok(false));
    assert_eq!(model.nodes().len(), nodes);
    assert_eq!(model.nodes()[3].inputs, vec![Some(OutletId::new(4, 0))]);
}

#[test]
fn constant_propagation_leaves_unknown_values_alone() {
    let mut model = Model::new();
    let input = model.add_node("in".to_string(), Operator::Source(Source::new(TensorFact::dt(DatumType::F32))));
    let soft = model.add_node("soft".to_string(), Operator::Softmax(Softmax {}));
    model.add_edge(OutletId::new(input, 0), InletId::new(soft, 0)).unwrap();
    model.set_outputs(vec![OutletId::new(soft, 0)]).unwrap();
    assert_eq!(PropConst.pass(&mut model), Ok(false));
    assert_eq!(model.nodes().len(), 2);
    assert_eq!(model.nodes()[1].inputs, vec![Some(OutletId::new(0, 0))]);
}

#[test]
fn constant_propagation_folds_every_reader_of_a_known_value() {
    let mut model = Model::new();
    let producer = model.add_node("p".to_string(), other("Shape"));
    model.set_fact(OutletId::new(producer, 0), TensorFact::from_tensor(scalar(7))).unwrap();
    let a = model.add_node("a".to_string(), other("A"));
    let b = model.add_node("b".to_string(), other("B"));
    model.add_edge(OutletId::new(producer, 0), InletId::new(a, 0)).unwrap();
    model.add_edge(OutletId::new(producer, 0), InletId::new(b, 0)).unwrap();
    model.add_edge(OutletId::new(a, 0), InletId::new(b, 1)).unwrap();
    model.set_outputs(vec![OutletId::new(b, 0)]).unwrap();
    assert_eq!(PropConst.pass(&mut model), Ok(true));
    assert_eq!(model.nodes().len(), 5);
    assert_eq!(model.nodes()[b].inputs[1], Some(OutletId::new(a, 0)));
    let folded_b = model.nodes()[b].inputs[0].unwrap();
    let folded_a = model.nodes()[a].inputs[0].unwrap();
    assert!(folded_a.node >= 3 && folded_b.node >= 3 && folded_a != folded_b);
    assert!(model.nodes()[folded_a.node].op.is_const());
    assert_eq!(model.check_edges(), Ok(()));
    assert_eq!(PropConst.pass(&mut model), Ok(false));
}

#[test]
fn edges_are_validated() {
    let mut model = Model::new();
    let a = model.add_node("a".to_string(), Operator::Noop(Noop::new()));
    let b = model.add_node("b".to_string(), Operator::Noop(Noop::new()));
    assert_eq!(model.add_edge(OutletId::new(a, 0), InletId::new(b, 0)), Ok(()));
    assert_eq!(model.add_edge(OutletId::new(a, 0), InletId::new(b, 0)), Err(TractError::DuplicateInlet));
    assert_eq!(model.add_edge(OutletId::new(a, 0), InletId::new(b, 2)), Err(TractError::DanglingEdge));
    assert_eq!(model.add_edge(OutletId::new(a, 1), InletId::new(b, 1)), Err(TractError::DanglingEdge));
    assert_eq!(model.add_edge(OutletId::new(5, 0), InletId::new(b, 1)), Err(TractError::DanglingEdge));
    assert_eq!(model.add_edge(OutletId::new(a, 0), InletId::new(5, 0)), Err(TractError::DanglingEdge));
    assert_eq!(model.node_inputs(b), Ok(&vec![Some(OutletId::new(a, 0))]));
    assert_eq!(model.node_inputs(9), Err(TractError::DanglingEdge));
    assert_eq!(model.add_outlet(a), Ok(1));
    assert_eq!(model.add_edge(OutletId::new(a, 1), InletId::new(b, 1)), Ok(()));
    assert_eq!(model.add_outlet(9), Err(TractError::DanglingEdge));
    assert_eq!(model.input_count(b), 2);
    assert_eq!(model.output_count(a), 2);
    assert_eq!(model.input(b, 1), Some(OutletId::new(a, 1)));
    assert!(!model.is_const_node(a));
    assert_eq!(model.op(a).name(), "tf.Noop");
}

#[test]
fn removed_edges_leave_the_inlet_unbound() {
    let mut model = Model::new();
    let a = model.add_node("a".to_string(), Operator::Noop(Noop::new()));
    let b = model.add_node("b".to_string(), Operator::Noop(Noop::new()));
    model.add_edge(OutletId::new(a, 0), InletId::new(b, 0)).unwrap();
    assert_eq!(model.check_edges(), Ok(()));
    assert_eq!(model.remove_edge(InletId::new(b, 0)), Ok(Some(OutletId::new(a, 0))));
    assert_eq!(model.check_edges(), Err(TractError::DanglingEdge));
    assert_eq!(model.remove_edge(InletId::new(b, 0)), Ok(None));
    assert_eq!(model.remove_edge(InletId::new(b, 1)), Err(TractError::DanglingEdge));
    assert_eq!(model.add_edge(OutletId::new(a, 0), InletId::new(b, 0)), Ok(()));
    assert_eq!(model.check_edges(), Ok(()));
}

#[test]
fn cycles_are_found() {
    let mut model = Model::new();
    let a = model.add_node("a".to_string(), Operator::Noop(Noop::new()));
    let b = model.add_node("b".to_string(), Operator::Noop(Noop::new()));
    let c = model.add_node("c".to_string(), Operator::Noop(Noop::new()));
    model.add_edge(OutletId::new(a, 0), InletId::new(b, 0)).unwrap();
    model.add_edge(OutletId::new(b, 0), InletId::new(c, 0)).unwrap();
    assert_eq!(model.check_edges(), Ok(()));
    model.add_edge(OutletId::new(c, 0), InletId::new(a, 0)).unwrap();
    assert_eq!(model.check_edges(), Err(TractError::CyclicGraph));
    let mut own = Model::new();
    let d = own.add_node("d".to_string(), Operator::Noop(Noop::new()));
    own.add_edge(OutletId::new(d, 0), InletId::new(d, 0)).unwrap();
    assert_eq!(own.check_edges(), Err(TractError::CyclicGraph));
}

#[test]
fn later_nodes_may_feed_earlier_ones() {
    let mut model = Model::new();
    let a = model.add_node("a".to_string(), Operator::Noop(Noop::new()));
    let b = model.add_node("b".to_string(), Operator::Noop(Noop::new()));
    model.add_edge(OutletId::new(b, 0), InletId::new(a, 0)).unwrap();
    assert_eq!(model.check_edges(), Ok(()));
}

#[test]
fn facts_and_outputs_are_validated() {
    let mut model = Model::new();
    let a = model.add_node("a".to_string(), Operator::Noop(Noop::new()));
    assert_eq!(model.fact(OutletId::new(a, 0)), Ok(&TensorFact::default()));
    assert_eq!(model.fact(OutletId::new(a, 1)).err(), Some(TractError::DanglingEdge));
    assert_eq!(model.set_fact(OutletId::new(a, 3), TensorFact::default()), Err(TractError::DanglingEdge));
    assert_eq!(model.set_fact(OutletId::new(a, 0), TensorFact::dt(DatumType::I8)), Ok(()));
    assert_eq!(model.fact(OutletId::new(a, 0)), Ok(&TensorFact::dt(DatumType::I8)));
    assert_eq!(model.set_outputs(vec![OutletId::new(a, 1)]), Err(TractError::DanglingEdge));
    assert_eq!(model.set_outputs(vec![OutletId::new(a, 0)]), Ok(()));
    assert_eq!(model.outputs(), &vec![OutletId::new(a, 0)]);
    assert_eq!(model.replace_op(a, other("X"), &vec![0]), Err(TractError::DanglingEdge));
    assert_eq!(model.replace_op(a, other("X"), &vec![]), Ok(()));
    assert_eq!(model.op(a).name(), "X");
}

fn facts(inputs: Vec<TensorFact>, outputs: Vec<TensorFact>) -> Facts {
    Facts { inputs, outputs }
}

#[test]
fn contradictory_rank_rules_are_reported() {
    let input = TensorProxy::input(0);
    let output = TensorProxy::output(0);
    let mut solver = Solver::new();
    solver.equals_zero(input.rank(), 1, output.rank());
    solver.equals_int(output.rank(), input.rank());
    let known = TensorFact::default().with_shape(shapefact(vec![dimfact(2), dimfact(3)]));
    let result = solver.infer(facts(vec![known], vec![TensorFact::default()]), 10);
    assert_eq!(result.err(), Some(TractError::ContradictoryFact));
}

#[test]
fn contradictory_rank_rules_wait_for_a_known_rank() {
    let input = TensorProxy::input(0);
    let output = TensorProxy::output(0);
    let mut solver = Solver::new();
    solver.equals_zero(input.rank(), 1, output.rank());
    solver.equals_int(output.rank(), input.rank());
    let solution = solver.infer(facts(vec![TensorFact::default()], vec![TensorFact::default()]), 10).unwrap();
    assert!(solution.saturated);
    assert_eq!(solution.facts.outputs[0], TensorFact::default());
}

#[test]
fn rank_offset_is_solved_both_ways() {
    let input = TensorProxy::input(0);
    let output = TensorProxy::output(0);
    let mut solver = Solver::new();
    solver.equals_zero(input.rank(), 1, output.rank());
    let known = TensorFact::default().with_shape(shapefact(vec![dimfact(2), dimfact(3)]));
    let solution = solver.infer(facts(vec![known.clone()], vec![TensorFact::default()]), 10).unwrap();
    assert!(solution.saturated);
    assert_eq!(solution.facts.outputs[0].shape, shapefact(vec![dimfact_any(), dimfact_any(), dimfact_any()]));
    let mut back = Solver::new();
    back.equals_zero(input.rank(), 1, output.rank());
    let solution = back.infer(facts(vec![TensorFact::default()], vec![known]), 10).unwrap();
    assert_eq!(solution.facts.inputs[0].shape, shapefact(vec![dimfact_any()]));
}

#[test]
fn softmax_rules_copy_type_and_shape() {
    let mut solver = Solver::new();
    let inputs = vec![TensorProxy::input(0)];
    let outputs = vec![TensorProxy::output(0)];
    Softmax {}.rules(&mut solver, &inputs, &outputs).unwrap();
    assert_eq!(
        solver.rules,
        vec![
            Rule::EqualsType(TypeExp::Of(inputs[0]), TypeExp::Of(outputs[0])),
            Rule::EqualsShape(inputs[0], outputs[0]),
        ]
    );
    let known = TensorFact::dt(DatumType::F32).with_shape(shapefact_open(vec![dimfact(2)]));
    let half = TensorFact::default().with_shape(shapefact(vec![dimfact_any(), dimfact(5)]));
    let solution = solver.infer(facts(vec![known], vec![half]), 10).unwrap();
    let both = TensorFact::dt(DatumType::F32).with_shape(shapefact(vec![dimfact(2), dimfact(5)]));
    assert_eq!(solution.facts.inputs[0], both);
    assert_eq!(solution.facts.outputs[0], both);
    assert!(solution.saturated);
    let mut wrong = Solver::new();
    assert_eq!(Softmax {}.rules(&mut wrong, &vec![], &outputs), Err(TractError::ArityMismatch));
    assert!(wrong.rules.is_empty());
}

#[test]
fn expand_dims_rules_place_the_new_dimension() {
    let mut solver = Solver::new();
    let inputs = vec![TensorProxy::input(0), TensorProxy::input(1)];
    let outputs = vec![TensorProxy::output(0)];
    ExpandDims.rules(&mut solver, &inputs, &outputs).unwrap();
    assert_eq!(solver.rules.len(), 5);
    assert_eq!(
        solver.rules[4],
        Rule::GivenValue(inputs[1], ValueClosure::ExpandDimsIndex { data: inputs[0], output: outputs[0] })
    );
    assert_eq!(solver.rules[1], Rule::EqualsInt(IntExp::Rank(inputs[1]), IntExp::Const(0)));
    let data = TensorFact::dt(DatumType::F32).with_shape(shapefact(vec![dimfact(3), dimfact(4)]));
    let dims = TensorFact::from_tensor(Tensor::scalar(DatumType::I32, 1));
    let solution = solver.infer(facts(vec![data, dims], vec![TensorFact::default()]), 10).unwrap();
    assert!(solution.saturated);
    assert_eq!(solution.facts.outputs[0].datum_type, typefact(DatumType::F32));
    assert_eq!(solution.facts.outputs[0].shape, shapefact(vec![dimfact(3), dimfact(1), dimfact(4)]));
    let mut wrong = Solver::new();
    assert_eq!(ExpandDims.rules(&mut wrong, &outputs, &outputs), Err(TractError::ArityMismatch));
}

#[test]
fn expand_dims_rules_reject_a_vector_of_positions() {
    let mut solver = Solver::new();
    let inputs = vec![TensorProxy::input(0), TensorProxy::input(1)];
    let outputs = vec![TensorProxy::output(0)];
    ExpandDims.rules(&mut solver, &inputs, &outputs).unwrap();
    let data = TensorFact::dt(DatumType::F32);
    let dims = TensorFact::from_tensor(Tensor::vector(DatumType::I32, vec![0]));
    let result = solver.infer(facts(vec![data, dims], vec![TensorFact::default()]), 10);
    assert_eq!(result.err(), Some(TractError::ContradictoryFact));
}

#[test]
fn rounds_may_run_out() {
    let mut solver = Solver::new();
    let inputs = vec![TensorProxy::input(0), TensorProxy::input(1)];
    let outputs = vec![TensorProxy::output(0)];
    ExpandDims.rules(&mut solver, &inputs, &outputs).unwrap();
    let data = TensorFact::dt(DatumType::F32).with_shape(shapefact(vec![dimfact(3), dimfact(4)]));
    let dims = TensorFact::from_tensor(Tensor::scalar(DatumType::I32, 1));
    let solution = solver.infer(facts(vec![data, dims], vec![TensorFact::default()]), 1).unwrap();
    assert!(!solution.saturated);
    let none = Solver::new().infer(facts(vec![], vec![]), 0).unwrap();
    assert!(!none.saturated);
}

#[test]
fn single_rules_apply() {
    let mut f = facts(vec![TensorFact::default()], vec![TensorFact::dt(DatumType::I8)]);
    let input = TensorProxy::input(0);
    let output = TensorProxy::output(0);
    let applied = f.apply(Rule::EqualsType(input.datum_type(), output.datum_type())).unwrap();
    assert!(applied.changed && !applied.consumed && applied.added.is_empty());
    assert_eq!(f.inputs[0], TensorFact::dt(DatumType::I8));
    let again = f.apply(Rule::EqualsType(input.datum_type(), output.datum_type())).unwrap();
    assert!(!again.changed);
    assert_eq!(f.apply(Rule::EqualsType(input.datum_type(), TypeExp::Const(DatumType::F32))).err(), Some(TractError::ContradictoryFact));
    assert_eq!(f.apply(Rule::EqualsType(TensorProxy::input(3).datum_type(), output.datum_type())).err(), Some(TractError::ArityMismatch));
    let dim = f.apply(Rule::EqualsDim(input.dim(1), DimExp::Const(TDim::from_int(4)))).unwrap();
    assert!(dim.changed);
    assert_eq!(f.inputs[0].shape, shapefact_open(vec![dimfact_any(), dimfact(4)]));
    assert_eq!(f.rank_of(input), Ok(GenericFact::Any));
    assert_eq!(f.dim_of(input.dim(1)), Ok(dimfact(4)));
    assert_eq!(f.int_of(IntExp::Const(3)), Ok(GenericFact::Only(3)));
    assert_eq!(f.type_of(output.datum_type()), Ok(typefact(DatumType::I8)));
    assert_eq!(f.apply(Rule::EqualsInt(input.rank(), IntExp::Const(1))).err(), Some(TractError::ContradictoryFact));
    let closed = f.apply(Rule::EqualsInt(input.rank(), IntExp::Const(2))).unwrap();
    assert!(closed.changed);
    assert_eq!(f.inputs[0].shape, shapefact(vec![dimfact_any(), dimfact(4)]));
    assert_eq!(f.apply(Rule::EqualsDim(input.dim(2), output.dim(0))).err(), Some(TractError::ContradictoryFact));
}

/// A placeholder and a constant position feed ExpandDims, whose output is
/// the output of the graph.
fn expand_graph() -> Model {
    let mut model = Model::new();
    let fact = TensorFact::dt(DatumType::F32).with_shape(shapefact(vec![dimfact(3)]));
    let input = model.add_node("input".to_string(), Operator::Source(Source::new(fact.clone())));
    model.set_fact(OutletId::new(input, 0), fact).unwrap();
    let axis = add_known_const(&mut model, "axis", scalar(0));
    let expand = model.add_node("expand".to_string(), Operator::ExpandDims(ExpandDims));
    model.add_edge(OutletId::new(input, 0), InletId::new(expand, 0)).unwrap();
    model.add_edge(OutletId::new(axis, 0), InletId::new(expand, 1)).unwrap();
    model.set_outputs(vec![OutletId::new(expand, 0)]).unwrap();
    model
}

#[test]
fn analysis_narrows_the_output_of_expand_dims() {
    let mut model = expand_graph();
    assert_eq!(analyse_node(&mut model, 2, 10), Ok(true));
    let expected = TensorFact::dt(DatumType::F32).with_shape(shapefact(vec![dimfact(1), dimfact(3)]));
    assert_eq!(model.fact(OutletId::new(2, 0)), Ok(&expected));
    assert_eq!(analyse_node(&mut model, 2, 10), Ok(false));
    assert_eq!(analyse(&mut model, 10, 10), Ok(true));
}

#[test]
fn analysis_names_the_failing_node() {
    let mut model = expand_graph();
    model.set_fact(OutletId::new(2, 0), TensorFact::dt(DatumType::I64)).unwrap();
    assert_eq!(analyse(&mut model, 10, 10), Err(NodeError { node: 2, kind: TractError::ContradictoryFact }));
    assert_eq!(model.fact(OutletId::new(2, 0)), Ok(&TensorFact::dt(DatumType::I64)));
    let mut arity = Model::new();
    arity.add_node("lonely".to_string(), Operator::Softmax(Softmax {}));
    assert_eq!(analyse(&mut arity, 10, 10), Err(NodeError { node: 0, kind: TractError::ArityMismatch }));
}

#[test]
fn analysis_may_run_out_of_sweeps() {
    let mut model = expand_graph();
    assert_eq!(analyse(&mut model, 10, 1), Ok(false));
    assert_eq!(analyse(&mut model, 10, 0), Ok(false));
}

#[test]
fn expand_dims_is_reduced_and_evaluated() {
    let mut model = expand_graph();
    assert_eq!(analyse(&mut model, 10, 10), Ok(true));
    assert_eq!(Reduce(ReductionPhase::Codegen).pass(&mut model), Ok(false));
    assert_eq!(Reduce(ReductionPhase::Normalize).pass(&mut model), Ok(true));
    assert_eq!(model.op(2).name(), "AddDims");
    assert_eq!(model.nodes()[2].inputs, vec![Some(OutletId::new(0, 0))]);
    assert_eq!(model.check_edges(), Ok(()));
    let values: Vec<i64> = [1.0f32, 2.5, 5.0].iter().map(|v| v.to_bits() as i64).collect();
    let input = Tensor::new(DatumType::F32, vec![3], values.clone()).unwrap();
    let out = model.op(2).eval(vec![input]).unwrap();
    assert_eq!(out.len(), 1);
    assert_eq!(out[0].shape(), &vec![1, 3]);
    assert_eq!(out[0].data(), &values);
    assert_eq!(Reduce(ReductionPhase::Normalize).pass(&mut model), Ok(false));
}

#[test]
fn optimisation_settles() {
    let mut model = expand_graph();
    let passes = vec![Pass::Reduce(Reduce(ReductionPhase::Normalize)), Pass::PropConst(PropConst)];
    let limits = Limits { rounds: 10, sweeps: 10, cycles: 10 };
    let outcome = optimize(&mut model, &passes, &limits).unwrap();
    assert!(outcome.settled && outcome.saturated);
    assert_eq!(outcome.cycles, 2);
    assert_eq!(model.op(2).name(), "AddDims");
    assert_eq!(model.check_edges(), Ok(()));
    let mut short = expand_graph();
    let outcome = optimize(&mut short, &passes, &Limits { rounds: 10, sweeps: 10, cycles: 1 }).unwrap();
    assert!(!outcome.settled);
    assert_eq!(outcome.cycles, 1);
    let mut none = expand_graph();
    let outcome = optimize(&mut none, &passes, &Limits { rounds: 10, sweeps: 10, cycles: 0 }).unwrap();
    assert!(!outcome.settled);
    assert_eq!(outcome.cycles, 0);
}

#[test]
fn optimisation_reports_where_it_failed() {
    let mut model = expand_graph();
    model.set_fact(OutletId::new(2, 0), TensorFact::dt(DatumType::I64)).unwrap();
    let passes = vec![Pass::PropConst(PropConst)];
    let limits = Limits { rounds: 10, sweeps: 10, cycles: 3 };
    assert_eq!(
        optimize(&mut model, &passes, &limits),
        Err(OptimError::Analysis(NodeError { node: 2, kind: TractError::ContradictoryFact }))
    );
    let mut odd = Model::new();
    let lone = odd.add_node("expand".to_string(), Operator::ExpandDims(ExpandDims));
    odd.set_outputs(vec![OutletId::new(lone, 0)]).unwrap();
    let reduce = vec![Pass::Reduce(Reduce(ReductionPhase::Normalize))];
    assert_eq!(
        optimize(&mut odd, &reduce, &Limits { rounds: 10, sweeps: 0, cycles: 3 }),
        Err(OptimError::Pass { index: 0, kind: TractError::ArityMismatch })
    );
}

#[test]
fn values_are_unified() {
    let mut solver = Solver::new();
    solver.equals_value(TensorProxy::input(0), TensorProxy::output(0));
    let known = TensorFact::from_tensor(scalar(3));
    let solution = solver.infer(facts(vec![known.clone()], vec![TensorFact::default()]), 5).unwrap();
    assert_eq!(solution.facts.outputs[0].value, known.value);
    assert!(solution.saturated);
    let mut clash = Solver::new();
    clash.equals_value(TensorProxy::input(0), TensorProxy::output(0));
    let other_value = TensorFact::from_tensor(scalar(4));
    assert_eq!(clash.infer(facts(vec![known], vec![other_value]), 5).err(), Some(TractError::ContradictoryFact));
}

#[test]
fn operators_tell_their_capabilities() {
    let expand = Operator::ExpandDims(ExpandDims);
    assert!(expand.declares_rules() && expand.may_reduce() && expand.is_stateless());
    let soft = Operator::Softmax(Softmax {});
    assert!(soft.declares_rules() && !soft.may_reduce() && !soft.is_stateless());
    let noop = Operator::Noop(Noop::new());
    assert!(!noop.declares_rules() && !noop.may_reduce() && noop.is_stateless());
}

#[test]
fn dimension_offsets_are_solved_both_ways() {
    let input = TensorProxy::input(0);
    let output = TensorProxy::output(0);
    let mut solver = Solver::new();
    solver.equals_zero_dim(input.dim(0), TDim::from_int(2), output.dim(0));
    let known = TensorFact::default().with_shape(shapefact(vec![GenericFact::Only(TDim::s())]));
    let open = TensorFact::default().with_shape(shapefact(vec![dimfact_any()]));
    let solution = solver.infer(facts(vec![known.clone()], vec![open.clone()]), 5).unwrap();
    assert_eq!(solution.facts.outputs[0].shape, shapefact(vec![GenericFact::Only(TDim { slope: 1, constant: 2 })]));
    let mut back = Solver::new();
    back.equals_zero_dim(input.dim(0), TDim::from_int(2), output.dim(0));
    let seven = TensorFact::default().with_shape(shapefact(vec![dimfact(7)]));
    let solution = back.infer(facts(vec![open], vec![seven.clone()]), 5).unwrap();
    assert_eq!(solution.facts.inputs[0].shape, shapefact(vec![dimfact(5)]));
    let mut clash = Solver::new();
    clash.equals_zero_dim(input.dim(0), TDim::from_int(2), output.dim(0));
    assert_eq!(clash.infer(facts(vec![seven.clone()], vec![seven]), 5).err(), Some(TractError::ContradictoryFact));
}

/// Const(2) and Const(3) feed a sum known to be 5, which feeds a negation
/// known to be -5, which feeds the consumer that is the output of the graph.
#[test]
fn constant_propagation_folds_only_what_the_walk_looks_at() {
    let mut model = Model::new();
    let two = add_known_const(&mut model, "two", scalar(2));
    let three = add_known_const(&mut model, "three", scalar(3));
    let sum = model.add_node("sum".to_string(), other("Add"));
    model.add_edge(OutletId::new(two, 0), InletId::new(sum, 0)).unwrap();
    model.add_edge(OutletId::new(three, 0), InletId::new(sum, 1)).unwrap();
    model.set_fact(OutletId::new(sum, 0), TensorFact::from_tensor(scalar(5))).unwrap();
    let neg = model.add_node("neg".to_string(), other("Neg"));
    model.add_edge(OutletId::new(sum, 0), InletId::new(neg, 0)).unwrap();
    model.set_fact(OutletId::new(neg, 0), TensorFact::from_tensor(scalar(-5))).unwrap();
    let consumer = model.add_node("consumer".to_string(), other("Identity"));
    model.add_edge(OutletId::new(neg, 0), InletId::new(consumer, 0)).unwrap();
    model.set_outputs(vec![OutletId::new(consumer, 0)]).unwrap();
    assert_eq!(PropConst.pass(&mut model), Ok(true));
    assert_eq!(model.nodes().len(), 6);
    match &model.nodes()[5].op {
        Operator::Const(c) => assert_eq!(c.value(), &scalar(-5)),
        other => panic!("unexpected operator {:?}", other),
    }
    assert_eq!(model.nodes()[consumer].inputs, vec![Some(OutletId::new(5, 0))]);
    assert_eq!(model.nodes()[neg].inputs, vec![Some(OutletId::new(sum, 0))]);
    assert_eq!(model.nodes()[sum].inputs, vec![Some(OutletId::new(two, 0)), Some(OutletId::new(three, 0))]);
    assert_eq!(PropConst.pass(&mut model), Ok(false));
    assert_eq!(model.nodes().len(), 6);
}

#[test]
fn a_negative_position_stops_the_reduction() {
    let mut model = Model::new();
    let fact = TensorFact::dt(DatumType::F32);
    let input = model.add_node("input".to_string(), Operator::Source(Source::new(fact)));
    let axis = add_known_const(&mut model, "axis", scalar(-1));
    let expand = model.add_node("expand".to_string(), Operator::ExpandDims(ExpandDims));
    model.add_edge(OutletId::new(input, 0), InletId::new(expand, 0)).unwrap();
    model.add_edge(OutletId::new(axis, 0), InletId::new(expand, 1)).unwrap();
    model.set_outputs(vec![OutletId::new(expand, 0)]).unwrap();
    assert_eq!(Reduce(ReductionPhase::Normalize).pass(&mut model), Err(TractError::UnimplementedVariant));
    assert_eq!(model.op(expand).name(), "tf.ExpandDims");
}
