use tract_core::analyser::types::TensorFact;
use tract_core::errors::{TractError, TractResult};
use tract_core::model::{InletId, Model, OutletId};
use tract_core::ops::add_dims::AddDims;
use tract_core::ops::expand_dims::ExpandDims;
use tract_core::ops::source::{Source, UnimplementedOp};
use tract_core::ops::Operator;
use tract_core::optim::prop_const::{const_node_name, PropConst};
use tract_core::optim::OptimizerPass;
use tract_core::tensor::{DatumType, Tensor};

fn floats(values: &[f32], shape: Vec<usize>) -> Tensor {
    let data: Vec<i64> = values.iter().map(|v| v.to_bits() as i64).collect();
    Tensor::new(DatumType::F32, shape, data).unwrap()
}

/// The values on the outlets of a node, with `input` supplied for every
/// graph input.
fn eval_node(model: &Model, node: usize, input: &Tensor) -> TractResult<Vec<Tensor>> {
    let n = &model.nodes()[node];
    if let Operator::Source(_) = n.op {
        return Ok(vec![input.clone()]);
    }
    let mut values = vec![];
    for source in &n.inputs {
        let o = source.ok_or(TractError::DanglingEdge)?;
        let outs = eval_node(model, o.node, input)?;
        values.push(outs.get(o.slot).cloned().ok_or(TractError::DanglingEdge)?);
    }
    n.op.eval(values)
}

fn eval_outputs(model: &Model, input: &Tensor) -> Vec<TractResult<Tensor>> {
    model
        .outputs()
        .iter()
        .map(|o| eval_node(model, o.node, input).map(|outs| outs[o.slot].clone()))
        .collect()
}

/// A graph input and a computed position feed ExpandDims; the position is
/// known to be `[0]`.
fn graph() -> Model {
    let mut model = Model::new();
    let input = model.add_node("input".to_string(), Operator::Source(Source::new(TensorFact::dt(DatumType::F32))));
    let axis = model.add_const("axis".to_string(), Tensor::scalar(DatumType::I32, 0));
    let widen = model.add_node("widen".to_string(), Operator::AddDims(AddDims::new(vec![0])));
    model.add_edge(OutletId::new(axis, 0), InletId::new(widen, 0)).unwrap();
    model
        .set_fact(OutletId::new(widen, 0), TensorFact::from_tensor(Tensor::vector(DatumType::I32, vec![0])))
        .unwrap();
    let expand = model.add_node("expand".to_string(), Operator::ExpandDims(ExpandDims));
    model.add_edge(OutletId::new(input, 0), InletId::new(expand, 0)).unwrap();
    model.add_edge(OutletId::new(widen, 0), InletId::new(expand, 1)).unwrap();
    model.set_outputs(vec![OutletId::new(expand, 0)]).unwrap();
    model
}

#[test]
fn folding_keeps_the_outputs() {
    let mut model = graph();
    let input = floats(&[1.0, 2.5, 5.0], vec![3]);
    let before = eval_outputs(&model, &input);
    assert_eq!(before.len(), 1);
    let value = before[0].clone().unwrap();
    assert_eq!(value.shape(), &vec![1, 3]);
    assert_eq!(value, floats(&[1.0, 2.5, 5.0], vec![1, 3]));
    assert_eq!(PropConst.pass(&mut model), Ok(true));
    assert_eq!(model.nodes().len(), 5);
    assert_eq!(model.nodes()[3].inputs, vec![Some(OutletId::new(0, 0)), Some(OutletId::new(4, 0))]);
    assert_eq!(eval_outputs(&model, &input), before);
    assert_eq!(PropConst.pass(&mut model), Ok(false));
    assert_eq!(eval_outputs(&model, &input), before);
}

#[test]
fn folding_keeps_failing_outputs_failing() {
    let mut model = Model::new();
    let known = model.add_node(
        "known".to_string(),
        Operator::Unimplemented(UnimplementedOp::new("Shape".to_string(), String::new())),
    );
    let reader = model.add_node("reader".to_string(), Operator::ExpandDims(ExpandDims));
    model.add_edge(OutletId::new(known, 0), InletId::new(reader, 0)).unwrap();
    model.set_outputs(vec![OutletId::new(reader, 0)]).unwrap();
    let input = floats(&[1.0], vec![1]);
    let before = eval_outputs(&model, &input);
    assert_eq!(before, vec![Err(TractError::UnimplementedVariant)]);
    assert_eq!(PropConst.pass(&mut model), Ok(false));
    assert_eq!(eval_outputs(&model, &input), before);
}

#[test]
fn a_reader_of_a_done_node_is_left_alone() {
    let mut model = Model::new();
    let two = model.add_node(
        "two".to_string(),
        Operator::Unimplemented(UnimplementedOp::new("Split".to_string(), String::new())),
    );
    assert_eq!(model.add_outlet(two), Ok(1));
    model.set_fact(OutletId::new(two, 1), TensorFact::from_tensor(Tensor::scalar(DatumType::I32, 1))).unwrap();
    let late = model.add_node("late".to_string(), Operator::Unimplemented(UnimplementedOp::new("A".to_string(), String::new())));
    let early = model.add_node("early".to_string(), Operator::Unimplemented(UnimplementedOp::new("B".to_string(), String::new())));
    let top = model.add_node("top".to_string(), Operator::Unimplemented(UnimplementedOp::new("C".to_string(), String::new())));
    model.add_edge(OutletId::new(two, 1), InletId::new(late, 0)).unwrap();
    model.add_edge(OutletId::new(two, 0), InletId::new(early, 0)).unwrap();
    model.add_edge(OutletId::new(late, 0), InletId::new(top, 0)).unwrap();
    model.add_edge(OutletId::new(early, 0), InletId::new(top, 1)).unwrap();
    model.set_outputs(vec![OutletId::new(top, 0)]).unwrap();
    assert_eq!(PropConst.pass(&mut model), Ok(false));
    assert_eq!(model.nodes().len(), 4);
    assert_eq!(PropConst.pass(&mut model), Ok(false));
    let mut other = Model::new();
    let two = other.add_node(
        "two".to_string(),
        Operator::Unimplemented(UnimplementedOp::new("Split".to_string(), String::new())),
    );
    other.add_outlet(two).unwrap();
    other.set_fact(OutletId::new(two, 1), TensorFact::from_tensor(Tensor::scalar(DatumType::I32, 1))).unwrap();
    let late = other.add_node("late".to_string(), Operator::Unimplemented(UnimplementedOp::new("A".to_string(), String::new())));
    let early = other.add_node("early".to_string(), Operator::Unimplemented(UnimplementedOp::new("B".to_string(), String::new())));
    let top = other.add_node("top".to_string(), Operator::Unimplemented(UnimplementedOp::new("C".to_string(), String::new())));
    other.add_edge(OutletId::new(two, 1), InletId::new(late, 0)).unwrap();
    other.add_edge(OutletId::new(two, 0), InletId::new(early, 0)).unwrap();
    other.add_edge(OutletId::new(early, 0), InletId::new(top, 0)).unwrap();
    other.add_edge(OutletId::new(late, 0), InletId::new(top, 1)).unwrap();
    other.set_outputs(vec![OutletId::new(top, 0)]).unwrap();
    assert_eq!(PropConst.pass(&mut other), Ok(true));
    assert_eq!(other.nodes().len(), 5);
    assert_eq!(other.nodes()[late].inputs, vec![Some(OutletId::new(4, 0))]);
    assert_eq!(PropConst.pass(&mut other), Ok(false));
    assert_eq!(other.nodes().len(), 5);
}

#[test]
fn constants_are_named_after_their_position() {
    assert_eq!(const_node_name(0), "Const-0");
    assert_eq!(const_node_name(9), "Const-9");
    assert_eq!(const_node_name(10), "Const-10");
    assert_eq!(const_node_name(4096), "Const-4096");
    assert_eq!(const_node_name(1234567890), "Const-1234567890");
}
