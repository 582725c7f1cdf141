use tract_core::analyser::macros::{dimfact, shapefact};
use tract_core::analyser::types::TensorFact;
use tract_core::errors::TractError;
use tract_core::ops::add_dims::AddDims;
use tract_core::ops::expand_dims::ExpandDims;
use tract_core::ops::shape::Squeeze;
use tract_core::ops::source::{Noop, UnimplementedOp};
use tract_core::ops::{konst, placeholder, OpBuilder, OpFactory, OpRegister, Operator, ReductionPhase};
use tract_core::tensor::{DatumType, Tensor};
use tract_core::tfpb::{AttrValue, NodeDef};

fn floats(values: &[f32], shape: Vec<usize>) -> Tensor {
    let data: Vec<i64> = values.iter().map(|v| v.to_bits() as i64).collect();
    Tensor::new(DatumType::F32, shape, data).unwrap()
}

fn as_floats(t: &Tensor) -> Vec<f32> {
    t.data().iter().map(|b| f32::from_bits(*b as u32)).collect()
}

fn ints(values: Vec<i64>) -> Tensor {
    Tensor::vector(DatumType::I32, values)
}

#[test]
fn expand_dims_inserts_a_leading_dimension() {
    let data = floats(&[1.0, 2.5, 5.0], vec![3]);
    let out = ExpandDims.eval(vec![data, ints(vec![0])]).unwrap();
    assert_eq!(out.len(), 1);
    assert_eq!(out[0].shape(), &vec![1, 3]);
    assert_eq!(as_floats(&out[0]), vec![1.0, 2.5, 5.0]);
    assert_eq!(out[0].datum_type(), DatumType::F32);
}

#[test]
fn expand_dims_inserts_in_turn() {
    let data = floats(&[1.0, 2.0, 3.0, 4.0, 5.0, 6.0], vec![2, 3]);
    let out = ExpandDims.eval(vec![data, ints(vec![2, 0])]).unwrap();
    assert_eq!(out[0].shape(), &vec![1, 2, 3, 1]);
}

#[test]
fn expand_dims_rejects_what_it_cannot_do() {
    let data = floats(&[1.0, 2.5, 5.0], vec![3]);
    assert_eq!(ExpandDims.eval(vec![data.clone(), ints(vec![-1])]), Err(TractError::UnimplementedVariant));
    assert_eq!(ExpandDims.eval(vec![data.clone(), ints(vec![2])]), Err(TractError::ShapeMismatch));
    assert_eq!(ExpandDims.eval(vec![data.clone()]), Err(TractError::ArityMismatch));
    assert_eq!(ExpandDims.eval(vec![ints(vec![1]), ints(vec![0])]), Err(TractError::TypeMismatch));
    let wrong = Tensor::vector(DatumType::I64, vec![0]);
    assert_eq!(ExpandDims.eval(vec![data, wrong]), Err(TractError::TypeMismatch));
}

#[test]
fn old_expand_dims_agrees() {
    let data = floats(&[1.0, 2.5, 5.0], vec![3]);
    let out = tract_core::ops::shape::ExpandDims.eval(vec![data, ints(vec![1])]).unwrap();
    assert_eq!(out[0].shape(), &vec![3, 1]);
}

#[test]
fn add_dims_evaluates() {
    let op = AddDims::new(vec![0, 2]);
    let out = op.eval(vec![ints(vec![7, 8])]).unwrap();
    assert_eq!(out[0].shape(), &vec![1, 2, 1]);
    assert_eq!(out[0].data(), &vec![7, 8]);
    assert_eq!(op.compute_shape(&vec![4]), Some(vec![1, 4, 1]));
    assert_eq!(AddDims::new(vec![3]).eval(vec![ints(vec![7, 8])]), Err(TractError::ShapeMismatch));
    assert_eq!(op.eval(vec![]), Err(TractError::ArityMismatch));
}

fn squeeze_def(dims: Vec<i64>) -> NodeDef {
    let mut pb = NodeDef::new("sq".to_string(), "Squeeze".to_string());
    pb.push_attr("squeeze_dims".to_string(), AttrValue::List(dims));
    pb
}

#[test]
fn squeeze_build_sorts_descending() {
    let op = Squeeze::build(&squeeze_def(vec![0, 3, 1])).unwrap();
    assert_eq!(op.dims(), &vec![3, 1, 0]);
    let op = Squeeze::build(&squeeze_def(vec![2, 2, -1, 5])).unwrap();
    assert_eq!(op.dims(), &vec![5, 2, 2, -1]);
}

#[test]
fn squeeze_build_needs_its_attribute() {
    let pb = NodeDef::new("sq".to_string(), "Squeeze".to_string());
    assert_eq!(Squeeze::build(&pb).err(), Some(TractError::MissingAttribute));
    let mut wrong = NodeDef::new("sq".to_string(), "Squeeze".to_string());
    wrong.push_attr("squeeze_dims".to_string(), AttrValue::Type(DatumType::F32));
    assert_eq!(Squeeze::build(&wrong).err(), Some(TractError::MissingAttribute));
}

#[test]
fn squeeze_removes_dimensions() {
    let op = Squeeze::build(&squeeze_def(vec![0, 2])).unwrap();
    let data = floats(&[1.0, 2.0, 3.0], vec![1, 3, 1]);
    let out = op.eval(vec![data]).unwrap();
    assert_eq!(out[0].shape(), &vec![3]);
    assert_eq!(as_floats(&out[0]), vec![1.0, 2.0, 3.0]);
}

#[test]
fn squeeze_with_negative_dimension_is_unimplemented() {
    let op = Squeeze::build(&squeeze_def(vec![-1])).unwrap();
    let data = floats(&[1.0, 2.0, 3.0], vec![3, 1]);
    assert_eq!(op.eval(vec![data]), Err(TractError::UnimplementedVariant));
}

#[test]
fn squeeze_rejects_what_it_cannot_do() {
    let op = Squeeze::build(&squeeze_def(vec![1])).unwrap();
    assert_eq!(op.eval(vec![]), Err(TractError::ArityMismatch));
    assert_eq!(op.eval(vec![ints(vec![1, 2])]), Err(TractError::TypeMismatch));
    assert_eq!(op.eval(vec![floats(&[1.0, 2.0], vec![2])]), Err(TractError::ShapeMismatch));
    let keeps = Squeeze::build(&squeeze_def(vec![0])).unwrap();
    assert_eq!(keeps.eval(vec![floats(&[1.0, 2.0], vec![2, 1])]), Err(TractError::ShapeMismatch));
}

#[test]
fn expand_dims_reduces_to_add_dims_once_positions_are_known() {
    let data = TensorFact::dt(DatumType::F32);
    let dims = TensorFact::from_tensor(Tensor::scalar(DatumType::I32, 0));
    let outputs = vec![TensorFact::default()];
    let rewire = ExpandDims.reduce(&vec![data.clone(), dims], &outputs, ReductionPhase::Normalize).unwrap().unwrap();
    assert_eq!(rewire.rewired, vec![0]);
    assert_eq!(rewire.new_op.name(), "AddDims");
    let out = rewire.new_op.eval(vec![floats(&[1.0, 2.5, 5.0], vec![3])]).unwrap();
    assert_eq!(out[0].shape(), &vec![1, 3]);
    assert_eq!(as_floats(&out[0]), vec![1.0, 2.5, 5.0]);
    let unknown = vec![data.clone(), TensorFact::default()];
    assert!(ExpandDims.reduce(&unknown, &outputs, ReductionPhase::Normalize).unwrap().is_none());
    let known = vec![data.clone(), TensorFact::from_tensor(Tensor::scalar(DatumType::I32, 0))];
    assert!(ExpandDims.reduce(&known, &outputs, ReductionPhase::Codegen).unwrap().is_none());
    assert_eq!(ExpandDims.reduce(&vec![data.clone()], &outputs, ReductionPhase::Normalize).err(), Some(TractError::ArityMismatch));
    let floaty = vec![data.clone(), TensorFact::from_tensor(floats(&[0.0], vec![]))];
    assert_eq!(ExpandDims.reduce(&floaty, &outputs, ReductionPhase::Normalize).err(), Some(TractError::TypeMismatch));
    let negative = vec![data.clone(), TensorFact::from_tensor(Tensor::scalar(DatumType::I32, -1))];
    assert_eq!(
        ExpandDims.reduce(&negative, &outputs, ReductionPhase::Normalize).err(),
        Some(TractError::UnimplementedVariant)
    );
    let mixed = vec![data, TensorFact::from_tensor(Tensor::vector(DatumType::I64, vec![1, -2]))];
    assert_eq!(
        ExpandDims.reduce(&mixed, &outputs, ReductionPhase::Normalize).err(),
        Some(TractError::UnimplementedVariant)
    );
}

#[test]
fn operators_say_what_they_can_do() {
    let c = Operator::Const(tract_core::ops::konst::Const::for_tensor(ints(vec![1])));
    assert!(c.is_const());
    assert!(c.is_stateless());
    assert_eq!(c.name(), "Const");
    assert_eq!(c.eval(vec![]).unwrap(), vec![ints(vec![1])]);
    assert_eq!(c.eval(vec![ints(vec![1])]), Err(TractError::ArityMismatch));
    let s = Operator::Softmax(tract_core::ops::nn::Softmax {});
    assert!(!s.is_const());
    assert!(!s.is_stateless());
    assert_eq!(s.name(), "Softmax");
    assert_eq!(s.eval(vec![floats(&[1.0], vec![1])]), Err(TractError::UnimplementedVariant));
    assert!(tract_core::ops::nn::Softmax {}.rounding_errors());
    let n = Operator::Noop(Noop::new());
    assert_eq!(n.name(), "tf.Noop");
    assert_eq!(n.eval(vec![ints(vec![1])]).unwrap(), vec![]);
    let u = Operator::Unimplemented(UnimplementedOp::new("Conv2D".to_string(), "n".to_string()));
    assert_eq!(u.name(), "Conv2D");
    assert_eq!(u.eval(vec![]), Err(TractError::UnimplementedVariant));
    assert_eq!(Operator::ExpandDims(ExpandDims).name(), "tf.ExpandDims");
}

fn const_def(dtype: DatumType, value: Tensor) -> NodeDef {
    let mut pb = NodeDef::new("c".to_string(), "Const".to_string());
    pb.push_attr("dtype".to_string(), AttrValue::Type(dtype));
    pb.push_attr("value".to_string(), AttrValue::Tensor(value));
    pb
}

#[test]
fn konst_builds_a_constant() {
    let op = konst(&const_def(DatumType::I32, ints(vec![4, 5]))).unwrap();
    assert!(op.is_const());
    assert_eq!(op.eval(vec![]).unwrap(), vec![ints(vec![4, 5])]);
    assert_eq!(konst(&const_def(DatumType::F32, ints(vec![4, 5]))).err(), Some(TractError::TypeMismatch));
    let empty = NodeDef::new("c".to_string(), "Const".to_string());
    assert_eq!(konst(&empty).err(), Some(TractError::MissingAttribute));
    let mut half = NodeDef::new("c".to_string(), "Const".to_string());
    half.push_attr("dtype".to_string(), AttrValue::Type(DatumType::I32));
    assert_eq!(konst(&half).err(), Some(TractError::MissingAttribute));
}

#[test]
fn placeholder_builds_a_source() {
    let mut pb = NodeDef::new("in".to_string(), "Placeholder".to_string());
    assert_eq!(placeholder(&pb).err(), Some(TractError::MissingAttribute));
    pb.push_attr("dtype".to_string(), AttrValue::Type(DatumType::F32));
    match placeholder(&pb).unwrap() {
        Operator::Source(s) => assert_eq!(s.fact, TensorFact::dt(DatumType::F32)),
        other => panic!("unexpected operator {:?}", other),
    }
    pb.push_attr("shape".to_string(), AttrValue::Shape(shapefact(vec![dimfact(1), dimfact(3)])));
    match placeholder(&pb).unwrap() {
        Operator::Source(s) => {
            assert_eq!(s.fact, TensorFact::dt(DatumType::F32).with_shape(shapefact(vec![dimfact(1), dimfact(3)])))
        }
        other => panic!("unexpected operator {:?}", other),
    }
    let mut wrong = NodeDef::new("in".to_string(), "Placeholder".to_string());
    wrong.push_attr("dtype".to_string(), AttrValue::Type(DatumType::F32));
    wrong.push_attr("shape".to_string(), AttrValue::List(vec![1]));
    assert_eq!(placeholder(&wrong).err(), Some(TractError::MissingAttribute));
}

#[test]
fn node_def_finds_the_first_attribute_of_a_name() {
    let mut pb = NodeDef::new("n".to_string(), "Op".to_string());
    pb.push_attr("a".to_string(), AttrValue::List(vec![1]));
    pb.push_attr("b".to_string(), AttrValue::Type(DatumType::I8));
    pb.push_attr("a".to_string(), AttrValue::List(vec![2]));
    assert_eq!(pb.get_attr_list_int("a"), Ok(&vec![1]));
    assert_eq!(pb.get_attr_datum_type("b"), Ok(DatumType::I8));
    assert_eq!(pb.get_attr_list_int("b"), Err(TractError::MissingAttribute));
    assert!(pb.get_attr("c").is_none());
    assert_eq!(pb.get_attr_opt_shape("c"), Ok(None));
    assert_eq!(pb.get_op(), "Op");
}

#[test]
fn nn_operators_are_registered() {
    let mut reg = OpRegister::new();
    assert_eq!(reg.get(&"AvgPool".to_string()), None);
    tract_core::ops::nn::register_all_ops(&mut reg);
    assert_eq!(reg.get(&"AvgPool".to_string()), Some(OpFactory::AvgPool));
    assert_eq!(reg.get(&"Conv2D".to_string()), Some(OpFactory::Conv2D));
    assert_eq!(reg.get(&"FusedBatchNorm".to_string()), Some(OpFactory::FusedBatchNorm));
    assert_eq!(reg.get(&"MaxPool".to_string()), Some(OpFactory::MaxPool));
    assert_eq!(reg.get(&"Relu".to_string()), Some(OpFactory::Relu));
    assert_eq!(reg.get(&"Sigmoid".to_string()), Some(OpFactory::Sigmoid));
    assert_eq!(reg.get(&"Softmax".to_string()), Some(OpFactory::Softmax));
    assert_eq!(reg.get(&"SpaceToBatchND".to_string()), Some(OpFactory::SpaceToBatchND));
    assert_eq!(reg.get(&"BatchToSpaceND".to_string()), Some(OpFactory::BatchToSpaceND));
    assert_eq!(reg.get(&"Const".to_string()), None);
}

#[test]
fn builder_knows_every_registered_name() {
    let builder = OpBuilder::new();
    for name in [
        "AvgPool", "Conv2D", "FusedBatchNorm", "MaxPool", "Relu", "Sigmoid", "Softmax", "SpaceToBatchND",
        "BatchToSpaceND", "Const", "NoOp", "Placeholder", "ExpandDims", "Squeeze",
    ] {
        assert!(builder.0.get(&name.to_string()).is_some());
    }
    assert_eq!(builder.0.get(&"Frobnicate".to_string()), None);
    let relu = builder.build(&NodeDef::new("r".to_string(), "Relu".to_string())).unwrap();
    match &relu {
        Operator::Unimplemented(u) => {
            assert_eq!(u.name, "Relu");
            assert_eq!(u.message, "r");
        }
        other => panic!("unexpected operator {:?}", other),
    }
    assert_eq!(relu.eval(vec![]), Err(TractError::UnimplementedVariant));
    let unknown = builder.build(&NodeDef::new("f".to_string(), "Frobnicate".to_string())).unwrap();
    assert_eq!(unknown.name(), "Frobnicate");
}

#[test]
fn register_replaces_and_appends() {
    let mut reg = OpRegister::new();
    assert_eq!(reg.get(&"Softmax".to_string()), None);
    tract_core::ops::nn::register_all_ops(&mut reg);
    assert_eq!(reg.get(&"Softmax".to_string()), Some(OpFactory::Softmax));
    reg.insert("Softmax", OpFactory::NoOp);
    assert_eq!(reg.get(&"Softmax".to_string()), Some(OpFactory::NoOp));
    reg.insert("Other", OpFactory::Const);
    assert_eq!(reg.get(&"Other".to_string()), Some(OpFactory::Const));
    assert_eq!(reg.get(&"Softmax".to_string()), Some(OpFactory::NoOp));
}

#[test]
fn builder_builds_by_name() {
    let builder = OpBuilder::new();
    let c = builder.build(&const_def(DatumType::I32, ints(vec![1]))).unwrap();
    assert!(c.is_const());
    let sm = builder.build(&NodeDef::new("s".to_string(), "Softmax".to_string())).unwrap();
    assert_eq!(sm.name(), "Softmax");
    let ed = builder.build(&NodeDef::new("e".to_string(), "ExpandDims".to_string())).unwrap();
    assert_eq!(ed.name(), "tf.ExpandDims");
    let noop = builder.build(&NodeDef::new("n".to_string(), "NoOp".to_string())).unwrap();
    assert_eq!(noop.name(), "tf.Noop");
    let sq = builder.build(&squeeze_def(vec![1, 2])).unwrap();
    match sq {
        Operator::Squeeze(op) => assert_eq!(op.dims(), &vec![2, 1]),
        other => panic!("unexpected operator {:?}", other),
    }
    assert_eq!(
        builder.build(&NodeDef::new("q".to_string(), "Squeeze".to_string())).err(),
        Some(TractError::MissingAttribute)
    );
    let unknown = builder.build(&NodeDef::new("conv".to_string(), "Conv2D".to_string())).unwrap();
    match &unknown {
        Operator::Unimplemented(u) => {
            assert_eq!(u.name, "Conv2D");
            assert_eq!(u.message, "conv");
        }
        other => panic!("unexpected operator {:?}", other),
    }
    assert_eq!(unknown.eval(vec![]), Err(TractError::UnimplementedVariant));
    let built = tract_core::ops::expand_dims::build(&NodeDef::new("e".to_string(), "ExpandDims".to_string())).unwrap();
    assert_eq!(built.name(), "tf.ExpandDims");
    let soft = tract_core::ops::nn::Softmax::build(&NodeDef::new("s".to_string(), "Softmax".to_string())).unwrap();
    assert_eq!(soft.name(), "Softmax");
}
