//! Insertion of dimensions of extent 1 at positions given by a second input.

use vstd::prelude::*;
use crate::analyser::rules::{IntExp, Rule, TensorProxy, TypeExp, ValueClosure};
use crate::analyser::solver::Solver;
use crate::analyser::types::{GenericFact, TensorFact, TensorFactValue};
use crate::errors::{TractError, TractResult};
use crate::ops::add_dims::AddDims;
use crate::ops::{
    check_input_arity,
    check_output_arity,
    Operator,
    OperatorValue,
    ReducedOpRewire,
    ReductionPhase,
};
use crate::tensor::{lemma_volume_insert_one, volume, DatumType, Tensor, TensorValue};
use crate::tfpb::NodeDef;

verus! {

/// The shape obtained by inserting a dimension of extent 1 at each of `dims`
/// in turn, each position counted in the shape as it is after the insertions
/// before it. The first position that cannot be used decides the error:
/// `UnimplementedVariant` for a negative one, `ShapeMismatch` for one beyond
/// the end of the shape.
pub open spec fn expand_shape(shape: Seq<usize>, dims: Seq<i64>) -> Result<Seq<usize>, TractError>
    decreases dims.len(),
{
    if dims.len() == 0 {
        Ok(shape)
    } else if dims[0] < 0 {
        Err(TractError::UnimplementedVariant)
    } else if dims[0] > shape.len() {
        Err(TractError::ShapeMismatch)
    } else {
        expand_shape(shape.insert(dims[0] as int, 1usize), dims.drop_first())
    }
}

/// Inserting dimensions of extent 1 keeps the number of elements.
pub proof fn lemma_expand_shape_volume(shape: Seq<usize>, dims: Seq<i64>)
    ensures
        expand_shape(shape, dims) matches Ok(s) ==> volume(s) == volume(shape) && s.len()
            == shape.len() + dims.len(),
    decreases dims.len(),
{
    if dims.len() > 0 && 0 <= dims[0] <= shape.len() {
        lemma_volume_insert_one(shape, dims[0] as int);
        lemma_expand_shape_volume(shape.insert(dims[0] as int, 1usize), dims.drop_first());
    }
}

/// What evaluating a dimension insertion returns. There must be two inputs
/// (`ArityMismatch`), the first of 32-bit floats and the second of 32-bit
/// integers (`TypeMismatch`); the result is the first input under the shape
/// with the dimensions inserted.
pub open spec fn expand_dims_spec(inputs: Seq<TensorValue>) -> Result<Seq<TensorValue>, TractError> {
    if inputs.len() != 2 {
        Err(TractError::ArityMismatch)
    } else if inputs[0].datum_type != DatumType::F32 || inputs[1].datum_type != DatumType::I32 {
        Err(TractError::TypeMismatch)
    } else {
        match expand_shape(inputs[0].shape, inputs[1].data) {
            Ok(shape) => Ok(seq![inputs[0].reshaped(shape)]),
            Err(e) => Err(e),
        }
    }
}

/// Computes the shape with a dimension inserted at each of `dims`.
pub fn compute_expanded_shape(input: &Vec<usize>, dims: &Vec<i64>) -> (r: TractResult<Vec<usize>>)
    ensures
        match expand_shape(input@, dims@) {
            Ok(s) => r matches Ok(v) && v@ == s,
            Err(kind) => r matches Err(e) && e == kind,
        },
{
    let mut shape = input.clone();
    assert(shape@ =~= input@);
    assert(dims@.skip(0) =~= dims@);
    let mut i: usize = 0;
    while i < dims.len()
        invariant
            i <= dims.len(),
            expand_shape(input@, dims@) == expand_shape(shape@, dims@.skip(i as int)),
        decreases dims.len() - i,
    {
        let d = dims[i];
        proof {
            let rest = dims@.skip(i as int);
            assert(rest[0] == d);
            assert(rest.drop_first() =~= dims@.skip(i + 1));
        }
        if d < 0 {
            return Err(TractError::UnimplementedVariant);
        }
        if d as u64 > shape.len() as u64 {
            return Err(TractError::ShapeMismatch);
        }
        shape.insert(d as usize, 1);
        i += 1;
    }
    Ok(shape)
}

/// Evaluates a dimension insertion on concrete inputs.
pub fn eval_expand_dims(inputs: Vec<Tensor>) -> (r: TractResult<Vec<Tensor>>)
    ensures
        match expand_dims_spec(inputs.deep_view()) {
            Ok(out) => r matches Ok(v) && v.deep_view() == out,
            Err(kind) => r matches Err(e) && e == kind,
        },
{
    let mut inputs = inputs;
    if inputs.len() != 2 {
        return Err(TractError::ArityMismatch);
    }
    let ghost values = inputs.deep_view();
    let dims = inputs.remove(1);
    let data = inputs.remove(0);
    assert(data@ == values[0] && dims@ == values[1]);
    if data.datum_type() != DatumType::F32 || dims.datum_type() != DatumType::I32 {
        return Err(TractError::TypeMismatch);
    }
    let shape = compute_expanded_shape(data.shape(), dims.data())?;
    proof {
        lemma_expand_shape_volume(data@.shape, dims@.data);
    }
    let t = data.into_shape(shape)?;
    let mut out: Vec<Tensor> = Vec::new();
    out.push(t);
    assert(out.deep_view() =~= seq![values[0].reshaped(shape@)]);
    Ok(out)
}

/// The operator that inserts dimensions of extent 1 into its first input at
/// the positions that its second input holds.
#[derive(Clone, Copy, Debug, PartialEq, Eq, Structural)]
pub struct ExpandDims;

impl ExpandDims {
    /// The name of the operator.
    pub fn name(&self) -> (r: &'static str)
        ensures
            r@ == "tf.ExpandDims"@,
    {
        "tf.ExpandDims"
    }

    /// Evaluates the operator on concrete inputs.
    pub fn eval(&self, inputs: Vec<Tensor>) -> (r: TractResult<Vec<Tensor>>)
        ensures
            match expand_dims_spec(inputs.deep_view()) {
                Ok(out) => r matches Ok(v) && v.deep_view() == out,
                Err(kind) => r matches Err(e) && e == kind,
            },
    {
        eval_expand_dims(inputs)
    }
}

/// Builds the operator from a node definition, none of whose attributes it
/// needs.
pub fn build(_pb: &NodeDef) -> (r: TractResult<Operator>)
    ensures
        r matches Ok(op) && op@ == OperatorValue::ExpandDims,
{
    Ok(Operator::ExpandDims(ExpandDims))
}

/// The positions that a tensor of positions holds.
pub open spec fn as_axes(data: Seq<i64>) -> Seq<usize> {
    Seq::new(data.len(), |i: int| data[i] as usize)
}

/// Whether every position is one that a dimension can be inserted at: none
/// is negative, and each fits in `usize`.
pub open spec fn are_axes(data: Seq<i64>) -> bool {
    forall|i: int| 0 <= i < data.len() ==> 0 <= #[trigger] data[i] <= usize::MAX
}

impl ExpandDims {
    /// The rules of the operator, for a node with the given inputs and
    /// outputs. There must be two inputs and one output (`ArityMismatch`).
    /// The positions are one 32-bit integer of rank 0; the output has the
    /// element type of the data and one dimension more; and once the
    /// position is known, the dimensions of the output follow from those of
    /// the data.
    pub open spec fn rules_spec(inputs: Seq<TensorProxy>, outputs: Seq<TensorProxy>) -> Result<
        Seq<Rule>,
        TractError,
    > {
        if inputs.len() != 2 || outputs.len() != 1 {
            Err(TractError::ArityMismatch)
        } else {
            let data = inputs[0];
            let dims = inputs[1];
            let output = outputs[0];
            Ok(
                seq![
                    Rule::EqualsType(TypeExp::Of(dims), TypeExp::Const(DatumType::I32)),
                    Rule::EqualsInt(IntExp::Rank(dims), IntExp::Const(0)),
                    Rule::EqualsType(TypeExp::Of(data), TypeExp::Of(output)),
                    Rule::EqualsZero {
                        plus: IntExp::Rank(data),
                        constant: 1,
                        minus: IntExp::Rank(output),
                    },
                    Rule::GivenValue(dims, ValueClosure::ExpandDimsIndex { data, output }),
                ],
            )
        }
    }

    /// Declares the rules of the operator. On failure the solver stays as it
    /// is.
    pub fn rules(&self, s: &mut Solver, inputs: &Vec<TensorProxy>, outputs: &Vec<TensorProxy>) -> (r:
        TractResult<()>)
        ensures
            match Self::rules_spec(inputs@, outputs@) {
                Ok(rules) => r is Ok && final(s)@ == old(s)@ + rules,
                Err(kind) => r matches Err(e) && e == kind && final(s)@ == old(s)@,
            },
    {
        check_input_arity(inputs, 2)?;
        check_output_arity(outputs, 1)?;
        let data = inputs[0];
        let dims = inputs[1];
        let output = outputs[0];
        s.equals_type(dims.datum_type(), TypeExp::Const(DatumType::I32));
        s.equals_int(dims.rank(), IntExp::Const(0));
        s.equals_type(data.datum_type(), output.datum_type());
        s.equals_zero(data.rank(), 1, output.rank());
        s.given_value(dims, ValueClosure::ExpandDimsIndex { data, output });
        assert(s@ =~= old(s)@ + Self::rules_spec(inputs@, outputs@)->Ok_0);
        Ok(())
    }

    /// What `reduce` proposes. Only the phase `Normalize` proposes anything,
    /// and only once the positions are known: then the operator gives way to
    /// one that inserts dimensions at those positions into the first input.
    /// There must be two inputs (`ArityMismatch`), and known positions must
    /// be integers of 32 or 64 bits (`TypeMismatch`), none of them negative
    /// (`UnimplementedVariant`).
    pub open spec fn reduce_spec(inputs: Seq<TensorFactValue>, phase: ReductionPhase) -> Result<
        Option<Seq<usize>>,
        TractError,
    > {
        if phase != ReductionPhase::Normalize {
            Ok(None)
        } else if inputs.len() != 2 {
            Err(TractError::ArityMismatch)
        } else {
            match inputs[1].value {
                GenericFact::Any => Ok(None),
                GenericFact::Only(t) => if t.datum_type != DatumType::I32 && t.datum_type
                    != DatumType::I64 {
                    Err(TractError::TypeMismatch)
                } else if !are_axes(t.data) {
                    Err(TractError::UnimplementedVariant)
                } else {
                    Ok(Some(as_axes(t.data)))
                },
            }
        }
    }

    /// Proposes a simpler operator in place of this one, once the facts
    /// allow it.
    pub fn reduce(
        &self,
        inputs: &Vec<TensorFact>,
        _outputs: &Vec<TensorFact>,
        phase: ReductionPhase,
    ) -> (r: TractResult<Option<ReducedOpRewire>>)
        ensures
            match Self::reduce_spec(inputs.deep_view(), phase) {
                Ok(None) => r matches Ok(None),
                Ok(Some(axes)) => r matches Ok(Some(rewire)) && rewire.new_op@
                    == OperatorValue::AddDims(axes) && rewire.rewired@ == seq![0usize],
                Err(kind) => r matches Err(e) && e == kind,
            },
    {
        if phase == ReductionPhase::Normalize {
            if inputs.len() != 2 {
                return Err(TractError::ArityMismatch);
            }
            assert(inputs.deep_view()[1] == inputs@[1]@);
            if let Some(dims) = inputs[1].concretize() {
                if dims.datum_type() != DatumType::I32 && dims.datum_type() != DatumType::I64 {
                    return Err(TractError::TypeMismatch);
                }
                let data = dims.data();
                let mut axes: Vec<usize> = Vec::new();
                let mut i: usize = 0;
                assert(Self::reduce_spec(inputs.deep_view(), phase) == (if are_axes(data@) {
                    Ok::<Option<Seq<usize>>, TractError>(Some(as_axes(data@)))
                } else {
                    Err::<Option<Seq<usize>>, TractError>(TractError::UnimplementedVariant)
                }));
                while i < data.len()
                    invariant
                        i <= data.len(),
                        axes@.len() == i,
                        Self::reduce_spec(inputs.deep_view(), phase) == (if are_axes(data@) {
                            Ok::<Option<Seq<usize>>, TractError>(Some(as_axes(data@)))
                        } else {
                            Err::<Option<Seq<usize>>, TractError>(TractError::UnimplementedVariant)
                        }),
                        forall|j: int| 0 <= j < i ==> 0 <= #[trigger] data@[j] <= usize::MAX,
                        forall|j: int| 0 <= j < i ==> axes@[j] == data@[j] as usize,
                    decreases data.len() - i,
                {
                    let d = data[i];
                    if d < 0 || d as u64 > usize::MAX as u64 {
                        return Err(TractError::UnimplementedVariant);
                    }
                    axes.push(d as usize);
                    i += 1;
                }
                assert(axes@ =~= as_axes(data@));
                return Ok(Some(ReducedOpRewire::unary(Operator::AddDims(AddDims::new(axes)))));
            }
        }
        Ok(None)
    }
}

} // verus!
