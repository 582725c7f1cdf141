//! Operators of neural networks.

use vstd::prelude::*;
use crate::analyser::rules::{Rule, TensorProxy, TypeExp};
use crate::analyser::solver::Solver;
use crate::errors::{TractError, TractResult};
use crate::ops::{check_input_arity, check_output_arity, OpFactory, OpRegister, Operator, OperatorValue};
use crate::tfpb::NodeDef;

verus! {

/// Registers the operators of this module under the names by which node
/// definitions call them. Of these only Softmax is an operator of this
/// crate; the factories of the others build stand-ins.
pub fn register_all_ops(reg: &mut OpRegister)
    ensures
        final(reg)@ == old(reg)@.with_nn(),
{
    reg.insert("AvgPool", OpFactory::AvgPool);
    reg.insert("Conv2D", OpFactory::Conv2D);
    reg.insert("FusedBatchNorm", OpFactory::FusedBatchNorm);
    reg.insert("MaxPool", OpFactory::MaxPool);
    reg.insert("Relu", OpFactory::Relu);
    reg.insert("Sigmoid", OpFactory::Sigmoid);
    reg.insert("Softmax", OpFactory::Softmax);
    reg.insert("SpaceToBatchND", OpFactory::SpaceToBatchND);
    reg.insert("BatchToSpaceND", OpFactory::BatchToSpaceND);
}

/// The operator that turns its input into a distribution: every element is
/// exponentiated and divided by the sum of the exponentials.
#[derive(Clone, Copy, Debug, PartialEq, Eq, Structural)]
pub struct Softmax {}

impl Softmax {
    /// Builds the operator from a node definition, none of whose attributes
    /// it needs.
    pub fn build(_pb: &NodeDef) -> (r: TractResult<Operator>)
        ensures
            r matches Ok(op) && op@ == OperatorValue::Softmax,
    {
        Ok(Operator::Softmax(Softmax {  }))
    }

    /// The name of the operator.
    pub fn name(&self) -> (r: &'static str)
        ensures
            r@ == "Softmax"@,
    {
        "Softmax"
    }

    /// Whether two evaluations on the same inputs may differ by rounding:
    /// they may.
    pub fn rounding_errors(&self) -> (r: bool)
        ensures
            r,
    {
        true
    }

    /// The rules of the operator: one input and one output
    /// (`ArityMismatch`), of the same element type and the same shape.
    pub open spec fn rules_spec(inputs: Seq<TensorProxy>, outputs: Seq<TensorProxy>) -> Result<
        Seq<Rule>,
        TractError,
    > {
        if inputs.len() != 1 || outputs.len() != 1 {
            Err(TractError::ArityMismatch)
        } else {
            Ok(
                seq![
                    Rule::EqualsType(TypeExp::Of(inputs[0]), TypeExp::Of(outputs[0])),
                    Rule::EqualsShape(inputs[0], outputs[0]),
                ],
            )
        }
    }

    /// Declares the rules of the operator. On failure the solver stays as it
    /// is.
    pub fn rules(&self, s: &mut Solver, inputs: &Vec<TensorProxy>, outputs: &Vec<TensorProxy>) -> (r:
        TractResult<()>)
        ensures
            match Self::rules_spec(inputs@, outputs@) {
                Ok(rules) => r is Ok && final(s)@ == old(s)@ + rules,
                Err(kind) => r matches Err(e) && e == kind && final(s)@ == old(s)@,
            },
    {
        check_input_arity(inputs, 1)?;
        check_output_arity(outputs, 1)?;
        s.equals_type(inputs[0].datum_type(), outputs[0].datum_type());
        s.equals_shape(inputs[0], outputs[0]);
        assert(s@ =~= old(s)@ + Self::rules_spec(inputs@, outputs@)->Ok_0);
        Ok(())
    }
}

} // verus!
