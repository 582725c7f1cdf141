//! Operators that stand for something outside the graph.

use vstd::prelude::*;
use crate::analyser::rules::TensorProxy;
use crate::analyser::solver::Solver;
use crate::analyser::types::{TensorFact, TensorFactValue};
use crate::errors::TractResult;
use crate::tensor::{Tensor, TensorValue};

verus! {

/// A graph input: an operator without inputs whose output is supplied when
/// the graph is run, and of which only a fact is known beforehand.
#[derive(Debug)]
pub struct Source {
    pub fact: TensorFact,
}

impl View for Source {
    type V = TensorFactValue;

    open spec fn view(&self) -> TensorFactValue {
        self.fact@
    }
}

impl Source {
    /// The graph input of which `fact` is known.
    pub fn new(fact: TensorFact) -> (r: Source)
        ensures
            r@ == fact@,
    {
        Source { fact }
    }
}

/// An operator that does nothing and has neither inputs nor outputs.
#[derive(Clone, Copy, Debug, PartialEq, Eq, Structural)]
pub struct Noop;

impl Noop {
    /// The operator.
    pub fn new() -> (r: Noop)
        ensures
            r == Noop,
    {
        Noop
    }

    /// The name of the operator.
    pub fn name(&self) -> (r: &'static str)
        ensures
            r@ == "tf.Noop"@,
    {
        "tf.Noop"
    }

    /// Evaluates the operator: whatever the inputs, there is no output.
    pub fn eval(&self, _inputs: Vec<Tensor>) -> (r: TractResult<Vec<Tensor>>)
        ensures
            r matches Ok(v) && v.deep_view() == Seq::<TensorValue>::empty(),
    {
        let out: Vec<Tensor> = Vec::new();
        assert(out.deep_view() =~= Seq::<TensorValue>::empty());
        Ok(out)
    }

    /// Declares the rules of the operator: it has none.
    pub fn rules(&self, s: &mut Solver, _inputs: &Vec<TensorProxy>, _outputs: &Vec<TensorProxy>) -> (r:
        TractResult<()>)
        ensures
            r is Ok,
            final(s)@ == old(s)@,
    {
        Ok(())
    }
}

/// A stand-in for an operator that this crate does not implement. A graph
/// that holds one can be analysed; evaluating the operator fails.
#[derive(Debug)]
pub struct UnimplementedOp {
    pub name: String,
    pub message: String,
}

/// What an `UnimplementedOp` stands for.
pub struct UnimplementedOpValue {
    pub name: Seq<char>,
    pub message: Seq<char>,
}

impl View for UnimplementedOp {
    type V = UnimplementedOpValue;

    open spec fn view(&self) -> UnimplementedOpValue {
        UnimplementedOpValue { name: self.name@, message: self.message@ }
    }
}

impl UnimplementedOp {
    /// The stand-in for the operator called `name`; `message` says what was
    /// asked of it.
    pub fn new(name: String, message: String) -> (r: UnimplementedOp)
        ensures
            r@ == (UnimplementedOpValue { name: name@, message: message@ }),
    {
        UnimplementedOp { name, message }
    }
}

} // verus!
