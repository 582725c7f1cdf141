//! The operators of a graph and what each of them can do.
//!
//! An operator may be able to compute its outputs from concrete inputs, to
//! declare rules about the facts of its inputs and outputs, and to propose
//! a simpler operator in its place. None of these is owed: an operator that
//! lacks one of them says so, and the request then does nothing or fails.

pub mod add_dims;
pub mod expand_dims;
pub mod konst;
pub mod nn;
pub mod shape;
pub mod source;

use vstd::prelude::*;
use crate::analyser::rules::{Rule, TensorProxy};
use crate::analyser::solver::Solver;
use crate::analyser::types::{TensorFact, TensorFactValue};
use crate::errors::{TractError, TractResult};
use crate::ops::add_dims::AddDims;
use crate::ops::expand_dims::{expand_dims_spec, ExpandDims};
use crate::ops::konst::Const;
use crate::ops::nn::Softmax;
use crate::ops::shape::{as_positions, descending, Squeeze};
use crate::ops::source::{Noop, Source, UnimplementedOp, UnimplementedOpValue};
use crate::tensor::{Tensor, TensorValue};
use crate::tfpb::{AttrContent, NodeDef, NodeDefContent};

verus! {

/// Checks that an operator was given `expected` inputs.
pub fn check_input_arity(inputs: &Vec<TensorProxy>, expected: usize) -> (r: TractResult<()>)
    ensures
        inputs@.len() == expected ==> r is Ok,
        inputs@.len() != expected ==> (r matches Err(e) && e == TractError::ArityMismatch),
{
    if inputs.len() == expected {
        Ok(())
    } else {
        Err(TractError::ArityMismatch)
    }
}

/// Checks that an operator was given `expected` outputs.
pub fn check_output_arity(outputs: &Vec<TensorProxy>, expected: usize) -> (r: TractResult<()>)
    ensures
        outputs@.len() == expected ==> r is Ok,
        outputs@.len() != expected ==> (r matches Err(e) && e == TractError::ArityMismatch),
{
    if outputs.len() == expected {
        Ok(())
    } else {
        Err(TractError::ArityMismatch)
    }
}

/// When a proposal to replace an operator may be made.
#[derive(Clone, Copy, Debug, PartialEq, Eq, Structural)]
pub enum ReductionPhase {
    /// While the graph is brought into its plainest form.
    Normalize,
    /// While the graph is prepared for running.
    Codegen,
}

/// One operator of a graph.
#[derive(Debug)]
pub enum Operator {
    Const(Const),
    Source(Source),
    ExpandDims(ExpandDims),
    AddDims(AddDims),
    Squeeze(Squeeze),
    Softmax(Softmax),
    Noop(Noop),
    Unimplemented(UnimplementedOp),
}

/// What an operator is: its kind and its parameters.
pub enum OperatorValue {
    Const(TensorValue),
    Source(TensorFactValue),
    ExpandDims,
    AddDims(Seq<usize>),
    Squeeze(Seq<isize>),
    Softmax,
    Noop,
    Unimplemented(UnimplementedOpValue),
}

impl View for Operator {
    type V = OperatorValue;

    open spec fn view(&self) -> OperatorValue {
        match *self {
            Operator::Const(op) => OperatorValue::Const(op@),
            Operator::Source(op) => OperatorValue::Source(op@),
            Operator::ExpandDims(_) => OperatorValue::ExpandDims,
            Operator::AddDims(op) => OperatorValue::AddDims(op@),
            Operator::Squeeze(op) => OperatorValue::Squeeze(op@),
            Operator::Softmax(_) => OperatorValue::Softmax,
            Operator::Noop(_) => OperatorValue::Noop,
            Operator::Unimplemented(op) => OperatorValue::Unimplemented(op@),
        }
    }
}

/// A proposal to replace an operator: the new operator, and for each of its
/// inputs the input of the old operator that it takes.
#[derive(Debug)]
pub struct ReducedOpRewire {
    pub new_op: Operator,
    pub rewired: Vec<usize>,
}

impl ReducedOpRewire {
    /// The proposal of an operator that takes the first input of the old one
    /// and nothing else.
    pub fn unary(op: Operator) -> (r: ReducedOpRewire)
        ensures
            r.new_op@ == op@,
            r.rewired@ == seq![0usize],
    {
        let mut rewired: Vec<usize> = Vec::new();
        rewired.push(0);
        assert(rewired@ =~= seq![0usize]);
        ReducedOpRewire { new_op: op, rewired }
    }
}

impl OperatorValue {
    /// The name of the operator.
    pub open spec fn name(self) -> Seq<char> {
        match self {
            OperatorValue::Const(_) => "Const"@,
            OperatorValue::Source(_) => "Source"@,
            OperatorValue::ExpandDims => "tf.ExpandDims"@,
            OperatorValue::AddDims(_) => "AddDims"@,
            OperatorValue::Squeeze(_) => "Squeeze"@,
            OperatorValue::Softmax => "Softmax"@,
            OperatorValue::Noop => "tf.Noop"@,
            OperatorValue::Unimplemented(u) => u.name,
        }
    }

    /// Whether the operator can compute its outputs from concrete inputs.
    pub open spec fn is_stateless(self) -> bool {
        match self {
            OperatorValue::Const(_) => true,
            OperatorValue::ExpandDims => true,
            OperatorValue::AddDims(_) => true,
            OperatorValue::Squeeze(_) => true,
            OperatorValue::Noop => true,
            _ => false,
        }
    }

    /// Whether the operator declares rules.
    pub open spec fn declares_rules(self) -> bool {
        self is ExpandDims || self is Softmax
    }

    /// Whether the operator may propose another operator in its place.
    pub open spec fn may_reduce(self) -> bool {
        self is ExpandDims
    }

    /// What evaluating the operator on concrete inputs gives. An operator
    /// that cannot be evaluated gives `UnimplementedVariant`; a constant
    /// takes no input (`ArityMismatch`) and gives its value.
    pub open spec fn eval(self, inputs: Seq<TensorValue>) -> Result<Seq<TensorValue>, TractError> {
        match self {
            OperatorValue::Const(v) => if inputs.len() == 0 {
                Ok(seq![v])
            } else {
                Err(TractError::ArityMismatch)
            },
            OperatorValue::ExpandDims => expand_dims_spec(inputs),
            OperatorValue::AddDims(axes) => AddDims::eval_spec(axes, inputs),
            OperatorValue::Squeeze(dims) => Squeeze::eval_spec(dims, inputs),
            OperatorValue::Noop => Ok(Seq::empty()),
            _ => Err(TractError::UnimplementedVariant),
        }
    }

    /// The rules that the operator declares for a node with the given inputs
    /// and outputs. An operator that declares none gives no rule.
    pub open spec fn rules(self, inputs: Seq<TensorProxy>, outputs: Seq<TensorProxy>) -> Result<
        Seq<Rule>,
        TractError,
    > {
        match self {
            OperatorValue::ExpandDims => ExpandDims::rules_spec(inputs, outputs),
            OperatorValue::Softmax => Softmax::rules_spec(inputs, outputs),
            _ => Ok(Seq::empty()),
        }
    }

    /// What the operator proposes in its place, given the facts of its
    /// inputs.
    pub open spec fn reduce(self, inputs: Seq<TensorFactValue>, phase: ReductionPhase) -> Result<
        Option<Seq<usize>>,
        TractError,
    > {
        match self {
            OperatorValue::ExpandDims => ExpandDims::reduce_spec(inputs, phase),
            _ => Ok(None),
        }
    }
}

impl Operator {
    /// Whether the operator produces a constant.
    pub fn is_const(&self) -> (r: bool)
        ensures
            r == (self@ is Const),
    {
        match self {
            Operator::Const(_) => true,
            _ => false,
        }
    }

    /// The name of the operator.
    pub fn name(&self) -> (r: String)
        ensures
            r@ == self@.name(),
    {
        match self {
            Operator::Const(_) => "Const".to_owned(),
            Operator::Source(_) => "Source".to_owned(),
            Operator::ExpandDims(op) => op.name().to_owned(),
            Operator::AddDims(_) => "AddDims".to_owned(),
            Operator::Squeeze(_) => "Squeeze".to_owned(),
            Operator::Softmax(op) => op.name().to_owned(),
            Operator::Noop(op) => op.name().to_owned(),
            Operator::Unimplemented(op) => op.name.clone(),
        }
    }

    /// Whether the operator can compute its outputs from concrete inputs.
    pub fn is_stateless(&self) -> (r: bool)
        ensures
            r == self@.is_stateless(),
            !r ==> forall|inputs: Seq<TensorValue>| #[trigger]
                self@.eval(inputs) == Err::<Seq<TensorValue>, TractError>(
                    TractError::UnimplementedVariant,
                ),
    {
        match self {
            Operator::Const(_) => true,
            Operator::ExpandDims(_) => true,
            Operator::AddDims(_) => true,
            Operator::Squeeze(_) => true,
            Operator::Noop(_) => true,
            _ => false,
        }
    }

    /// Whether the operator declares rules.
    pub fn declares_rules(&self) -> (r: bool)
        ensures
            r == self@.declares_rules(),
            !r ==> forall|inputs: Seq<TensorProxy>, outputs: Seq<TensorProxy>| #[trigger]
                self@.rules(inputs, outputs) == Ok::<Seq<Rule>, TractError>(Seq::empty()),
    {
        match self {
            Operator::ExpandDims(_) => true,
            Operator::Softmax(_) => true,
            _ => false,
        }
    }

    /// Whether the operator may propose another operator in its place.
    pub fn may_reduce(&self) -> (r: bool)
        ensures
            r == self@.may_reduce(),
            !r ==> forall|inputs: Seq<TensorFactValue>, phase: ReductionPhase| #[trigger]
                self@.reduce(inputs, phase) == Ok::<Option<Seq<usize>>, TractError>(None),
    {
        match self {
            Operator::ExpandDims(_) => true,
            _ => false,
        }
    }

    /// Evaluates the operator on concrete inputs.
    pub fn eval(&self, inputs: Vec<Tensor>) -> (r: TractResult<Vec<Tensor>>)
        ensures
            match self@.eval(inputs.deep_view()) {
                Ok(out) => r matches Ok(v) && v.deep_view() == out,
                Err(kind) => r matches Err(e) && e == kind,
            },
    {
        match self {
            Operator::Const(op) => {
                if inputs.len() != 0 {
                    return Err(TractError::ArityMismatch);
                }
                let mut out: Vec<Tensor> = Vec::new();
                out.push(op.value().clone());
                assert(out.deep_view() =~= seq![op@]);
                Ok(out)
            },
            Operator::ExpandDims(op) => op.eval(inputs),
            Operator::AddDims(op) => op.eval(inputs),
            Operator::Squeeze(op) => op.eval(inputs),
            Operator::Noop(op) => op.eval(inputs),
            _ => Err(TractError::UnimplementedVariant),
        }
    }

    /// Declares the rules of the operator. On failure the solver stays as it
    /// is.
    pub fn rules(&self, s: &mut Solver, inputs: &Vec<TensorProxy>, outputs: &Vec<TensorProxy>) -> (r:
        TractResult<()>)
        ensures
            match self@.rules(inputs@, outputs@) {
                Ok(rules) => r is Ok && final(s)@ == old(s)@ + rules,
                Err(kind) => r matches Err(e) && e == kind && final(s)@ == old(s)@,
            },
    {
        match self {
            Operator::ExpandDims(op) => op.rules(s, inputs, outputs),
            Operator::Softmax(op) => op.rules(s, inputs, outputs),
            _ => {
                assert(s@ =~= s@ + Seq::<Rule>::empty());
                Ok(())
            },
        }
    }

    /// Proposes a simpler operator in place of this one, once the facts
    /// allow it.
    pub fn reduce(&self, inputs: &Vec<TensorFact>, outputs: &Vec<TensorFact>, phase: ReductionPhase) -> (r:
        TractResult<Option<ReducedOpRewire>>)
        ensures
            match self@.reduce(inputs.deep_view(), phase) {
                Ok(None) => r matches Ok(None),
                Ok(Some(axes)) => r matches Ok(Some(rewire)) && rewire.new_op@
                    == OperatorValue::AddDims(axes) && rewire.rewired@ == seq![0usize],
                Err(kind) => r matches Err(e) && e == kind,
            },
    {
        match self {
            Operator::ExpandDims(op) => op.reduce(inputs, outputs, phase),
            _ => Ok(None),
        }
    }
}

/// A way to build an operator from a node definition.
#[derive(Clone, Copy, Debug, PartialEq, Eq, Structural)]
pub enum OpFactory {
    Const,
    NoOp,
    Placeholder,
    ExpandDims,
    Squeeze,
    Softmax,
    AvgPool,
    Conv2D,
    FusedBatchNorm,
    MaxPool,
    Relu,
    Sigmoid,
    SpaceToBatchND,
    BatchToSpaceND,
}

impl OpFactory {
    /// Whether the factory stands for an operator whose computation this
    /// crate does not hold: it builds a stand-in that keeps the name of the
    /// operator and the name of the node.
    pub open spec fn is_stand_in(self) -> bool {
        match self {
            OpFactory::AvgPool => true,
            OpFactory::Conv2D => true,
            OpFactory::FusedBatchNorm => true,
            OpFactory::MaxPool => true,
            OpFactory::Relu => true,
            OpFactory::Sigmoid => true,
            OpFactory::SpaceToBatchND => true,
            OpFactory::BatchToSpaceND => true,
            _ => false,
        }
    }
}

/// The stand-in for the operator of the node definition `pb`.
pub open spec fn stand_in(pb: NodeDefContent) -> OperatorValue {
    OperatorValue::Unimplemented(UnimplementedOpValue { name: pb.op, message: pb.name })
}

/// What building an operator gives: `r` is what the factory makes of the
/// node definition `pb`.
pub open spec fn builds(factory: OpFactory, pb: NodeDefContent, r: Result<OperatorValue, TractError>) -> bool {
    match factory {
        OpFactory::Const => konst_spec(pb, r),
        OpFactory::NoOp => r == Ok::<OperatorValue, TractError>(OperatorValue::Noop),
        OpFactory::Placeholder => placeholder_spec(pb, r),
        OpFactory::ExpandDims => r == Ok::<OperatorValue, TractError>(OperatorValue::ExpandDims),
        OpFactory::Squeeze => match pb.list("squeeze_dims"@) {
            Some(list) => r matches Ok(OperatorValue::Squeeze(dims)) && descending(dims)
                && dims.to_multiset() == as_positions(list).to_multiset(),
            None => r == Err::<OperatorValue, TractError>(TractError::MissingAttribute),
        },
        OpFactory::Softmax => r == Ok::<OperatorValue, TractError>(OperatorValue::Softmax),
        _ => r == Ok::<OperatorValue, TractError>(stand_in(pb)),
    }
}

/// What `konst` makes of a node definition: the constant that the attribute
/// `value` holds, if the attribute `dtype` holds its element type.
pub open spec fn konst_spec(pb: NodeDefContent, r: Result<OperatorValue, TractError>) -> bool {
    match (pb.datum_type("dtype"@), pb.tensor("value"@)) {
        (None, _) => r == Err::<OperatorValue, TractError>(TractError::MissingAttribute),
        (_, None) => r == Err::<OperatorValue, TractError>(TractError::MissingAttribute),
        (Some(dt), Some(t)) => if t.datum_type == dt {
            r == Ok::<OperatorValue, TractError>(OperatorValue::Const(t))
        } else {
            r == Err::<OperatorValue, TractError>(TractError::TypeMismatch)
        },
    }
}

/// What `placeholder` makes of a node definition: the graph input of the
/// element type that the attribute `dtype` holds, and of the shape that the
/// attribute `shape` holds, if there is one.
pub open spec fn placeholder_spec(pb: NodeDefContent, r: Result<OperatorValue, TractError>) -> bool {
    match pb.datum_type("dtype"@) {
        None => r == Err::<OperatorValue, TractError>(TractError::MissingAttribute),
        Some(dt) => {
            let known = TensorFactValue { datum_type: crate::analyser::types::GenericFact::Only(dt), ..TensorFactValue::any() };
            match pb.get("shape"@) {
                None => r == Ok::<OperatorValue, TractError>(OperatorValue::Source(known)),
                Some(AttrContent::Shape(shape)) => r == Ok::<OperatorValue, TractError>(
                    OperatorValue::Source(TensorFactValue { shape, ..known }),
                ),
                Some(_) => r == Err::<OperatorValue, TractError>(TractError::MissingAttribute),
            }
        },
    }
}

/// The outcome of building an operator, as a value.
pub open spec fn built(r: TractResult<Operator>) -> Result<OperatorValue, TractError> {
    match r {
        Ok(op) => Ok(op@),
        Err(e) => Err(e),
    }
}

/// Builds a constant from a node definition.
pub fn konst(node: &NodeDef) -> (r: TractResult<Operator>)
    ensures
        konst_spec(node@, built(r)),
{
    let dtype = node.get_attr_datum_type("dtype")?;
    let mat = node.get_attr_tensor("value")?;
    if mat.datum_type() != dtype {
        return Err(TractError::TypeMismatch);
    }
    Ok(Operator::Const(Const::for_tensor(mat)))
}

/// Builds a graph input from a node definition.
pub fn placeholder(node: &NodeDef) -> (r: TractResult<Operator>)
    ensures
        placeholder_spec(node@, built(r)),
{
    let dt = node.get_attr_datum_type("dtype")?;
    let mut fact = TensorFact::dt(dt);
    if let Some(shape) = node.get_attr_opt_shape("shape")? {
        fact = fact.with_shape(shape);
    }
    Ok(Operator::Source(Source::new(fact)))
}

/// One entry of a register: a name and the factory it stands for.
#[derive(Debug)]
pub struct Registered {
    pub name: String,
    pub factory: OpFactory,
}

/// What a register holds: names and the factories they stand for, in the
/// order in which the names were first registered.
pub struct RegisterValue {
    pub entries: Seq<(Seq<char>, OpFactory)>,
}

impl RegisterValue {
    /// The index of the first entry called `name` at or after `from`, or the
    /// number of entries if there is none.
    pub open spec fn position(self, name: Seq<char>, from: int) -> int
        decreases self.entries.len() - from,
    {
        if from < 0 || from >= self.entries.len() {
            self.entries.len() as int
        } else if self.entries[from].0 == name {
            from
        } else {
            self.position(name, from + 1)
        }
    }

    /// The factory registered under `name`.
    pub open spec fn lookup(self, name: Seq<char>) -> Option<OpFactory> {
        let at = self.position(name, 0);
        if at < self.entries.len() {
            Some(self.entries[at].1)
        } else {
            None
        }
    }

    /// The register after the operators of neural networks are registered.
    pub open spec fn with_nn(self) -> RegisterValue {
        self.inserted("AvgPool"@, OpFactory::AvgPool).inserted("Conv2D"@, OpFactory::Conv2D).inserted(
            "FusedBatchNorm"@,
            OpFactory::FusedBatchNorm,
        ).inserted("MaxPool"@, OpFactory::MaxPool).inserted("Relu"@, OpFactory::Relu).inserted(
            "Sigmoid"@,
            OpFactory::Sigmoid,
        ).inserted("Softmax"@, OpFactory::Softmax).inserted(
            "SpaceToBatchND"@,
            OpFactory::SpaceToBatchND,
        ).inserted("BatchToSpaceND"@, OpFactory::BatchToSpaceND)
    }

    /// The register after `name` is registered for `factory`: the entry of
    /// that name is replaced, or a new entry is added at the end.
    pub open spec fn inserted(self, name: Seq<char>, factory: OpFactory) -> RegisterValue {
        let at = self.position(name, 0);
        if at < self.entries.len() {
            RegisterValue { entries: self.entries.update(at, (name, factory)) }
        } else {
            RegisterValue { entries: self.entries.push((name, factory)) }
        }
    }
}

/// From where a search starts does not matter before the first entry of
/// that name.
pub proof fn lemma_position_bounds(reg: RegisterValue, name: Seq<char>, from: int)
    requires
        0 <= from <= reg.entries.len(),
    ensures
        from <= reg.position(name, from) <= reg.entries.len(),
        reg.position(name, from) < reg.entries.len() ==> reg.entries[reg.position(name, from)].0
            == name,
        forall|k: int| from <= k < reg.position(name, from) ==> (#[trigger] reg.entries[k]).0 != name,
    decreases reg.entries.len() - from,
{
    if from < reg.entries.len() && reg.entries[from].0 != name {
        lemma_position_bounds(reg, name, from + 1);
    }
}

/// The first entry of a name is where no earlier entry has that name.
pub proof fn lemma_position_is(reg: RegisterValue, name: Seq<char>, from: int, at: int)
    requires
        0 <= from <= at <= reg.entries.len(),
        forall|k: int| from <= k < at ==> (#[trigger] reg.entries[k]).0 != name,
        at < reg.entries.len() ==> reg.entries[at].0 == name,
    ensures
        reg.position(name, from) == at,
    decreases at - from,
{
    if from < at {
        lemma_position_is(reg, name, from + 1, at);
    }
}

/// A register answers with the factory last registered under a name, and
/// registering one name does not change the answer for another.
pub proof fn lemma_lookup_inserted(reg: RegisterValue, name: Seq<char>, factory: OpFactory, other: Seq<char>)
    ensures
        reg.inserted(name, factory).lookup(other) == (if other == name {
            Some(factory)
        } else {
            reg.lookup(other)
        }),
{
    let target = reg.inserted(name, factory);
    let at = reg.position(name, 0);
    lemma_position_bounds(reg, name, 0);
    lemma_position_bounds(reg, other, 0);
    let was = reg.position(other, 0);
    if other == name {
        lemma_position_is(target, name, 0, at);
    } else {
        assert forall|k: int| 0 <= k < was implies (#[trigger] target.entries[k]).0 != other by {
            assert(reg.entries[k].0 != other);
        }
        if was < reg.entries.len() {
            lemma_position_is(target, other, 0, was);
        } else {
            assert forall|k: int| 0 <= k < target.entries.len() implies (#[trigger] target.entries[k]).0
                != other by {
                if k < reg.entries.len() {
                    assert(reg.entries[k].0 != other);
                }
            }
            lemma_position_is(target, other, 0, target.entries.len() as int);
        }
    }
}

/// The factories of the operators, by the names under which node
/// definitions call them.
#[derive(Debug)]
pub struct OpRegister {
    entries: Vec<Registered>,
}

impl View for OpRegister {
    type V = RegisterValue;

    closed spec fn view(&self) -> RegisterValue {
        RegisterValue {
            entries: Seq::new(
                self.entries@.len(),
                |i: int| (self.entries@[i].name@, self.entries@[i].factory),
            ),
        }
    }
}

impl OpRegister {
    /// The register without entries.
    pub fn new() -> (r: OpRegister)
        ensures
            r@ == (RegisterValue { entries: Seq::empty() }),
    {
        let r = OpRegister { entries: Vec::new() };
        assert(r@.entries =~= Seq::empty());
        r
    }

    /// The position of the first entry called `name`, or the number of
    /// entries.
    fn find(&self, name: &String) -> (at: usize)
        ensures
            at == self@.position(name@, 0),
            at <= self.entries@.len(),
    {
        let mut i: usize = 0;
        while i < self.entries.len()
            invariant
                i <= self.entries.len(),
                self@.position(name@, 0) == self@.position(name@, i as int),
            decreases self.entries.len() - i,
        {
            if self.entries[i].name == *name {
                return i;
            }
            i += 1;
        }
        i
    }

    /// Registers `factory` under `name`, in place of what was registered
    /// under that name before.
    pub fn insert(&mut self, name: &str, factory: OpFactory)
        ensures
            final(self)@ == old(self)@.inserted(name@, factory),
    {
        let key = name.to_owned();
        let at = self.find(&key);
        if at < self.entries.len() {
            self.entries[at].factory = factory;
            proof {
                lemma_position_bounds(old(self)@, name@, 0);
                assert(self@.entries =~= old(self)@.inserted(name@, factory).entries);
            }
        } else {
            self.entries.push(Registered { name: key, factory });
            assert(self@.entries =~= old(self)@.inserted(name@, factory).entries);
        }
    }

    /// The factory registered under `name`.
    pub fn get(&self, name: &String) -> (r: Option<OpFactory>)
        ensures
            r == self@.lookup(name@),
    {
        let at = self.find(name);
        if at < self.entries.len() {
            Some(self.entries[at].factory)
        } else {
            None
        }
    }
}

/// Builds operators from node definitions.
#[derive(Debug)]
pub struct OpBuilder(pub OpRegister);

impl OpBuilder {
    /// What the builder knows: the operators of this crate under the names
    /// by which node definitions call them.
    pub open spec fn known() -> RegisterValue {
        (RegisterValue { entries: Seq::empty() }).inserted(
            "ExpandDims"@,
            OpFactory::ExpandDims,
        ).inserted("Squeeze"@, OpFactory::Squeeze).with_nn().inserted("Const"@, OpFactory::Const).inserted(
            "NoOp"@,
            OpFactory::NoOp,
        ).inserted("Placeholder"@, OpFactory::Placeholder)
    }

    /// The builder that knows the operators of this crate.
    pub fn new() -> (r: OpBuilder)
        ensures
            r.0@ == Self::known(),
    {
        let mut reg = OpRegister::new();
        reg.insert("ExpandDims", OpFactory::ExpandDims);
        reg.insert("Squeeze", OpFactory::Squeeze);
        crate::ops::nn::register_all_ops(&mut reg);
        reg.insert("Const", OpFactory::Const);
        reg.insert("NoOp", OpFactory::NoOp);
        reg.insert("Placeholder", OpFactory::Placeholder);
        OpBuilder(reg)
    }

    /// Builds the operator of a node definition: what the factory
    /// registered under the name of its operator makes of it, or, where no
    /// factory is registered, a stand-in that keeps the name of the
    /// operator and the name of the node.
    pub fn build(&self, pb: &NodeDef) -> (r: TractResult<Operator>)
        ensures
            match self.0@.lookup(pb@.op) {
                Some(factory) => builds(factory, pb@, built(r)),
                None => r matches Ok(op) && op@ == stand_in(pb@),
            },
    {
        match self.0.get(pb.get_op()) {
            Some(OpFactory::Const) => konst(pb),
            Some(OpFactory::NoOp) => Ok(Operator::Noop(Noop::new())),
            Some(OpFactory::Placeholder) => placeholder(pb),
            Some(OpFactory::ExpandDims) => crate::ops::expand_dims::build(pb),
            Some(OpFactory::Squeeze) => match Squeeze::build(pb) {
                Ok(op) => Ok(Operator::Squeeze(op)),
                Err(e) => Err(e),
            },
            Some(OpFactory::Softmax) => Softmax::build(pb),
            _ => Ok(
                Operator::Unimplemented(UnimplementedOp::new(pb.get_op().clone(), pb.name.clone())),
            ),
        }
    }
}

} // verus!
