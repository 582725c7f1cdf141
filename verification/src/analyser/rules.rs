//! The rules that an operator declares about the facts of its inputs and
//! outputs, and what applying one rule does to those facts.
//!
//! A rule is plain data. An equality rule names two expressions that must
//! hold the same fact; a conditional rule names a fact and what to add once
//! that fact is exact.

use vstd::prelude::*;
use crate::analyser::types::{
    same_dim_fact,
    same_int_fact,
    same_type_fact,
    same_value_fact,
    DimFact,
    GenericFact,
    IntFact,
    ShapeFact,
    ShapeFactValue,
    TensorFact,
    TensorFactValue,
    TypeFact,
    ValueFact,
};
use crate::dim::TDim;
use crate::errors::{TractError, TractResult};
use crate::tensor::{DatumType, Tensor, TensorValue};

verus! {

/// A handle on one input or output of the node whose rules are declared.
#[derive(Clone, Copy, Debug, PartialEq, Eq, Structural)]
pub struct TensorProxy {
    pub output: bool,
    pub index: usize,
}

/// An expression whose value is a type fact.
#[derive(Clone, Copy, Debug, PartialEq, Eq, Structural)]
pub enum TypeExp {
    Const(DatumType),
    Of(TensorProxy),
}

/// An expression whose value is an integer fact.
#[derive(Clone, Copy, Debug, PartialEq, Eq, Structural)]
pub enum IntExp {
    Const(i64),
    Rank(TensorProxy),
}

/// An expression whose value is a dimension fact.
#[derive(Clone, Copy, Debug, PartialEq, Eq, Structural)]
pub enum DimExp {
    Const(TDim),
    Of(TensorProxy, usize),
}

impl TensorProxy {
    /// The handle on input `index`.
    pub fn input(index: usize) -> (r: TensorProxy)
        ensures
            r == (TensorProxy { output: false, index }),
    {
        TensorProxy { output: false, index }
    }

    /// The handle on output `index`.
    pub fn output(index: usize) -> (r: TensorProxy)
        ensures
            r == (TensorProxy { output: true, index }),
    {
        TensorProxy { output: true, index }
    }

    /// The element type of the tensor.
    pub fn datum_type(&self) -> (r: TypeExp)
        ensures
            r == TypeExp::Of(*self),
    {
        TypeExp::Of(*self)
    }

    /// The rank of the tensor.
    pub fn rank(&self) -> (r: IntExp)
        ensures
            r == IntExp::Rank(*self),
    {
        IntExp::Rank(*self)
    }

    /// Dimension `i` of the tensor.
    pub fn dim(&self, i: usize) -> (r: DimExp)
        ensures
            r == DimExp::Of(*self, i),
    {
        DimExp::Of(*self, i)
    }
}

/// What to add once the value of a tensor is known.
#[derive(Clone, Copy, Debug, PartialEq, Eq, Structural)]
pub enum ValueClosure {
    /// The value is the position at which a dimension of extent 1 is
    /// inserted into `data` to give `output`.
    ExpandDimsIndex { data: TensorProxy, output: TensorProxy },
}

/// What to add once the rank of a tensor is known.
#[derive(Clone, Copy, Debug, PartialEq, Eq, Structural)]
pub enum RankClosure {
    /// The rank is that of `data`, into which a dimension of extent 1 is
    /// inserted at position `index` to give `output`.
    ExpandDimsTail { data: TensorProxy, output: TensorProxy, index: usize },
}

/// One rule.
#[derive(Clone, Copy, Debug, PartialEq, Eq, Structural)]
pub enum Rule {
    /// Both expressions hold the same element type.
    EqualsType(TypeExp, TypeExp),
    /// Both expressions hold the same integer.
    EqualsInt(IntExp, IntExp),
    /// Both expressions hold the same dimension.
    EqualsDim(DimExp, DimExp),
    /// Both tensors have the same shape.
    EqualsShape(TensorProxy, TensorProxy),
    /// Both tensors have the same value.
    EqualsValue(TensorProxy, TensorProxy),
    /// `plus + constant - minus` is zero.
    EqualsZero { plus: IntExp, constant: i64, minus: IntExp },
    /// `from + offset - to` is zero, for dimensions.
    EqualsZeroDim { from: DimExp, offset: TDim, to: DimExp },
    /// Once the value of the tensor is known, the rules of the closure hold.
    GivenValue(TensorProxy, ValueClosure),
    /// Once the rank of the tensor is known, the rules of the closure hold.
    GivenRank(TensorProxy, RankClosure),
}

/// What the facts of the inputs and outputs of one node say.
pub struct FactsValue {
    pub inputs: Seq<TensorFactValue>,
    pub outputs: Seq<TensorFactValue>,
}

/// What applying one rule gives: the facts after it, whether it narrowed a
/// fact or added rules, whether the rule is used up, and the rules it adds.
pub struct StepValue {
    pub facts: FactsValue,
    pub changed: bool,
    pub consumed: bool,
    pub added: Seq<Rule>,
}

impl FactsValue {
    /// The node has the tensor that `p` names.
    pub open spec fn has(self, p: TensorProxy) -> bool {
        if p.output {
            p.index < self.outputs.len()
        } else {
            p.index < self.inputs.len()
        }
    }

    /// The fact of the tensor that `p` names.
    pub open spec fn get(self, p: TensorProxy) -> TensorFactValue {
        if p.output {
            self.outputs[p.index as int]
        } else {
            self.inputs[p.index as int]
        }
    }

    /// The facts with that of the tensor `p` replaced by `f`.
    pub open spec fn put(self, p: TensorProxy, f: TensorFactValue) -> FactsValue {
        if p.output {
            FactsValue { inputs: self.inputs, outputs: self.outputs.update(p.index as int, f) }
        } else {
            FactsValue { inputs: self.inputs.update(p.index as int, f), outputs: self.outputs }
        }
    }

    /// What is known of the rank of the tensor `p`. `ArityMismatch` when the
    /// node has no such tensor, `ShapeMismatch` when the rank does not fit
    /// in an integer fact.
    pub open spec fn rank_of(self, p: TensorProxy) -> Result<IntFact, TractError> {
        if !self.has(p) {
            Err(TractError::ArityMismatch)
        } else if !self.get(p).shape.open && self.get(p).shape.dims.len() > i64::MAX {
            Err(TractError::ShapeMismatch)
        } else {
            Ok(self.get(p).shape.rank_spec())
        }
    }

    /// The facts with the rank of the tensor `p` narrowed to `f`.
    /// `ContradictoryFact` when the shape known so far excludes that rank.
    pub open spec fn narrow_rank(self, p: TensorProxy, f: IntFact) -> Result<FactsValue, TractError> {
        match f {
            GenericFact::Any => Ok(self),
            GenericFact::Only(r) => if r < 0 || r > usize::MAX {
                Err(TractError::ContradictoryFact)
            } else {
                match self.get(p).shape.with_rank(r as int) {
                    Some(shape) => Ok(self.put(p, TensorFactValue { shape, ..self.get(p) })),
                    None => Err(TractError::ContradictoryFact),
                }
            },
        }
    }

    /// The value of a type expression.
    pub open spec fn type_of(self, e: TypeExp) -> Result<TypeFact, TractError> {
        match e {
            TypeExp::Const(t) => Ok(GenericFact::Only(t)),
            TypeExp::Of(p) => if self.has(p) {
                Ok(self.get(p).datum_type)
            } else {
                Err(TractError::ArityMismatch)
            },
        }
    }

    /// The facts with the tensor behind a type expression narrowed to `f`.
    pub open spec fn narrow_type(self, e: TypeExp, f: TypeFact) -> FactsValue {
        match e {
            TypeExp::Const(_) => self,
            TypeExp::Of(p) => self.put(p, TensorFactValue { datum_type: f, ..self.get(p) }),
        }
    }

    /// The value of an integer expression.
    pub open spec fn int_of(self, e: IntExp) -> Result<IntFact, TractError> {
        match e {
            IntExp::Const(v) => Ok(GenericFact::Only(v)),
            IntExp::Rank(p) => self.rank_of(p),
        }
    }

    /// The facts with the tensor behind an integer expression narrowed to
    /// `f`.
    pub open spec fn narrow_int(self, e: IntExp, f: IntFact) -> Result<FactsValue, TractError> {
        match e {
            IntExp::Const(_) => Ok(self),
            IntExp::Rank(p) => self.narrow_rank(p, f),
        }
    }

    /// The value of a dimension expression. `ArityMismatch` when the node
    /// has no such tensor, `ContradictoryFact` when the tensor is known to
    /// have no such dimension.
    pub open spec fn dim_of(self, e: DimExp) -> Result<DimFact, TractError> {
        match e {
            DimExp::Const(d) => Ok(GenericFact::Only(d)),
            DimExp::Of(p, i) => if !self.has(p) {
                Err(TractError::ArityMismatch)
            } else if i == usize::MAX {
                Err(TractError::ContradictoryFact)
            } else {
                match self.get(p).shape.dim_spec(i as int) {
                    Some(d) => Ok(d),
                    None => Err(TractError::ContradictoryFact),
                }
            },
        }
    }

    /// The facts with the dimension behind a dimension expression narrowed to
    /// `f`.
    pub open spec fn narrow_dim(self, e: DimExp, f: DimFact) -> Result<FactsValue, TractError> {
        match e {
            DimExp::Const(_) => Ok(self),
            DimExp::Of(p, i) => match self.get(p).shape.with_dim(i as int, f) {
                Some(shape) => Ok(self.put(p, TensorFactValue { shape, ..self.get(p) })),
                None => Err(TractError::ContradictoryFact),
            },
        }
    }

    /// A step that changes nothing.
    pub open spec fn idle(self) -> StepValue {
        StepValue { facts: self, changed: false, consumed: false, added: Seq::empty() }
    }

    /// A step that narrows the facts to `facts` and adds no rule.
    pub open spec fn narrowed(self, facts: FactsValue, changed: bool) -> StepValue {
        StepValue { facts, changed, consumed: false, added: Seq::empty() }
    }
}

/// The rules that hold once the position `t` of the inserted dimension is
/// known: the dimensions before it are those of `data`, the dimension at it
/// is 1, and the dimensions after it follow once the rank of `data` is
/// known. The position must be a scalar (`ShapeMismatch`) of 32-bit integers
/// (`TypeMismatch`) and not negative (`UnimplementedVariant`).
pub open spec fn value_rules(c: ValueClosure, t: TensorValue) -> Result<Seq<Rule>, TractError> {
    match c {
        ValueClosure::ExpandDimsIndex { data, output } => if t.datum_type != DatumType::I32 {
            Err(TractError::TypeMismatch)
        } else if t.shape.len() != 0 || t.data.len() != 1 {
            Err(TractError::ShapeMismatch)
        } else if t.data[0] < 0 || t.data[0] >= usize::MAX {
            Err(TractError::UnimplementedVariant)
        } else {
            let index = t.data[0] as usize;
            Ok(
                Seq::new(
                    index as nat,
                    |i: int| Rule::EqualsDim(DimExp::Of(output, i as usize), DimExp::Of(data, i as usize)),
                ).push(
                    Rule::EqualsDim(
                        DimExp::Of(output, index),
                        DimExp::Const(TDim { slope: 0, constant: 1 }),
                    ),
                ).push(Rule::GivenRank(data, RankClosure::ExpandDimsTail { data, output, index })),
            )
        },
    }
}

/// The rules that hold once the rank `r` of `data` is known: every
/// dimension of `data` from `index` on is the next dimension of `output`.
pub open spec fn rank_rules(c: RankClosure, r: i64) -> Result<Seq<Rule>, TractError> {
    match c {
        RankClosure::ExpandDimsTail { data, output, index } => if r >= usize::MAX {
            Err(TractError::ShapeMismatch)
        } else if r <= index {
            Ok(Seq::empty())
        } else {
            Ok(
                Seq::new(
                    (r - index) as nat,
                    |k: int|
                        Rule::EqualsDim(
                            DimExp::Of(output, (index + k + 1) as usize),
                            DimExp::Of(data, (index + k) as usize),
                        ),
                ),
            )
        },
    }
}

/// What applying one rule to the facts gives, or the error it finds. Two
/// exact facts that differ give `ContradictoryFact`.
pub open spec fn step(rule: Rule, facts: FactsValue) -> Result<StepValue, TractError> {
    match rule {
        Rule::EqualsType(a, b) => match (facts.type_of(a), facts.type_of(b)) {
            (Err(e), _) => Err(e),
            (_, Err(e)) => Err(e),
            (Ok(fa), Ok(fb)) => match fa.unify_spec(fb) {
                None => Err(TractError::ContradictoryFact),
                Some(u) => Ok(
                    facts.narrowed(facts.narrow_type(a, u).narrow_type(b, u), u != fa || u != fb),
                ),
            },
        },
        Rule::EqualsInt(a, b) => match (facts.int_of(a), facts.int_of(b)) {
            (Err(e), _) => Err(e),
            (_, Err(e)) => Err(e),
            (Ok(fa), Ok(fb)) => match fa.unify_spec(fb) {
                None => Err(TractError::ContradictoryFact),
                Some(u) => match facts.narrow_int(a, u) {
                    Err(e) => Err(e),
                    Ok(first) => match first.narrow_int(b, u) {
                        Err(e) => Err(e),
                        Ok(second) => Ok(facts.narrowed(second, u != fa || u != fb)),
                    },
                },
            },
        },
        Rule::EqualsDim(a, b) => match (facts.dim_of(a), facts.dim_of(b)) {
            (Err(e), _) => Err(e),
            (_, Err(e)) => Err(e),
            (Ok(fa), Ok(fb)) => match fa.unify_spec(fb) {
                None => Err(TractError::ContradictoryFact),
                Some(u) => match facts.narrow_dim(a, u) {
                    Err(e) => Err(e),
                    Ok(first) => match first.narrow_dim(b, u) {
                        Err(e) => Err(e),
                        Ok(second) => Ok(facts.narrowed(second, u != fa || u != fb)),
                    },
                },
            },
        },
        Rule::EqualsShape(a, b) => if !facts.has(a) || !facts.has(b) {
            Err(TractError::ArityMismatch)
        } else {
            let sa = facts.get(a).shape;
            let sb = facts.get(b).shape;
            match sa.unify_spec(sb) {
                None => Err(TractError::ContradictoryFact),
                Some(u) => {
                    let first = facts.put(a, TensorFactValue { shape: u, ..facts.get(a) });
                    let second = first.put(b, TensorFactValue { shape: u, ..first.get(b) });
                    Ok(facts.narrowed(second, u != sa || u != sb))
                },
            }
        },
        Rule::EqualsValue(a, b) => if !facts.has(a) || !facts.has(b) {
            Err(TractError::ArityMismatch)
        } else {
            let va = facts.get(a).value;
            let vb = facts.get(b).value;
            match va.unify_spec(vb) {
                None => Err(TractError::ContradictoryFact),
                Some(u) => {
                    let first = facts.put(a, TensorFactValue { value: u, ..facts.get(a) });
                    let second = first.put(b, TensorFactValue { value: u, ..first.get(b) });
                    Ok(facts.narrowed(second, u != va || u != vb))
                },
            }
        },
        Rule::EqualsZero { plus, constant, minus } => match (facts.int_of(plus), facts.int_of(minus)) {
            (Err(e), _) => Err(e),
            (_, Err(e)) => Err(e),
            (Ok(GenericFact::Only(p)), Ok(GenericFact::Only(m))) => if p + constant == m {
                Ok(facts.idle())
            } else {
                Err(TractError::ContradictoryFact)
            },
            (Ok(GenericFact::Only(p)), Ok(GenericFact::Any)) => if i64::MIN <= p + constant
                <= i64::MAX {
                match facts.narrow_int(minus, GenericFact::Only((p + constant) as i64)) {
                    Err(e) => Err(e),
                    Ok(next) => Ok(facts.narrowed(next, true)),
                }
            } else {
                Err(TractError::ContradictoryFact)
            },
            (Ok(GenericFact::Any), Ok(GenericFact::Only(m))) => if i64::MIN <= m - constant
                <= i64::MAX {
                match facts.narrow_int(plus, GenericFact::Only((m - constant) as i64)) {
                    Err(e) => Err(e),
                    Ok(next) => Ok(facts.narrowed(next, true)),
                }
            } else {
                Err(TractError::ContradictoryFact)
            },
            (Ok(GenericFact::Any), Ok(GenericFact::Any)) => Ok(facts.idle()),
        },
        Rule::EqualsZeroDim { from: plus, offset: constant, to: minus } => match (
            facts.dim_of(plus),
            facts.dim_of(minus),
        ) {
            (Err(e), _) => Err(e),
            (_, Err(e)) => Err(e),
            (Ok(GenericFact::Only(p)), Ok(GenericFact::Only(m))) => if p.sum_fits(constant) && p.plus(
                constant,
            ) == m {
                Ok(facts.idle())
            } else {
                Err(TractError::ContradictoryFact)
            },
            (Ok(GenericFact::Only(p)), Ok(GenericFact::Any)) => if p.sum_fits(constant) {
                match facts.narrow_dim(minus, GenericFact::Only(p.plus(constant))) {
                    Err(e) => Err(e),
                    Ok(next) => Ok(facts.narrowed(next, true)),
                }
            } else {
                Err(TractError::ContradictoryFact)
            },
            (Ok(GenericFact::Any), Ok(GenericFact::Only(m))) => if m.difference_fits(constant) {
                match facts.narrow_dim(plus, GenericFact::Only(m.minus(constant))) {
                    Err(e) => Err(e),
                    Ok(next) => Ok(facts.narrowed(next, true)),
                }
            } else {
                Err(TractError::ContradictoryFact)
            },
            (Ok(GenericFact::Any), Ok(GenericFact::Any)) => Ok(facts.idle()),
        },
        Rule::GivenValue(p, c) => if !facts.has(p) {
            Err(TractError::ArityMismatch)
        } else {
            match facts.get(p).value {
                GenericFact::Any => Ok(facts.idle()),
                GenericFact::Only(t) => match value_rules(c, t) {
                    Err(e) => Err(e),
                    Ok(added) => Ok(StepValue { facts, changed: true, consumed: true, added }),
                },
            }
        },
        Rule::GivenRank(p, c) => match facts.rank_of(p) {
            Err(e) => Err(e),
            Ok(GenericFact::Any) => Ok(facts.idle()),
            Ok(GenericFact::Only(r)) => match rank_rules(c, r) {
                Err(e) => Err(e),
                Ok(added) => Ok(StepValue { facts, changed: true, consumed: true, added }),
            },
        },
    }
}

/// The facts of the inputs and outputs of one node.
#[derive(Debug)]
pub struct Facts {
    pub inputs: Vec<TensorFact>,
    pub outputs: Vec<TensorFact>,
}

impl View for Facts {
    type V = FactsValue;

    open spec fn view(&self) -> FactsValue {
        FactsValue { inputs: self.inputs.deep_view(), outputs: self.outputs.deep_view() }
    }
}

/// What applying one rule gave.
#[derive(Debug)]
pub struct Applied {
    pub changed: bool,
    pub consumed: bool,
    pub added: Vec<Rule>,
}

impl Applied {
    fn idle() -> (r: Applied)
        ensures
            !r.changed && !r.consumed && r.added@ == Seq::<Rule>::empty(),
    {
        Applied { changed: false, consumed: false, added: Vec::new() }
    }

    fn narrowed(changed: bool) -> (r: Applied)
        ensures
            r.changed == changed && !r.consumed && r.added@ == Seq::<Rule>::empty(),
    {
        Applied { changed, consumed: false, added: Vec::new() }
    }
}

/// Whether `r` and the facts after it are what `expected` says.
pub open spec fn applied(r: TractResult<Applied>, after: FactsValue, expected: Result<StepValue, TractError>) -> bool {
    match expected {
        Ok(s) => r matches Ok(a) && after == s.facts && a.changed == s.changed && a.consumed
            == s.consumed && a.added@ == s.added,
        Err(kind) => r matches Err(e) && e == kind,
    }
}

impl Facts {
    /// Whether the node has the tensor that `p` names.
    pub fn has(&self, p: TensorProxy) -> (r: bool)
        ensures
            r == self@.has(p),
    {
        if p.output {
            p.index < self.outputs.len()
        } else {
            p.index < self.inputs.len()
        }
    }

    /// The fact of the tensor that `p` names.
    pub fn get(&self, p: TensorProxy) -> (r: &TensorFact)
        requires
            self@.has(p),
        ensures
            r@ == self@.get(p),
    {
        if p.output {
            &self.outputs[p.index]
        } else {
            &self.inputs[p.index]
        }
    }

    fn put_type(&mut self, p: TensorProxy, f: TypeFact)
        requires
            old(self)@.has(p),
        ensures
            final(self)@ == old(self)@.put(p, TensorFactValue { datum_type: f, ..old(self)@.get(p) }),
    {
        if p.output {
            self.outputs[p.index].datum_type = f;
            assert(self@.outputs =~= old(self)@.put(
                p,
                TensorFactValue { datum_type: f, ..old(self)@.get(p) },
            ).outputs);
            assert(self@.inputs =~= old(self)@.inputs);
        } else {
            self.inputs[p.index].datum_type = f;
            assert(self@.inputs =~= old(self)@.put(
                p,
                TensorFactValue { datum_type: f, ..old(self)@.get(p) },
            ).inputs);
            assert(self@.outputs =~= old(self)@.outputs);
        }
    }

    fn put_shape(&mut self, p: TensorProxy, shape: ShapeFact)
        requires
            old(self)@.has(p),
        ensures
            final(self)@ == old(self)@.put(
                p,
                TensorFactValue { shape: shape@, ..old(self)@.get(p) },
            ),
    {
        if p.output {
            self.outputs[p.index].shape = shape;
            assert(self@.outputs =~= old(self)@.put(
                p,
                TensorFactValue { shape: shape@, ..old(self)@.get(p) },
            ).outputs);
            assert(self@.inputs =~= old(self)@.inputs);
        } else {
            self.inputs[p.index].shape = shape;
            assert(self@.inputs =~= old(self)@.put(
                p,
                TensorFactValue { shape: shape@, ..old(self)@.get(p) },
            ).inputs);
            assert(self@.outputs =~= old(self)@.outputs);
        }
    }

    fn put_value(&mut self, p: TensorProxy, value: ValueFact)
        requires
            old(self)@.has(p),
        ensures
            final(self)@ == old(self)@.put(
                p,
                TensorFactValue { value: value@, ..old(self)@.get(p) },
            ),
    {
        if p.output {
            self.outputs[p.index].value = value;
            assert(self@.outputs =~= old(self)@.put(
                p,
                TensorFactValue { value: value@, ..old(self)@.get(p) },
            ).outputs);
            assert(self@.inputs =~= old(self)@.inputs);
        } else {
            self.inputs[p.index].value = value;
            assert(self@.inputs =~= old(self)@.put(
                p,
                TensorFactValue { value: value@, ..old(self)@.get(p) },
            ).inputs);
            assert(self@.outputs =~= old(self)@.outputs);
        }
    }

    /// What is known of the rank of the tensor `p`.
    pub fn rank_of(&self, p: TensorProxy) -> (r: TractResult<IntFact>)
        ensures
            r == self@.rank_of(p),
    {
        if !self.has(p) {
            return Err(TractError::ArityMismatch);
        }
        match self.get(p).shape.rank() {
            Some(f) => Ok(f),
            None => Err(TractError::ShapeMismatch),
        }
    }

    fn narrow_rank(&mut self, p: TensorProxy, f: IntFact) -> (r: TractResult<()>)
        requires
            old(self)@.has(p),
        ensures
            match old(self)@.narrow_rank(p, f) {
                Ok(next) => r is Ok && final(self)@ == next,
                Err(kind) => r matches Err(e) && e == kind,
            },
    {
        match f {
            GenericFact::Any => Ok(()),
            GenericFact::Only(rank) => {
                if rank < 0 || rank as u64 > usize::MAX as u64 {
                    return Err(TractError::ContradictoryFact);
                }
                match self.get(p).shape.with_rank(rank as usize) {
                    Some(shape) => {
                        self.put_shape(p, shape);
                        Ok(())
                    },
                    None => Err(TractError::ContradictoryFact),
                }
            },
        }
    }

    /// The value of a type expression.
    pub fn type_of(&self, e: TypeExp) -> (r: TractResult<TypeFact>)
        ensures
            r == self@.type_of(e),
    {
        match e {
            TypeExp::Const(t) => Ok(GenericFact::Only(t)),
            TypeExp::Of(p) => if self.has(p) {
                Ok(self.get(p).datum_type)
            } else {
                Err(TractError::ArityMismatch)
            },
        }
    }

    fn narrow_type(&mut self, e: TypeExp, f: TypeFact)
        requires
            old(self)@.type_of(e) is Ok,
        ensures
            final(self)@ == old(self)@.narrow_type(e, f),
    {
        match e {
            TypeExp::Const(_) => {},
            TypeExp::Of(p) => {
                self.put_type(p, f);
            },
        }
    }

    /// The value of an integer expression.
    pub fn int_of(&self, e: IntExp) -> (r: TractResult<IntFact>)
        ensures
            r == self@.int_of(e),
    {
        match e {
            IntExp::Const(v) => Ok(GenericFact::Only(v)),
            IntExp::Rank(p) => self.rank_of(p),
        }
    }

    fn narrow_int(&mut self, e: IntExp, f: IntFact) -> (r: TractResult<()>)
        requires
            old(self)@.int_of(e) is Ok,
        ensures
            match old(self)@.narrow_int(e, f) {
                Ok(next) => r is Ok && final(self)@ == next,
                Err(kind) => r matches Err(e) && e == kind,
            },
    {
        match e {
            IntExp::Const(_) => Ok(()),
            IntExp::Rank(p) => self.narrow_rank(p, f),
        }
    }

    /// The value of a dimension expression.
    pub fn dim_of(&self, e: DimExp) -> (r: TractResult<DimFact>)
        ensures
            r == self@.dim_of(e),
    {
        match e {
            DimExp::Const(d) => Ok(GenericFact::Only(d)),
            DimExp::Of(p, i) => {
                if !self.has(p) {
                    return Err(TractError::ArityMismatch);
                }
                if i == usize::MAX {
                    return Err(TractError::ContradictoryFact);
                }
                match self.get(p).shape.dim(i) {
                    Some(d) => Ok(d),
                    None => Err(TractError::ContradictoryFact),
                }
            },
        }
    }

    fn narrow_dim(&mut self, e: DimExp, f: DimFact) -> (r: TractResult<()>)
        requires
            old(self)@.dim_of(e) is Ok,
        ensures
            match old(self)@.narrow_dim(e, f) {
                Ok(next) => r is Ok && final(self)@ == next,
                Err(kind) => r matches Err(e) && e == kind,
            },
    {
        match e {
            DimExp::Const(_) => Ok(()),
            DimExp::Of(p, i) => match self.get(p).shape.with_dim(i, f) {
                Some(shape) => {
                    self.put_shape(p, shape);
                    Ok(())
                },
                None => Err(TractError::ContradictoryFact),
            },
        }
    }

    /// Applies one rule to the facts.
    pub fn apply(&mut self, rule: Rule) -> (r: TractResult<Applied>)
        ensures
            applied(r, final(self)@, step(rule, old(self)@)),
    {
        match rule {
            Rule::EqualsType(a, b) => {
                let fa = self.type_of(a)?;
                let fb = self.type_of(b)?;
                let u = match fa.unify(&fb) {
                    Ok(u) => u,
                    Err(_) => {
                        return Err(TractError::ContradictoryFact);
                    },
                };
                self.narrow_type(a, u);
                self.narrow_type(b, u);
                Ok(Applied::narrowed(!same_type_fact(&u, &fa) || !same_type_fact(&u, &fb)))
            },
            Rule::EqualsInt(a, b) => {
                let fa = self.int_of(a)?;
                let fb = self.int_of(b)?;
                let u = match fa.unify(&fb) {
                    Ok(u) => u,
                    Err(_) => {
                        return Err(TractError::ContradictoryFact);
                    },
                };
                self.narrow_int(a, u)?;
                self.narrow_int(b, u)?;
                Ok(Applied::narrowed(!same_int_fact(&u, &fa) || !same_int_fact(&u, &fb)))
            },
            Rule::EqualsDim(a, b) => {
                let fa = self.dim_of(a)?;
                let fb = self.dim_of(b)?;
                let u = match fa.unify(&fb) {
                    Ok(u) => u,
                    Err(_) => {
                        return Err(TractError::ContradictoryFact);
                    },
                };
                self.narrow_dim(a, u)?;
                self.narrow_dim(b, u)?;
                Ok(Applied::narrowed(!same_dim_fact(&u, &fa) || !same_dim_fact(&u, &fb)))
            },
            Rule::EqualsShape(a, b) => {
                if !self.has(a) || !self.has(b) {
                    return Err(TractError::ArityMismatch);
                }
                let u = match self.get(a).shape.unify(&self.get(b).shape) {
                    Ok(u) => u,
                    Err(_) => {
                        return Err(TractError::ContradictoryFact);
                    },
                };
                let changed = !u.same_as(&self.get(a).shape) || !u.same_as(&self.get(b).shape);
                self.put_shape(a, u.clone());
                self.put_shape(b, u);
                Ok(Applied::narrowed(changed))
            },
            Rule::EqualsValue(a, b) => {
                if !self.has(a) || !self.has(b) {
                    return Err(TractError::ArityMismatch);
                }
                let u = match self.get(a).value.unify(&self.get(b).value) {
                    Ok(u) => u,
                    Err(_) => {
                        return Err(TractError::ContradictoryFact);
                    },
                };
                let changed = !same_value_fact(&u, &self.get(a).value) || !same_value_fact(
                    &u,
                    &self.get(b).value,
                );
                self.put_value(a, u.duplicate());
                self.put_value(b, u);
                Ok(Applied::narrowed(changed))
            },
            Rule::EqualsZero { plus, constant, minus } => {
                let fp = self.int_of(plus)?;
                let fm = self.int_of(minus)?;
                match (fp, fm) {
                    (GenericFact::Only(p), GenericFact::Only(m)) => {
                        if p as i128 + constant as i128 == m as i128 {
                            Ok(Applied::idle())
                        } else {
                            Err(TractError::ContradictoryFact)
                        }
                    },
                    (GenericFact::Only(p), GenericFact::Any) => match p.checked_add(constant) {
                        Some(m) => {
                            self.narrow_int(minus, GenericFact::Only(m))?;
                            Ok(Applied::narrowed(true))
                        },
                        None => Err(TractError::ContradictoryFact),
                    },
                    (GenericFact::Any, GenericFact::Only(m)) => match m.checked_sub(constant) {
                        Some(p) => {
                            self.narrow_int(plus, GenericFact::Only(p))?;
                            Ok(Applied::narrowed(true))
                        },
                        None => Err(TractError::ContradictoryFact),
                    },
                    (GenericFact::Any, GenericFact::Any) => Ok(Applied::idle()),
                }
            },
            Rule::EqualsZeroDim { from: plus, offset: constant, to: minus } => {
                let fp = self.dim_of(plus)?;
                let fm = self.dim_of(minus)?;
                match (fp, fm) {
                    (GenericFact::Only(p), GenericFact::Only(m)) => match p.checked_add(&constant) {
                        Some(sum) => if sum == m {
                            Ok(Applied::idle())
                        } else {
                            Err(TractError::ContradictoryFact)
                        },
                        None => Err(TractError::ContradictoryFact),
                    },
                    (GenericFact::Only(p), GenericFact::Any) => match p.checked_add(&constant) {
                        Some(sum) => {
                            self.narrow_dim(minus, GenericFact::Only(sum))?;
                            Ok(Applied::narrowed(true))
                        },
                        None => Err(TractError::ContradictoryFact),
                    },
                    (GenericFact::Any, GenericFact::Only(m)) => match m.checked_sub(&constant) {
                        Some(difference) => {
                            self.narrow_dim(plus, GenericFact::Only(difference))?;
                            Ok(Applied::narrowed(true))
                        },
                        None => Err(TractError::ContradictoryFact),
                    },
                    (GenericFact::Any, GenericFact::Any) => Ok(Applied::idle()),
                }
            },
            Rule::GivenValue(p, c) => {
                if !self.has(p) {
                    return Err(TractError::ArityMismatch);
                }
                match &self.get(p).value {
                    GenericFact::Any => Ok(Applied::idle()),
                    GenericFact::Only(t) => {
                        let added = expand_value_closure(c, t)?;
                        Ok(Applied { changed: true, consumed: true, added })
                    },
                }
            },
            Rule::GivenRank(p, c) => {
                match self.rank_of(p)? {
                    GenericFact::Any => Ok(Applied::idle()),
                    GenericFact::Only(r) => {
                        let added = expand_rank_closure(c, r)?;
                        Ok(Applied { changed: true, consumed: true, added })
                    },
                }
            },
        }
    }
}

/// Builds the rules that hold once the value behind a conditional rule is
/// known.
pub fn expand_value_closure(c: ValueClosure, t: &Tensor) -> (r: TractResult<Vec<Rule>>)
    ensures
        match value_rules(c, t@) {
            Ok(rules) => r matches Ok(v) && v@ == rules,
            Err(kind) => r matches Err(e) && e == kind,
        },
{
    match c {
        ValueClosure::ExpandDimsIndex { data, output } => {
            if t.datum_type() != DatumType::I32 {
                return Err(TractError::TypeMismatch);
            }
            if t.rank() != 0 || t.len() != 1 {
                return Err(TractError::ShapeMismatch);
            }
            let raw = t.data()[0];
            if raw < 0 || raw as u64 >= usize::MAX as u64 {
                return Err(TractError::UnimplementedVariant);
            }
            let index = raw as usize;
            let mut rules: Vec<Rule> = Vec::new();
            let mut i: usize = 0;
            while i < index
                invariant
                    i <= index,
                    rules@.len() == i,
                    forall|j: int|
                        0 <= j < i ==> rules@[j] == Rule::EqualsDim(
                            DimExp::Of(output, j as usize),
                            DimExp::Of(data, j as usize),
                        ),
                decreases index - i,
            {
                rules.push(Rule::EqualsDim(output.dim(i), data.dim(i)));
                i += 1;
            }
            rules.push(Rule::EqualsDim(output.dim(index), DimExp::Const(TDim::from_int(1))));
            rules.push(Rule::GivenRank(data, RankClosure::ExpandDimsTail { data, output, index }));
            assert(rules@ =~= value_rules(c, t@)->Ok_0);
            Ok(rules)
        },
    }
}

/// Builds the rules that hold once the rank behind a conditional rule is
/// known.
pub fn expand_rank_closure(c: RankClosure, r: i64) -> (out: TractResult<Vec<Rule>>)
    ensures
        match rank_rules(c, r) {
            Ok(rules) => out matches Ok(v) && v@ == rules,
            Err(kind) => out matches Err(e) && e == kind,
        },
{
    match c {
        RankClosure::ExpandDimsTail { data, output, index } => {
            if r >= 0 && r as u64 >= usize::MAX as u64 {
                return Err(TractError::ShapeMismatch);
            }
            let mut rules: Vec<Rule> = Vec::new();
            if r < 0 || (r as usize) <= index {
                return Ok(rules);
            }
            let rank = r as usize;
            let mut i: usize = index;
            while i < rank
                invariant
                    index <= i <= rank,
                    rank < usize::MAX,
                    rules@.len() == i - index,
                    forall|k: int|
                        0 <= k < i - index ==> rules@[k] == Rule::EqualsDim(
                            DimExp::Of(output, (index + k + 1) as usize),
                            DimExp::Of(data, (index + k) as usize),
                        ),
                decreases rank - i,
            {
                rules.push(Rule::EqualsDim(output.dim(i + 1), data.dim(i)));
                i += 1;
            }
            assert(rules@ =~= rank_rules(c, r)->Ok_0);
            Ok(rules)
        },
    }
}

} // verus!
