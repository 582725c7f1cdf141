//! The rule engine: it applies the rules of one node again and again until
//! a whole round narrows nothing, or a rule finds a contradiction.

use vstd::prelude::*;
use crate::analyser::rules::{
    step,
    DimExp,
    Facts,
    FactsValue,
    IntExp,
    RankClosure,
    Rule,
    TensorProxy,
    TypeExp,
    ValueClosure,
};
use crate::dim::TDim;
use crate::errors::{TractError, TractResult};

verus! {

/// Where a round stands: the facts so far, the rules that stay for the next
/// round, the rules that were added, and whether anything changed.
pub struct RoundValue {
    pub facts: FactsValue,
    pub kept: Seq<Rule>,
    pub added: Seq<Rule>,
    pub changed: bool,
}

/// What solving gives: the facts reached, the rules that remain, and whether
/// the last round narrowed nothing (`saturated`) or the rounds ran out first.
pub struct SolutionValue {
    pub facts: FactsValue,
    pub rules: Seq<Rule>,
    pub saturated: bool,
}

/// The rest of a round: the rules from position `j` on are applied in order
/// to the facts reached so far. A rule that is used up is dropped; the rules
/// it adds wait for the next round.
pub open spec fn round_from(rules: Seq<Rule>, j: int, acc: RoundValue) -> Result<RoundValue, TractError>
    decreases rules.len() - j,
{
    if j < 0 || j >= rules.len() {
        Ok(acc)
    } else {
        match step(rules[j], acc.facts) {
            Err(e) => Err(e),
            Ok(s) => round_from(
                rules,
                j + 1,
                RoundValue {
                    facts: s.facts,
                    kept: if s.consumed {
                        acc.kept
                    } else {
                        acc.kept.push(rules[j])
                    },
                    added: acc.added + s.added,
                    changed: acc.changed || s.changed,
                },
            ),
        }
    }
}

/// One round: every rule is applied once, in order.
pub open spec fn round(rules: Seq<Rule>, facts: FactsValue) -> Result<RoundValue, TractError> {
    round_from(
        rules,
        0,
        RoundValue { facts, kept: Seq::empty(), added: Seq::empty(), changed: false },
    )
}

/// Rounds are run until one changes nothing, at most `rounds` of them. The
/// first error ends the solving.
pub open spec fn solve(rules: Seq<Rule>, facts: FactsValue, rounds: nat) -> Result<
    SolutionValue,
    TractError,
>
    decreases rounds,
{
    if rounds == 0 {
        Ok(SolutionValue { facts, rules, saturated: false })
    } else {
        match round(rules, facts) {
            Err(e) => Err(e),
            Ok(r) => if r.changed {
                solve(r.kept + r.added, r.facts, (rounds - 1) as nat)
            } else {
                Ok(SolutionValue { facts: r.facts, rules: r.kept + r.added, saturated: true })
            },
        }
    }
}

/// What solving gave.
#[derive(Debug)]
pub struct Solution {
    pub facts: Facts,
    pub rules: Vec<Rule>,
    pub saturated: bool,
}

impl View for Solution {
    type V = SolutionValue;

    open spec fn view(&self) -> SolutionValue {
        SolutionValue { facts: self.facts@, rules: self.rules@, saturated: self.saturated }
    }
}

/// The rules declared for one node.
#[derive(Debug)]
pub struct Solver {
    pub rules: Vec<Rule>,
}

impl View for Solver {
    type V = Seq<Rule>;

    open spec fn view(&self) -> Seq<Rule> {
        self.rules@
    }
}

impl Solver {
    /// A solver without rules.
    pub fn new() -> (r: Solver)
        ensures
            r@ == Seq::<Rule>::empty(),
    {
        Solver { rules: Vec::new() }
    }

    /// Declares that two expressions hold the same element type.
    pub fn equals_type(&mut self, a: TypeExp, b: TypeExp)
        ensures
            final(self)@ == old(self)@.push(Rule::EqualsType(a, b)),
    {
        self.rules.push(Rule::EqualsType(a, b));
    }

    /// Declares that two expressions hold the same integer.
    pub fn equals_int(&mut self, a: IntExp, b: IntExp)
        ensures
            final(self)@ == old(self)@.push(Rule::EqualsInt(a, b)),
    {
        self.rules.push(Rule::EqualsInt(a, b));
    }

    /// Declares that two expressions hold the same dimension.
    pub fn equals_dim(&mut self, a: DimExp, b: DimExp)
        ensures
            final(self)@ == old(self)@.push(Rule::EqualsDim(a, b)),
    {
        self.rules.push(Rule::EqualsDim(a, b));
    }

    /// Declares that two tensors have the same shape.
    pub fn equals_shape(&mut self, a: TensorProxy, b: TensorProxy)
        ensures
            final(self)@ == old(self)@.push(Rule::EqualsShape(a, b)),
    {
        self.rules.push(Rule::EqualsShape(a, b));
    }

    /// Declares that two tensors have the same value.
    pub fn equals_value(&mut self, a: TensorProxy, b: TensorProxy)
        ensures
            final(self)@ == old(self)@.push(Rule::EqualsValue(a, b)),
    {
        self.rules.push(Rule::EqualsValue(a, b));
    }

    /// Declares that `plus + constant - minus` is zero.
    pub fn equals_zero(&mut self, plus: IntExp, constant: i64, minus: IntExp)
        ensures
            final(self)@ == old(self)@.push(Rule::EqualsZero { plus, constant, minus }),
    {
        self.rules.push(Rule::EqualsZero { plus, constant, minus });
    }

    /// Declares that `plus + constant - minus` is zero, for dimensions.
    pub fn equals_zero_dim(&mut self, plus: DimExp, constant: TDim, minus: DimExp)
        ensures
            final(self)@ == old(self)@.push(
                Rule::EqualsZeroDim { from: plus, offset: constant, to: minus },
            ),
    {
        self.rules.push(Rule::EqualsZeroDim { from: plus, offset: constant, to: minus });
    }

    /// Declares that the rules of `closure` hold once the value of `tensor`
    /// is known.
    pub fn given_value(&mut self, tensor: TensorProxy, closure: ValueClosure)
        ensures
            final(self)@ == old(self)@.push(Rule::GivenValue(tensor, closure)),
    {
        self.rules.push(Rule::GivenValue(tensor, closure));
    }

    /// Declares that the rules of `closure` hold once the rank of `tensor`
    /// is known.
    pub fn given_rank(&mut self, tensor: TensorProxy, closure: RankClosure)
        ensures
            final(self)@ == old(self)@.push(Rule::GivenRank(tensor, closure)),
    {
        self.rules.push(Rule::GivenRank(tensor, closure));
    }

    /// Narrows `facts` by the rules, in at most `max_rounds` rounds.
    pub fn infer(self, initial: Facts, max_rounds: usize) -> (r: TractResult<Solution>)
        ensures
            match solve(self@, initial@, max_rounds as nat) {
                Ok(s) => r matches Ok(out) && out@ == s,
                Err(kind) => r matches Err(e) && e == kind,
            },
    {
        let ghost goal = solve(self@, initial@, max_rounds as nat);
        let ghost declared = self@;
        let ghost given = initial@;
        let mut rules = self.rules;
        let mut facts = initial;
        let mut left = max_rounds;
        while left > 0
            invariant
                goal == solve(declared, given, max_rounds as nat),
                declared == self@,
                given == initial@,
                solve(rules@, facts@, left as nat) == goal,
            decreases left,
        {
            let ghost start = facts@;
            let ghost all = rules@;
            let mut kept: Vec<Rule> = Vec::new();
            let mut added: Vec<Rule> = Vec::new();
            let mut changed = false;
            let mut j: usize = 0;
            while j < rules.len()
                invariant
                    j <= rules.len(),
                    rules@ == all,
                    left > 0,
                    goal == solve(declared, given, max_rounds as nat),
                    declared == self@,
                    given == initial@,
                    solve(all, start, left as nat) == goal,
                    round_from(
                        all,
                        j as int,
                        RoundValue { facts: facts@, kept: kept@, added: added@, changed },
                    ) == round(all, start),
                decreases rules.len() - j,
            {
                let rule = rules[j];
                let ghost before = RoundValue { facts: facts@, kept: kept@, added: added@, changed };
                let mut outcome = match facts.apply(rule) {
                    Ok(a) => a,
                    Err(e) => {
                        return Err(e);
                    },
                };
                if !outcome.consumed {
                    kept.push(rule);
                }
                let ghost grown = added@ + outcome.added@;
                added.append(&mut outcome.added);
                assert(added@ =~= grown);
                if outcome.changed {
                    changed = true;
                }
                j += 1;
            }
            let ghost next = kept@ + added@;
            kept.append(&mut added);
            assert(kept@ =~= next);
            rules = kept;
            if !changed {
                return Ok(Solution { facts, rules, saturated: true });
            }
            left -= 1;
        }
        Ok(Solution { facts, rules, saturated: false })
    }
}

} // verus!
