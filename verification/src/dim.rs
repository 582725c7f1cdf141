//! Tensor dimensions that may depend on one free symbol.

use vstd::prelude::*;

verus! {

/// A dimension: the affine expression `slope * S + constant` over the one free
/// symbol `S` of a graph (its batch size, say). A known dimension has slope 0.
#[derive(Clone, Copy, Debug, PartialEq, Eq, Structural)]
pub struct TDim {
    pub slope: i64,
    pub constant: i64,
}

impl View for TDim {
    type V = TDim;

    open spec fn view(&self) -> TDim {
        *self
    }
}

impl TDim {
    /// The value of the dimension once the symbol is known to be `s`.
    pub open spec fn value_at(self, s: int) -> int {
        self.slope * s + self.constant
    }

    /// The known dimension `value`.
    pub fn from_int(value: i64) -> (r: TDim)
        ensures
            r == (TDim { slope: 0, constant: value }),
    {
        TDim { slope: 0, constant: value }
    }

    /// The free symbol itself.
    pub fn s() -> (r: TDim)
        ensures
            r == (TDim { slope: 1, constant: 0 }),
    {
        TDim { slope: 1, constant: 0 }
    }

    /// The dimension as an integer, if it does not depend on the symbol.
    pub fn to_integer(&self) -> (r: Option<i64>)
        ensures
            r == (if self.slope == 0 {
                Some(self.constant)
            } else {
                None
            }),
    {
        if self.slope == 0 {
            Some(self.constant)
        } else {
            None
        }
    }

    /// The sum of two dimensions, or `None` when a coefficient of the sum
    /// does not fit in `i64`.
    pub fn checked_add(&self, other: &TDim) -> (r: Option<TDim>)
        ensures
            r == (if self.sum_fits(*other) {
                Some(self.plus(*other))
            } else {
                None
            }),
    {
        match (self.slope.checked_add(other.slope), self.constant.checked_add(other.constant)) {
            (Some(slope), Some(constant)) => Some(TDim { slope, constant }),
            _ => None,
        }
    }

    /// Whether the sum of two dimensions has coefficients that fit in `i64`.
    pub open spec fn sum_fits(self, other: TDim) -> bool {
        &&& i64::MIN <= self.slope + other.slope <= i64::MAX
        &&& i64::MIN <= self.constant + other.constant <= i64::MAX
    }

    /// The sum of two dimensions.
    pub open spec fn plus(self, other: TDim) -> TDim {
        TDim {
            slope: (self.slope + other.slope) as i64,
            constant: (self.constant + other.constant) as i64,
        }
    }

    /// Whether the difference of two dimensions has coefficients that fit in
    /// `i64`.
    pub open spec fn difference_fits(self, other: TDim) -> bool {
        &&& i64::MIN <= self.slope - other.slope <= i64::MAX
        &&& i64::MIN <= self.constant - other.constant <= i64::MAX
    }

    /// The difference of two dimensions.
    pub open spec fn minus(self, other: TDim) -> TDim {
        TDim {
            slope: (self.slope - other.slope) as i64,
            constant: (self.constant - other.constant) as i64,
        }
    }

    /// The difference of two dimensions, or `None` when a coefficient of the
    /// difference does not fit in `i64`.
    pub fn checked_sub(&self, other: &TDim) -> (r: Option<TDim>)
        ensures
            r == (if self.difference_fits(*other) {
                Some(self.minus(*other))
            } else {
                None
            }),
    {
        match (self.slope.checked_sub(other.slope), self.constant.checked_sub(other.constant)) {
            (Some(slope), Some(constant)) => Some(TDim { slope, constant }),
            _ => None,
        }
    }

    /// The dimension scaled by an integer, or `None` when a coefficient of the
    /// product does not fit in `i64`.
    pub fn checked_scale(&self, factor: i64) -> (r: Option<TDim>)
        ensures
            match r {
                Some(d) => d.slope == self.slope * factor && d.constant == self.constant * factor,
                None => !(i64::MIN <= self.slope * factor <= i64::MAX && i64::MIN <= self.constant
                    * factor <= i64::MAX),
            },
    {
        match (self.slope.checked_mul(factor), self.constant.checked_mul(factor)) {
            (Some(slope), Some(constant)) => Some(TDim { slope, constant }),
            _ => None,
        }
    }
}

/// Adding dimensions adds their values, whatever the symbol stands for.
pub proof fn lemma_add_value(a: TDim, b: TDim, sum: TDim, s: int)
    requires
        a.sum_fits(b),
        sum == a.plus(b),
    ensures
        sum.value_at(s) == a.value_at(s) + b.value_at(s),
{
    assert((a.slope + b.slope) * s == a.slope * s + b.slope * s) by (nonlinear_arith);
}

/// Scaling a dimension scales its value, whatever the symbol stands for.
pub proof fn lemma_scale_value(a: TDim, factor: int, scaled: TDim, s: int)
    requires
        scaled.slope == a.slope * factor,
        scaled.constant == a.constant * factor,
    ensures
        scaled.value_at(s) == a.value_at(s) * factor,
{
    assert((a.slope * factor) * s + a.constant * factor == (a.slope * s + a.constant) * factor)
        by (nonlinear_arith);
}

} // verus!
