//! The operator that produces a constant.

use vstd::prelude::*;
use crate::tensor::{Tensor, TensorValue};

verus! {

/// An operator without inputs whose single output is always the tensor it
/// holds.
#[derive(Debug)]
pub struct Const {
    value: Tensor,
}

impl View for Const {
    type V = TensorValue;

    closed spec fn view(&self) -> TensorValue {
        self.value@
    }
}

impl Const {
    /// The constant operator for `value`.
    pub fn for_tensor(value: Tensor) -> (r: Const)
        ensures
            r@ == value@,
    {
        Const { value }
    }

    /// The tensor that the operator produces.
    pub fn value(&self) -> (r: &Tensor)
        ensures
            r@ == self@,
            r@.wf(),
    {
        let _ = self.value.len();
        &self.value
    }
}

} // verus!
