//! Insertion of dimensions of extent 1 at fixed positions.

use vstd::prelude::*;
use crate::errors::{TractError, TractResult};
use crate::tensor::{lemma_volume_insert_one, volume, Tensor, TensorValue};

verus! {

/// The shape obtained by inserting a dimension of extent 1 at each of `axes`
/// in turn, each position counted in the shape as it is after the insertions
/// before it. `None` when a position lies beyond the end of the shape.
pub open spec fn insert_axes(shape: Seq<usize>, axes: Seq<usize>) -> Option<Seq<usize>>
    decreases axes.len(),
{
    if axes.len() == 0 {
        Some(shape)
    } else if axes[0] > shape.len() {
        None
    } else {
        insert_axes(shape.insert(axes[0] as int, 1usize), axes.drop_first())
    }
}

/// Inserting dimensions of extent 1 keeps the number of elements.
pub proof fn lemma_insert_axes_volume(shape: Seq<usize>, axes: Seq<usize>)
    ensures
        insert_axes(shape, axes) matches Some(s) ==> volume(s) == volume(shape) && s.len()
            == shape.len() + axes.len(),
    decreases axes.len(),
{
    if axes.len() > 0 && axes[0] <= shape.len() {
        lemma_volume_insert_one(shape, axes[0] as int);
        lemma_insert_axes_volume(shape.insert(axes[0] as int, 1usize), axes.drop_first());
    }
}

/// An operator that inserts dimensions of extent 1 at the positions it holds.
#[derive(Debug)]
pub struct AddDims {
    pub axes: Vec<usize>,
}

impl View for AddDims {
    type V = Seq<usize>;

    open spec fn view(&self) -> Seq<usize> {
        self.axes@
    }
}

impl AddDims {
    /// The operator that inserts a dimension at each of `axes` in turn.
    pub fn new(axes: Vec<usize>) -> (r: AddDims)
        ensures
            r@ == axes@,
    {
        AddDims { axes }
    }

    /// What `eval` returns: the one input under the shape with the
    /// dimensions inserted. `ArityMismatch` unless there is exactly one
    /// input; `ShapeMismatch` when a position lies beyond the end of the shape.
    pub open spec fn eval_spec(axes: Seq<usize>, inputs: Seq<TensorValue>) -> Result<
        Seq<TensorValue>,
        TractError,
    > {
        if inputs.len() != 1 {
            Err(TractError::ArityMismatch)
        } else {
            match insert_axes(inputs[0].shape, axes) {
                Some(shape) => Ok(seq![inputs[0].reshaped(shape)]),
                None => Err(TractError::ShapeMismatch),
            }
        }
    }

    /// Computes the shape with the dimensions inserted.
    pub fn compute_shape(&self, input: &Vec<usize>) -> (r: Option<Vec<usize>>)
        ensures
            match r {
                Some(s) => insert_axes(input@, self@) == Some(s@),
                None => insert_axes(input@, self@) is None,
            },
    {
        let mut shape = input.clone();
        assert(shape@ =~= input@);
        assert(self.axes@.skip(0) =~= self.axes@);
        let mut i: usize = 0;
        while i < self.axes.len()
            invariant
                i <= self.axes.len(),
                insert_axes(input@, self@) == insert_axes(shape@, self.axes@.skip(i as int)),
            decreases self.axes.len() - i,
        {
            let axis = self.axes[i];
            proof {
                let rest = self.axes@.skip(i as int);
                assert(rest[0] == axis);
                assert(rest.drop_first() =~= self.axes@.skip(i + 1));
            }
            if axis > shape.len() {
                return None;
            }
            shape.insert(axis, 1);
            i += 1;
        }
        Some(shape)
    }

    /// Evaluates the operator on concrete inputs.
    pub fn eval(&self, inputs: Vec<Tensor>) -> (r: TractResult<Vec<Tensor>>)
        ensures
            match Self::eval_spec(self@, inputs.deep_view()) {
                Ok(out) => r matches Ok(v) && v.deep_view() == out,
                Err(kind) => r matches Err(e) && e == kind,
            },
    {
        let mut inputs = inputs;
        if inputs.len() != 1 {
            return Err(TractError::ArityMismatch);
        }
        let ghost values = inputs.deep_view();
        let data = inputs.remove(0);
        assert(data@ == values[0]);
        match self.compute_shape(data.shape()) {
            Some(shape) => {
                proof {
                    lemma_insert_axes_volume(data@.shape, self@);
                }
                let t = data.into_shape(shape)?;
                let mut out: Vec<Tensor> = Vec::new();
                out.push(t);
                assert(out.deep_view() =~= seq![values[0].reshaped(shape@)]);
                Ok(out)
            },
            None => Err(TractError::ShapeMismatch),
        }
    }
}

} // verus!
