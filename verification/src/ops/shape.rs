//! Operators that change the shape of a tensor and keep its elements.

use vstd::prelude::*;
use crate::errors::{TractError, TractResult};
use crate::ops::expand_dims::{eval_expand_dims, expand_dims_spec};
use crate::tensor::{volume, DatumType, Tensor, TensorValue};
use crate::tfpb::{NodeDef, NodeDefContent};

verus! {

/// The operator that inserts dimensions of extent 1 into its first input at
/// the positions that its second input holds.
#[derive(Clone, Copy, Debug, PartialEq, Eq, Structural)]
pub struct ExpandDims;

impl ExpandDims {
    /// Evaluates the operator on concrete inputs.
    pub fn eval(&self, inputs: Vec<Tensor>) -> (r: TractResult<Vec<Tensor>>)
        ensures
            match expand_dims_spec(inputs.deep_view()) {
                Ok(out) => r matches Ok(v) && v.deep_view() == out,
                Err(kind) => r matches Err(e) && e == kind,
            },
    {
        eval_expand_dims(inputs)
    }
}

/// The shape obtained by removing the dimension at each of `dims` in turn,
/// each position counted in the shape as it is after the removals before it.
/// The first position that cannot be used decides the error:
/// `UnimplementedVariant` for a negative one, `ShapeMismatch` for one that
/// the shape does not have.
pub open spec fn squeeze_shape(shape: Seq<usize>, dims: Seq<isize>) -> Result<Seq<usize>, TractError>
    decreases dims.len(),
{
    if dims.len() == 0 {
        Ok(shape)
    } else if dims[0] < 0 {
        Err(TractError::UnimplementedVariant)
    } else if dims[0] >= shape.len() {
        Err(TractError::ShapeMismatch)
    } else {
        squeeze_shape(shape.remove(dims[0] as int), dims.drop_first())
    }
}

/// The positions that a `squeeze_dims` attribute holds, as this machine
/// represents them.
pub open spec fn as_positions(list: Seq<i64>) -> Seq<isize> {
    Seq::new(list.len(), |i: int| list[i] as isize)
}

/// Whether no element of `s` is followed by a larger one.
pub open spec fn descending(s: Seq<isize>) -> bool {
    forall|i: int, j: int| 0 <= i <= j < s.len() ==> s[i] >= s[j]
}

/// Whether no element of `s` is followed by a smaller one.
pub open spec fn ascending(s: Seq<isize>) -> bool {
    forall|i: int, j: int| 0 <= i <= j < s.len() ==> s[i] <= s[j]
}

/// Sorts `v` with `sort` of the standard library, which puts the elements in
/// ascending order and neither adds nor drops any.
#[verifier::external_body]
fn sort_positions(v: &mut Vec<isize>)
    ensures
        ascending(final(v)@),
        final(v)@.to_multiset() == old(v)@.to_multiset(),
{
    v.sort();
}

/// The elements of `v` in the opposite order.
fn reversed(v: &Vec<isize>) -> (r: Vec<isize>)
    ensures
        r@ == v@.reverse(),
{
    let mut out: Vec<isize> = Vec::new();
    let mut i: usize = v.len();
    while i > 0
        invariant
            i <= v.len(),
            out@.len() == v.len() - i,
            forall|j: int| 0 <= j < out@.len() ==> out@[j] == v@[v.len() - 1 - j],
        decreases i,
    {
        i -= 1;
        out.push(v[i]);
    }
    assert(out@ =~= v@.reverse());
    out
}

/// The operator that removes the dimensions at the positions it holds,
/// largest position first.
#[derive(Debug)]
pub struct Squeeze {
    dims: Vec<isize>,
}

impl View for Squeeze {
    type V = Seq<isize>;

    closed spec fn view(&self) -> Seq<isize> {
        self.dims@
    }
}

impl Squeeze {
    /// Builds the operator from a node definition. The attribute
    /// `squeeze_dims` must hold a list of integers (`MissingAttribute`); the
    /// operator holds them in descending order.
    pub fn build(pb: &NodeDef) -> (r: TractResult<Squeeze>)
        ensures
            match pb@.list("squeeze_dims"@) {
                Some(list) => r matches Ok(op) && descending(op@) && op@.to_multiset()
                    == as_positions(list).to_multiset(),
                None => r matches Err(e) && e == TractError::MissingAttribute,
            },
    {
        let list = pb.get_attr_list_int("squeeze_dims")?;
        let mut dims: Vec<isize> = Vec::new();
        let mut i: usize = 0;
        while i < list.len()
            invariant
                i <= list.len(),
                dims@.len() == i,
                forall|j: int| 0 <= j < i ==> dims@[j] == list@[j] as isize,
            decreases list.len() - i,
        {
            let x = list[i];
            dims.push(#[verifier::truncate] (x as isize));
            i += 1;
        }
        assert(dims@ =~= as_positions(list@));
        sort_positions(&mut dims);
        let out = reversed(&dims);
        proof {
            dims@.lemma_reverse_to_multiset();
        }
        Ok(Squeeze { dims: out })
    }

    /// The positions that the operator removes, in the order in which it
    /// removes them.
    pub fn dims(&self) -> (r: &Vec<isize>)
        ensures
            r@ == self@,
    {
        &self.dims
    }

    /// What `eval` returns. There must be an input (`ArityMismatch`), and the
    /// first one must hold 32-bit floats (`TypeMismatch`); the result is that
    /// input under the shape with the dimensions removed, which must hold as
    /// many elements as before (`ShapeMismatch`).
    pub open spec fn eval_spec(dims: Seq<isize>, inputs: Seq<TensorValue>) -> Result<
        Seq<TensorValue>,
        TractError,
    > {
        if inputs.len() == 0 {
            Err(TractError::ArityMismatch)
        } else if inputs[0].datum_type != DatumType::F32 {
            Err(TractError::TypeMismatch)
        } else {
            match squeeze_shape(inputs[0].shape, dims) {
                Ok(shape) => if volume(shape) == inputs[0].data.len() {
                    Ok(seq![inputs[0].reshaped(shape)])
                } else {
                    Err(TractError::ShapeMismatch)
                },
                Err(e) => Err(e),
            }
        }
    }

    /// Computes the shape with the dimensions removed.
    pub fn compute_shape(&self, input: &Vec<usize>) -> (r: TractResult<Vec<usize>>)
        ensures
            match squeeze_shape(input@, self@) {
                Ok(s) => r matches Ok(v) && v@ == s,
                Err(kind) => r matches Err(e) && e == kind,
            },
    {
        let mut shape = input.clone();
        assert(shape@ =~= input@);
        assert(self.dims@.skip(0) =~= self.dims@);
        let mut i: usize = 0;
        while i < self.dims.len()
            invariant
                i <= self.dims.len(),
                squeeze_shape(input@, self@) == squeeze_shape(shape@, self.dims@.skip(i as int)),
            decreases self.dims.len() - i,
        {
            let d = self.dims[i];
            proof {
                let rest = self.dims@.skip(i as int);
                assert(rest[0] == d);
                assert(rest.drop_first() =~= self.dims@.skip(i + 1));
            }
            if d < 0 {
                return Err(TractError::UnimplementedVariant);
            }
            if d as usize >= shape.len() {
                return Err(TractError::ShapeMismatch);
            }
            let _ = shape.remove(d as usize);
            i += 1;
        }
        Ok(shape)
    }

    /// Evaluates the operator on concrete inputs.
    pub fn eval(&self, inputs: Vec<Tensor>) -> (r: TractResult<Vec<Tensor>>)
        ensures
            match Self::eval_spec(self@, inputs.deep_view()) {
                Ok(out) => r matches Ok(v) && v.deep_view() == out,
                Err(kind) => r matches Err(e) && e == kind,
            },
    {
        if inputs.len() == 0 {
            return Err(TractError::ArityMismatch);
        }
        let ghost values = inputs.deep_view();
        let data = &inputs[0];
        assert(data@ == values[0]);
        if data.datum_type() != DatumType::F32 {
            return Err(TractError::TypeMismatch);
        }
        let shape = self.compute_shape(data.shape())?;
        let t = data.clone().into_shape(shape)?;
        let mut out: Vec<Tensor> = Vec::new();
        out.push(t);
        assert(out.deep_view() =~= seq![values[0].reshaped(shape@)]);
        Ok(out)
    }
}

} // verus!
