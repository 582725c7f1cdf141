//! Element types and concrete tensors.
//!
//! A tensor is held as plain integers: its element type, its shape, and one
//! `i64` per element in row-major order. For the floating-point element types
//! the integer is the bit pattern of the element, so that two tensors are equal
//! exactly when they hold the same bits.

use vstd::prelude::*;
use crate::errors::{TractError, TractResult};

verus! {

/// The element type of a tensor.
#[derive(Clone, Copy, Debug, PartialEq, Eq, Structural)]
pub enum DatumType {
    Bool,
    U8,
    I8,
    I16,
    I32,
    I64,
    F32,
    F64,
    TDim,
}

impl View for DatumType {
    type V = DatumType;

    open spec fn view(&self) -> DatumType {
        *self
    }
}

/// Converts an index or extent to `i64`, or gives `None` when it does not
/// fit.
pub fn usize_to_i64(v: usize) -> (r: Option<i64>)
    ensures
        r == (if v <= i64::MAX {
            Some(v as i64)
        } else {
            None
        }),
{
    let wide = v as u64;
    if wide <= 0x7fff_ffff_ffff_ffff {
        Some(wide as i64)
    } else {
        None
    }
}

/// The number of elements of a tensor of the given shape: the product of its
/// dimensions, 1 for a scalar.
pub open spec fn volume(shape: Seq<usize>) -> nat
    decreases shape.len(),
{
    if shape.len() == 0 {
        1
    } else {
        volume(shape.drop_last()) * (shape.last() as nat)
    }
}

/// A shape with a zero dimension holds no element.
pub proof fn lemma_volume_zero(shape: Seq<usize>, k: int)
    requires
        0 <= k < shape.len(),
        shape[k] == 0,
    ensures
        volume(shape) == 0,
    decreases shape.len(),
{
    if k < shape.len() - 1 {
        lemma_volume_zero(shape.drop_last(), k);
        assert(volume(shape.drop_last()) * (shape.last() as nat) == 0) by (nonlinear_arith)
            requires
                volume(shape.drop_last()) == 0,
        ;
    } else {
        assert(volume(shape.drop_last()) * (shape.last() as nat) == 0) by (nonlinear_arith)
            requires
                shape.last() == 0,
        ;
    }
}

/// Without a zero dimension, a prefix of a shape holds no more elements than
/// the whole shape.
pub proof fn lemma_volume_prefix(shape: Seq<usize>, i: int)
    requires
        0 <= i <= shape.len(),
        forall|k: int| 0 <= k < shape.len() ==> shape[k] >= 1,
    ensures
        volume(shape.take(i)) <= volume(shape),
    decreases shape.len() - i,
{
    if i == shape.len() {
        assert(shape.take(i) =~= shape);
    } else {
        lemma_volume_prefix(shape, i + 1);
        let longer = shape.take(i + 1);
        assert(longer.drop_last() =~= shape.take(i));
        assert(longer.last() == shape[i]);
        assert(volume(shape.take(i)) <= volume(shape.take(i)) * (shape[i] as nat))
            by (nonlinear_arith)
            requires
                shape[i] >= 1,
        ;
    }
}

/// Inserting a dimension of extent 1 keeps the number of elements.
pub proof fn lemma_volume_insert_one(shape: Seq<usize>, k: int)
    requires
        0 <= k <= shape.len(),
    ensures
        volume(shape.insert(k, 1usize)) == volume(shape),
    decreases shape.len(),
{
    let longer = shape.insert(k, 1usize);
    if k == shape.len() {
        assert(longer.drop_last() =~= shape);
        assert(volume(shape) * 1 == volume(shape)) by (nonlinear_arith);
    } else {
        lemma_volume_insert_one(shape.drop_last(), k);
        assert(longer.drop_last() =~= shape.drop_last().insert(k, 1usize));
        assert(longer.last() == shape.last());
    }
}

/// Computes the number of elements of a shape, or `None` when that number
/// does not fit in `usize`.
pub fn shape_volume(shape: &Vec<usize>) -> (r: Option<usize>)
    ensures
        match r {
            Some(v) => v == volume(shape@),
            None => volume(shape@) > usize::MAX,
        },
{
    let mut k: usize = 0;
    while k < shape.len()
        invariant
            k <= shape.len(),
            forall|j: int| 0 <= j < k ==> shape@[j] >= 1,
        decreases shape.len() - k,
    {
        if shape[k] == 0 {
            proof {
                lemma_volume_zero(shape@, k as int);
            }
            return Some(0);
        }
        k += 1;
    }
    let mut acc: usize = 1;
    let mut i: usize = 0;
    while i < shape.len()
        invariant
            i <= shape.len(),
            forall|j: int| 0 <= j < shape.len() ==> shape@[j] >= 1,
            acc == volume(shape@.take(i as int)),
        decreases shape.len() - i,
    {
        proof {
            let longer = shape@.take(i + 1);
            assert(longer.drop_last() =~= shape@.take(i as int));
            assert(longer.last() == shape@[i as int]);
            lemma_volume_prefix(shape@, i + 1);
        }
        match acc.checked_mul(shape[i]) {
            Some(next) => {
                acc = next;
            },
            None => {
                return None;
            },
        }
        i += 1;
    }
    proof {
        assert(shape@.take(i as int) =~= shape@);
    }
    Some(acc)
}

/// What a tensor is: its element type, its shape and its elements in
/// row-major order.
pub struct TensorValue {
    pub datum_type: DatumType,
    pub shape: Seq<usize>,
    pub data: Seq<i64>,
}

impl TensorValue {
    /// The tensor holds exactly as many elements as its shape asks for.
    pub open spec fn wf(self) -> bool {
        volume(self.shape) == self.data.len()
    }

    /// The same elements under another shape.
    pub open spec fn reshaped(self, shape: Seq<usize>) -> TensorValue {
        TensorValue { datum_type: self.datum_type, shape, data: self.data }
    }
}

/// A concrete tensor.
#[derive(Debug, PartialEq, Eq)]
pub struct Tensor {
    datum_type: DatumType,
    shape: Vec<usize>,
    data: Vec<i64>,
}

impl View for Tensor {
    type V = TensorValue;

    closed spec fn view(&self) -> TensorValue {
        TensorValue { datum_type: self.datum_type, shape: self.shape@, data: self.data@ }
    }
}

impl DeepView for Tensor {
    type V = TensorValue;

    open spec fn deep_view(&self) -> TensorValue {
        self@
    }
}

impl Clone for Tensor {
    fn clone(&self) -> (r: Tensor)
        ensures
            r@ == self@,
    {
        proof {
            use_type_invariant(self);
        }
        let shape = self.shape.clone();
        let data = self.data.clone();
        assert(shape@ =~= self.shape@);
        assert(data@ =~= self.data@);
        Tensor { datum_type: self.datum_type, shape, data }
    }
}

impl Tensor {
    #[verifier::type_invariant]
    spec fn inv(self) -> bool {
        volume(self.shape@) == self.data@.len()
    }

    /// Builds a tensor from its parts. Fails with `ShapeMismatch` exactly when
    /// the shape does not ask for as many elements as `data` holds.
    pub fn new(datum_type: DatumType, shape: Vec<usize>, data: Vec<i64>) -> (r: TractResult<Tensor>)
        ensures
            match r {
                Ok(t) => t@ == (TensorValue { datum_type, shape: shape@, data: data@ }) && t@.wf(),
                Err(e) => e == TractError::ShapeMismatch && volume(shape@) != data@.len(),
            },
    {
        let len = data.len();
        match shape_volume(&shape) {
            Some(v) => {
                if v == len {
                    Ok(Tensor { datum_type, shape, data })
                } else {
                    Err(TractError::ShapeMismatch)
                }
            },
            None => Err(TractError::ShapeMismatch),
        }
    }

    /// A tensor of rank 0 holding one element.
    pub fn scalar(datum_type: DatumType, value: i64) -> (r: Tensor)
        ensures
            r@ == (TensorValue { datum_type, shape: Seq::<usize>::empty(), data: seq![value] }),
            r@.wf(),
    {
        let shape: Vec<usize> = Vec::new();
        let mut data: Vec<i64> = Vec::new();
        data.push(value);
        assert(data@ =~= seq![value]);
        assert(volume(shape@) == 1);
        Tensor { datum_type, shape, data }
    }

    /// A tensor of rank 1 holding the given elements.
    pub fn vector(datum_type: DatumType, data: Vec<i64>) -> (r: Tensor)
        ensures
            r@ == (TensorValue { datum_type, shape: seq![data@.len() as usize], data: data@ }),
            r@.wf(),
    {
        let mut shape: Vec<usize> = Vec::new();
        shape.push(data.len());
        proof {
            assert(shape@ =~= seq![data@.len() as usize]);
            assert(shape@.drop_last() =~= Seq::<usize>::empty());
            assert(volume(shape@.drop_last()) == 1);
            assert(volume(shape@) == 1 * (data@.len() as nat));
        }
        Tensor { datum_type, shape, data }
    }

    pub fn datum_type(&self) -> (r: DatumType)
        ensures
            r == self@.datum_type,
    {
        self.datum_type
    }

    pub fn shape(&self) -> (r: &Vec<usize>)
        ensures
            r@ == self@.shape,
            self@.wf(),
    {
        proof {
            use_type_invariant(self);
        }
        &self.shape
    }

    pub fn rank(&self) -> (r: usize)
        ensures
            r == self@.shape.len(),
    {
        self.shape.len()
    }

    pub fn data(&self) -> (r: &Vec<i64>)
        ensures
            r@ == self@.data,
            self@.wf(),
    {
        proof {
            use_type_invariant(self);
        }
        &self.data
    }

    /// The number of elements.
    pub fn len(&self) -> (r: usize)
        ensures
            r == self@.data.len(),
            self@.wf(),
    {
        proof {
            use_type_invariant(self);
        }
        self.data.len()
    }

    /// The same elements under another shape. Fails with `ShapeMismatch`
    /// exactly when the new shape asks for another number of elements.
    pub fn into_shape(self, shape: Vec<usize>) -> (r: TractResult<Tensor>)
        ensures
            match r {
                Ok(t) => t@ == self@.reshaped(shape@) && t@.wf(),
                Err(e) => e == TractError::ShapeMismatch && volume(shape@) != self@.data.len(),
            },
    {
        Tensor::new(self.datum_type, shape, self.data)
    }

    /// The single element of a tensor of rank 0, if the tensor is one.
    pub fn to_scalar(&self) -> (r: Option<i64>)
        ensures
            r == (if self@.shape.len() == 0 {
                Some(self@.data[0])
            } else {
                None
            }),
            self@.wf(),
    {
        proof {
            use_type_invariant(self);
        }
        if self.shape.len() == 0 {
            assert(volume(self.shape@) == 1);
            Some(self.data[0])
        } else {
            None
        }
    }

    /// Whether two tensors have the same element type, shape and elements.
    pub fn same_as(&self, other: &Tensor) -> (r: bool)
        ensures
            r == (self@ == other@),
    {
        if self.datum_type != other.datum_type {
            return false;
        }
        if self.shape.len() != other.shape.len() || self.data.len() != other.data.len() {
            return false;
        }
        let mut i: usize = 0;
        while i < self.shape.len()
            invariant
                i <= self.shape.len(),
                self.shape.len() == other.shape.len(),
                forall|j: int| 0 <= j < i ==> self.shape@[j] == other.shape@[j],
            decreases self.shape.len() - i,
        {
            if self.shape[i] != other.shape[i] {
                return false;
            }
            i += 1;
        }
        let mut k: usize = 0;
        while k < self.data.len()
            invariant
                k <= self.data.len(),
                self.data.len() == other.data.len(),
                forall|j: int| 0 <= j < k ==> self.data@[j] == other.data@[j],
            decreases self.data.len() - k,
        {
            if self.data[k] != other.data[k] {
                return false;
            }
            k += 1;
        }
        assert(self.shape@ =~= other.shape@);
        assert(self.data@ =~= other.data@);
        true
    }
}

/// A conversion of a tensor of this crate into the tensor type `Tf` of
/// another framework.
pub trait ToSharedTensor<Tf>: Sized {
    fn to_tf(&self) -> TractResult<Tf>;
}

} // verus!
