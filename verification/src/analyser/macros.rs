//! Short ways to write facts down.

use vstd::prelude::*;
use crate::analyser::types::{
    DimFact,
    GenericFact,
    ShapeFact,
    ShapeFactValue,
    TypeFact,
    ValueFact,
};
use crate::dim::TDim;
use crate::tensor::{DatumType, Tensor};

verus! {

/// The type fact that knows nothing.
pub fn typefact_any() -> (r: TypeFact)
    ensures
        r == GenericFact::<DatumType>::Any,
{
    GenericFact::Any
}

/// The type fact that knows the element type.
pub fn typefact(datum_type: DatumType) -> (r: TypeFact)
    ensures
        r == GenericFact::Only(datum_type),
{
    GenericFact::Only(datum_type)
}

/// The dimension fact that knows nothing.
pub fn dimfact_any() -> (r: DimFact)
    ensures
        r == GenericFact::<TDim>::Any,
{
    GenericFact::Any
}

/// The dimension fact that holds the free symbol.
pub fn dimfact_s() -> (r: DimFact)
    ensures
        r == GenericFact::Only(TDim { slope: 1, constant: 0 }),
{
    GenericFact::Only(TDim::s())
}

/// The dimension fact that holds the known dimension `value`.
pub fn dimfact(value: i64) -> (r: DimFact)
    ensures
        r == GenericFact::Only(TDim { slope: 0, constant: value }),
{
    GenericFact::Only(TDim::from_int(value))
}

/// The value fact that knows nothing.
pub fn valuefact_any() -> (r: ValueFact)
    ensures
        r@ == GenericFact::<crate::tensor::TensorValue>::Any,
{
    GenericFact::Any
}

/// The value fact that holds the tensor `value`.
pub fn valuefact(value: Tensor) -> (r: ValueFact)
    ensures
        r@ == GenericFact::Only(value@),
{
    GenericFact::Only(value)
}

/// The closed shape fact with the given dimensions.
pub fn shapefact(dims: Vec<DimFact>) -> (r: ShapeFact)
    ensures
        r@ == (ShapeFactValue { open: false, dims: dims@ }),
{
    ShapeFact::closed(dims)
}

/// The open shape fact with the given leading dimensions.
pub fn shapefact_open(dims: Vec<DimFact>) -> (r: ShapeFact)
    ensures
        r@ == (ShapeFactValue { open: true, dims: dims@ }),
{
    ShapeFact::open(dims)
}

} // verus!
