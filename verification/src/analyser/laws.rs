//! The laws of unification: facts form a lattice in which `Any` is the top
//! and a contradiction is the bottom.

use vstd::prelude::*;
use crate::analyser::types::{GenericFact, ShapeFactValue, TensorFactValue};
use crate::errors::TractError;

verus! {

/// Unifies `c` into the outcome of an earlier unification, which a
/// contradiction ends.
pub open spec fn and_then<T>(first: Option<GenericFact<T>>, c: GenericFact<T>) -> Option<GenericFact<T>> {
    match first {
        Some(f) => f.unify_spec(c),
        None => None,
    }
}

/// Unification does not depend on the order of the two facts.
pub proof fn lemma_unify_commutative<T>(a: GenericFact<T>, b: GenericFact<T>)
    ensures
        a.unify_spec(b) == b.unify_spec(a),
{
}

/// Unifying a fact with itself gives the fact.
pub proof fn lemma_unify_idempotent<T>(a: GenericFact<T>)
    ensures
        a.unify_spec(a) == Some(a),
{
}

/// `Any` gives way to every fact.
pub proof fn lemma_unify_any<T>(a: GenericFact<T>)
    ensures
        GenericFact::<T>::Any.unify_spec(a) == Some(a),
        a.unify_spec(GenericFact::<T>::Any) == Some(a),
{
}

/// Two exact facts unify exactly when they hold the same value, and then
/// to that value.
pub proof fn lemma_unify_only<T>(a: T, b: T)
    ensures
        a == b ==> GenericFact::Only(a).unify_spec(GenericFact::Only(b)) == Some(GenericFact::Only(a)),
        a != b ==> GenericFact::Only(a).unify_spec(GenericFact::Only(b)) is None,
{
}

/// Unifying three facts does not depend on which two are unified first.
pub proof fn lemma_unify_associative<T>(a: GenericFact<T>, b: GenericFact<T>, c: GenericFact<T>)
    ensures
        and_then(a.unify_spec(b), c) == and_then(b.unify_spec(c), a),
{
}

/// Unifies `c` into the outcome of an earlier unification of shapes.
pub open spec fn shape_and_then(first: Option<ShapeFactValue>, c: ShapeFactValue) -> Option<ShapeFactValue> {
    match first {
        Some(f) => f.unify_spec(c),
        None => None,
    }
}

/// Unification of shapes does not depend on the order of the two facts.
pub proof fn lemma_shape_unify_commutative(a: ShapeFactValue, b: ShapeFactValue)
    ensures
        a.unify_spec(b) == b.unify_spec(a),
{
    if a.compatible(b) {
        assert forall|i: int| 0 <= i < b.dims.len() && i < a.dims.len() implies (#[trigger] b.dims[i].unify_spec(
            a.dims[i],
        )) is Some by {
            assert(a.dims[i].unify_spec(b.dims[i]) is Some);
        }
        assert(b.compatible(a));
        assert(a.unify_spec(b).unwrap().dims =~= b.unify_spec(a).unwrap().dims);
    } else if b.compatible(a) {
        assert forall|i: int| 0 <= i < a.dims.len() && i < b.dims.len() implies (#[trigger] a.dims[i].unify_spec(
            b.dims[i],
        )) is Some by {
            assert(b.dims[i].unify_spec(a.dims[i]) is Some);
        }
    }
}

/// Unifying a shape fact with itself gives the fact.
pub proof fn lemma_shape_unify_idempotent(a: ShapeFactValue)
    ensures
        a.unify_spec(a) == Some(a),
{
    assert(a.compatible(a));
    assert(a.unify_spec(a).unwrap().dims =~= a.dims);
}

/// The open shape without dimensions gives way to every shape fact.
pub proof fn lemma_shape_unify_any(a: ShapeFactValue)
    ensures
        (ShapeFactValue { open: true, dims: Seq::empty() }).unify_spec(a) == Some(a),
        a.unify_spec(ShapeFactValue { open: true, dims: Seq::empty() }) == Some(a),
{
    let top = ShapeFactValue { open: true, dims: Seq::empty() };
    assert(top.compatible(a));
    assert(a.compatible(top));
    assert(top.unify_spec(a).unwrap().dims =~= a.dims);
    assert(a.unify_spec(top).unwrap().dims =~= a.dims);
}

/// Unifying three shape facts does not depend on which two are unified
/// first.
pub proof fn lemma_shape_unify_associative(a: ShapeFactValue, b: ShapeFactValue, c: ShapeFactValue)
    ensures
        shape_and_then(a.unify_spec(b), c) == shape_and_then(b.unify_spec(c), a),
{
    let left = shape_and_then(a.unify_spec(b), c);
    let right = shape_and_then(b.unify_spec(c), a);
    if left is Some {
        let ab = a.unify_spec(b).unwrap();
        assert(a.compatible(b));
        assert(ab.compatible(c));
        assert forall|i: int| 0 <= i < b.dims.len() && i < c.dims.len() implies (#[trigger] b.dims[i].unify_spec(
            c.dims[i],
        )) is Some by {
            assert(ab.dims[i].unify_spec(c.dims[i]) is Some);
            if i < a.dims.len() {
                assert(a.dims[i].unify_spec(b.dims[i]) is Some);
            }
        }
        assert(b.compatible(c));
        let bc = b.unify_spec(c).unwrap();
        assert forall|i: int| 0 <= i < bc.dims.len() && i < a.dims.len() implies (#[trigger] bc.dims[i].unify_spec(
            a.dims[i],
        )) is Some by {
            if i < b.dims.len() {
                assert(a.dims[i].unify_spec(b.dims[i]) is Some);
            }
            if i < c.dims.len() {
                assert(ab.dims[i].unify_spec(c.dims[i]) is Some);
            }
            if i < b.dims.len() && i < c.dims.len() {
                assert(b.dims[i].unify_spec(c.dims[i]) is Some);
            }
        }
        assert(bc.compatible(a));
        assert forall|i: int| 0 <= i < left.unwrap().dims.len() implies left.unwrap().dims[i]
            == right.unwrap().dims[i] by {
            if i < a.dims.len() && i < b.dims.len() {
                assert(a.dims[i].unify_spec(b.dims[i]) is Some);
            }
            if i < c.dims.len() && i < ab.dims.len() {
                assert(ab.dims[i].unify_spec(c.dims[i]) is Some);
            }
            if i < b.dims.len() && i < c.dims.len() {
                assert(b.dims[i].unify_spec(c.dims[i]) is Some);
            }
            if i < a.dims.len() && i < bc.dims.len() {
                assert(bc.dims[i].unify_spec(a.dims[i]) is Some);
            }
        }
        assert(left.unwrap().dims =~= right.unwrap().dims);
    } else if right is Some {
        let bc = b.unify_spec(c).unwrap();
        assert(b.compatible(c));
        assert(bc.compatible(a));
        assert forall|i: int| 0 <= i < a.dims.len() && i < b.dims.len() implies (#[trigger] a.dims[i].unify_spec(
            b.dims[i],
        )) is Some by {
            assert(bc.dims[i].unify_spec(a.dims[i]) is Some);
            if i < c.dims.len() {
                assert(b.dims[i].unify_spec(c.dims[i]) is Some);
            }
        }
        assert(a.compatible(b));
        let ab = a.unify_spec(b).unwrap();
        assert forall|i: int| 0 <= i < ab.dims.len() && i < c.dims.len() implies (#[trigger] ab.dims[i].unify_spec(
            c.dims[i],
        )) is Some by {
            if i < b.dims.len() {
                assert(b.dims[i].unify_spec(c.dims[i]) is Some);
            }
            if i < a.dims.len() {
                assert(bc.dims[i].unify_spec(a.dims[i]) is Some);
            }
            if i < a.dims.len() && i < b.dims.len() {
                assert(a.dims[i].unify_spec(b.dims[i]) is Some);
            }
        }
        assert(ab.compatible(c));
    }
}

/// The outcome of a unification of tensor facts without the kind of its
/// error.
pub open spec fn outcome(r: Result<TensorFactValue, TractError>) -> Option<TensorFactValue> {
    match r {
        Ok(f) => Some(f),
        Err(_) => None,
    }
}

/// Unifies `c` into the outcome of an earlier unification of tensor facts.
pub open spec fn tensor_and_then(first: Result<TensorFactValue, TractError>, c: TensorFactValue) -> Result<
    TensorFactValue,
    TractError,
> {
    match first {
        Ok(f) => f.unify_spec(c),
        Err(e) => Err(e),
    }
}

/// Unification of tensor facts does not depend on the order of the two
/// facts.
pub proof fn lemma_tensor_unify_commutative(a: TensorFactValue, b: TensorFactValue)
    ensures
        a.unify_spec(b) == b.unify_spec(a),
{
    lemma_shape_unify_commutative(a.shape, b.shape);
}

/// Unifying a tensor fact with itself gives the fact.
pub proof fn lemma_tensor_unify_idempotent(a: TensorFactValue)
    ensures
        a.unify_spec(a) == Ok::<TensorFactValue, TractError>(a),
{
    lemma_shape_unify_idempotent(a.shape);
}

/// The tensor fact that knows nothing gives way to every tensor fact.
pub proof fn lemma_tensor_unify_any(a: TensorFactValue)
    ensures
        TensorFactValue::any().unify_spec(a) == Ok::<TensorFactValue, TractError>(a),
        a.unify_spec(TensorFactValue::any()) == Ok::<TensorFactValue, TractError>(a),
{
    lemma_shape_unify_any(a.shape);
}

/// Unifying three tensor facts does not depend on which two are unified
/// first: both ways fail, or both give the same fact. Which part is
/// reported when both fail may differ.
pub proof fn lemma_tensor_unify_associative(a: TensorFactValue, b: TensorFactValue, c: TensorFactValue)
    ensures
        outcome(tensor_and_then(a.unify_spec(b), c)) == outcome(tensor_and_then(b.unify_spec(c), a)),
{
    lemma_shape_unify_associative(a.shape, b.shape, c.shape);
    lemma_unify_associative(a.datum_type, b.datum_type, c.datum_type);
    lemma_unify_associative(a.value, b.value, c.value);
}

/// The fact `a` says all that the fact `b` says: unifying `a` into `b`
/// gives `a`.
pub open spec fn refines(a: TensorFactValue, b: TensorFactValue) -> bool {
    b.unify_spec(a) == Ok::<TensorFactValue, TractError>(a)
}

/// Every fact says all that it says.
pub proof fn lemma_refines_reflexive(a: TensorFactValue)
    ensures
        refines(a, a),
{
    lemma_tensor_unify_idempotent(a);
}

/// What two facts unify to says all that either of them says.
pub proof fn lemma_unified_refines(a: TensorFactValue, b: TensorFactValue)
    ensures
        a.unify_spec(b) matches Ok(u) ==> refines(u, a) && refines(u, b),
{
    if let Ok(u) = a.unify_spec(b) {
        lemma_tensor_unify_idempotent(a);
        lemma_tensor_unify_idempotent(b);
        lemma_tensor_unify_commutative(a, b);
        lemma_tensor_unify_associative(a, a, b);
        lemma_tensor_unify_commutative(u, a);
        lemma_tensor_unify_associative(b, b, a);
        lemma_tensor_unify_commutative(u, b);
    }
}

/// If `a` says all that `b` says, and `b` all that `c` says, then `a` says
/// all that `c` says.
pub proof fn lemma_refines_transitive(a: TensorFactValue, b: TensorFactValue, c: TensorFactValue)
    requires
        refines(a, b),
        refines(b, c),
    ensures
        refines(a, c),
{
    lemma_tensor_unify_associative(c, b, a);
    lemma_tensor_unify_commutative(a, c);
}

} // verus!
