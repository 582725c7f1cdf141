use tract_core::analyser::macros::{dimfact, dimfact_any, dimfact_s, shapefact, shapefact_open, typefact, typefact_any, valuefact, valuefact_any};
use tract_core::analyser::types::{GenericFact, ShapeFact, TensorFact};
use tract_core::dim::TDim;
use tract_core::errors::TractError;
use tract_core::tensor::{shape_volume, usize_to_i64, DatumType, Tensor};

#[test]
fn unify_any_gives_way() {
    let any = typefact_any();
    let f32s = typefact(DatumType::F32);
    assert_eq!(any.unify(&f32s), Ok(f32s));
    assert_eq!(f32s.unify(&any), Ok(f32s));
    assert_eq!(any.unify(&any), Ok(any));
}

#[test]
fn unify_equal_exact_facts() {
    assert_eq!(dimfact(3).unify(&dimfact(3)), Ok(dimfact(3)));
    let rank: GenericFact<i64> = GenericFact::Only(2);
    assert_eq!(rank.unify(&GenericFact::Only(2)), Ok(GenericFact::Only(2)));
}

#[test]
fn unify_different_exact_facts_fails() {
    assert_eq!(typefact(DatumType::F32).unify(&typefact(DatumType::I32)), Err(TractError::TypeMismatch));
    assert_eq!(dimfact(3).unify(&dimfact(4)), Err(TractError::ShapeMismatch));
    let rank: GenericFact<i64> = GenericFact::Only(2);
    assert_eq!(rank.unify(&GenericFact::Only(3)), Err(TractError::ShapeMismatch));
    let a = valuefact(Tensor::scalar(DatumType::I32, 1));
    let b = valuefact(Tensor::scalar(DatumType::I32, 2));
    assert_eq!(a.unify(&b), Err(TractError::ContradictoryFact));
}

#[test]
fn unify_is_commutative_and_idempotent_on_samples() {
    let samples = vec![dimfact_any(), dimfact(1), dimfact(2), dimfact_s()];
    for a in &samples {
        assert_eq!(a.unify(a), Ok(*a));
        for b in &samples {
            assert_eq!(a.unify(b), b.unify(a));
        }
    }
}

#[test]
fn unify_is_associative_on_samples() {
    let samples = vec![dimfact_any(), dimfact(1), dimfact(2)];
    for a in &samples {
        for b in &samples {
            for c in &samples {
                let left = a.unify(b).and_then(|ab| ab.unify(c));
                let right = b.unify(c).and_then(|bc| a.unify(&bc));
                assert_eq!(left, right);
            }
        }
    }
}

#[test]
fn concretize_only_when_exact() {
    assert_eq!(typefact(DatumType::I64).concretize(), Some(DatumType::I64));
    assert_eq!(typefact_any().concretize(), None);
    assert_eq!(dimfact(7).concretize(), Some(TDim::from_int(7)));
    assert_eq!(dimfact_any().concretize(), None);
    assert!(valuefact_any().concretize().is_none());
    let t = Tensor::vector(DatumType::I32, vec![1, 2, 3]);
    assert_eq!(valuefact(t.clone()).concretize(), Some(t));
    assert!(!typefact_any().is_concrete());
    assert!(dimfact(1).is_concrete());
}

#[test]
fn shape_concretize_needs_closed_and_exact() {
    let closed = shapefact(vec![dimfact(2), dimfact(3)]);
    assert!(closed.is_concrete());
    assert_eq!(closed.concretize(), Some(vec![TDim::from_int(2), TDim::from_int(3)]));
    let open = shapefact_open(vec![dimfact(2), dimfact(3)]);
    assert!(!open.is_concrete());
    assert_eq!(open.concretize(), None);
    let holey = shapefact(vec![dimfact(2), dimfact_any()]);
    assert!(!holey.is_concrete());
    assert_eq!(holey.concretize(), None);
    assert_eq!(shapefact(vec![]).concretize(), Some(vec![]));
}

#[test]
fn shape_rank_fact() {
    assert_eq!(shapefact(vec![dimfact(2), dimfact_any()]).rank(), Some(GenericFact::Only(2)));
    assert_eq!(shapefact_open(vec![dimfact(2)]).rank(), Some(GenericFact::Any));
}

#[test]
fn shape_unify_open_with_closed_keeps_the_longer() {
    let open = shapefact_open(vec![dimfact_any(), dimfact(3)]);
    let closed = shapefact(vec![dimfact(2), dimfact_any(), dimfact(5)]);
    let expected = shapefact(vec![dimfact(2), dimfact(3), dimfact(5)]);
    assert_eq!(open.unify(&closed), Ok(expected.clone()));
    assert_eq!(closed.unify(&open), Ok(expected));
}

#[test]
fn shape_unify_two_open() {
    let a = shapefact_open(vec![dimfact(1)]);
    let b = shapefact_open(vec![dimfact_any(), dimfact(4)]);
    assert_eq!(a.unify(&b), Ok(shapefact_open(vec![dimfact(1), dimfact(4)])));
}

#[test]
fn shape_unify_failures() {
    let short = shapefact(vec![dimfact(2)]);
    let long_open = shapefact_open(vec![dimfact(2), dimfact(3)]);
    assert_eq!(short.unify(&long_open), Err(TractError::ShapeMismatch));
    assert_eq!(shapefact(vec![dimfact(2)]).unify(&shapefact(vec![dimfact(2), dimfact(3)])), Err(TractError::ShapeMismatch));
    assert_eq!(shapefact(vec![dimfact(2)]).unify(&shapefact(vec![dimfact(3)])), Err(TractError::ShapeMismatch));
}

#[test]
fn shape_unify_identity_and_idempotence() {
    let top = ShapeFact::open(vec![]);
    let x = shapefact(vec![dimfact(2), dimfact_any()]);
    assert_eq!(top.unify(&x), Ok(x.clone()));
    assert_eq!(x.unify(&top), Ok(x.clone()));
    assert_eq!(x.unify(&x), Ok(x.clone()));
}

#[test]
fn shape_with_rank_and_dim() {
    let open = shapefact_open(vec![dimfact(2)]);
    assert_eq!(open.with_rank(3), Some(shapefact(vec![dimfact(2), dimfact_any(), dimfact_any()])));
    assert_eq!(open.with_rank(0), None);
    assert_eq!(shapefact(vec![dimfact(2)]).with_rank(2), None);
    assert_eq!(open.with_dim(2, dimfact(7)), Some(shapefact_open(vec![dimfact(2), dimfact_any(), dimfact(7)])));
    assert_eq!(open.with_dim(2, dimfact_any()), Some(open.clone()));
    assert_eq!(shapefact(vec![dimfact(2)]).with_dim(1, dimfact(7)), None);
    assert_eq!(open.dim(0), Some(dimfact(2)));
    assert_eq!(open.dim(5), Some(dimfact_any()));
    assert_eq!(shapefact(vec![dimfact(2)]).dim(1), None);
}

#[test]
fn tensor_fact_unify_reports_first_contradiction() {
    let a = TensorFact::dt(DatumType::F32).with_shape(shapefact(vec![dimfact(2)]));
    let b = TensorFact::dt(DatumType::I32).with_shape(shapefact(vec![dimfact(3)]));
    assert_eq!(a.unify(&b), Err(TractError::TypeMismatch));
    let c = TensorFact::dt(DatumType::F32).with_shape(shapefact(vec![dimfact(3)]));
    assert_eq!(a.unify(&c), Err(TractError::ShapeMismatch));
    let any = TensorFact::default();
    assert_eq!(any.unify(&a), Ok(a.clone()));
    assert_eq!(a.unify(&a), Ok(a.clone()));
}

#[test]
fn tensor_fact_from_tensor() {
    let t = Tensor::new(DatumType::I32, vec![2, 3], vec![1, 2, 3, 4, 5, 6]).unwrap();
    let f = TensorFact::from_tensor(t.clone());
    assert_eq!(f.datum_type, typefact(DatumType::I32));
    assert_eq!(f.shape, shapefact(vec![dimfact(2), dimfact(3)]));
    assert!(f.is_concrete());
    assert_eq!(f.concretize(), Some(t));
    assert!(!TensorFact::default().is_concrete());
    assert_eq!(TensorFact::default().concretize(), None);
}

#[test]
fn tensor_construction_checks_the_volume() {
    assert!(Tensor::new(DatumType::F32, vec![2, 2], vec![0, 0, 0, 0]).is_ok());
    assert_eq!(Tensor::new(DatumType::F32, vec![2, 2], vec![0, 0, 0]), Err(TractError::ShapeMismatch));
    assert_eq!(Tensor::new(DatumType::F32, vec![usize::MAX, 2], vec![0]), Err(TractError::ShapeMismatch));
    assert!(Tensor::new(DatumType::F32, vec![usize::MAX, 2, 0], vec![]).is_ok());
    let t = Tensor::vector(DatumType::I32, vec![1, 2, 3, 4]);
    let r = t.clone().into_shape(vec![2, 2]).unwrap();
    assert_eq!(r.shape(), &vec![2, 2]);
    assert_eq!(r.data(), &vec![1, 2, 3, 4]);
    assert_eq!(t.into_shape(vec![3]), Err(TractError::ShapeMismatch));
    assert_eq!(Tensor::scalar(DatumType::I32, 9).to_scalar(), Some(9));
    assert_eq!(Tensor::vector(DatumType::I32, vec![9]).to_scalar(), None);
}

#[test]
fn volume_of_shapes() {
    assert_eq!(shape_volume(&vec![]), Some(1));
    assert_eq!(shape_volume(&vec![2, 3, 4]), Some(24));
    assert_eq!(shape_volume(&vec![5, 0, 7]), Some(0));
    assert_eq!(shape_volume(&vec![usize::MAX, 2]), None);
    assert_eq!(shape_volume(&vec![usize::MAX, 2, 0]), Some(0));
    assert_eq!(usize_to_i64(12), Some(12));
}

#[test]
fn dim_arithmetic() {
    let s = TDim::s();
    let two = TDim::from_int(2);
    let sum = s.checked_add(&two).unwrap();
    assert_eq!(sum, TDim { slope: 1, constant: 2 });
    assert_eq!(sum.checked_scale(3), Some(TDim { slope: 3, constant: 6 }));
    assert_eq!(sum.to_integer(), None);
    assert_eq!(two.to_integer(), Some(2));
    assert_eq!(TDim::from_int(i64::MAX).checked_add(&TDim::from_int(1)), None);
    assert_eq!(TDim::from_int(i64::MAX).checked_scale(2), None);
    assert_eq!(sum.checked_sub(&two), Some(s));
    assert_eq!(TDim::from_int(i64::MIN).checked_sub(&TDim::from_int(1)), None);
}
