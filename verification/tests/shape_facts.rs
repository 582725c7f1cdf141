use tract_core::analyser::macros::{dimfact, dimfact_any, shapefact, shapefact_open};
use tract_core::analyser::types::{GenericFact, ShapeFact};
use tract_core::dim::TDim;

fn only(v: i64) -> GenericFact<TDim> {
    GenericFact::Only(TDim::from_int(v))
}

#[test]
fn shape_macro_closed_1() {
    assert_eq!(shapefact(vec![]), ShapeFact::closed(vec![]));
}

#[test]
fn shape_macro_closed_2() {
    assert_eq!(shapefact(vec![dimfact(1)]), ShapeFact::closed(vec![only(1)]));
}

#[test]
fn shape_macro_closed_3() {
    assert_eq!(shapefact(vec![dimfact(1 + 1)]), ShapeFact::closed(vec![only(2)]));
}

#[test]
fn shape_macro_closed_4() {
    assert_eq!(
        shapefact(vec![dimfact_any(), dimfact(2)]),
        ShapeFact::closed(vec![GenericFact::Any, only(2)])
    );
}

#[test]
fn shape_macro_closed_5() {
    assert_eq!(
        shapefact(vec![dimfact(1 + 1), dimfact_any(), dimfact(2)]),
        ShapeFact::closed(vec![only(2), GenericFact::Any, only(2)])
    );
}

#[test]
fn shape_macro_open_1() {
    assert_eq!(shapefact_open(vec![]), ShapeFact::open(vec![]));
}

#[test]
fn shape_macro_open_2() {
    assert_eq!(shapefact_open(vec![dimfact(1)]), ShapeFact::open(vec![only(1)]));
}

#[test]
fn shape_macro_open_3() {
    assert_eq!(shapefact_open(vec![dimfact(1 + 1)]), ShapeFact::open(vec![only(2)]));
}

#[test]
fn shape_macro_open_4() {
    assert_eq!(
        shapefact_open(vec![dimfact_any(), dimfact(2)]),
        ShapeFact::open(vec![GenericFact::Any, only(2)])
    );
}

#[test]
fn shape_macro_open_5() {
    assert_eq!(
        shapefact_open(vec![dimfact(1 + 1), dimfact_any(), dimfact(2)]),
        ShapeFact::open(vec![only(2), GenericFact::Any, only(2)])
    );
}
