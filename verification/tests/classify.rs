use gml_bind::signature::DiagKind;
use gml_bind::signature::ParamMode;
use gml_bind::signature::ParamTy;
use gml_bind::signature::Receiver;
use gml_bind::signature::ReturnMode;
use gml_bind::signature::ReturnTy;
use gml_bind::signature::Role;
use gml_bind::signature::Signature;
use gml_bind::signature::classify_function;
use gml_bind::signature::classify_property;

fn sig(name: u32, params: Vec<ParamTy>, ret: ReturnTy) -> Signature {
    Signature { name, params, ret }
}

#[test]
fn classify_valid_function_shape() {
    let s = sig(
        1,
        vec![
            ParamTy::SelfMut,
            ParamTy::WorldRef,
            ParamTy::Value,
            ParamTy::Num,
            ParamTy::ValueSlice,
        ],
        ReturnTy::Unit,
    );
    let b = classify_function(&s).unwrap();
    assert_eq!(b.name, 1);
    assert_eq!(b.receivers, vec![Receiver::SelfContext, Receiver::WorldContext]);
    assert_eq!(b.parameters, vec![ParamMode::Direct, ParamMode::Convert(ParamTy::Num)]);
    assert!(b.variadic);
    assert_eq!(b.output, ReturnMode::Plain);
}

#[test]
fn classify_receiver_order_kept() {
    let s = sig(2, vec![ParamTy::WorldMut, ParamTy::SelfRef, ParamTy::Str], ReturnTy::Other);
    let b = classify_function(&s).unwrap();
    assert_eq!(b.receivers, vec![Receiver::WorldContext, Receiver::SelfContext]);
    assert_eq!(b.parameters, vec![ParamMode::Convert(ParamTy::Str)]);
    assert!(!b.variadic);
}

#[test]
fn classify_fallible_return() {
    let s = sig(3, vec![], ReturnTy::Checked);
    let b = classify_function(&s).unwrap();
    assert_eq!(b.output, ReturnMode::Fallible);
    assert_eq!(b.parameters, vec![]);
    assert_eq!(b.receivers, vec![]);
    assert!(!b.variadic);
}

#[test]
fn classify_unexpected_after_slice() {
    let s = sig(4, vec![ParamTy::Value, ParamTy::ValueSlice, ParamTy::Num], ReturnTy::Unit);
    let e = classify_function(&s).unwrap_err();
    assert_eq!(e, DiagKind::UnexpectedParameter(2));
}

#[test]
fn classify_late_receiver_converts() {
    let s = sig(5, vec![ParamTy::Num, ParamTy::SelfRef], ReturnTy::Unit);
    let b = classify_function(&s).unwrap();
    assert_eq!(b.receivers, vec![]);
    assert_eq!(
        b.parameters,
        vec![ParamMode::Convert(ParamTy::Num), ParamMode::Convert(ParamTy::SelfRef)]
    );
}

#[test]
fn classify_getter_shape() {
    let s = sig(6, vec![ParamTy::SelfRef, ParamTy::Entity, ParamTy::Index], ReturnTy::Other);
    let p = classify_property(&s, Role::Getter).unwrap();
    assert_eq!(p.receivers, vec![Receiver::SelfContext]);
    assert!(p.entity);
    assert!(p.index);
    assert_eq!(p.value, None);
}

#[test]
fn classify_getter_rejects_value() {
    let s = sig(7, vec![ParamTy::Entity, ParamTy::Value], ReturnTy::Other);
    let e = classify_property(&s, Role::Getter).unwrap_err();
    assert_eq!(e, DiagKind::UnexpectedParameter(1));
}

#[test]
fn classify_setter_value_modes() {
    let direct = sig(8, vec![ParamTy::Entity, ParamTy::Value], ReturnTy::Unit);
    let p = classify_property(&direct, Role::Setter).unwrap();
    assert!(p.entity);
    assert!(!p.index);
    assert_eq!(p.value, Some(ParamMode::Direct));

    let converted = sig(9, vec![ParamTy::Str], ReturnTy::Unit);
    let p = classify_property(&converted, Role::Setter).unwrap();
    assert_eq!(p.value, Some(ParamMode::Convert(ParamTy::Str)));
}

#[test]
fn classify_setter_missing_value() {
    let s = sig(10, vec![ParamTy::SelfMut, ParamTy::Entity], ReturnTy::Unit);
    let e = classify_property(&s, Role::Setter).unwrap_err();
    assert_eq!(e, DiagKind::MissingValue(2));
}

#[test]
fn classify_setter_leftover_parameter() {
    let s = sig(11, vec![ParamTy::Entity, ParamTy::Value, ParamTy::Num], ReturnTy::Unit);
    let e = classify_property(&s, Role::Setter).unwrap_err();
    assert_eq!(e, DiagKind::UnexpectedParameter(2));
}
