use gml_bind::invoke::ErrorKind;
use gml_bind::invoke::HostArg;
use gml_bind::invoke::HostReturn;
use gml_bind::invoke::Value;
use gml_bind::invoke::complete_call;
use gml_bind::invoke::convert;
use gml_bind::invoke::prepare_call;
use gml_bind::invoke::prepare_get;
use gml_bind::invoke::prepare_set;
use gml_bind::signature::ParamMode;
use gml_bind::signature::ParamTy;
use gml_bind::signature::FunctionBinding;
use gml_bind::signature::PropertyBinding;
use gml_bind::signature::Receiver;
use gml_bind::signature::ReturnMode;

#[test]
fn incompatible_convert_arguments_default() {
    let b = FunctionBinding {
        name: 1,
        receivers: vec![],
        parameters: vec![ParamMode::Convert(ParamTy::Num), ParamMode::Convert(ParamTy::Str)],
        variadic: false,
        output: ReturnMode::Plain,
    };
    let args = vec![Value::Str(9), Value::Num(4)];
    let plan = prepare_call(&b, &args);
    assert_eq!(plan.args, vec![HostArg::Num(0), HostArg::Str(0)]);
    assert!(plan.rest.is_none());
}

#[test]
fn direct_and_converted_arguments_thread_in_order() {
    let b = FunctionBinding {
        name: 2,
        receivers: vec![Receiver::SelfContext, Receiver::WorldContext],
        parameters: vec![ParamMode::Direct, ParamMode::Convert(ParamTy::Bool)],
        variadic: true,
        output: ReturnMode::Plain,
    };
    let args = vec![Value::Str(3), Value::Num(2), Value::Num(8), Value::Str(1)];
    let plan = prepare_call(&b, &args);
    assert_eq!(
        plan.args,
        vec![
            HostArg::SelfCtx,
            HostArg::WorldCtx,
            HostArg::Value(Value::Str(3)),
            HostArg::Bool(true),
        ]
    );
    assert_eq!(plan.rest, Some(vec![Value::Num(8), Value::Str(1)]));
}

#[test]
fn getter_ignores_slot_without_index_parameter() {
    let p = PropertyBinding {
        name: 3,
        receivers: vec![Receiver::SelfContext],
        entity: true,
        index: false,
        value: None,
    };
    let with_slot_seven = prepare_get(&p, 41, 7);
    let with_other_slot = prepare_get(&p, 41, 0);
    assert_eq!(with_slot_seven, vec![HostArg::SelfCtx, HostArg::Entity(41)]);
    assert_eq!(with_slot_seven, with_other_slot);
}

#[test]
fn getter_threads_entity_and_slot() {
    let p = PropertyBinding {
        name: 4,
        receivers: vec![],
        entity: true,
        index: true,
        value: None,
    };
    assert_eq!(prepare_get(&p, 5, 7), vec![HostArg::Entity(5), HostArg::Index(7)]);
}

#[test]
fn setter_threads_converted_value() {
    let p = PropertyBinding {
        name: 5,
        receivers: vec![Receiver::WorldContext],
        entity: true,
        index: false,
        value: Some(ParamMode::Convert(ParamTy::Num)),
    };
    let call = prepare_set(&p, 6, 0, Value::Num(44));
    assert_eq!(call, vec![HostArg::WorldCtx, HostArg::Entity(6), HostArg::Num(44)]);
    let defaulted = prepare_set(&p, 6, 0, Value::Str(2));
    assert_eq!(defaulted, vec![HostArg::WorldCtx, HostArg::Entity(6), HostArg::Num(0)]);
}

#[test]
fn fallible_failure_propagates_unchanged() {
    let failure = ErrorKind { code: 17 };
    let r = complete_call(ReturnMode::Fallible, HostReturn::Fallible(Err(failure)));
    assert_eq!(r, Err(ErrorKind { code: 17 }));
}

#[test]
fn fallible_success_unwraps() {
    let r = complete_call(
        ReturnMode::Fallible,
        HostReturn::Fallible(Ok(Value::Num(3))),
    );
    assert_eq!(r, Ok(Value::Num(3)));
}

#[test]
fn plain_result_wraps_directly() {
    let r = complete_call(ReturnMode::Plain, HostReturn::Plain(Value::Str(8)));
    assert_eq!(r, Ok(Value::Str(8)));
}

#[test]
fn conversions_reach_or_default() {
    assert_eq!(convert(Value::Num(5), ParamTy::Num), HostArg::Num(5));
    assert_eq!(convert(Value::Num(0), ParamTy::Bool), HostArg::Bool(false));
    assert_eq!(convert(Value::Num(-3), ParamTy::Bool), HostArg::Bool(true));
    assert_eq!(convert(Value::Str(2), ParamTy::Str), HostArg::Str(2));
    assert_eq!(convert(Value::Num(9), ParamTy::Entity), HostArg::Entity(9));
    assert_eq!(convert(Value::Num(-1), ParamTy::Entity), HostArg::Entity(0));
    assert_eq!(convert(Value::Num(7), ParamTy::Index), HostArg::Index(7));
    assert_eq!(convert(Value::Str(7), ParamTy::Num), HostArg::Num(0));
    assert_eq!(convert(Value::Num(7), ParamTy::Str), HostArg::Str(0));
}
