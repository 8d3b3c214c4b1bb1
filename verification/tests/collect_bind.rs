use gml_bind::bindings::Annotation;
use gml_bind::bindings::Declaration;
use gml_bind::bindings::Diagnostic;
use gml_bind::bindings::collect;
use gml_bind::dispatch::DispatchTable;
use gml_bind::dispatch::Item;
use gml_bind::dispatch::bind;
use gml_bind::signature::DiagKind;
use gml_bind::signature::ParamTy;
use gml_bind::signature::ReturnTy;
use gml_bind::signature::Signature;

fn decl(annotation: Option<Annotation>, name: u32, params: Vec<ParamTy>) -> Declaration {
    Declaration { annotation, sig: Signature { name, params, ret: ReturnTy::Unit } }
}

#[test]
fn collect_accumulates_every_diagnostic() {
    let decls = vec![
        decl(
            Some(Annotation::NativeFunction),
            1,
            vec![ParamTy::ValueSlice, ParamTy::Num],
        ),
        decl(Some(Annotation::NativeFunction), 2, vec![ParamTy::Value]),
        decl(Some(Annotation::Getter(None)), 3, vec![]),
        decl(
            Some(Annotation::NativeFunction),
            4,
            vec![ParamTy::ValueSlice, ParamTy::Str],
        ),
    ];
    let errs = collect(&decls).unwrap_err();
    assert_eq!(
        errs,
        vec![
            Diagnostic { decl: 0, kind: DiagKind::UnexpectedParameter(1) },
            Diagnostic { decl: 2, kind: DiagKind::MalformedAnnotation },
            Diagnostic { decl: 3, kind: DiagKind::UnexpectedParameter(1) },
        ]
    );
}

#[test]
fn collect_rejects_duplicate_getter() {
    let decls = vec![
        decl(Some(Annotation::Getter(Some(7))), 1, vec![ParamTy::Entity]),
        decl(Some(Annotation::Getter(Some(7))), 2, vec![]),
    ];
    let errs = collect(&decls).unwrap_err();
    assert_eq!(errs, vec![Diagnostic { decl: 1, kind: DiagKind::DuplicateGetter }]);
}

#[test]
fn collect_rejects_duplicate_setter() {
    let decls = vec![
        decl(Some(Annotation::Setter(Some(7))), 1, vec![ParamTy::Value]),
        decl(Some(Annotation::Setter(Some(7))), 2, vec![ParamTy::Num]),
    ];
    let errs = collect(&decls).unwrap_err();
    assert_eq!(errs, vec![Diagnostic { decl: 1, kind: DiagKind::DuplicateSetter }]);
}

#[test]
fn collect_getter_and_setter_share_member() {
    let decls = vec![
        decl(Some(Annotation::Getter(Some(7))), 1, vec![ParamTy::Entity]),
        decl(Some(Annotation::Setter(Some(7))), 2, vec![ParamTy::Entity, ParamTy::Value]),
        decl(None, 3, vec![ParamTy::Num]),
    ];
    let set = collect(&decls).unwrap();
    assert_eq!(set.functions.len(), 0);
    assert_eq!(set.members.len(), 1);
    assert_eq!(set.members[0].name, 7);
    assert!(set.members[0].getter.is_some());
    assert!(set.members[0].setter.is_some());
}

#[test]
fn bind_registers_one_entry_per_binding() {
    let decls = vec![
        decl(Some(Annotation::NativeFunction), 1, vec![ParamTy::Value, ParamTy::Num]),
        decl(
            Some(Annotation::NativeFunction),
            2,
            vec![ParamTy::SelfMut, ParamTy::Value, ParamTy::ValueSlice],
        ),
        decl(Some(Annotation::Getter(Some(7))), 3, vec![ParamTy::Entity]),
        decl(Some(Annotation::Setter(Some(7))), 4, vec![ParamTy::Entity, ParamTy::Value]),
    ];
    let mut table = DispatchTable::new();
    bind(&decls, &mut table).unwrap();
    assert_eq!(table.len(), 3);

    match table.get(1) {
        Some(Item::Native(b, arity, variadic)) => {
            assert_eq!(b.name, 1);
            assert_eq!(*arity, 2);
            assert!(!*variadic);
        },
        _ => panic!("function 1 must be registered as a native entry"),
    }
    match table.get(2) {
        Some(Item::Native(b, arity, variadic)) => {
            assert_eq!(b.name, 2);
            assert_eq!(*arity, 1);
            assert!(*variadic);
        },
        _ => panic!("function 2 must be registered as a native entry"),
    }
    match table.get(7) {
        Some(Item::Member(getter, setter)) => {
            assert!(getter.is_some());
            assert!(setter.is_some());
        },
        _ => panic!("member 7 must be registered as a member entry"),
    }
    assert!(table.get(99).is_none());
}

#[test]
fn bind_failure_registers_nothing() {
    let decls = vec![
        decl(Some(Annotation::NativeFunction), 1, vec![ParamTy::Value]),
        decl(
            Some(Annotation::NativeFunction),
            2,
            vec![ParamTy::ValueSlice, ParamTy::Num],
        ),
    ];
    let mut table = DispatchTable::new();
    let errs = bind(&decls, &mut table).unwrap_err();
    assert_eq!(errs, vec![Diagnostic { decl: 1, kind: DiagKind::UnexpectedParameter(1) }]);
    assert_eq!(table.len(), 0);
    assert!(table.get(1).is_none());
}

#[test]
fn collect_empty_site() {
    let decls: Vec<Declaration> = Vec::new();
    let set = collect(&decls).unwrap();
    assert_eq!(set.functions.len(), 0);
    assert_eq!(set.members.len(), 0);
}
