use leo3_tooling::instances::{
    extract_struct_name, ffi_function_names, find_method, key_bridges, parse_type_classes, FfiReturn,
    TypeClass,
};
use leo3_tooling::syntax::{
    FnInput, FnItem, ImplItem, PathArgs, PathSegment, Receiver, RustType, TypeKind, TypePath,
};

fn path_ty(segments: &[&str]) -> RustType {
    RustType {
        text: segments.join(" :: "),
        kind: TypeKind::Path(TypePath {
            qself: false,
            segments: segments
                .iter()
                .map(|s| PathSegment { ident: s.to_string(), args: PathArgs::Plain })
                .collect(),
        }),
    }
}

fn method(name: &str) -> FnItem {
    FnItem {
        ident: name.to_string(),
        variadic: false,
        generics: vec![],
        inputs: vec![FnInput::Receiver(Receiver { reference: true, mutable: false })],
        output: None,
        attrs: vec![],
    }
}

fn demo_impl(methods: &[&str]) -> ImplItem {
    ImplItem {
        attrs: vec![],
        self_ty: path_ty(&["Demo"]),
        has_generics: false,
        methods: methods.iter().map(|m| method(m)).collect(),
    }
}

fn names(list: &[&str]) -> Vec<String> {
    list.iter().map(|s| s.to_string()).collect()
}

#[test]
fn typeclass_metadata_mappings() {
    assert_eq!(TypeClass::from_ident("BEq"), Some(TypeClass::BEq));
    assert_eq!(TypeClass::from_ident("Hashable"), Some(TypeClass::Hashable));
    assert_eq!(TypeClass::from_ident("Repr"), Some(TypeClass::Repr));
    assert_eq!(TypeClass::from_ident("ToString"), Some(TypeClass::ToString));
    assert_eq!(TypeClass::from_ident("Ord"), Some(TypeClass::Ord));
    assert_eq!(TypeClass::from_ident("Foo"), None);
    assert_eq!(TypeClass::BEq.method_name(), "beq");
    assert_eq!(TypeClass::Hashable.method_name(), "hash");
    assert_eq!(TypeClass::Repr.method_name(), "repr");
    assert_eq!(TypeClass::ToString.method_name(), "to_string");
    assert_eq!(TypeClass::Ord.method_name(), "compare");
    assert_eq!(TypeClass::BEq.ffi_prefix(), "__lean_beq");
    assert_eq!(TypeClass::Hashable.ffi_prefix(), "__lean_hash");
    assert_eq!(TypeClass::Repr.ffi_prefix(), "__lean_repr");
    assert_eq!(TypeClass::ToString.ffi_prefix(), "__lean_to_string");
    assert_eq!(TypeClass::Ord.ffi_prefix(), "__lean_compare");
}

#[test]
fn options_parse_accumulates_typeclasses() {
    let classes = parse_type_classes(&names(&["BEq", "Hashable"])).expect("parse options");
    assert_eq!(classes, vec![TypeClass::BEq, TypeClass::Hashable]);

    let classes = parse_type_classes(&names(&["BEq"])).expect("parse single class");
    assert_eq!(classes, vec![TypeClass::BEq]);
}

#[test]
fn unsupported_typeclass_and_empty_options_error() {
    let err = parse_type_classes(&names(&["Foo"])).expect_err("unknown class must fail");
    assert!(err.contains("Unsupported type class 'Foo'"));
    assert!(err.contains("Supported: BEq, Hashable, Repr, ToString, Ord"));

    assert!(parse_type_classes(&[]).is_err());
}

#[test]
fn missing_required_method_errors() {
    let item = demo_impl(&["unrelated"]);
    let err = find_method(&item, TypeClass::BEq.method_name()).expect_err("missing beq must fail");
    assert!(err.contains("Method 'beq' not found in impl block"));
}

#[test]
fn required_method_is_found_by_name() {
    let item = demo_impl(&["hash", "beq"]);
    assert_eq!(find_method(&item, "beq"), Ok(1));
    assert_eq!(find_method(&item, "hash"), Ok(0));
}

#[test]
fn hashable_beq_pair_derives_hash_key_only() {
    assert_eq!(key_bridges(&[TypeClass::Hashable, TypeClass::BEq]), (true, false));
    assert_eq!(key_bridges(&[TypeClass::Hashable]), (false, false));
    assert_eq!(key_bridges(&[TypeClass::Ord]), (false, true));
}

#[test]
fn ffi_names_join_prefix_and_struct() {
    assert_eq!(
        ffi_function_names(TypeClass::Hashable, "Demo"),
        ("__lean_hash_Demo".to_string(), "__leo3_try___lean_hash_Demo".to_string())
    );
}

#[test]
fn struct_name_is_the_last_path_segment() {
    assert_eq!(extract_struct_name(&path_ty(&["crate", "model", "Demo"])), Ok("Demo".to_string()));
    let tuple = RustType { text: "()".to_string(), kind: TypeKind::Tuple(vec![]) };
    assert_eq!(
        extract_struct_name(&tuple),
        Err("Expected a path type in impl block".to_string())
    );
}

#[test]
fn exported_functions_take_and_return_by_class() {
    assert!(TypeClass::BEq.takes_two_objects());
    assert!(TypeClass::Ord.takes_two_objects());
    assert!(!TypeClass::Hashable.takes_two_objects());
    assert!(!TypeClass::Repr.takes_two_objects());
    assert!(!TypeClass::ToString.takes_two_objects());
    assert_eq!(TypeClass::BEq.ffi_return(), FfiReturn::BoxedBool);
    assert_eq!(TypeClass::Hashable.ffi_return(), FfiReturn::UInt64Ctor);
    assert_eq!(TypeClass::Repr.ffi_return(), FfiReturn::LeanString);
    assert_eq!(TypeClass::ToString.ffi_return(), FfiReturn::LeanString);
    assert_eq!(TypeClass::Ord.ffi_return(), FfiReturn::BoxedOrdering);
}
