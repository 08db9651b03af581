use leo3_tooling::codegen::{
    generate_class_lean, generate_function_extern, generate_module_lean, merge_class_metadata,
    metadata_symbol_kind, module_file_name, ClassTable, MetadataKind,
};
use leo3_tooling::embed::{frame_metadata_entry, parse_metadata_entries};
use leo3_tooling::model::{
    BindingKind, BindingSemantics, ClassMetadata, FunctionBinding, ModuleBinding,
    ParameterBinding, PassingStyle, ReceiverStyle, SubmoduleBinding, TypeBinding, TypeShape,
    BINDING_SCHEMA_VERSION,
};

#[test]
fn metadata_symbol_kind_parses_prefixes() {
    assert_eq!(
        metadata_symbol_kind("__leo3_module_metadata_json_Foo"),
        Some((MetadataKind::Module, "Foo"))
    );
    assert_eq!(
        metadata_symbol_kind("__leo3_class_metadata_json_Bar"),
        Some((MetadataKind::Class, "Bar"))
    );
    assert_eq!(
        metadata_symbol_kind("__leo3_module_metadata_json_"),
        Some((MetadataKind::Module, ""))
    );
    assert_eq!(
        metadata_symbol_kind("__leo3_class_metadata_json_A.B"),
        Some((MetadataKind::Class, "A.B"))
    );
    assert_eq!(metadata_symbol_kind("some_other_symbol"), None);
    assert_eq!(metadata_symbol_kind("__leo3_module_metadata_"), None);
    // No trailing underscore after the prefix.
    assert_eq!(metadata_symbol_kind("__leo3_module_metadata_json"), None);
    assert_eq!(metadata_symbol_kind(""), None);
}

fn type_binding(rust: &str, lean: Option<&str>) -> TypeBinding {
    TypeBinding {
        rust: rust.to_string(),
        lean: lean.map(str::to_string),
        shape: TypeShape::Scalar,
    }
}

fn method(name: &str) -> FunctionBinding {
    FunctionBinding {
        rust_name: name.to_string(),
        lean_name: name.to_string(),
        owner: Some("Counter".to_string()),
        ffi_symbol: format!("__lean_ffi_{}", name),
        receiver: ReceiverStyle::NoSelf,
        params: vec![],
        return_type: type_binding("u32", Some("UInt32")),
        semantics: BindingSemantics::Value,
        kind: BindingKind::Method,
        lean_decl: None,
    }
}

fn class_metadata(name: &str, methods: Vec<FunctionBinding>) -> ClassMetadata {
    ClassMetadata {
        schema_version: BINDING_SCHEMA_VERSION,
        rust_name: name.to_string(),
        lean_name: name.to_string(),
        opaque_decl: format!("opaque {name} : Type\n"),
        methods_decl: String::new(),
        methods,
    }
}

fn module_binding(
    name: &str,
    exports: Vec<FunctionBinding>,
    submodules: Vec<SubmoduleBinding>,
) -> ModuleBinding {
    ModuleBinding {
        name: name.to_string(),
        exports,
        submodules,
    }
}

#[test]
fn merge_class_metadata_dedups_methods_by_rust_and_lean_name() {
    let mut classes = ClassTable::new();
    merge_class_metadata(
        &mut classes,
        class_metadata("Counter", vec![method("inc"), method("get")]),
    );
    // Same rust_name: only the *new* method (set_value) is added; inc and
    // get are deduplicated.
    merge_class_metadata(
        &mut classes,
        class_metadata("Counter", vec![method("inc"), method("set_value")]),
    );
    // Different rust_name → a separate entry.
    merge_class_metadata(&mut classes, class_metadata("Other", vec![method("new")]));

    assert_eq!(classes.len(), 2);
    let counter = classes.get("Counter").unwrap();
    let names: Vec<&str> = counter
        .methods
        .iter()
        .map(|m| m.lean_name.as_str())
        .collect();
    assert_eq!(names.len(), 3);
    assert!(names.contains(&"inc"));
    assert!(names.contains(&"get"));
    assert!(names.contains(&"set_value"));
    assert_eq!(classes.get("Other").unwrap().methods.len(), 1);
}

#[test]
fn generate_module_lean_emits_exports_and_submodules() {
    let sub = SubmoduleBinding {
        path: "A.B.Inner".to_string(),
        exports: vec![method("inner_fn")],
    };
    let binding = module_binding("A.B", vec![method("outer_fn")], vec![sub]);
    let text = generate_module_lean(&binding);

    assert!(text.starts_with("-- Generated by leo3-codegen. Do not edit."));
    assert!(text.contains("-- Module: A.B"));
    assert!(text.contains("-- Submodule: A.B.Inner"));
    assert!(text.contains("@[extern \"__lean_ffi_outer_fn\"] opaque outer_fn : UInt32"));
    assert!(text.contains("@[extern \"__lean_ffi_inner_fn\"] opaque inner_fn : UInt32"));
}

#[test]
fn generate_class_lean_emits_opaque_decl_and_methods() {
    let mut with_decl = method("decl_method");
    with_decl.lean_decl = Some("opaque DeclMethod : UInt32".to_string());
    // Methods without a pre-rendered decl are not emitted by
    // generate_class_lean (the class decls are authoritative).
    let metadata = class_metadata("Counter", vec![with_decl, method("plain")]);
    let text = generate_class_lean(&metadata);

    assert!(text.contains("-- Class: Counter"));
    assert!(text.contains("opaque Counter : Type"));
    assert!(text.contains("opaque DeclMethod : UInt32\n"));
    assert!(!text.contains("plain"));
}

#[test]
fn generate_function_extern_uses_decl_or_synthesizes() {
    let mut func = method("f");
    func.lean_decl = Some("opaque Custom : Unit".to_string());
    assert_eq!(generate_function_extern(&func), "opaque Custom : Unit\n");

    // Params with no Lean type fall back to the Rust type name.
    let mut plain = method("g");
    plain.params = vec![ParameterBinding {
        name: "x".to_string(),
        ty: type_binding("u64", None),
        passing: PassingStyle::Borrowed,
    }];
    plain.return_type = type_binding("()", Some("Unit"));
    let text = generate_function_extern(&plain);
    assert_eq!(text, "@[extern \"__lean_ffi_g\"] opaque g : u64 → Unit\n");
}

#[test]
fn framed_metadata_round_trip() {
    let framed = frame_metadata_entry(
        "__leo3_module_metadata_json_RoundTrip",
        r#"{"name":"RoundTrip","exports":[],"submodules":[]}"#,
    );
    let parsed = parse_metadata_entries(&framed);
    assert_eq!(parsed.len(), 1);
    assert_eq!(parsed[0].0, "__leo3_module_metadata_json_RoundTrip");
    assert!(parsed[0].1.contains("RoundTrip"));
}

#[test]
fn merging_the_same_class_twice_changes_nothing() {
    let mut classes = ClassTable::new();
    merge_class_metadata(&mut classes, class_metadata("C", vec![method("a")]));
    merge_class_metadata(&mut classes, class_metadata("C", vec![method("a")]));
    assert_eq!(classes.len(), 1);
    assert_eq!(classes.get("C").unwrap().methods.len(), 1);
    assert!(classes.get("D").is_none());
}

#[test]
fn module_file_name_maps_dots_to_directories() {
    assert_eq!(module_file_name("A.B"), "A/B.lean");
    assert_eq!(module_file_name("Plain"), "Plain.lean");
}

#[test]
fn extern_synthesis_with_several_params() {
    let mut f = method("h");
    f.params = vec![
        ParameterBinding {
            name: "a".to_string(),
            ty: type_binding("u8", Some("UInt8")),
            passing: PassingStyle::Owned,
        },
        ParameterBinding {
            name: "b".to_string(),
            ty: type_binding("&str", Some("String")),
            passing: PassingStyle::Borrowed,
        },
    ];
    assert_eq!(
        generate_function_extern(&f),
        "@[extern \"__lean_ffi_h\"] opaque h : UInt8 → String → UInt32\n"
    );
}

#[test]
fn a_new_class_keeps_each_method_once() {
    let mut classes = ClassTable::new();
    merge_class_metadata(&mut classes, class_metadata("D", vec![method("a"), method("a"), method("b")]));
    let d = classes.get("D").unwrap();
    let names: Vec<&str> = d.methods.iter().map(|m| m.rust_name.as_str()).collect();
    assert_eq!(names, vec!["a", "b"]);
}
