use leo3_tooling::analysis::{
    analyze_concrete_instance, analyze_lean_class_field_accessors, analyze_lean_function, analyze_lean_class_impl,
    analyze_lean_class_method, analyze_lean_class_struct, analyze_leanfn_type, class_opaque_decl,
    check_concrete_names, collect_module_exports, collect_submodule_exports, field_accessor_bindings, filter_exports,
    is_leanfn_attr, lean_type_arg, nested_prod_type, unit_binding,
};
use leo3_tooling::model::{
    BindingKind, BindingSemantics, FunctionOptions, PassingStyle, ReceiverStyle, TypeShape,
};
use leo3_tooling::syntax::{
    AttrItem, ConcreteAttr, ConcreteInstance, FieldItem, Fields, FnInput, FnItem, GenericArg,
    GenericParam, GenericParamItem, ImplItem, Item, LeanfnOptions, PathArgs, PathSegment,
    Receiver, RustType, StructItem, TypeKind, TypePath,
};

// ---- building the syntax model by hand ----

fn seg(ident: &str, args: PathArgs) -> PathSegment {
    PathSegment { ident: ident.to_string(), args }
}

/// `name` as a one-segment path type.
fn ty(name: &str) -> RustType {
    RustType {
        text: name.to_string(),
        kind: TypeKind::Path(TypePath { qself: false, segments: vec![seg(name, PathArgs::Plain)] }),
    }
}

/// `name<args...>`, rendered as `quote` prints it.
fn generic(segments: &[&str], args: Vec<RustType>) -> RustType {
    let arg_text: Vec<String> = args.iter().map(|a| a.text.clone()).collect();
    let text = format!("{} < {} >", segments.join(" :: "), arg_text.join(" , "));
    let mut segs: Vec<PathSegment> =
        segments[..segments.len() - 1].iter().map(|s| seg(s, PathArgs::Plain)).collect();
    segs.push(seg(
        segments[segments.len() - 1],
        PathArgs::Angle(args.into_iter().map(GenericArg::Type).collect()),
    ));
    RustType { text, kind: TypeKind::Path(TypePath { qself: false, segments: segs }) }
}

fn reference(elem: RustType) -> RustType {
    RustType { text: format!("& {}", elem.text), kind: TypeKind::Reference { mutable: false, elem: Box::new(elem) } }
}

fn static_reference(elem: RustType) -> RustType {
    RustType {
        text: format!("& 'static {}", elem.text),
        kind: TypeKind::Reference { mutable: false, elem: Box::new(elem) },
    }
}

fn slice(elem: RustType) -> RustType {
    RustType { text: format!("[{}]", elem.text), kind: TypeKind::Slice(Box::new(elem)) }
}

fn array(elem: RustType, n: usize) -> RustType {
    RustType { text: format!("[{} ; {}]", elem.text, n), kind: TypeKind::Array(Box::new(elem)) }
}

fn tuple(elems: Vec<RustType>) -> RustType {
    let text: Vec<String> = elems.iter().map(|e| e.text.clone()).collect();
    RustType { text: format!("({})", text.join(" , ")), kind: TypeKind::Tuple(elems) }
}

fn attr(name: &str) -> AttrItem {
    attr_path(&[name])
}

fn attr_path(segments: &[&str]) -> AttrItem {
    AttrItem {
        path: segments.iter().map(|s| s.to_string()).collect(),
        str_value: None,
        nested_name: None,
        leanfn_options: None,
        leanclass_options: None,
    }
}

/// `#[name = "value"]`.
fn name_attr(value: &str) -> AttrItem {
    AttrItem { str_value: Some(value.to_string()), ..attr("name") }
}

/// `#[helper(name = "value")]`.
fn nested_name_attr(helper: &str, value: &str) -> AttrItem {
    AttrItem { nested_name: Some(value.to_string()), ..attr(helper) }
}

/// `#[leanfn(...)]` with parsed options.
fn leanfn(name: Option<&str>, concretes: Vec<ConcreteInstance>) -> AttrItem {
    AttrItem {
        leanfn_options: Some(Ok(LeanfnOptions { name: name.map(str::to_string), concretes })),
        ..attr("leanfn")
    }
}

/// `#[leanfn(...)]` whose options did not parse.
fn leanfn_error(message: &str) -> AttrItem {
    AttrItem { leanfn_options: Some(Err(message.to_string())), ..attr("leanfn") }
}

fn param(name: &str, t: RustType) -> FnInput {
    FnInput::Typed(Some(name.to_string()), t)
}

fn recv(reference: bool, mutable: bool) -> FnInput {
    FnInput::Receiver(Receiver { reference, mutable })
}

fn type_param(name: &str) -> GenericParamItem {
    GenericParamItem { kind: GenericParam::Type, name: name.to_string() }
}

fn func(
    ident: &str,
    generics: Vec<GenericParamItem>,
    inputs: Vec<FnInput>,
    output: Option<RustType>,
    attrs: Vec<AttrItem>,
) -> FnItem {
    FnItem { ident: ident.to_string(), variadic: false, generics, inputs, output, attrs }
}

fn field(name: &str, attrs: Vec<AttrItem>, t: RustType) -> FieldItem {
    FieldItem { ident: Some(name.to_string()), attrs, ty: t }
}

fn class_struct(ident: &str, has_generics: bool, fields: Fields) -> StructItem {
    StructItem { attrs: vec![], ident: ident.to_string(), has_generics, fields }
}

fn impl_foo(methods: Vec<FnItem>) -> ImplItem {
    ImplItem { attrs: vec![], self_ty: ty("Foo"), has_generics: false, methods }
}

// ---- analyze_lean_class_struct / class_opaque_decl ----

#[test]
fn class_struct_defaults_to_rust_name() {
    let item = class_struct("Foo", false, Fields::Named(vec![field("x", vec![], ty("u32"))]));
    let binding = analyze_lean_class_struct(&item, None).expect("struct analysis");
    assert_eq!(binding.rust_name, "Foo");
    assert_eq!(binding.lean_name, "Foo");
    assert_eq!(
        binding.opaque_decl,
        "opaque Foo.ffi : NonemptyType\n\
         def Foo : Type := Foo.ffi.val\n\
         instance : Nonempty Foo := Foo.ffi.property"
    );
}

#[test]
fn class_struct_respects_lean_name_override() {
    let item = class_struct("Foo", false, Fields::Named(vec![field("x", vec![], ty("u32"))]));
    let binding = analyze_lean_class_struct(&item, Some("Renamed")).expect("struct analysis");
    assert_eq!(binding.rust_name, "Foo");
    assert_eq!(binding.lean_name, "Renamed");
    assert!(binding.opaque_decl.starts_with("opaque Renamed.ffi : NonemptyType"));
    assert!(binding.opaque_decl.contains("def Renamed : Type := Renamed.ffi.val"));
    assert!(binding.opaque_decl.contains("instance : Nonempty Renamed := Renamed.ffi.property"));
}

#[test]
fn class_struct_rejects_generics() {
    let item = class_struct("Foo", true, Fields::Named(vec![field("x", vec![], ty("T"))]));
    let err = analyze_lean_class_struct(&item, None).expect_err("generic struct must fail");
    assert!(err.contains("#[leanclass] does not support generic types yet"));
}

#[test]
fn class_opaque_decl_emits_nonempty_type_triple() {
    assert_eq!(
        class_opaque_decl("Foo"),
        "opaque Foo.ffi : NonemptyType\n\
         def Foo : Type := Foo.ffi.val\n\
         instance : Nonempty Foo := Foo.ffi.property"
    );
}

// ---- analyze_lean_class_field_accessors ----

#[test]
fn field_accessors_get_set_both_and_none() {
    let item = class_struct(
        "Foo",
        false,
        Fields::Named(vec![
            field("x", vec![attr("get")], ty("u32")),
            field("y", vec![attr("set")], ty("u32")),
            field("z", vec![attr("get"), attr("set")], ty("u32")),
            field("plain", vec![], ty("u32")),
        ]),
    );
    let accessors = analyze_lean_class_field_accessors(&item).expect("accessors");
    assert_eq!(accessors.len(), 3);
    assert_eq!((accessors[0].getter, accessors[0].setter), (true, false));
    assert_eq!((accessors[1].getter, accessors[1].setter), (false, true));
    assert_eq!((accessors[2].getter, accessors[2].setter), (true, true));
    assert_eq!(accessors[0].rust_name, "x");
    assert_eq!(accessors[0].ty.lean.as_deref(), Some("UInt32"));

    let item = class_struct("Bar", false, Fields::Named(vec![field("a", vec![], ty("u32"))]));
    assert!(analyze_lean_class_field_accessors(&item).expect("accessors").is_empty());

    let item = class_struct("Baz", false, Fields::Unit);
    assert!(analyze_lean_class_field_accessors(&item).expect("accessors").is_empty());
}

#[test]
fn field_accessors_reject_unsupported_types() {
    let item = class_struct(
        "Foo",
        false,
        Fields::Named(vec![field("x", vec![attr("get")], static_reference(ty("str")))]),
    );
    let err = analyze_lean_class_field_accessors(&item).expect_err("reference field must fail");
    assert!(err.contains("reference types are not supported"));

    let map = generic(&["std", "collections", "HashMap"], vec![ty("u8"), ty("u8")]);
    let item = class_struct("Foo", false, Fields::Named(vec![field("x", vec![attr("get")], map)]));
    let err = analyze_lean_class_field_accessors(&item).expect_err("generic field must fail");
    assert!(err.contains("generic type `HashMap` is not supported"));
}

#[test]
fn field_accessors_require_named_fields() {
    let item = class_struct(
        "Foo",
        false,
        Fields::Unnamed(vec![FieldItem { ident: None, attrs: vec![attr("get")], ty: ty("u32") }]),
    );
    let err = analyze_lean_class_field_accessors(&item).expect_err("tuple field accessor must fail");
    assert!(err.contains("#[get] / #[set] field accessors require named struct fields"));
}

// ---- field_accessor_bindings ----

#[test]
fn field_accessor_bindings_build_decls() {
    let item = class_struct(
        "Foo",
        false,
        Fields::Named(vec![
            field("x", vec![attr("get")], ty("u32")),
            field("y", vec![attr("set")], ty("u32")),
        ]),
    );
    let accessors = analyze_lean_class_field_accessors(&item).expect("accessors");
    let bindings = field_accessor_bindings("Foo", &accessors);
    assert_eq!(bindings.len(), 2);

    let getter = &bindings[0];
    assert_eq!(getter.rust_name, "x");
    assert_eq!(getter.lean_name, "Foo.x");
    assert_eq!(getter.owner.as_deref(), Some("Foo"));
    assert_eq!(getter.ffi_symbol, "__lean_ffi_Foo_x");
    assert_eq!(getter.receiver, ReceiverStyle::Ref);
    assert_eq!(getter.kind, BindingKind::Getter);
    assert_eq!(getter.semantics, BindingSemantics::Value);
    assert!(getter.params.is_empty());
    assert_eq!(
        getter.lean_decl.as_deref(),
        Some("@[extern \"__lean_ffi_Foo_x\"] opaque Foo.x : Foo → UInt32")
    );

    let setter = &bindings[1];
    assert_eq!(setter.rust_name, "set_y");
    assert_eq!(setter.lean_name, "Foo.set_y");
    assert_eq!(setter.ffi_symbol, "__lean_ffi_Foo_set_y");
    assert_eq!(setter.receiver, ReceiverStyle::MutRef);
    assert_eq!(setter.kind, BindingKind::Setter);
    assert_eq!(setter.semantics, BindingSemantics::MutatesSelf);
    assert_eq!(setter.params.len(), 1);
    assert_eq!(setter.params[0].name, "value");
    assert_eq!(setter.params[0].passing, PassingStyle::Owned);
    assert_eq!(setter.return_type.lean.as_deref(), Some("Foo"));
    assert_eq!(
        setter.lean_decl.as_deref(),
        Some("@[extern \"__lean_ffi_Foo_set_y\"] opaque Foo.set_y : Foo → UInt32 → Foo")
    );
}

// ---- analyze_lean_class_impl ----

fn unit() -> RustType {
    tuple(vec![])
}

#[test]
fn class_impl_analyzes_receivers() {
    let item = impl_foo(vec![
        func("stat", vec![], vec![param("x", ty("u32"))], Some(ty("u32")), vec![]),
        func("get", vec![], vec![recv(true, false)], Some(ty("u32")), vec![]),
        func("bump", vec![], vec![recv(true, true), param("v", ty("u32"))], None, vec![]),
        func("take", vec![], vec![recv(false, false)], Some(ty("u32")), vec![]),
    ]);
    let binding = analyze_lean_class_impl(&item, None).expect("impl analysis");
    assert_eq!(binding.class_name, "Foo");
    assert_eq!(binding.methods.len(), 4);
    let receivers: Vec<ReceiverStyle> = binding.methods.iter().map(|m| m.receiver).collect();
    assert_eq!(
        receivers,
        vec![ReceiverStyle::NoSelf, ReceiverStyle::Ref, ReceiverStyle::MutRef, ReceiverStyle::Owned]
    );

    let stat = &binding.methods[0];
    assert_eq!(stat.lean_name, "Foo.stat");
    assert_eq!(stat.owner.as_deref(), Some("Foo"));
    assert_eq!(stat.ffi_symbol, "__lean_ffi_Foo_stat");
    assert!(stat.lean_decl.as_deref().unwrap().contains("opaque Foo.stat : UInt32 → UInt32"));

    let bump = &binding.methods[2];
    assert_eq!(bump.semantics, BindingSemantics::MutatesSelf);
    assert_eq!(bump.return_type.lean.as_deref(), Some("Foo"));
    assert!(bump.lean_decl.as_deref().unwrap().contains("opaque Foo.bump : Foo → UInt32 → Foo"));

    let take = &binding.methods[3];
    assert_eq!(take.semantics, BindingSemantics::Value);
    assert!(take.lean_decl.as_deref().unwrap().contains("opaque Foo.take : Foo → UInt32"));

    assert!(binding.methods_decl.contains("opaque Foo.get : Foo → UInt32"));
}

#[test]
fn class_impl_lean_name_override() {
    let item =
        impl_foo(vec![func("get", vec![], vec![recv(true, false)], Some(ty("u32")), vec![])]);
    let binding = analyze_lean_class_impl(&item, Some("Renamed")).expect("impl analysis");
    assert_eq!(binding.class_name, "Foo");
    assert_eq!(binding.methods[0].lean_name, "Renamed.get");
    assert!(binding.methods[0]
        .lean_decl
        .as_deref()
        .unwrap()
        .contains("opaque Renamed.get : Renamed → UInt32"));
    assert!(binding.methods_decl.contains("opaque Renamed.get"));
}

#[test]
fn class_impl_rejects_generics_and_non_path_self() {
    let item = ImplItem {
        attrs: vec![],
        self_ty: generic(&["Foo"], vec![ty("T")]),
        has_generics: true,
        methods: vec![func("m", vec![], vec![recv(true, false)], None, vec![])],
    };
    let err = analyze_lean_class_impl(&item, None).expect_err("generic impl must fail");
    assert!(err.contains("#[leanclass] does not support generic impl blocks yet"));

    let item = ImplItem {
        attrs: vec![],
        self_ty: tuple(vec![ty("Foo")]),
        has_generics: false,
        methods: vec![func("m", vec![], vec![recv(true, false)], None, vec![])],
    };
    let err = analyze_lean_class_impl(&item, None).expect_err("tuple self type must fail");
    assert!(err.contains("#[leanclass] impl must be for a simple struct type"));
}

// ---- analyze_lean_class_method ----

#[test]
fn class_method_name_attr_and_kinds() {
    let m = func("m", vec![], vec![recv(true, false)], Some(ty("u32")), vec![name_attr("renamed")]);
    let m = analyze_lean_class_method(&m, "Foo", "Foo").expect("method analysis");
    assert_eq!(m.rust_name, "m");
    assert_eq!(m.lean_name, "Foo.renamed");
    assert_eq!(m.ffi_symbol, "__lean_ffi_Foo_m");
    assert_eq!(m.kind, BindingKind::Method);
    assert!(m.lean_decl.as_deref().unwrap().contains("opaque Foo.renamed : Foo → UInt32"));

    let g = func(
        "g",
        vec![],
        vec![recv(true, false)],
        Some(ty("u32")),
        vec![nested_name_attr("getter", "g")],
    );
    let g = analyze_lean_class_method(&g, "Foo", "Foo").expect("getter analysis");
    assert_eq!(g.lean_name, "Foo.g");
    assert_eq!(g.kind, BindingKind::Getter);
    assert_eq!(g.receiver, ReceiverStyle::Ref);

    let s = func(
        "s",
        vec![],
        vec![recv(true, true), param("v", ty("u32"))],
        None,
        vec![nested_name_attr("setter", "s")],
    );
    let s = analyze_lean_class_method(&s, "Foo", "Foo").expect("setter analysis");
    assert_eq!(s.lean_name, "Foo.s");
    assert_eq!(s.kind, BindingKind::Setter);
    assert_eq!(s.receiver, ReceiverStyle::MutRef);
    assert_eq!(s.semantics, BindingSemantics::MutatesSelf);
    assert_eq!(s.return_type.lean.as_deref(), Some("Foo"));
}

#[test]
fn class_method_kind_errors() {
    let cases: Vec<(FnItem, &str)> = vec![
        (
            func("m", vec![], vec![recv(true, false)], Some(ty("u32")), vec![attr("getter"), attr("setter")]),
            "#[getter] and #[setter] are mutually exclusive",
        ),
        (
            func("m", vec![], vec![recv(true, true)], Some(ty("u32")), vec![attr("getter")]),
            "#[getter] methods must take &self",
        ),
        (
            func(
                "m",
                vec![],
                vec![recv(true, false), param("x", ty("u32"))],
                Some(ty("u32")),
                vec![attr("getter")],
            ),
            "#[getter] methods must not take additional parameters",
        ),
        (
            func("m", vec![], vec![recv(true, false)], None, vec![attr("getter")]),
            "#[getter] methods must return a non-unit value",
        ),
        (
            func("m", vec![], vec![recv(true, false), param("v", ty("u32"))], None, vec![attr("setter")]),
            "#[setter] methods must take &mut self",
        ),
        (
            func(
                "m",
                vec![],
                vec![recv(true, true), param("a", ty("u32")), param("b", ty("u32"))],
                None,
                vec![attr("setter")],
            ),
            "#[setter] methods must take exactly one parameter",
        ),
        (
            func(
                "m",
                vec![],
                vec![recv(true, true), param("v", ty("u32"))],
                Some(ty("u32")),
                vec![attr("setter")],
            ),
            "#[setter] methods must return `()` (the updated object is returned to Lean)",
        ),
    ];
    for (method, expected) in &cases {
        let err = analyze_lean_class_method(method, "Foo", "Foo").expect_err("kind validation must fail");
        assert!(err.contains(expected), "expected {expected:?} in error {err}");
    }
}

#[test]
fn class_method_rejects_generics() {
    let m = func("m", vec![type_param("T")], vec![recv(true, false)], None, vec![]);
    let err = analyze_lean_class_method(&m, "Foo", "Foo").expect_err("generic method must fail");
    assert!(err.contains("Generic methods are not supported yet"));
}

// ---- analyze_lean_function ----

#[test]
fn leanfn_borrowed_params_and_name_override() {
    let f = func(
        "greet",
        vec![],
        vec![
            param("name", reference(ty("str"))),
            param("bytes", reference(slice(ty("u8")))),
            param("nums", reference(slice(ty("u32")))),
            param("fixed", reference(array(ty("u8"), 4))),
        ],
        Some(ty("u64")),
        vec![],
    );
    let binding = analyze_lean_function(
        &f,
        FunctionOptions { lean_name: Some("greetLean".to_string()) },
    )
    .expect("leanfn analysis");
    assert_eq!(binding.rust_name, "greet");
    assert_eq!(binding.lean_name, "greetLean");
    assert_eq!(binding.ffi_symbol, "greetLean");
    assert_eq!(binding.receiver, ReceiverStyle::NoSelf);
    assert_eq!(binding.kind, BindingKind::Method);
    assert_eq!(binding.semantics, BindingSemantics::Value);
    assert_eq!(binding.params.len(), 4);
    assert_eq!(binding.params[0].name, "name");
    assert_eq!(binding.params[0].passing, PassingStyle::Borrowed);
    assert_eq!(binding.params[0].ty.lean.as_deref(), Some("String"));
    assert_eq!(binding.params[0].ty.shape, TypeShape::String);
    assert_eq!(binding.params[1].ty.lean.as_deref(), Some("ByteArray"));
    assert_eq!(binding.params[1].ty.shape, TypeShape::ByteArray);
    assert_eq!(binding.params[2].ty.lean.as_deref(), Some("Array UInt32"));
    assert_eq!(binding.params[2].ty.shape, TypeShape::Array);
    assert_eq!(binding.params[3].ty.lean.as_deref(), Some("Array UInt8"));
    assert_eq!(binding.return_type.lean.as_deref(), Some("UInt64"));
    assert_eq!(binding.return_type.shape, TypeShape::Scalar);
}

#[test]
fn leanfn_default_name_and_unit_return() {
    let f = func("noop", vec![], vec![], None, vec![]);
    let binding = analyze_lean_function(&f, FunctionOptions::default())
        .expect("leanfn analysis");
    assert_eq!(binding.rust_name, "noop");
    assert_eq!(binding.lean_name, "noop");
    assert!(binding.params.is_empty());
    assert_eq!(binding.return_type.rust, "()");
    assert_eq!(binding.return_type.lean.as_deref(), Some("Unit"));
    assert_eq!(binding.return_type.shape, TypeShape::Unit);
}

#[test]
fn leanfn_rejects_generics_self_and_complex_patterns() {
    let f = func("generic", vec![type_param("T")], vec![param("x", ty("T"))], None, vec![]);
    let err = analyze_lean_function(&f, FunctionOptions::default()).expect_err("generics must fail");
    assert!(err.contains("Generic functions are not supported yet"));

    let f = func("method", vec![], vec![recv(true, false)], None, vec![]);
    let err = analyze_lean_function(&f, FunctionOptions::default()).expect_err("self must fail");
    assert!(err.contains("Methods with `self` are not supported."));

    let f = func(
        "pat",
        vec![],
        vec![FnInput::Typed(None, tuple(vec![ty("u32"), ty("u32")]))],
        None,
        vec![],
    );
    let err =
        analyze_lean_function(&f, FunctionOptions::default()).expect_err("complex pattern must fail");
    assert!(err.contains("Only simple parameter patterns are supported"));
}

// ---- analyze_concrete_instance ----

fn concrete(types: Vec<RustType>, name: &str) -> ConcreteAttr {
    ConcreteAttr { types, name: name.to_string() }
}

#[test]
fn concrete_instance_monomorphizes_generic_function() {
    // `fn wrap<T>(value: T, extra: u8) -> T` with `u32` in place of `T`.
    let f = func(
        "wrap",
        vec![type_param("T")],
        vec![param("value", ty("u32")), param("extra", ty("u8"))],
        Some(ty("u32")),
        vec![],
    );
    let binding =
        analyze_concrete_instance(&f, &concrete(vec![ty("u32")], "wrapU32")).expect("concrete instance");
    assert_eq!(binding.rust_name, "wrap");
    assert_eq!(binding.lean_name, "wrapU32");
    assert_eq!(binding.ffi_symbol, "wrapU32");
    assert_eq!(binding.receiver, ReceiverStyle::NoSelf);
    assert_eq!(binding.semantics, BindingSemantics::Value);
    assert_eq!(binding.params.len(), 2);
    assert_eq!(binding.params[0].name, "value");
    assert_eq!(binding.params[0].ty.lean.as_deref(), Some("UInt32"));
    assert_eq!(binding.params[0].passing, PassingStyle::Owned);
    assert_eq!(binding.params[1].ty.lean.as_deref(), Some("UInt8"));
    assert_eq!(binding.return_type.lean.as_deref(), Some("UInt32"));
}

#[test]
fn concrete_instance_error_cases() {
    let f = func("one", vec![type_param("T")], vec![param("x", ty("u32"))], None, vec![]);
    let err = analyze_concrete_instance(&f, &concrete(vec![ty("u32"), ty("u64")], "n"))
        .expect_err("wrong arity must fail");
    assert!(err.contains("expected 1 concrete type(s) for 1 generic parameter(s), got 2"));

    let lifetime = GenericParamItem { kind: GenericParam::Lifetime, name: "a".to_string() };
    let f = func("lt", vec![lifetime], vec![param("x", reference(ty("str")))], None, vec![]);
    let err = analyze_concrete_instance(&f, &concrete(vec![ty("u32")], "n"))
        .expect_err("lifetime must fail");
    assert!(err.contains("lifetime parameters are not supported with `concrete`"));

    let konst = GenericParamItem { kind: GenericParam::Const, name: "N".to_string() };
    let f = func("cn", vec![konst], vec![param("x", array(ty("u8"), 1))], None, vec![]);
    let err = analyze_concrete_instance(&f, &concrete(vec![ty("u32")], "n"))
        .expect_err("const param must fail");
    assert!(err.contains("const parameters are not supported with `concrete`"));

    let f = func(
        "selfy",
        vec![type_param("T")],
        vec![recv(true, false), param("x", ty("u32"))],
        None,
        vec![],
    );
    let err =
        analyze_concrete_instance(&f, &concrete(vec![ty("u32")], "n")).expect_err("self must fail");
    assert!(err.contains("Methods with `self` are not supported."));

    let f = func(
        "pat",
        vec![type_param("T")],
        vec![FnInput::Typed(None, tuple(vec![ty("u32"), ty("u32")]))],
        None,
        vec![],
    );
    let err = analyze_concrete_instance(&f, &concrete(vec![ty("u32")], "n"))
        .expect_err("complex pattern must fail");
    assert!(err.contains("Only simple parameter patterns are supported"));
}

// ---- collect_module_exports ----

fn plain_leanfn(ident: &str, name: Option<&str>) -> Item {
    Item::Fn(func(ident, vec![], vec![], None, vec![leanfn(name, vec![])]))
}

#[test]
fn collect_module_exports_plain_named_crate_and_concrete() {
    // `#[leanfn(concrete(u32, name = "fooU32"), crate = "leo3")] fn foo<T>(x: T) -> T`
    let instance = func("foo", vec![type_param("T")], vec![param("x", ty("u32"))], Some(ty("u32")), vec![]);
    let foo = func(
        "foo",
        vec![type_param("T")],
        vec![param("x", ty("T"))],
        Some(ty("T")),
        vec![leanfn(
            None,
            vec![ConcreteInstance { attr: concrete(vec![ty("u32")], "fooU32"), instance }],
        )],
    );
    let items = vec![
        plain_leanfn("alpha", None),
        plain_leanfn("beta", Some("beta_lean")),
        Item::Fn(foo),
        Item::Fn(func("plain", vec![], vec![], None, vec![])),
        Item::Other,
    ];
    let exports = collect_module_exports(&items).expect("module exports");
    assert_eq!(exports.len(), 3);
    assert_eq!(exports[0].rust_name, "alpha");
    assert_eq!(exports[0].lean_name, "alpha");
    assert_eq!(exports[0].ffi_symbol, "alpha");
    assert_eq!(exports[1].rust_name, "beta");
    assert_eq!(exports[1].lean_name, "beta_lean");
    assert_eq!(exports[1].ffi_symbol, "beta_lean");
    assert_eq!(exports[2].rust_name, "foo");
    assert_eq!(exports[2].lean_name, "fooU32");
    assert_eq!(exports[2].ffi_symbol, "fooU32");
    assert_eq!(exports[2].params[0].ty.lean.as_deref(), Some("UInt32"));
    assert_eq!(exports[2].return_type.lean.as_deref(), Some("UInt32"));
}

#[test]
fn leanfn_option_parse_errors() {
    for message in [
        "Expected name-value attribute like `name = \"...\"`",
        "`concrete` requires `name = \"...\"`",
        "`concrete` requires at least one type argument",
        "expected `name`",
    ] {
        let items = vec![Item::Fn(func("foo", vec![], vec![], None, vec![leanfn_error(message)]))];
        let err = collect_module_exports(&items).expect_err("option error must surface");
        assert!(err.contains(message));
    }
}

// ---- collect_submodule_exports ----

fn sample_modules() -> Vec<Item> {
    let deepest = Item::Mod("deepest".to_string(), Some(vec![plain_leanfn("z", Some("z_lean"))]));
    let inner = Item::Mod("inner".to_string(), Some(vec![plain_leanfn("b", None), deepest]));
    vec![Item::Mod("outer".to_string(), Some(vec![plain_leanfn("a", Some("a_lean")), inner]))]
}

#[test]
fn collect_submodule_exports_nested_and_prefixed() {
    let items = sample_modules();
    let subs = collect_submodule_exports(&items, "").expect("submodule exports");
    let paths: Vec<&str> = subs.iter().map(|s| s.path.as_str()).collect();
    assert_eq!(paths, vec!["outer", "outer.inner", "outer.inner.deepest"]);
    assert_eq!(subs[0].exports.len(), 1);
    assert_eq!(subs[0].exports[0].lean_name, "a_lean");
    assert_eq!(subs[1].exports[0].rust_name, "b");
    assert_eq!(subs[2].exports[0].lean_name, "z_lean");

    let subs = collect_submodule_exports(&items, "base").expect("prefixed exports");
    let paths: Vec<&str> = subs.iter().map(|s| s.path.as_str()).collect();
    assert_eq!(paths, vec!["base.outer", "base.outer.inner", "base.outer.inner.deepest"]);
}

#[test]
fn collect_submodule_exports_skips_empty_and_out_of_line_mods() {
    let items = vec![
        Item::Mod("empty".to_string(), Some(vec![])),
        Item::Mod("external".to_string(), None),
    ];
    let subs = collect_submodule_exports(&items, "").expect("submodule exports");
    assert!(subs.is_empty());
}

// ---- filter_exports ----

#[test]
fn filter_exports_restricts_and_orders() {
    let items = vec![plain_leanfn("alpha", None), plain_leanfn("beta", Some("beta_lean"))];
    let exports = collect_module_exports(&items).expect("module exports");
    let filtered = filter_exports(exports.clone(), &["beta_lean".to_string(), "alpha".to_string()])
        .expect("filter exports");
    assert_eq!(filtered.len(), 2);
    assert_eq!(filtered[0].rust_name, "beta");
    assert_eq!(filtered[1].rust_name, "alpha");
}

#[test]
fn filter_exports_matches_rust_names_too() {
    let items = vec![plain_leanfn("beta", Some("beta_lean"))];
    let exports = collect_module_exports(&items).expect("module exports");
    let filtered = filter_exports(exports, &["beta".to_string()]).expect("filter exports");
    assert_eq!(filtered.len(), 1);
    assert_eq!(filtered[0].lean_name, "beta_lean");
}

#[test]
fn filter_exports_missing_name_errors() {
    let items = vec![plain_leanfn("alpha", None)];
    let exports = collect_module_exports(&items).expect("module exports");
    let err = filter_exports(exports, &["missing".to_string()]).expect_err("unknown export must fail");
    assert!(err.contains("export `missing` not found in module"));
}

// ---- is_leanfn_attr ----

#[test]
fn is_leanfn_attr_matches_last_path_segment() {
    let cases: Vec<(AttrItem, bool)> = vec![
        (attr_path(&["leanfn"]), true),
        (leanfn(Some("x"), vec![]), true),
        (attr_path(&["leo3", "leanfn"]), true),
        (attr_path(&["leanfn", "nested"]), false),
        (attr_path(&["leanfnx"]), false),
        (attr_path(&["cfg"]), false),
    ];
    for (a, expected) in &cases {
        assert_eq!(is_leanfn_attr(a), *expected);
    }
}

// ---- type mapping ----

#[test]
fn leanfn_types_map_to_lean_names() {
    let b = analyze_leanfn_type(&generic(&["Option"], vec![ty("u32")])).unwrap();
    assert_eq!(b.lean.as_deref(), Some("Option UInt32"));
    assert_eq!(b.shape, TypeShape::Option);
    let b = analyze_leanfn_type(&generic(&["Vec"], vec![ty("u8")])).unwrap();
    assert_eq!(b.lean.as_deref(), Some("Array UInt8"));
    assert_eq!(b.shape, TypeShape::Array);
    let b = analyze_leanfn_type(&tuple(vec![ty("u8"), ty("bool"), ty("String")])).unwrap();
    assert_eq!(b.shape, TypeShape::Prod);
    assert_eq!(b.lean.as_deref(), Some("Prod UInt8 (Prod Bool String)"));
}

#[test]
fn helpers_render_lean_text() {
    assert_eq!(lean_type_arg("UInt32"), "UInt32");
    assert_eq!(lean_type_arg("Array UInt8"), "(Array UInt8)");
    let u = unit_binding();
    assert_eq!(u.rust, "()");
    assert_eq!(u.lean.as_deref(), Some("Unit"));
    let two = [unit_binding(), analyze_leanfn_type(&generic(&["Vec"], vec![ty("u8")])).unwrap()];
    assert_eq!(nested_prod_type(&two), "Prod Unit (Array UInt8)");
}

#[test]
fn concrete_names_must_be_distinct() {
    let names = |xs: &[&str]| xs.iter().map(|s| s.to_string()).collect::<Vec<String>>();
    assert!(check_concrete_names(&names(&["a", "b", "c"])).is_ok());
    assert!(check_concrete_names(&[]).is_ok());
    assert_eq!(
        check_concrete_names(&names(&["a", "b", "a", "b"])).unwrap_err(),
        "duplicate concrete name `a`"
    );
}
