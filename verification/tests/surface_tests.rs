use leo3_tooling::surface::{collect_module_exports, render_leanclass_impl_block, scan_items, ScanResult};
use leo3_tooling::syntax::{
    AttrItem, FnInput, FnItem, GenericArg, ImplItem, Item, LeanclassOptions, LeanfnOptions,
    PathArgs, PathSegment, Receiver, RustType, StructItem, TypeKind, TypePath, Fields,
};

fn seg(ident: &str, args: PathArgs) -> PathSegment {
    PathSegment { ident: ident.to_string(), args }
}

fn ty(name: &str) -> RustType {
    RustType {
        text: name.to_string(),
        kind: TypeKind::Path(TypePath { qself: false, segments: vec![seg(name, PathArgs::Plain)] }),
    }
}

fn generic(name: &str, args: Vec<RustType>) -> RustType {
    let arg_text: Vec<String> = args.iter().map(|a| a.text.clone()).collect();
    RustType {
        text: format!("{} < {} >", name, arg_text.join(" , ")),
        kind: TypeKind::Path(TypePath {
            qself: false,
            segments: vec![seg(name, PathArgs::Angle(args.into_iter().map(GenericArg::Type).collect()))],
        }),
    }
}

fn reference(elem: RustType) -> RustType {
    RustType { text: format!("& {}", elem.text), kind: TypeKind::Reference { mutable: false, elem: Box::new(elem) } }
}

fn tuple(elems: Vec<RustType>) -> RustType {
    let text: Vec<String> = elems.iter().map(|e| e.text.clone()).collect();
    RustType { text: format!("({})", text.join(" , ")), kind: TypeKind::Tuple(elems) }
}

fn attr(path: &[&str]) -> AttrItem {
    AttrItem {
        path: path.iter().map(|s| s.to_string()).collect(),
        str_value: None,
        nested_name: None,
        leanfn_options: None,
        leanclass_options: None,
    }
}

fn leanfn_attr(name: Option<&str>) -> AttrItem {
    AttrItem {
        leanfn_options: Some(Ok(LeanfnOptions { name: name.map(str::to_string), concretes: vec![] })),
        ..attr(&["leanfn"])
    }
}

fn leanclass_attr() -> AttrItem {
    AttrItem { leanclass_options: Some(Ok(LeanclassOptions { name: None })), ..attr(&["leanclass"]) }
}

fn doc(text: &str) -> AttrItem {
    AttrItem { str_value: Some(text.to_string()), ..attr(&["doc"]) }
}

fn leanfn(name: &str, params: Vec<RustType>, ret: Option<RustType>) -> Item {
    Item::Fn(FnItem {
        ident: name.to_string(),
        variadic: false,
        generics: vec![],
        inputs: params.into_iter().enumerate().map(|(i, t)| FnInput::Typed(Some(format!("a{i}")), t)).collect(),
        output: ret,
        attrs: vec![leanfn_attr(None)],
    })
}

fn has_line(scan: &ScanResult, expected: &str) -> bool {
    scan.declarations.iter().any(|block| block.lines.iter().any(|line| line == expected))
}

fn clean(scan: &ScanResult) -> bool {
    scan.skipped.is_empty() && scan.diagnostics.is_empty()
}

#[test]
fn scan_items_accepts_borrowed_owned_container_aliases() {
    let scan = scan_items(&[
        leanfn("borrowed_string_len", vec![reference(ty("String"))], Some(ty("usize"))),
        leanfn("borrowed_vec_u8_len", vec![reference(generic("Vec", vec![ty("u8")]))], Some(ty("usize"))),
        leanfn("borrowed_vec_u64_len", vec![reference(generic("Vec", vec![ty("u64")]))], Some(ty("usize"))),
    ]);
    assert!(clean(&scan));
    assert!(has_line(&scan, "opaque borrowed_string_len : String → USize"));
    assert!(has_line(&scan, "opaque borrowed_vec_u8_len : ByteArray → USize"));
    assert!(has_line(&scan, "opaque borrowed_vec_u64_len : Array UInt64 → USize"));
}

#[test]
fn scan_items_accepts_option_of_borrowed_owned_container_aliases() {
    let opt = |t: RustType| generic("Option", vec![t]);
    let scan = scan_items(&[
        leanfn("maybe_name", vec![opt(reference(ty("String")))], Some(opt(ty("String")))),
        leanfn("maybe_bytes", vec![opt(reference(generic("Vec", vec![ty("u8")])))], Some(ty("u64"))),
        leanfn("maybe_words", vec![opt(reference(generic("Vec", vec![ty("u64")])))], Some(ty("u64"))),
    ]);
    assert!(clean(&scan));
    assert!(has_line(&scan, "opaque maybe_name : Option String → Option String"));
    assert!(has_line(&scan, "opaque maybe_bytes : Option ByteArray → UInt64"));
    assert!(has_line(&scan, "opaque maybe_words : Option (Array UInt64) → UInt64"));
}

#[test]
fn scan_items_accepts_result_of_borrowed_owned_container_aliases() {
    let res = |a: RustType, b: RustType| generic("Result", vec![a, b]);
    let s = || reference(ty("String"));
    let scan = scan_items(&[
        leanfn("result_name", vec![res(s(), s())], Some(ty("u64"))),
        leanfn("result_bytes", vec![res(reference(generic("Vec", vec![ty("u8")])), s())], Some(ty("u64"))),
        leanfn("result_words", vec![res(reference(generic("Vec", vec![ty("u64")])), s())], Some(ty("u64"))),
    ]);
    assert!(clean(&scan));
    assert!(has_line(&scan, "opaque result_name : Except String String → UInt64"));
    assert!(has_line(&scan, "opaque result_bytes : Except String ByteArray → UInt64"));
    assert!(has_line(&scan, "opaque result_words : Except String (Array UInt64) → UInt64"));
}

#[test]
fn scan_items_accepts_tuple_of_borrowed_owned_container_aliases() {
    let t = tuple(vec![
        reference(ty("String")),
        reference(generic("Vec", vec![ty("u8")])),
        reference(generic("Vec", vec![ty("u64")])),
    ]);
    let scan = scan_items(&[leanfn("tuple_aliases", vec![t], Some(ty("u64")))]);
    assert!(clean(&scan));
    assert!(has_line(
        &scan,
        "opaque tuple_aliases : Prod String (Prod ByteArray (Array UInt64)) → UInt64"
    ));
}

#[test]
fn scan_items_accepts_nested_tuple_of_borrowed_owned_container_aliases() {
    let inner = tuple(vec![reference(ty("String")), reference(generic("Vec", vec![ty("u8")]))]);
    let t = tuple(vec![inner, reference(generic("Vec", vec![ty("u64")]))]);
    let scan = scan_items(&[leanfn("nested_tuple_aliases", vec![t], Some(ty("u64")))]);
    assert!(clean(&scan));
    assert!(has_line(
        &scan,
        "opaque nested_tuple_aliases : Prod (Prod String ByteArray) (Array UInt64) → UInt64"
    ));
}

#[test]
fn scan_items_accepts_option_of_result_borrowed_aliases() {
    let opt_res = |a: RustType, b: RustType| generic("Option", vec![generic("Result", vec![a, b])]);
    let s = || reference(ty("String"));
    let scan = scan_items(&[
        leanfn("nested_names", vec![opt_res(s(), s())], Some(ty("u64"))),
        leanfn("nested_bytes", vec![opt_res(reference(generic("Vec", vec![ty("u8")])), s())], Some(ty("u64"))),
        leanfn("nested_words", vec![opt_res(generic("Vec", vec![ty("u64")]), s())], Some(ty("u64"))),
    ]);
    assert!(clean(&scan));
    assert!(has_line(&scan, "opaque nested_names : Option (Except String String) → UInt64"));
    assert!(has_line(&scan, "opaque nested_bytes : Option (Except String ByteArray) → UInt64"));
    assert!(has_line(&scan, "opaque nested_words : Option (Except String (Array UInt64)) → UInt64"));
}

#[test]
fn leanfn_block_has_extern_line_doc_and_sorted_custom_types() {
    let f = Item::Fn(FnItem {
        ident: "mix".to_string(),
        variadic: false,
        generics: vec![],
        inputs: vec![
            FnInput::Typed(Some("w".into()), ty("Widget")),
            FnInput::Typed(Some("a".into()), ty("Alpha")),
            FnInput::Typed(Some("b".into()), ty("Widget")),
        ],
        output: None,
        attrs: vec![doc(" First line. "), doc("Second."), leanfn_attr(Some("mixLean"))],
    });
    let scan = scan_items(&[f]);
    assert!(clean(&scan));
    let block = &scan.declarations[0];
    assert_eq!(block.item_name, "mixLean");
    assert_eq!(block.doc.as_deref(), Some("First line.\nSecond."));
    assert_eq!(
        block.lines,
        vec!["@[extern \"mixLean\"]", "opaque mixLean : Widget → Alpha → Widget → Unit"]
    );
    assert_eq!(block.custom_types, vec!["Alpha", "Widget"]);
}

#[test]
fn unsupported_leanfn_items_are_skipped_with_a_reason() {
    let mut generic_fn = match leanfn("g", vec![], None) {
        Item::Fn(f) => f,
        _ => unreachable!(),
    };
    generic_fn.generics = vec![leo3_tooling::syntax::GenericParamItem {
        kind: leo3_tooling::syntax::GenericParam::Type,
        name: "T".into(),
    }];
    let mutable = RustType {
        text: "& mut u8".into(),
        kind: TypeKind::Reference { mutable: true, elem: Box::new(ty("u8")) },
    };
    let scan = scan_items(&[
        Item::Fn(generic_fn),
        leanfn("m", vec![mutable], None),
        leanfn("s", vec![], Some(ty("str"))),
        leanfn("p", vec![generic("HashMap", vec![ty("u8"), ty("u8")])], None),
    ]);
    assert!(scan.declarations.is_empty());
    let reasons: Vec<&str> = scan.skipped.iter().map(|s| s.reason.as_str()).collect();
    assert_eq!(reasons[0], "skipping generic binding; generic exported functions are not supported");
    assert_eq!(
        reasons[1],
        "unsupported leo3 type in `m` parameter: unsupported leo3 type `&mut ...`; mutable borrowed inputs are not supported yet"
    );
    assert_eq!(
        reasons[2],
        "unsupported leo3 return type in `s`: unsupported leo3 type `str`; use owned `String`"
    );
    assert_eq!(
        reasons[3],
        "unsupported leo3 type in `p` parameter: unsupported leo3 generic type `HashMap < u8, u8 >`; only Vec<T>, Option<T>, and Result<T, E> are supported"
    );
}

fn method(name: &str, inputs: Vec<FnInput>, output: Option<RustType>) -> FnItem {
    FnItem { ident: name.to_string(), variadic: false, generics: vec![], inputs, output, attrs: vec![] }
}

fn recv(reference: bool, mutable: bool) -> FnInput {
    FnInput::Receiver(Receiver { reference, mutable })
}

#[test]
fn leanclass_items_lower_to_opaque_types_and_methods() {
    let st = Item::Struct(StructItem {
        attrs: vec![leanclass_attr(), doc("A counter.")],
        ident: "Counter".into(),
        has_generics: false,
        fields: Fields::Unit,
    });
    let im = ImplItem {
        attrs: vec![leanclass_attr()],
        self_ty: ty("Counter"),
        has_generics: false,
        methods: vec![
            method("new", vec![FnInput::Typed(Some("n".into()), ty("u32"))], Some(ty("Self"))),
            method("get", vec![recv(true, false)], Some(ty("u32"))),
            method("bump", vec![recv(true, true)], None),
            method("swap", vec![recv(true, true), FnInput::Typed(Some("v".into()), ty("u32"))], Some(ty("u32"))),
        ],
    };
    let scan = scan_items(&[st, Item::Mod("inner".into(), Some(vec![Item::Impl(im)]))]);
    assert!(clean(&scan));
    assert_eq!(scan.declarations[0].lines, vec!["opaque Counter : Type"]);
    assert_eq!(scan.declarations[0].doc.as_deref(), Some("A counter."));
    assert_eq!(
        scan.declarations[1].lines,
        vec![
            "@[extern \"__lean_ffi_Counter_new\"] opaque Counter.new : UInt32 → Counter",
            "@[extern \"__lean_ffi_Counter_get\"] opaque Counter.get : Counter → UInt32",
            "@[extern \"__lean_ffi_Counter_bump\"] opaque Counter.bump : Counter → Counter",
            "@[extern \"__lean_ffi_Counter_swap\"] opaque Counter.swap : Counter → UInt32 → Prod Counter UInt32",
        ]
    );
}

#[test]
fn leanclass_problems_become_diagnostics() {
    let generic_struct = Item::Struct(StructItem {
        attrs: vec![attr(&["leo3", "leanclass"])],
        ident: "G".into(),
        has_generics: true,
        fields: Fields::Unit,
    });
    let bad_options = Item::Impl(ImplItem {
        attrs: vec![AttrItem { leanclass_options: Some(Err("bad".into())), ..attr(&["leanclass"]) }],
        self_ty: ty("Thing"),
        has_generics: false,
        methods: vec![],
    });
    let scan = scan_items(&[generic_struct, bad_options]);
    assert_eq!(scan.diagnostics.len(), 2);
    assert_eq!(scan.diagnostics[0].item_name, "G");
    assert_eq!(scan.diagnostics[0].message, "#[leanclass] does not support generic types yet");
    assert_eq!(scan.diagnostics[1].item_name, "Thing");
    assert_eq!(scan.diagnostics[1].message, "ignoring malformed #[leanclass(...)] attribute: bad");
}

#[test]
fn late_receiver_is_rejected() {
    let im = ImplItem {
        attrs: vec![leanclass_attr()],
        self_ty: ty("C"),
        has_generics: false,
        methods: vec![method("odd", vec![FnInput::Typed(Some("x".into()), ty("u8")), recv(true, false)], None)],
    };
    assert_eq!(
        render_leanclass_impl_block(&im).unwrap_err(),
        "unsupported #[leanclass] method `odd`; only a leading receiver is supported"
    );
}

#[test]
fn module_export_names_follow_name_options() {
    let items = vec![
        leanfn("alpha", vec![], None),
        Item::Fn(FnItem { attrs: vec![leanfn_attr(Some("betaLean"))], ..match leanfn("beta", vec![], None) {
            Item::Fn(f) => f,
            _ => unreachable!(),
        } }),
        Item::Other,
    ];
    assert_eq!(collect_module_exports(&items).unwrap(), vec!["alpha", "betaLean"]);
    let broken = vec![Item::Fn(FnItem {
        attrs: vec![AttrItem { leanfn_options: Some(Err("oops".into())), ..attr(&["leanfn"]) }],
        ..match leanfn("x", vec![], None) {
            Item::Fn(f) => f,
            _ => unreachable!(),
        }
    })];
    assert_eq!(collect_module_exports(&broken).unwrap_err(), "oops");
}
