use leo3_tooling::codegen::{metadata_symbol_kind, MetadataKind};
use leo3_tooling::leanmodule::{
    build_module_binding, module_init_symbol, module_json_symbol, module_name, nul_terminated_json,
    symbol_safe_name,
};
use leo3_tooling::syntax::{AttrItem, FnItem, Item, LeanfnOptions};

fn leanfn_item(ident: &str, name: Option<&str>) -> Item {
    Item::Fn(FnItem {
        ident: ident.to_string(),
        variadic: false,
        generics: vec![],
        inputs: vec![],
        output: None,
        attrs: vec![AttrItem {
            path: vec!["leanfn".to_string()],
            str_value: None,
            nested_name: None,
            leanfn_options: Some(Ok(LeanfnOptions { name: name.map(str::to_string), concretes: vec![] })),
            leanclass_options: None,
        }],
    })
}

fn sample_items() -> Vec<Item> {
    vec![
        leanfn_item("alpha", None),
        leanfn_item("beta", Some("beta_lean")),
        Item::Mod("inner".to_string(), Some(vec![leanfn_item("gamma", None)])),
        Item::Other,
    ]
}

#[test]
fn module_name_prefers_the_option() {
    assert_eq!(module_name(Some("Foo.Bar".to_string()), "my_mod"), "Foo.Bar");
    assert_eq!(module_name(None, "my_mod"), "my_mod");
}

#[test]
fn symbols_replace_dots_with_underscores() {
    assert_eq!(symbol_safe_name("Foo.Bar.baz"), "Foo_Bar_baz");
    assert_eq!(symbol_safe_name("Plain"), "Plain");
    assert_eq!(module_init_symbol("Foo.Bar"), "initialize_Foo_Bar");
    assert_eq!(module_json_symbol("Foo.Bar"), "__leo3_module_metadata_json_Foo_Bar");
}

#[test]
fn codegen_recognises_the_module_symbol() {
    let symbol = module_json_symbol("Demo.Sub");
    let (kind, rest) = metadata_symbol_kind(&symbol).expect("module symbol");
    assert_eq!(kind, MetadataKind::Module);
    assert_eq!(rest, "Demo_Sub");
}

#[test]
fn json_symbol_data_ends_in_one_nul() {
    let data = nul_terminated_json("{\"name\":\"M\"}");
    assert_eq!(data.len(), 13);
    assert_eq!(&data[..12], b"{\"name\":\"M\"}");
    assert_eq!(data[12], 0);
    assert_eq!(nul_terminated_json(""), vec![0u8]);
}

#[test]
fn module_without_body_exports_nothing() {
    let b = build_module_binding("Empty".to_string(), None, None).expect("binding");
    assert_eq!(b.name, "Empty");
    assert!(b.exports.is_empty());
    assert!(b.submodules.is_empty());
}

#[test]
fn module_binding_collects_exports_and_submodules() {
    let items = sample_items();
    let b = build_module_binding("Demo".to_string(), Some(&items), None).expect("binding");
    assert_eq!(b.name, "Demo");
    let names: Vec<&str> = b.exports.iter().map(|e| e.lean_name.as_str()).collect();
    assert_eq!(names, vec!["alpha", "beta_lean"]);
    assert_eq!(b.submodules.len(), 1);
    assert_eq!(b.submodules[0].path, "inner");
    assert_eq!(b.submodules[0].exports[0].rust_name, "gamma");
}

#[test]
fn module_binding_applies_the_exports_option() {
    let items = sample_items();
    let allowed = vec!["beta".to_string()];
    let b = build_module_binding("Demo".to_string(), Some(&items), Some(&allowed)).expect("binding");
    assert_eq!(b.exports.len(), 1);
    assert_eq!(b.exports[0].lean_name, "beta_lean");

    let missing = vec!["nope".to_string()];
    let err = build_module_binding("Demo".to_string(), Some(&items), Some(&missing)).expect_err("missing export");
    assert_eq!(err, "export `nope` not found in module");
}
