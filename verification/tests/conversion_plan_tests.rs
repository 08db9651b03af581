use leo3_tooling::conversion_plan::{
    borrowed_storage, build_decode_plan, build_return_plan, build_storage_plan, lean_source, result_parts,
    type_contains_reference, BorrowedStorage, DecodeKind, DecodePlan, LeanSource, ResultArmPlan, ReturnPlan,
    StoragePlan,
};
use leo3_tooling::syntax::{GenericArg, PathArgs, PathSegment, RustType, TypeKind, TypePath};

fn seg(ident: &str, args: PathArgs) -> PathSegment {
    PathSegment { ident: ident.to_string(), args }
}

fn ty(name: &str) -> RustType {
    RustType {
        text: name.to_string(),
        kind: TypeKind::Path(TypePath { qself: false, segments: vec![seg(name, PathArgs::Plain)] }),
    }
}

fn generic(name: &str, args: Vec<GenericArg>) -> RustType {
    let arg_text: Vec<String> = args
        .iter()
        .map(|a| match a {
            GenericArg::Type(t) => t.text.clone(),
            GenericArg::Other => "'a".to_string(),
        })
        .collect();
    RustType {
        text: format!("{} < {} >", name, arg_text.join(" , ")),
        kind: TypeKind::Path(TypePath { qself: false, segments: vec![seg(name, PathArgs::Angle(args))] }),
    }
}

fn g(name: &str, args: Vec<RustType>) -> RustType {
    generic(name, args.into_iter().map(GenericArg::Type).collect())
}

fn reference(elem: RustType) -> RustType {
    RustType { text: format!("& {}", elem.text), kind: TypeKind::Reference { mutable: false, elem: Box::new(elem) } }
}

fn slice(elem: RustType) -> RustType {
    RustType { text: format!("[{}]", elem.text), kind: TypeKind::Slice(Box::new(elem)) }
}

fn array(elem: RustType) -> RustType {
    RustType { text: format!("[{} ; 4]", elem.text), kind: TypeKind::Array(Box::new(elem)) }
}

fn tuple(elems: Vec<RustType>) -> RustType {
    let text: Vec<String> = elems.iter().map(|e| e.text.clone()).collect();
    RustType { text: format!("({})", text.join(" , ")), kind: TypeKind::Tuple(elems) }
}

#[test]
fn lean_sources_follow_the_shape() {
    assert_eq!(lean_source(&reference(ty("str"))), LeanSource::String);
    assert_eq!(lean_source(&reference(ty("String"))), LeanSource::String);
    assert_eq!(lean_source(&g("Vec", vec![ty("u8")])), LeanSource::ByteArray);
    assert_eq!(lean_source(&reference(slice(ty("u8")))), LeanSource::ByteArray);
    assert_eq!(lean_source(&reference(slice(ty("u32")))), LeanSource::Array);
    assert_eq!(lean_source(&reference(array(ty("u8")))), LeanSource::Array);
    assert_eq!(lean_source(&g("Option", vec![ty("u8")])), LeanSource::Option);
    assert_eq!(lean_source(&g("Result", vec![ty("u8"), ty("String")])), LeanSource::Except);
    assert_eq!(lean_source(&tuple(vec![ty("u8"), ty("u8")])), LeanSource::Prod);
    assert_eq!(lean_source(&ty("u64")), LeanSource::FromLean);
}

#[test]
fn result_parts_skip_lifetime_arguments() {
    let r = generic("Result", vec![GenericArg::Other, GenericArg::Type(ty("A")), GenericArg::Type(ty("B"))]);
    let (ok, err) = result_parts(&r).unwrap();
    assert_eq!(ok.text, "A");
    assert_eq!(err.text, "B");
    assert!(result_parts(&g("Result", vec![ty("A")])).is_none());
}

#[test]
fn references_are_found_anywhere() {
    assert!(type_contains_reference(&g("Option", vec![reference(ty("u8"))])));
    assert!(type_contains_reference(&tuple(vec![ty("u8"), reference(ty("u8"))])));
    assert!(!type_contains_reference(&g("Vec", vec![ty("u8")])));
}

#[test]
fn borrowed_storage_kinds() {
    assert_eq!(borrowed_storage(&reference(ty("String"))), Some(BorrowedStorage::String));
    assert_eq!(borrowed_storage(&reference(slice(ty("u8")))), Some(BorrowedStorage::U8Slice));
    assert_eq!(borrowed_storage(&reference(g("Vec", vec![ty("u8")]))), Some(BorrowedStorage::VecU8));
    assert_eq!(
        borrowed_storage(&reference(g("Vec", vec![ty("u64")]))),
        Some(BorrowedStorage::Vec("u64".to_string()))
    );
    assert_eq!(
        borrowed_storage(&reference(slice(ty("u64")))),
        Some(BorrowedStorage::NonU8Slice("u64".to_string()))
    );
    assert_eq!(
        borrowed_storage(&reference(array(ty("u8")))),
        Some(BorrowedStorage::FixedArray("[u8 ; 4]".to_string()))
    );
    assert_eq!(borrowed_storage(&reference(ty("str"))), None);
}

#[test]
fn storage_plans_cover_borrowed_shapes() {
    assert_eq!(
        build_storage_plan(&reference(ty("String"))),
        Some(StoragePlan::Borrowed(BorrowedStorage::String))
    );
    assert_eq!(build_storage_plan(&reference(slice(ty("u8")))), None);
    assert_eq!(
        build_storage_plan(&g("Option", vec![reference(g("Vec", vec![ty("u8")]))])),
        Some(StoragePlan::OptionBorrowed(BorrowedStorage::VecU8))
    );
    assert_eq!(
        build_storage_plan(&g("Result", vec![reference(ty("String")), ty("u32")])),
        Some(StoragePlan::Result {
            ok: ResultArmPlan::Borrowed(BorrowedStorage::String),
            err: ResultArmPlan::Owned("u32".to_string()),
        })
    );
    // An arm holding a reference without owned storage rules the plan out.
    assert_eq!(build_storage_plan(&g("Result", vec![reference(ty("str")), ty("u32")])), None);
    let inner = tuple(vec![reference(ty("String")), reference(g("Vec", vec![ty("u8")]))]);
    let t = tuple(vec![inner, reference(g("Vec", vec![ty("u64")]))]);
    assert_eq!(
        build_storage_plan(&t),
        Some(StoragePlan::Tuple {
            text: t.text.clone(),
            items: vec![
                StoragePlan::Tuple {
                    text: "(& String , & Vec < u8 >)".to_string(),
                    items: vec![
                        StoragePlan::Borrowed(BorrowedStorage::String),
                        StoragePlan::Borrowed(BorrowedStorage::VecU8),
                    ],
                },
                StoragePlan::Borrowed(BorrowedStorage::Vec("u64".to_string())),
            ],
        })
    );
    assert_eq!(build_storage_plan(&tuple(vec![reference(ty("String")), ty("u8")])), None);
    assert_eq!(build_storage_plan(&ty("u8")), None);
}

#[test]
fn return_plans_nest_by_parts() {
    assert_eq!(build_return_plan(&reference(ty("String"))), ReturnPlan::BorrowedString);
    assert_eq!(build_return_plan(&g("Vec", vec![ty("u8")])), ReturnPlan::VecU8);
    assert_eq!(
        build_return_plan(&g("Option", vec![reference(slice(ty("u32")))])),
        ReturnPlan::Option(Box::new(ReturnPlan::BorrowedSliceLike))
    );
    assert_eq!(
        build_return_plan(&g("Result", vec![ty("u8"), reference(g("Vec", vec![ty("u8")]))])),
        ReturnPlan::Result {
            ok: Box::new(ReturnPlan::Generic("u8".to_string())),
            err: Box::new(ReturnPlan::BorrowedVecU8),
        }
    );
    assert_eq!(
        build_return_plan(&tuple(vec![ty("u8"), reference(slice(ty("u8"))), ty("bool")])),
        ReturnPlan::Tuple(vec![
            ReturnPlan::Generic("u8".to_string()),
            ReturnPlan::BorrowedU8Slice,
            ReturnPlan::Generic("bool".to_string()),
        ])
    );
}

fn leaf(text: &str, source: LeanSource, kind: DecodeKind) -> DecodePlan {
    DecodePlan { text: text.to_string(), source, kind }
}

#[test]
fn decode_plans_cover_the_borrowed_and_byte_shapes() {
    assert_eq!(build_decode_plan(&reference(ty("str"))).kind, DecodeKind::BorrowedStr);
    assert_eq!(build_decode_plan(&reference(ty("String"))).kind, DecodeKind::BorrowedString);
    assert_eq!(build_decode_plan(&reference(slice(ty("u8")))).kind, DecodeKind::BorrowedU8Slice);
    let bytes = build_decode_plan(&g("Vec", vec![ty("u8")]));
    assert_eq!(bytes, leaf("Vec < u8 >", LeanSource::ByteArray, DecodeKind::VecU8));
    // `&Vec<u8>` arrives as a byte array but decodes through its own `FromLean`.
    let borrowed_vec = build_decode_plan(&reference(g("Vec", vec![ty("u8")])));
    assert_eq!(borrowed_vec, leaf("& Vec < u8 >", LeanSource::ByteArray, DecodeKind::FromLean));
    assert_eq!(build_decode_plan(&ty("u32")), leaf("u32", LeanSource::FromLean, DecodeKind::FromLean));
}

#[test]
fn decode_plans_nest_by_parts() {
    let option = build_decode_plan(&g("Option", vec![reference(ty("str"))]));
    assert_eq!(
        option,
        DecodePlan {
            text: "Option < & str >".to_string(),
            source: LeanSource::Option,
            kind: DecodeKind::Option(Box::new(leaf("& str", LeanSource::String, DecodeKind::BorrowedStr))),
        }
    );
    let result = build_decode_plan(&g("Result", vec![ty("u64"), ty("String")]));
    assert_eq!(
        result,
        DecodePlan {
            text: "Result < u64 , String >".to_string(),
            source: LeanSource::Except,
            kind: DecodeKind::Result {
                ok: Box::new(leaf("u64", LeanSource::FromLean, DecodeKind::FromLean)),
                err: Box::new(leaf("String", LeanSource::FromLean, DecodeKind::FromLean)),
            },
        }
    );
    let triple = build_decode_plan(&tuple(vec![ty("u8"), g("Vec", vec![ty("u8")]), ty("bool")]));
    assert_eq!(triple.source, LeanSource::Prod);
    assert_eq!(
        triple.kind,
        DecodeKind::Tuple(vec![
            leaf("u8", LeanSource::FromLean, DecodeKind::FromLean),
            leaf("Vec < u8 >", LeanSource::ByteArray, DecodeKind::VecU8),
            leaf("bool", LeanSource::FromLean, DecodeKind::FromLean),
        ])
    );
    // A one-item tuple is no tuple plan.
    assert_eq!(build_decode_plan(&tuple(vec![ty("u8")])).kind, DecodeKind::FromLean);
}
