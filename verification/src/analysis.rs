//! The binding analysis: from Rust items annotated with `#[leanfn]` and
//! `#[leanclass]` to the binding IR, including the Lean type each Rust type
//! maps to.
//!
//! Two type grammars exist. `#[leanfn]` functions accept borrowed strings,
//! byte slices and slices and leave unsupported types `Unknown`;
//! `#[leanclass]` declarations must be written out in Lean, so an unsupported
//! type there is an error.
use vstd::prelude::*;
use vstd::string::*;
use crate::model::{
    opt_str_view, BindingKind, BindingSemantics, ClassImplBinding, ClassTypeBinding,
    FunctionBinding, FunctionBindingView, FunctionOptions, ParameterBinding, ParameterBindingView,
    PassingStyle, ReceiverStyle, SubmoduleBinding, TypeBinding, TypeBindingView, TypeShape,
    functions_view, params_view,
};
use crate::syntax::{
    AttrItem, ConcreteAttr, FieldItem, Fields, FnInput, FnItem, GenericArg, GenericParam, ImplItem,
    Item, PathArgs, PathSegment, Receiver, RustType, StructItem, TypeKind, TypePath,
};
use crate::codegen::{lean_or_rust, lean_or_rust_string};
use crate::text::{owned, str_eq, contains_str, seq_join, strings_view, join_strings};

verus! {

// ---------------------------------------------------------------------------
// Lean type text
// ---------------------------------------------------------------------------

/// A Lean type as the argument of a type constructor: parenthesised when it
/// has a space.
pub open spec fn lean_type_arg_spec(t: Seq<char>) -> Seq<char> {
    if t.contains(' ') {
        "("@ + t + ")"@
    } else {
        t
    }
}

/// Parenthesise a Lean type used as a type-constructor argument when it has a space.
pub fn lean_type_arg(ty: &str) -> (r: String)
    ensures
        r@ == lean_type_arg_spec(ty@),
{
    let cs = crate::text::chars_of(ty);
    let mut i: usize = 0;
    while i < cs.len()
        invariant
            i <= cs.len(),
            cs@ == ty@,
            forall|k: int| 0 <= k < i ==> cs@[k] != ' ',
        decreases cs.len() - i,
    {
        if cs[i] == ' ' {
            let mut r = owned("(");
            r.append(ty);
            r.append(")");
            return r;
        }
        i = i + 1;
    }
    owned(ty)
}

pub open spec fn binding(rust: Seq<char>, lean: Option<Seq<char>>, shape: TypeShape) -> TypeBindingView {
    TypeBindingView { rust, lean, shape }
}

/// The binding of `()`.
pub open spec fn unit_binding_spec() -> TypeBindingView {
    binding("()"@, Some("Unit"@), TypeShape::Unit)
}

/// The binding of `()`.
pub fn unit_binding() -> (r: TypeBinding)
    ensures
        r@ == unit_binding_spec(),
{
    TypeBinding { rust: owned("()"), lean: Some(owned("Unit")), shape: TypeShape::Unit }
}

/// A binding's Lean type, or `?` when it has none.
pub open spec fn lean_or_unknown(b: TypeBindingView) -> Seq<char> {
    match b.lean {
        Some(l) => l,
        None => "?"@,
    }
}

/// `Prod A (Prod B ...)` for two or more items, right-nested.
pub open spec fn nested_prod_spec(items: Seq<TypeBindingView>) -> Seq<char>
    decreases items.len(),
{
    if items.len() <= 2 {
        "Prod "@ + lean_or_unknown(items[0]) + " "@ + lean_type_arg_spec(lean_or_unknown(items[1]))
    } else {
        "Prod "@ + lean_or_unknown(items[0]) + " "@ + lean_type_arg_spec(
            nested_prod_spec(items.drop_first()),
        )
    }
}

fn lean_or_unknown_exec(b: &TypeBinding) -> (r: String)
    ensures
        r@ == lean_or_unknown(b@),
{
    match &b.lean {
        Some(l) => l.clone(),
        None => owned("?"),
    }
}

/// `Prod A (Prod B ...)` for two or more items, right-nested.
pub fn nested_prod_type(items: &[TypeBinding]) -> (r: String)
    requires
        items@.len() >= 2,
    ensures
        r@ == nested_prod_spec(items@.map_values(|b: TypeBinding| b@)),
    decreases items@.len(),
{
    let ghost v = items@.map_values(|b: TypeBinding| b@);
    if items.len() == 2 {
        let mut r = owned("Prod ");
        r.append(lean_or_unknown_exec(&items[0]).as_str());
        r.append(" ");
        r.append(lean_type_arg(lean_or_unknown_exec(&items[1]).as_str()).as_str());
        return r;
    }
    let tail = nested_prod_type(&items[1..items.len()]);
    assert(items@.subrange(1, items@.len() as int).map_values(|b: TypeBinding| b@) =~= v.drop_first());
    let mut r = owned("Prod ");
    r.append(lean_or_unknown_exec(&items[0]).as_str());
    r.append(" ");
    r.append(lean_type_arg(tail.as_str()).as_str());
    r
}

// ---------------------------------------------------------------------------
// Type predicates
// ---------------------------------------------------------------------------

/// A path that is just the identifier `ident`.
pub open spec fn simple_ident_path(p: TypePath, ident: Seq<char>) -> bool {
    !p.qself && p.segments@.len() == 1 && p.segments@[0].ident@ == ident
}

pub open spec fn is_unit_spec(t: RustType) -> bool {
    match t.kind {
        TypeKind::Tuple(es) => es@.len() == 0,
        _ => false,
    }
}

pub open spec fn is_u8_spec(t: RustType) -> bool {
    match t.kind {
        TypeKind::Path(p) => simple_ident_path(p, "u8"@),
        _ => false,
    }
}

/// Whether a path is just the identifier `ident`.
pub fn path_is_simple_ident(p: &TypePath, ident: &str) -> (r: bool)
    ensures
        r == simple_ident_path(*p, ident@),
{
    !p.qself && p.segments.len() == 1 && str_eq(p.segments[0].ident.as_str(), ident)
}

/// Whether a type is `()`.
pub fn is_unit_type(ty: &RustType) -> (r: bool)
    ensures
        r == is_unit_spec(*ty),
{
    match &ty.kind {
        TypeKind::Tuple(es) => es.len() == 0,
        _ => false,
    }
}

/// Whether a type is `u8`.
pub fn is_u8_type(ty: &RustType) -> (r: bool)
    ensures
        r == is_u8_spec(*ty),
{
    match &ty.kind {
        TypeKind::Path(p) => path_is_simple_ident(p, "u8"),
        _ => false,
    }
}

/// How a `#[leanfn]` parameter of this type is passed.
pub open spec fn passing_style_spec(t: RustType) -> PassingStyle {
    match t.kind {
        TypeKind::Reference { mutable, .. } => if !mutable {
            PassingStyle::Borrowed
        } else {
            PassingStyle::Owned
        },
        _ => PassingStyle::Owned,
    }
}

/// How a `#[leanfn]` parameter of this type is passed: shared references are
/// borrowed, everything else owned.
pub fn passing_style_for_leanfn(ty: &RustType) -> (r: PassingStyle)
    ensures
        r == passing_style_spec(*ty),
{
    match &ty.kind {
        TypeKind::Reference { mutable, .. } => if !*mutable {
            PassingStyle::Borrowed
        } else {
            PassingStyle::Owned
        },
        _ => PassingStyle::Owned,
    }
}

// ---------------------------------------------------------------------------
// Type arguments
// ---------------------------------------------------------------------------

/// The positions of the type arguments among a segment's generic arguments.
pub open spec fn type_arg_positions(args: Seq<GenericArg>) -> Seq<int>
    decreases args.len(),
{
    if args.len() == 0 {
        Seq::empty()
    } else {
        let p = type_arg_positions(args.drop_last());
        match args.last() {
            GenericArg::Type(_) => p.push(args.len() - 1),
            GenericArg::Other => p,
        }
    }
}

pub(crate) proof fn lemma_type_arg_positions(args: Seq<GenericArg>)
    ensures
        forall|k: int|
            0 <= k < type_arg_positions(args).len() ==> {
                let i = #[trigger] type_arg_positions(args)[k];
                0 <= i < args.len() && args[i] is Type
            },
    decreases args.len(),
{
    if args.len() > 0 {
        lemma_type_arg_positions(args.drop_last());
    }
}

/// The type arguments of a segment, when it has angle-bracketed arguments.
pub open spec fn segment_type_args(seg: PathSegment) -> Option<Seq<int>> {
    match seg.args {
        PathArgs::Angle(v) => Some(type_arg_positions(v@)),
        _ => None,
    }
}

pub open spec fn one_arg_error(name: Seq<char>) -> Seq<char> {
    name + " requires one type argument in generated Lean declarations"@
}

pub open spec fn exactly_one_arg_error(name: Seq<char>) -> Seq<char> {
    name + " requires exactly one type argument in generated Lean declarations"@
}

pub open spec fn two_args_error(name: Seq<char>) -> Seq<char> {
    name + " requires two type arguments in generated Lean declarations"@
}

pub open spec fn exactly_two_args_error(name: Seq<char>) -> Seq<char> {
    name + " requires exactly two type arguments in generated Lean declarations"@
}

/// The position of the single type argument of a segment.
pub open spec fn single_type_arg_spec(seg: PathSegment, name: Seq<char>) -> Result<int, Seq<char>> {
    match segment_type_args(seg) {
        None => Err(one_arg_error(name)),
        Some(ps) => if ps.len() == 0 {
            Err(one_arg_error(name))
        } else if ps.len() > 1 {
            Err(exactly_one_arg_error(name))
        } else {
            Ok(ps[0])
        },
    }
}

/// The positions of the two type arguments of a segment.
pub open spec fn two_type_args_spec(seg: PathSegment, name: Seq<char>) -> Result<(int, int), Seq<char>> {
    match segment_type_args(seg) {
        None => Err(two_args_error(name)),
        Some(ps) => if ps.len() < 2 {
            Err(two_args_error(name))
        } else if ps.len() > 2 {
            Err(exactly_two_args_error(name))
        } else {
            Ok((ps[0], ps[1]))
        },
    }
}

fn prefixed_error(name: &str, rest: &str) -> (r: String)
    ensures
        r@ == name@ + rest@,
{
    let mut m = owned(name);
    m.append(rest);
    m
}

/// The single type argument of a `Vec`/`Option` segment.
pub fn expect_single_type_arg<'a>(seg: &'a PathSegment, ctor_name: &str) -> (r: Result<&'a RustType, String>)
    ensures
        match single_type_arg_spec(*seg, ctor_name@) {
            Ok(i) => r matches Ok(t) && (seg.args matches PathArgs::Angle(v) && v@[i] == GenericArg::Type(
                *t,
            )),
            Err(e) => r matches Err(m) && m@ == e,
        },
{
    let v = match &seg.args {
        PathArgs::Angle(v) => v,
        _ => return Err(prefixed_error(ctor_name, " requires one type argument in generated Lean declarations")),
    };
    proof {
        lemma_type_arg_positions(v@);
    }
    let mut first: Option<&RustType> = None;
    let mut first_at: usize = 0;
    let mut i: usize = 0;
    while i < v.len()
        invariant
            i <= v.len(),
            segment_type_args(*seg) == Some(type_arg_positions(v@)),
            first is None <==> type_arg_positions(v@.take(i as int)).len() == 0,
            type_arg_positions(v@.take(i as int)).len() <= 1,
            first matches Some(t) ==> first_at < i && type_arg_positions(v@.take(i as int))[0]
                == first_at && v@[first_at as int] == GenericArg::Type(*t),
        decreases v.len() - i,
    {
        assert(v@.take(i + 1).drop_last() =~= v@.take(i as int));
        match &v[i] {
            GenericArg::Type(t) => {
                if first.is_some() {
                    proof {
                        assert(type_arg_positions(v@.take(i + 1)).len() == 2);
                        lemma_positions_monotone(v@, i + 1);
                        assert(segment_type_args(*seg) == Some(type_arg_positions(v@)));
                    }
                    return Err(prefixed_error(ctor_name, " requires exactly one type argument in generated Lean declarations"));
                }
                first = Some(t);
                first_at = i;
            },
            GenericArg::Other => {},
        }
        i = i + 1;
    }
    assert(v@.take(i as int) =~= v@);
    match first {
        Some(t) => Ok(t),
        None => Err(prefixed_error(ctor_name, " requires one type argument in generated Lean declarations")),
    }
}

/// Type argument positions only grow as arguments are appended.
proof fn lemma_positions_monotone(args: Seq<GenericArg>, n: int)
    requires
        0 <= n <= args.len(),
    ensures
        type_arg_positions(args.take(n)).len() <= type_arg_positions(args).len(),
    decreases args.len() - n,
{
    if n < args.len() {
        lemma_positions_monotone(args, n + 1);
        assert(args.take(n + 1).drop_last() =~= args.take(n));
    } else {
        assert(args.take(n) =~= args);
    }
}

/// The two type arguments of a `Result` segment.
pub fn expect_two_type_args<'a>(seg: &'a PathSegment, ctor_name: &str) -> (r: Result<(&'a RustType, &'a RustType), String>)
    ensures
        match two_type_args_spec(*seg, ctor_name@) {
            Ok((i, j)) => r matches Ok((a, b)) && (seg.args matches PathArgs::Angle(v) && v@[i]
                == GenericArg::Type(*a) && v@[j] == GenericArg::Type(*b)),
            Err(e) => r matches Err(m) && m@ == e,
        },
{
    let v = match &seg.args {
        PathArgs::Angle(v) => v,
        _ => return Err(prefixed_error(ctor_name, " requires two type arguments in generated Lean declarations")),
    };
    proof {
        lemma_type_arg_positions(v@);
    }
    let mut first: Option<&RustType> = None;
    let mut second: Option<&RustType> = None;
    let mut first_at: usize = 0;
    let mut second_at: usize = 0;
    let mut i: usize = 0;
    while i < v.len()
        invariant
            i <= v.len(),
            segment_type_args(*seg) == Some(type_arg_positions(v@)),
            type_arg_positions(v@.take(i as int)).len() <= 2,
            first is None <==> type_arg_positions(v@.take(i as int)).len() == 0,
            second is None <==> type_arg_positions(v@.take(i as int)).len() <= 1,
            first matches Some(t) ==> first_at < i && type_arg_positions(v@.take(i as int))[0]
                == first_at && v@[first_at as int] == GenericArg::Type(*t),
            second matches Some(t) ==> second_at < i && type_arg_positions(v@.take(i as int))[1]
                == second_at && v@[second_at as int] == GenericArg::Type(*t),
        decreases v.len() - i,
    {
        assert(v@.take(i + 1).drop_last() =~= v@.take(i as int));
        match &v[i] {
            GenericArg::Type(t) => {
                if second.is_some() {
                    proof {
                        assert(type_arg_positions(v@.take(i + 1)).len() == 3);
                        lemma_positions_monotone(v@, i + 1);
                        assert(segment_type_args(*seg) == Some(type_arg_positions(v@)));
                    }
                    return Err(prefixed_error(ctor_name, " requires exactly two type arguments in generated Lean declarations"));
                }
                if first.is_some() {
                    second = Some(t);
                    second_at = i;
                } else {
                    first = Some(t);
                    first_at = i;
                }
            },
            GenericArg::Other => {},
        }
        i = i + 1;
    }
    assert(v@.take(i as int) =~= v@);
    match (first, second) {
        (Some(a), Some(b)) => Ok((a, b)),
        _ => Err(prefixed_error(ctor_name, " requires two type arguments in generated Lean declarations")),
    }
}

// ---------------------------------------------------------------------------
// Type analysis
// ---------------------------------------------------------------------------

pub open spec fn unsupported_type_msg() -> Seq<char> {
    "unsupported Rust type in generated Lean declaration"@
}

pub open spec fn tuple_type_msg() -> Seq<char> {
    "tuple Lean declarations currently support only unit `()` or pairs `(A, B)`"@
}

pub open spec fn reference_type_msg() -> Seq<char> {
    "reference types are not supported in generated Lean declarations; use owned types instead"@
}

pub open spec fn generic_type_msg(ident: Seq<char>) -> Seq<char> {
    "generic type `"@ + ident
        + "` is not supported in generated Lean declarations; only Vec<T>, Option<T>, Result<T, E>, and pairs `(A, B)` are currently supported"@
}

pub open spec fn fn_trait_args_msg() -> Seq<char> {
    "function-trait-style path arguments are not supported in generated Lean declarations"@
}

/// The Lean type of a Rust scalar type name.
pub open spec fn scalar_lean(ident: Seq<char>) -> Option<Seq<char>> {
    if ident == "i8"@ {
        Some("Int8"@)
    } else if ident == "i16"@ {
        Some("Int16"@)
    } else if ident == "i32"@ {
        Some("Int32"@)
    } else if ident == "i64"@ {
        Some("Int64"@)
    } else if ident == "isize"@ {
        Some("ISize"@)
    } else if ident == "u8"@ {
        Some("UInt8"@)
    } else if ident == "u16"@ {
        Some("UInt16"@)
    } else if ident == "u32"@ {
        Some("UInt32"@)
    } else if ident == "u64"@ {
        Some("UInt64"@)
    } else if ident == "usize"@ {
        Some("USize"@)
    } else if ident == "f32"@ {
        Some("Float32"@)
    } else if ident == "f64"@ {
        Some("Float"@)
    } else if ident == "bool"@ {
        Some("Bool"@)
    } else if ident == "char"@ {
        Some("Char"@)
    } else {
        None
    }
}

pub open spec fn unknown_binding(text: Seq<char>) -> TypeBindingView {
    binding(text, None, TypeShape::Unknown)
}

/// `Array T` for a binding, with `?` for an element without a Lean type.
pub open spec fn array_binding(text: Seq<char>, elem: TypeBindingView) -> TypeBindingView {
    binding(text, Some("Array "@ + lean_type_arg_spec(lean_or_unknown(elem))), TypeShape::Array)
}

/// The binding of a type. `class` is `None` for the `#[leanfn]` grammar and
/// the class's name for the `#[leanclass]` grammar.
pub open spec fn type_spec(ty: RustType, class: Option<Seq<char>>) -> Result<TypeBindingView, Seq<char>>
    decreases ty, 1int,
{
    match ty.kind {
        TypeKind::Paren(e) => type_spec(*e, class),
        TypeKind::Group(e) => type_spec(*e, class),
        TypeKind::Tuple(es) => if es@.len() == 0 {
            Ok(unit_binding_spec())
        } else if class is None {
            if es@.len() >= 2 {
                match items_spec(es@, es@.len() as int, class) {
                    Err(e) => Err(e),
                    Ok(items) => Ok(binding(ty.text@, Some(nested_prod_spec(items)), TypeShape::Prod)),
                }
            } else {
                Ok(unknown_binding(ty.text@))
            }
        } else if es@.len() == 2 {
            match type_spec(es@[0], class) {
                Err(e) => Err(e),
                Ok(l) => match type_spec(es@[1], class) {
                    Err(e) => Err(e),
                    Ok(r) => match l.lean {
                        None => Err(unsupported_type_msg()),
                        Some(a) => match r.lean {
                            None => Err(unsupported_type_msg()),
                            Some(b) => Ok(
                                binding(
                                    ty.text@,
                                    Some("Prod "@ + a + " "@ + lean_type_arg_spec(b)),
                                    TypeShape::Prod,
                                ),
                            ),
                        },
                    },
                },
            }
        } else {
            Err(tuple_type_msg())
        },
        TypeKind::Reference { mutable, elem } => if class is Some {
            Err(reference_type_msg())
        } else if mutable {
            Ok(unknown_binding(ty.text@))
        } else {
            match (*elem).kind {
                TypeKind::Path(p) => if simple_ident_path(p, "str"@) {
                    Ok(binding(ty.text@, Some("String"@), TypeShape::String))
                } else {
                    Ok(unknown_binding(ty.text@))
                },
                TypeKind::Slice(e2) => if is_u8_spec(*e2) {
                    Ok(binding(ty.text@, Some("ByteArray"@), TypeShape::ByteArray))
                } else {
                    match type_spec(*e2, None) {
                        Err(x) => Err(x),
                        Ok(b) => Ok(array_binding(ty.text@, b)),
                    }
                },
                TypeKind::Array(e2) => match type_spec(*e2, None) {
                    Err(x) => Err(x),
                    Ok(b) => Ok(array_binding(ty.text@, b)),
                },
                _ => Ok(unknown_binding(ty.text@)),
            }
        },
        TypeKind::Array(e) => if class is Some {
            Err(unsupported_type_msg())
        } else {
            match type_spec(*e, None) {
                Err(x) => Err(x),
                Ok(b) => Ok(array_binding(ty.text@, b)),
            }
        },
        TypeKind::Path(_) => path_spec(ty, class),
        _ => if class is Some {
            Err(unsupported_type_msg())
        } else {
            Ok(unknown_binding(ty.text@))
        },
    }
}

/// Law: a path type whose last segment is `Option<T>` or `Vec<T>`, with `T`
/// its one argument, is bound as the Lean `Option` or `Array` of `T`'s
/// binding, and fails exactly as `T` fails.
pub proof fn lemma_wrapper_binding(ty: RustType, t: RustType, class: Option<Seq<char>>)
    requires
        ty.kind matches TypeKind::Path(p) && p.segments@.len() > 0 && {
            let seg = p.segments@[p.segments@.len() - 1];
            &&& seg.ident@ == "Option"@ || seg.ident@ == "Vec"@
            &&& seg.args matches PathArgs::Angle(v) && v@ == seq![GenericArg::Type(t)]
        },
    ensures
        ({
            let p = ty.kind->Path_0;
            let vec = p.segments@[p.segments@.len() - 1].ident@ == "Vec"@;
            type_spec(ty, class) == match type_spec(t, class) {
                Err(e) => Err(e),
                Ok(b) => Ok(
                    binding(
                        ty.text@,
                        match b.lean {
                            Some(l) => Some(
                                (if vec {
                                    "Array "@
                                } else {
                                    "Option "@
                                }) + lean_type_arg_spec(l),
                            ),
                            None => None,
                        },
                        if vec {
                            TypeShape::Array
                        } else {
                            TypeShape::Option
                        },
                    ),
                ),
            }
        }),
{
    let p = ty.kind->Path_0;
    let seg = p.segments@[p.segments@.len() - 1];
    let v = seg.args->Angle_0;
    reveal_strlit("Option");
    reveal_strlit("Vec");
    reveal_strlit("String");
    reveal_strlit("i8");
    reveal_strlit("i16");
    reveal_strlit("i32");
    reveal_strlit("i64");
    reveal_strlit("isize");
    reveal_strlit("u8");
    reveal_strlit("u16");
    reveal_strlit("u32");
    reveal_strlit("u64");
    reveal_strlit("usize");
    reveal_strlit("bool");
    reveal_strlit("f32");
    reveal_strlit("f64");
    reveal_strlit("char");
    assert(v@.drop_last() =~= Seq::<GenericArg>::empty());
    assert(type_arg_positions(Seq::<GenericArg>::empty()) =~= Seq::<int>::empty());
    assert(v@.last() == GenericArg::Type(t));
    assert(type_arg_positions(v@) =~= seq![0int]);
    if seg.ident@ == "Option"@ {
        assert(seg.ident@[0] == 'O');
    } else {
        assert(seg.ident@[0] == 'V');
    }
    assert(scalar_lean(seg.ident@) is None);
    assert(seg.ident@ != "String"@);
    assert(single_type_arg_spec(seg, seg.ident@) == Ok::<int, Seq<char>>(0));
    assert(v@[0] == GenericArg::Type(t));
    assert(type_spec(ty, class) == path_spec(ty, class));
}

/// The bindings of the first `n` types of a tuple; the first error wins.
pub open spec fn items_spec(es: Seq<RustType>, n: int, class: Option<Seq<char>>) -> Result<
    Seq<TypeBindingView>,
    Seq<char>,
>
    decreases es, n,
{
    if n <= 0 || n > es.len() {
        Ok(Seq::empty())
    } else {
        match items_spec(es, n - 1, class) {
            Err(e) => Err(e),
            Ok(v) => match type_spec(es[n - 1], class) {
                Err(e) => Err(e),
                Ok(b) => Ok(v.push(b)),
            },
        }
    }
}

/// Once a tuple item fails, the later prefixes fail with the same error.
proof fn lemma_items_err_extends(es: Seq<RustType>, k: int, n: int, class: Option<Seq<char>>)
    requires
        0 < k <= n <= es.len(),
        items_spec(es, k, class) is Err,
    ensures
        items_spec(es, n, class) == items_spec(es, k, class),
    decreases n - k,
{
    if n > k {
        lemma_items_err_extends(es, k, n - 1, class);
    }
}

/// The binding of a path type, by its last segment.
pub open spec fn path_spec(ty: RustType, class: Option<Seq<char>>) -> Result<TypeBindingView, Seq<char>>
    decreases ty, 0int,
{
    match ty.kind {
        TypeKind::Path(p) => if p.segments@.len() == 0 {
            Err("cannot determine Lean type for an empty path"@)
        } else {
            let seg = p.segments@[p.segments@.len() - 1];
            let ident = seg.ident@;
            let text = ty.text@;
            match scalar_lean(ident) {
                Some(l) => Ok(binding(text, Some(l), TypeShape::Scalar)),
                None => if ident == "String"@ {
                    Ok(binding(text, Some("String"@), TypeShape::String))
                } else if ident == "Vec"@ || ident == "Option"@ {
                    match single_type_arg_spec(seg, ident) {
                        Err(e) => Err(e),
                        Ok(i) => match seg.args {
                            PathArgs::Angle(v) => if !(0 <= i < v@.len()) {
                                Err(Seq::empty())
                            } else {
                                match v@[i] {
                                GenericArg::Type(t) => match type_spec(t, class) {
                                    Err(e) => Err(e),
                                    Ok(b) => Ok(
                                        binding(
                                            text,
                                            match b.lean {
                                                Some(l) => Some(
                                                    (if ident == "Vec"@ {
                                                        "Array "@
                                                    } else {
                                                        "Option "@
                                                    }) + lean_type_arg_spec(l),
                                                ),
                                                None => None,
                                            },
                                            if ident == "Vec"@ {
                                                TypeShape::Array
                                            } else {
                                                TypeShape::Option
                                            },
                                        ),
                                    ),
                                },
                                _ => Err(Seq::empty()),
                                }
                            },
                            _ => Err(Seq::empty()),
                        },
                    }
                } else if ident == "Result"@ {
                    match two_type_args_spec(seg, ident) {
                        Err(e) => Err(e),
                        Ok((i, j)) => match seg.args {
                            PathArgs::Angle(v) => if !(0 <= i < v@.len() && 0 <= j < v@.len()) {
                                Err(Seq::empty())
                            } else {
                                match v@[i] {
                                GenericArg::Type(ok_t) => match v@[j] {
                                    GenericArg::Type(err_t) => match type_spec(ok_t, class) {
                                        Err(e) => Err(e),
                                        Ok(okb) => match type_spec(err_t, class) {
                                            Err(e) => Err(e),
                                            Ok(errb) => Ok(
                                                binding(
                                                    text,
                                                    match okb.lean {
                                                        Some(o) => match errb.lean {
                                                            Some(x) => Some(
                                                                "Except "@ + lean_type_arg_spec(x)
                                                                    + " "@ + lean_type_arg_spec(o),
                                                            ),
                                                            None => None,
                                                        },
                                                        None => None,
                                                    },
                                                    TypeShape::Except,
                                                ),
                                            ),
                                        },
                                    },
                                    _ => Err(Seq::empty()),
                                },
                                _ => Err(Seq::empty()),
                                }
                            },
                            _ => Err(Seq::empty()),
                        },
                    }
                } else if ident == "Self"@ {
                    Ok(binding(text, class, TypeShape::Named))
                } else if class == Some(ident) {
                    Ok(binding(text, Some(ident), TypeShape::Named))
                } else {
                    match seg.args {
                        PathArgs::Plain => Ok(binding(text, Some(ident), TypeShape::Named)),
                        PathArgs::Angle(_) => if class is Some {
                            Err(generic_type_msg(ident))
                        } else {
                            Ok(unknown_binding(text))
                        },
                        PathArgs::Parenthesized => if class is Some {
                            Err(fn_trait_args_msg())
                        } else {
                            Ok(unknown_binding(text))
                        },
                    }
                },
            }
        },
        _ => Err(Seq::empty()),
    }
}

pub open spec fn tb_result(r: Result<TypeBinding, String>) -> Result<TypeBindingView, Seq<char>> {
    match r {
        Ok(b) => Ok(b@),
        Err(e) => Err(e@),
    }
}

pub open spec fn opt_str(o: Option<&str>) -> Option<Seq<char>> {
    match o {
        Some(s) => Some(s@),
        None => None,
    }
}

pub(crate) fn scalar_lean_exec(ident: &str) -> (r: Option<&'static str>)
    ensures
        match scalar_lean(ident@) {
            Some(l) => r matches Some(x) && x@ == l,
            None => r is None,
        },
{
    if str_eq(ident, "i8") {
        Some("Int8")
    } else if str_eq(ident, "i16") {
        Some("Int16")
    } else if str_eq(ident, "i32") {
        Some("Int32")
    } else if str_eq(ident, "i64") {
        Some("Int64")
    } else if str_eq(ident, "isize") {
        Some("ISize")
    } else if str_eq(ident, "u8") {
        Some("UInt8")
    } else if str_eq(ident, "u16") {
        Some("UInt16")
    } else if str_eq(ident, "u32") {
        Some("UInt32")
    } else if str_eq(ident, "u64") {
        Some("UInt64")
    } else if str_eq(ident, "usize") {
        Some("USize")
    } else if str_eq(ident, "f32") {
        Some("Float32")
    } else if str_eq(ident, "f64") {
        Some("Float")
    } else if str_eq(ident, "bool") {
        Some("Bool")
    } else if str_eq(ident, "char") {
        Some("Char")
    } else {
        None
    }
}

fn unknown_of(ty: &RustType) -> (r: TypeBinding)
    ensures
        r@ == unknown_binding(ty.text@),
{
    TypeBinding { rust: ty.text.clone(), lean: None, shape: TypeShape::Unknown }
}

fn array_of(ty: &RustType, elem: &TypeBinding) -> (r: TypeBinding)
    ensures
        r@ == array_binding(ty.text@, elem@),
{
    let mut lean = owned("Array ");
    lean.append(lean_type_arg(lean_or_unknown_exec(elem).as_str()).as_str());
    TypeBinding { rust: ty.text.clone(), lean: Some(lean), shape: TypeShape::Array }
}

fn named_binding(text: &String, lean: &str) -> (r: TypeBinding)
    ensures
        r@ == binding(text@, Some(lean@), TypeShape::Named),
{
    TypeBinding { rust: text.clone(), lean: Some(owned(lean)), shape: TypeShape::Named }
}

/// The Lean type of a `#[leanfn]` parameter or return type.
pub fn analyze_leanfn_type(ty: &RustType) -> (r: Result<TypeBinding, String>)
    ensures
        tb_result(r) == type_spec(*ty, None),
    decreases ty, 2int,
{
    match &ty.kind {
        TypeKind::Paren(e) => analyze_leanfn_type(e),
        TypeKind::Group(e) => analyze_leanfn_type(e),
        TypeKind::Reference { mutable, elem } => {
            if *mutable {
                return Ok(unknown_of(ty));
            }
            match &elem.kind {
                TypeKind::Path(p) => if path_is_simple_ident(p, "str") {
                    Ok(TypeBinding { rust: ty.text.clone(), lean: Some(owned("String")), shape: TypeShape::String })
                } else {
                    Ok(unknown_of(ty))
                },
                TypeKind::Slice(e2) => if is_u8_type(e2) {
                    Ok(TypeBinding { rust: ty.text.clone(), lean: Some(owned("ByteArray")), shape: TypeShape::ByteArray })
                } else {
                    let b = analyze_leanfn_type(e2)?;
                    Ok(array_of(ty, &b))
                },
                TypeKind::Array(e2) => {
                    let b = analyze_leanfn_type(e2)?;
                    Ok(array_of(ty, &b))
                },
                _ => Ok(unknown_of(ty)),
            }
        },
        TypeKind::Array(e) => {
            let b = analyze_leanfn_type(e)?;
            Ok(array_of(ty, &b))
        },
        TypeKind::Tuple(es) => {
            if es.len() == 0 {
                return Ok(unit_binding());
            }
            if es.len() < 2 {
                return Ok(unknown_of(ty));
            }
            let mut items: Vec<TypeBinding> = Vec::new();
            let mut i: usize = 0;
            assert(items@.map_values(|b: TypeBinding| b@) =~= Seq::<TypeBindingView>::empty());
            while i < es.len()
                invariant
                    i <= es.len(),
                    items@.len() == i,
                    es@.len() >= 2,
                    ty.kind == TypeKind::Tuple(*es),
                    items_spec(es@, i as int, None) == Ok::<Seq<TypeBindingView>, Seq<char>>(
                        items@.map_values(|b: TypeBinding| b@),
                    ),
                decreases es.len() - i,
            {
                let ghost prev = items@.map_values(|b: TypeBinding| b@);
                let b = match analyze_leanfn_type(&es[i]) {
                    Ok(b) => b,
                    Err(e) => {
                        proof {
                            assert(type_spec(es@[i as int], None) == Err::<TypeBindingView, Seq<char>>(e@));
                            assert(items_spec(es@, i + 1, None) == Err::<Seq<TypeBindingView>, Seq<char>>(e@));
                            lemma_items_err_extends(es@, i + 1, es@.len() as int, None);
                            assert(type_spec(*ty, None) == Err::<TypeBindingView, Seq<char>>(e@));
                        }
                        return Err(e);
                    },
                };
                items.push(b);
                assert(items@.map_values(|b: TypeBinding| b@) =~= prev.push(b@));
                i = i + 1;
            }
            let lean = nested_prod_type(items.as_slice());
            Ok(TypeBinding { rust: ty.text.clone(), lean: Some(lean), shape: TypeShape::Prod })
        },
        TypeKind::Path(_) => analyze_path_type(ty, None),
        _ => Ok(unknown_of(ty)),
    }
}

/// The Lean type of a type in a `#[leanclass]` declaration of `class_name`.
pub fn analyze_leanclass_type(ty: &RustType, class_name: &str) -> (r: Result<TypeBinding, String>)
    ensures
        tb_result(r) == type_spec(*ty, Some(class_name@)),
    decreases ty, 2int,
{
    match &ty.kind {
        TypeKind::Paren(e) => analyze_leanclass_type(e, class_name),
        TypeKind::Group(e) => analyze_leanclass_type(e, class_name),
        TypeKind::Tuple(es) => {
            if es.len() == 0 {
                return Ok(unit_binding());
            }
            if es.len() != 2 {
                return Err(owned("tuple Lean declarations currently support only unit `()` or pairs `(A, B)`"));
            }
            let left = analyze_leanclass_type(&es[0], class_name)?;
            let right = analyze_leanclass_type(&es[1], class_name)?;
            let l = match left.lean {
                Some(l) => l,
                None => return Err(owned("unsupported Rust type in generated Lean declaration")),
            };
            let r = match right.lean {
                Some(r) => r,
                None => return Err(owned("unsupported Rust type in generated Lean declaration")),
            };
            let mut lean = owned("Prod ");
            lean.append(l.as_str());
            lean.append(" ");
            lean.append(lean_type_arg(r.as_str()).as_str());
            Ok(TypeBinding { rust: ty.text.clone(), lean: Some(lean), shape: TypeShape::Prod })
        },
        TypeKind::Reference { .. } => Err(
            owned("reference types are not supported in generated Lean declarations; use owned types instead"),
        ),
        TypeKind::Path(_) => analyze_path_type(ty, Some(class_name)),
        _ => Err(owned("unsupported Rust type in generated Lean declaration")),
    }
}

/// The binding of a type nested in a generic argument, in the grammar in use.
pub fn analyze_inner_type(ty: &RustType, class_name: Option<&str>) -> (r: Result<TypeBinding, String>)
    ensures
        tb_result(r) == type_spec(*ty, opt_str(class_name)),
    decreases ty, 3int,
{
    match class_name {
        Some(c) => analyze_leanclass_type(ty, c),
        None => analyze_leanfn_type(ty),
    }
}

/// The binding of a path type, by its last segment.
pub fn analyze_path_type(ty: &RustType, class_name: Option<&str>) -> (r: Result<TypeBinding, String>)
    requires
        ty.kind is Path,
    ensures
        tb_result(r) == path_spec(*ty, opt_str(class_name)),
    decreases ty, 1int,
{
    let p = match &ty.kind {
        TypeKind::Path(p) => p,
        _ => return Err(String::new()),
    };
    if p.segments.len() == 0 {
        return Err(owned("cannot determine Lean type for an empty path"));
    }
    let seg = &p.segments[p.segments.len() - 1];
    let ident = seg.ident.as_str();
    match scalar_lean_exec(ident) {
        Some(l) => {
            return Ok(TypeBinding { rust: ty.text.clone(), lean: Some(owned(l)), shape: TypeShape::Scalar });
        },
        None => {},
    }
    if str_eq(ident, "String") {
        return Ok(TypeBinding { rust: ty.text.clone(), lean: Some(owned("String")), shape: TypeShape::String });
    }
    let is_vec = str_eq(ident, "Vec");
    if is_vec || str_eq(ident, "Option") {
        proof {
            if seg.args is Angle {
                lemma_type_arg_positions(seg.args->Angle_0@);
            }
        }
        let elem = expect_single_type_arg(seg, ident)?;
        let b = analyze_inner_type(elem, class_name)?;
        let lean = match &b.lean {
            Some(l) => {
                let mut x = if is_vec { owned("Array ") } else { owned("Option ") };
                x.append(lean_type_arg(l.as_str()).as_str());
                Some(x)
            },
            None => None,
        };
        return Ok(TypeBinding {
            rust: ty.text.clone(),
            lean,
            shape: if is_vec { TypeShape::Array } else { TypeShape::Option },
        });
    }
    if str_eq(ident, "Result") {
        proof {
            if seg.args is Angle {
                lemma_type_arg_positions(seg.args->Angle_0@);
            }
        }
        let (ok_t, err_t) = expect_two_type_args(seg, ident)?;
        let okb = analyze_inner_type(ok_t, class_name)?;
        let errb = analyze_inner_type(err_t, class_name)?;
        let lean = match (&okb.lean, &errb.lean) {
            (Some(o), Some(x)) => {
                let mut s = owned("Except ");
                s.append(lean_type_arg(x.as_str()).as_str());
                s.append(" ");
                s.append(lean_type_arg(o.as_str()).as_str());
                Some(s)
            },
            _ => None,
        };
        return Ok(TypeBinding { rust: ty.text.clone(), lean, shape: TypeShape::Except });
    }
    if str_eq(ident, "Self") {
        return Ok(TypeBinding {
            rust: ty.text.clone(),
            lean: match class_name {
                Some(c) => Some(owned(c)),
                None => None,
            },
            shape: TypeShape::Named,
        });
    }
    match class_name {
        Some(c) => {
            if str_eq(c, ident) {
                return Ok(named_binding(&ty.text, ident));
            }
        },
        None => {},
    }
    match &seg.args {
        PathArgs::Plain => Ok(named_binding(&ty.text, ident)),
        PathArgs::Angle(_) => match class_name {
            Some(_) => {
                let mut m = owned("generic type `");
                m.append(ident);
                m.append("` is not supported in generated Lean declarations; only Vec<T>, Option<T>, Result<T, E>, and pairs `(A, B)` are currently supported");
                Err(m)
            },
            None => Ok(unknown_of(ty)),
        },
        PathArgs::Parenthesized => match class_name {
            Some(_) => Err(owned("function-trait-style path arguments are not supported in generated Lean declarations")),
            None => Ok(unknown_of(ty)),
        },
    }
}

/// The struct name of an impl's self type: the last segment of its path.
pub fn class_name_from_self_ty(self_ty: &RustType) -> (r: Result<String, String>)
    ensures
        match self_ty.kind {
            TypeKind::Path(p) => if p.segments@.len() == 0 {
                r matches Err(e) && e@ == "Could not extract struct name from impl"@
            } else {
                r matches Ok(n) && n@ == p.segments@[p.segments@.len() - 1].ident@
            },
            _ => r matches Err(e) && e@ == "#[leanclass] impl must be for a simple struct type"@,
        },
{
    match &self_ty.kind {
        TypeKind::Path(p) => if p.segments.len() == 0 {
            Err(owned("Could not extract struct name from impl"))
        } else {
            Ok(p.segments[p.segments.len() - 1].ident.clone())
        },
        _ => Err(owned("#[leanclass] impl must be for a simple struct type")),
    }
}

// ---------------------------------------------------------------------------
// Attributes
// ---------------------------------------------------------------------------

pub open spec fn attr_is(a: AttrItem, name: Seq<char>) -> bool {
    crate::syntax::attr_path_is(a, name)
}

/// Whether any attribute's path is the identifier `name`.
pub open spec fn has_attr_spec(attrs: Seq<AttrItem>, name: Seq<char>) -> bool {
    exists|i: int| 0 <= i < attrs.len() && attr_is(#[trigger] attrs[i], name)
}

/// Whether an attribute's path is the single identifier `name`.
pub fn attr_path_exec(a: &AttrItem, name: &str) -> (r: bool)
    ensures
        r == attr_is(*a, name@),
{
    a.path.len() == 1 && str_eq(a.path[0].as_str(), name)
}

/// Whether any attribute's path is the identifier `name`.
pub fn has_attr(attrs: &Vec<AttrItem>, name: &str) -> (r: bool)
    ensures
        r == has_attr_spec(attrs@, name@),
{
    let mut i: usize = 0;
    while i < attrs.len()
        invariant
            i <= attrs.len(),
            forall|k: int| 0 <= k < i ==> !attr_is(#[trigger] attrs@[k], name@),
        decreases attrs.len() - i,
    {
        if attr_path_exec(&attrs[i], name) {
            return true;
        }
        i = i + 1;
    }
    false
}

/// The `name = "..."` value of the first attribute that gives one, directly
/// (`#[name = "foo"]`) or nested in a helper (`#[getter(name = "foo")]`).
pub open spec fn attr_name_value_spec(attrs: Seq<AttrItem>, name: Seq<char>) -> Option<Seq<char>>
    decreases attrs.len(),
{
    if attrs.len() == 0 {
        None
    } else {
        let a = attrs[0];
        if attr_is(a, name) && a.str_value is Some {
            opt_str_view(a.str_value)
        } else if a.nested_name is Some {
            opt_str_view(a.nested_name)
        } else {
            attr_name_value_spec(attrs.drop_first(), name)
        }
    }
}

/// The `name = "..."` value of the first attribute that gives one.
pub fn attr_name_value(attrs: &Vec<AttrItem>, attr_name: &str) -> (r: Option<String>)
    ensures
        opt_str_view(r) == attr_name_value_spec(attrs@, attr_name@),
{
    let mut i: usize = 0;
    assert(attrs@.skip(0) =~= attrs@);
    while i < attrs.len()
        invariant
            i <= attrs.len(),
            attr_name_value_spec(attrs@, attr_name@) == attr_name_value_spec(attrs@.skip(i as int), attr_name@),
        decreases attrs.len() - i,
    {
        let a = &attrs[i];
        assert(attrs@.skip(i as int)[0] == attrs@[i as int]);
        assert(attrs@.skip(i as int).drop_first() =~= attrs@.skip(i + 1));
        let direct = attr_path_exec(a, attr_name);
        if direct {
            match &a.str_value {
                Some(v) => return Some(v.clone()),
                None => {},
            }
        }
        match &a.nested_name {
            Some(v) => return Some(v.clone()),
            None => {},
        }
        i = i + 1;
    }
    None
}

/// Whether an attribute is `#[leanfn]`, by the last segment of its path.
pub fn is_leanfn_attr(attr: &AttrItem) -> (r: bool)
    ensures
        r == (crate::syntax::attr_last_segment(*attr) == Some("leanfn"@)),
{
    if attr.path.len() == 0 {
        false
    } else {
        str_eq(attr.path[attr.path.len() - 1].as_str(), "leanfn")
    }
}

// ---------------------------------------------------------------------------
// #[leanclass] structs and field accessors
// ---------------------------------------------------------------------------

/// The Lean declarations introducing an external class type through
/// `NonemptyType`, so that methods returning the class elaborate.
pub open spec fn class_opaque_decl_spec(n: Seq<char>) -> Seq<char> {
    "opaque "@ + n + ".ffi : NonemptyType\ndef "@ + n + " : Type := "@ + n + ".ffi.val\ninstance : Nonempty "@ + n
        + " := "@ + n + ".ffi.property"@
}

/// The Lean declarations introducing an external class type:
///
/// ```lean
/// opaque Foo.ffi : NonemptyType
/// def Foo : Type := Foo.ffi.val
/// instance : Nonempty Foo := Foo.ffi.property
/// ```
pub fn class_opaque_decl(lean_name: &str) -> (r: String)
    ensures
        r@ == class_opaque_decl_spec(lean_name@),
{
    let mut r = owned("opaque ");
    r.append(lean_name);
    r.append(".ffi : NonemptyType\ndef ");
    r.append(lean_name);
    r.append(" : Type := ");
    r.append(lean_name);
    r.append(".ffi.val\ninstance : Nonempty ");
    r.append(lean_name);
    r.append(" := ");
    r.append(lean_name);
    r.append(".ffi.property");
    r
}

pub open spec fn class_type_spec(item: StructItem, over: Option<Seq<char>>) -> Result<
    crate::model::ClassTypeBindingView,
    Seq<char>,
> {
    if item.has_generics {
        Err("#[leanclass] does not support generic types yet"@)
    } else {
        let lean = match over {
            Some(o) => o,
            None => item.ident@,
        };
        Ok(
            crate::model::ClassTypeBindingView {
                rust_name: item.ident@,
                lean_name: lean,
                opaque_decl: class_opaque_decl_spec(lean),
            },
        )
    }
}

/// The class type of a `#[leanclass]` struct.
pub fn analyze_lean_class_struct(item: &StructItem, lean_name_override: Option<&str>) -> (r: Result<
    ClassTypeBinding,
    String,
>)
    ensures
        match class_type_spec(*item, opt_str(lean_name_override)) {
            Ok(v) => r matches Ok(b) && b@ == v,
            Err(e) => r matches Err(m) && m@ == e,
        },
{
    if item.has_generics {
        return Err(owned("#[leanclass] does not support generic types yet"));
    }
    let rust_name = item.ident.clone();
    let lean_name = match lean_name_override {
        Some(o) => owned(o),
        None => item.ident.clone(),
    };
    let opaque_decl = class_opaque_decl(lean_name.as_str());
    Ok(ClassTypeBinding { rust_name, lean_name, opaque_decl })
}

/// A `#[get]` / `#[set]` field accessor declared on a `#[leanclass]` struct.
#[derive(Clone, Debug)]
pub struct FieldAccessor {
    pub rust_name: String,
    pub getter: bool,
    pub setter: bool,
    pub ty: TypeBinding,
}

pub struct FieldAccessorView {
    pub rust_name: Seq<char>,
    pub getter: bool,
    pub setter: bool,
    pub ty: TypeBindingView,
}

impl View for FieldAccessor {
    type V = FieldAccessorView;

    open spec fn view(&self) -> FieldAccessorView {
        FieldAccessorView {
            rust_name: self.rust_name@,
            getter: self.getter,
            setter: self.setter,
            ty: self.ty@,
        }
    }
}

pub open spec fn accessors_view(v: Seq<FieldAccessor>) -> Seq<FieldAccessorView> {
    v.map_values(|a: FieldAccessor| a@)
}

/// The accessors of the first `n` named fields; the first error wins.
pub open spec fn accessors_spec(fs: Seq<FieldItem>, n: int, class: Seq<char>) -> Result<
    Seq<FieldAccessorView>,
    Seq<char>,
>
    decreases n,
{
    if n <= 0 || n > fs.len() {
        Ok(Seq::empty())
    } else {
        match accessors_spec(fs, n - 1, class) {
            Err(e) => Err(e),
            Ok(v) => {
                let f = fs[n - 1];
                let g = has_attr_spec(f.attrs@, "get"@);
                let st = has_attr_spec(f.attrs@, "set"@);
                if !g && !st {
                    Ok(v)
                } else {
                    match f.ident {
                        None => Err("#[get] / #[set] require a named field"@),
                        Some(id) => match type_spec(f.ty, Some(class)) {
                            Err(e) => Err(e),
                            Ok(b) => Ok(
                                v.push(FieldAccessorView { rust_name: id@, getter: g, setter: st, ty: b }),
                            ),
                        },
                    }
                }
            },
        }
    }
}

/// The `#[get]` / `#[set]` accessors of a `#[leanclass]` struct's fields.
pub open spec fn field_accessors_spec(item: StructItem) -> Result<Seq<FieldAccessorView>, Seq<char>> {
    match item.fields {
        Fields::Unit => Ok(Seq::empty()),
        Fields::Unnamed(fs) => if exists|i: int|
            0 <= i < fs@.len() && (has_attr_spec(#[trigger] fs@[i].attrs@, "get"@) || has_attr_spec(
                fs@[i].attrs@,
                "set"@,
            )) {
            Err("#[get] / #[set] field accessors require named struct fields"@)
        } else {
            Ok(Seq::empty())
        },
        Fields::Named(fs) => accessors_spec(fs@, fs@.len() as int, item.ident@),
    }
}

proof fn lemma_accessors_err_extends(fs: Seq<FieldItem>, k: int, n: int, class: Seq<char>)
    requires
        0 < k <= n <= fs.len(),
        accessors_spec(fs, k, class) is Err,
    ensures
        accessors_spec(fs, n, class) == accessors_spec(fs, k, class),
    decreases n - k,
{
    if n > k {
        lemma_accessors_err_extends(fs, k, n - 1, class);
    }
}

/// Analyze `#[get]` / `#[set]` attributes on a `#[leanclass]` struct's named
/// fields; field types must be representable in a Lean declaration.
pub fn analyze_lean_class_field_accessors(item: &StructItem) -> (r: Result<Vec<FieldAccessor>, String>)
    ensures
        match field_accessors_spec(*item) {
            Ok(v) => r matches Ok(a) && accessors_view(a@) == v,
            Err(e) => r matches Err(m) && m@ == e,
        },
{
    let fs = match &item.fields {
        Fields::Unit => {
            let v: Vec<FieldAccessor> = Vec::new();
            assert(accessors_view(v@) =~= Seq::<FieldAccessorView>::empty());
            return Ok(v);
        },
        Fields::Unnamed(fs) => {
            let mut i: usize = 0;
            while i < fs.len()
                invariant
                    i <= fs.len(),
                    item.fields == Fields::Unnamed(*fs),
                    forall|k: int|
                        0 <= k < i ==> !(has_attr_spec(#[trigger] fs@[k].attrs@, "get"@) || has_attr_spec(
                            fs@[k].attrs@,
                            "set"@,
                        )),
                decreases fs.len() - i,
            {
                if has_attr(&fs[i].attrs, "get") || has_attr(&fs[i].attrs, "set") {
                    assert(has_attr_spec(fs@[i as int].attrs@, "get"@) || has_attr_spec(
                        fs@[i as int].attrs@,
                        "set"@,
                    ));
                    return Err(owned("#[get] / #[set] field accessors require named struct fields"));
                }
                i = i + 1;
            }
            let v: Vec<FieldAccessor> = Vec::new();
            assert(accessors_view(v@) =~= Seq::<FieldAccessorView>::empty());
            return Ok(v);
        },
        Fields::Named(fs) => fs,
    };
    let ghost class = item.ident@;
    let mut out: Vec<FieldAccessor> = Vec::new();
    let mut i: usize = 0;
    assert(accessors_view(out@) =~= Seq::<FieldAccessorView>::empty());
    while i < fs.len()
        invariant
            i <= fs.len(),
            item.fields == Fields::Named(*fs),
            class == item.ident@,
            accessors_spec(fs@, i as int, class) == Ok::<Seq<FieldAccessorView>, Seq<char>>(
                accessors_view(out@),
            ),
        decreases fs.len() - i,
    {
        let f = &fs[i];
        let getter = has_attr(&f.attrs, "get");
        let setter = has_attr(&f.attrs, "set");
        if getter || setter {
            let rust_name = match &f.ident {
                Some(id) => id.clone(),
                None => {
                    proof {
                        lemma_accessors_err_extends(fs@, i + 1, fs@.len() as int, class);
                    }
                    return Err(owned("#[get] / #[set] require a named field"));
                },
            };
            let ty = match analyze_leanclass_type(&f.ty, item.ident.as_str()) {
                Ok(t) => t,
                Err(e) => {
                    proof {
                        lemma_accessors_err_extends(fs@, i + 1, fs@.len() as int, class);
                    }
                    return Err(e);
                },
            };
            let ghost prev = accessors_view(out@);
            let acc = FieldAccessor { rust_name, getter, setter, ty };
            let ghost av = acc@;
            out.push(acc);
            assert(accessors_view(out@) =~= prev.push(av));
        }
        i = i + 1;
    }
    Ok(out)
}

pub open spec fn ffi_symbol_spec(class: Seq<char>, name: Seq<char>) -> Seq<char> {
    "__lean_ffi_"@ + class + "_"@ + name
}

pub open spec fn extern_opaque(ffi: Seq<char>, lean_name: Seq<char>, ty: Seq<char>) -> Seq<char> {
    "@[extern \""@ + ffi + "\"] opaque "@ + lean_name + " : "@ + ty
}

/// The getter binding of a field: `Class -> T`.
pub open spec fn getter_binding(class: Seq<char>, a: FieldAccessorView) -> FunctionBindingView {
    let ffi = ffi_symbol_spec(class, a.rust_name);
    let lean_name = class + "."@ + a.rust_name;
    FunctionBindingView {
        rust_name: a.rust_name,
        lean_name,
        owner: Some(class),
        ffi_symbol: ffi,
        receiver: ReceiverStyle::Ref,
        params: Seq::empty(),
        return_type: a.ty,
        semantics: BindingSemantics::Value,
        kind: BindingKind::Getter,
        lean_decl: Some(extern_opaque(ffi, lean_name, class + " → "@ + lean_or_rust(a.ty))),
    }
}

/// The setter binding of a field: `Class -> T -> Class`, copy-on-write.
pub open spec fn setter_binding(class: Seq<char>, a: FieldAccessorView) -> FunctionBindingView {
    let name = "set_"@ + a.rust_name;
    let ffi = ffi_symbol_spec(class, name);
    let lean_name = class + "."@ + name;
    FunctionBindingView {
        rust_name: name,
        lean_name,
        owner: Some(class),
        ffi_symbol: ffi,
        receiver: ReceiverStyle::MutRef,
        params: seq![ParameterBindingView { name: "value"@, ty: a.ty, passing: PassingStyle::Owned }],
        return_type: binding(class, Some(class), TypeShape::Named),
        semantics: BindingSemantics::MutatesSelf,
        kind: BindingKind::Setter,
        lean_decl: Some(
            extern_opaque(ffi, lean_name, class + " → "@ + lean_or_rust(a.ty) + " → "@ + class),
        ),
    }
}

/// The bindings of accessors: per accessor its getter, then its setter.
pub open spec fn accessor_bindings_spec(class: Seq<char>, accs: Seq<FieldAccessorView>) -> Seq<
    FunctionBindingView,
>
    decreases accs.len(),
{
    if accs.len() == 0 {
        Seq::empty()
    } else {
        let a = accs.last();
        accessor_bindings_spec(class, accs.drop_last()) + (if a.getter {
            seq![getter_binding(class, a)]
        } else {
            Seq::empty()
        }) + (if a.setter {
            seq![setter_binding(class, a)]
        } else {
            Seq::empty()
        })
    }
}

/// The number of accessors functions a list of field accessors declares: one
/// per getter and one per setter.
pub open spec fn accessor_count(accs: Seq<FieldAccessorView>) -> nat
    decreases accs.len(),
{
    if accs.len() == 0 {
        0
    } else {
        accessor_count(accs.drop_last()) + (if accs.last().getter {
            1nat
        } else {
            0nat
        }) + (if accs.last().setter {
            1nat
        } else {
            0nat
        })
    }
}

/// Law: the field accessor bindings are one per getter plus one per setter,
/// and those of a prefix of the accessors come first, in accessor order.
pub proof fn lemma_accessor_bindings_count(class: Seq<char>, accs: Seq<FieldAccessorView>, k: int)
    requires
        0 <= k <= accs.len(),
    ensures
        accessor_bindings_spec(class, accs).len() == accessor_count(accs),
        accessor_bindings_spec(class, accs.take(k)).is_prefix_of(accessor_bindings_spec(class, accs)),
    decreases accs.len(),
{
    if accs.len() > 0 {
        if k == accs.len() {
            assert(accs.take(k) =~= accs);
            lemma_accessor_bindings_count(class, accs.drop_last(), 0);
        } else {
            lemma_accessor_bindings_count(class, accs.drop_last(), k);
            assert(accs.drop_last().take(k) =~= accs.take(k));
            let p = accessor_bindings_spec(class, accs.drop_last());
            let pre = accessor_bindings_spec(class, accs.take(k));
            let whole = accessor_bindings_spec(class, accs);
            assert forall|i: int| 0 <= i < pre.len() implies pre[i] == whole[i] by {
                assert(pre[i] == p[i]);
            }
        }
    } else {
        assert(accs.take(k) =~= accs);
    }
}

/// Whether a binding is one of a class's field accessors: owned by the class,
/// named `Class.name` in Lean, exported as `__lean_ffi_Class_name`, with a
/// rendered declaration, and either the getter of an accessor with a getter
/// (named as the field) or the setter of one with a setter (`set_` + field).
pub open spec fn is_accessor_binding(class: Seq<char>, accs: Seq<FieldAccessorView>, b: FunctionBindingView) -> bool {
    &&& b.owner == Some(class)
    &&& b.lean_name == class + "."@ + b.rust_name
    &&& b.ffi_symbol == ffi_symbol_spec(class, b.rust_name)
    &&& b.lean_decl is Some
    &&& ((b.kind == BindingKind::Getter && exists|j: int|
        0 <= j < accs.len() && (#[trigger] accs[j]).getter && b.rust_name == accs[j].rust_name)
        || (b.kind == BindingKind::Setter && exists|j: int|
        0 <= j < accs.len() && (#[trigger] accs[j]).setter && b.rust_name == "set_"@ + accs[j].rust_name))
}

/// Law: every field accessor binding is owned by its class, named
/// `Class.name` in Lean and `__lean_ffi_Class_name` as a symbol, carries its
/// declaration, and is the getter (named as the field) or the setter (named
/// `set_` + field) of an accessor that asks for it.
pub proof fn lemma_accessor_bindings_named(class: Seq<char>, accs: Seq<FieldAccessorView>)
    ensures
        forall|k: int|
            0 <= k < accessor_bindings_spec(class, accs).len() ==> is_accessor_binding(
                class,
                accs,
                #[trigger] accessor_bindings_spec(class, accs)[k],
            ),
    decreases accs.len(),
{
    if accs.len() > 0 {
        let p = accs.drop_last();
        let a = accs.last();
        lemma_accessor_bindings_named(class, p);
        let pre = accessor_bindings_spec(class, p);
        let all = accessor_bindings_spec(class, accs);
        assert forall|k: int| 0 <= k < all.len() implies is_accessor_binding(class, accs, #[trigger] all[k]) by {
            if k < pre.len() {
                assert(all[k] == pre[k]);
                assert(is_accessor_binding(class, p, pre[k]));
                let b = pre[k];
                if b.kind == BindingKind::Getter && exists|j: int|
                    0 <= j < p.len() && (#[trigger] p[j]).getter && b.rust_name == p[j].rust_name {
                    let j = choose|j: int| 0 <= j < p.len() && (#[trigger] p[j]).getter && b.rust_name == p[j].rust_name;
                    assert(accs[j] == p[j]);
                } else {
                    let j = choose|j: int|
                        0 <= j < p.len() && (#[trigger] p[j]).setter && b.rust_name == "set_"@ + p[j].rust_name;
                    assert(accs[j] == p[j]);
                }
            } else {
                assert(accs[accs.len() - 1] == a);
                let b = all[k];
                if a.getter && k == pre.len() {
                    assert(b == getter_binding(class, a));
                } else {
                    assert(b == setter_binding(class, a));
                    assert(b.lean_name == class + "."@ + ("set_"@ + a.rust_name));
                }
            }
        }
    }
}

fn concat3(a: &str, b: &str, c: &str) -> (r: String)
    ensures
        r@ == a@ + b@ + c@,
{
    let mut r = owned(a);
    r.append(b);
    r.append(c);
    r
}

fn extern_opaque_exec(ffi: &str, lean_name: &str, ty: &str) -> (r: String)
    ensures
        r@ == extern_opaque(ffi@, lean_name@, ty@),
{
    let mut r = owned("@[extern \"");
    r.append(ffi);
    r.append("\"] opaque ");
    r.append(lean_name);
    r.append(" : ");
    r.append(ty);
    r
}

/// Build the `FunctionBinding`s of `#[get]` / `#[set]` field accessors:
/// getters `Class → T` (kind `Getter`) and setters `Class → T → Class`
/// (kind `Setter`, copy-on-write).
pub fn field_accessor_bindings(class_name: &str, accessors: &[FieldAccessor]) -> (r: Vec<FunctionBinding>)
    ensures
        functions_view(r@) == accessor_bindings_spec(class_name@, accessors_view(accessors@)),
{
    let mut bindings: Vec<FunctionBinding> = Vec::new();
    let mut i: usize = 0;
    while i < accessors.len()
        invariant
            i <= accessors.len(),
            functions_view(bindings@) == accessor_bindings_spec(
                class_name@,
                accessors_view(accessors@).take(i as int),
            ),
        decreases accessors.len() - i,
    {
        let acc = &accessors[i];
        let ghost av = accessors_view(accessors@);
        let ghost before = functions_view(bindings@);
        assert(av.take(i + 1).drop_last() =~= av.take(i as int));
        assert(av.take(i + 1).last() == acc@);
        let lean_ty = lean_or_rust_string(&acc.ty);
        if acc.getter {
            let ffi_symbol = concat3("__lean_ffi_", class_name, "_");
            let mut ffi_symbol = ffi_symbol;
            ffi_symbol.append(acc.rust_name.as_str());
            let lean_name = concat3(class_name, ".", acc.rust_name.as_str());
            let ty_text = concat3(class_name, " → ", lean_ty.as_str());
            let decl = extern_opaque_exec(ffi_symbol.as_str(), lean_name.as_str(), ty_text.as_str());
            let ghost pre = functions_view(bindings@);
            let b = FunctionBinding {
                rust_name: acc.rust_name.clone(),
                lean_name,
                owner: Some(owned(class_name)),
                ffi_symbol,
                receiver: ReceiverStyle::Ref,
                params: Vec::new(),
                return_type: acc.ty.copy(),
                semantics: BindingSemantics::Value,
                kind: BindingKind::Getter,
                lean_decl: Some(decl),
            };
            assert(params_view(b.params@) =~= Seq::<ParameterBindingView>::empty());
            assert(b@ == getter_binding(class_name@, acc@));
            bindings.push(b);
            assert(functions_view(bindings@) =~= pre.push(getter_binding(class_name@, acc@)));
        }
        let ghost mid = functions_view(bindings@);
        if acc.setter {
            let setter_name = concat3("set_", acc.rust_name.as_str(), "");
            let mut ffi_symbol = concat3("__lean_ffi_", class_name, "_");
            ffi_symbol.append(setter_name.as_str());
            let lean_name = concat3(class_name, ".", setter_name.as_str());
            let mut ty_text = concat3(class_name, " → ", lean_ty.as_str());
            ty_text.append(" → ");
            ty_text.append(class_name);
            let decl = extern_opaque_exec(ffi_symbol.as_str(), lean_name.as_str(), ty_text.as_str());
            let mut params: Vec<ParameterBinding> = Vec::new();
            params.push(ParameterBinding { name: owned("value"), ty: acc.ty.copy(), passing: PassingStyle::Owned });
            let b = FunctionBinding {
                rust_name: setter_name,
                lean_name,
                owner: Some(owned(class_name)),
                ffi_symbol,
                receiver: ReceiverStyle::MutRef,
                params,
                return_type: TypeBinding {
                    rust: owned(class_name),
                    lean: Some(owned(class_name)),
                    shape: TypeShape::Named,
                },
                semantics: BindingSemantics::MutatesSelf,
                kind: BindingKind::Setter,
                lean_decl: Some(decl),
            };
            proof {
                reveal_strlit("");
            }
            assert(params_view(b.params@) =~= seq![
                ParameterBindingView { name: "value"@, ty: acc.ty@, passing: PassingStyle::Owned },
            ]);
            assert(b@ == setter_binding(class_name@, acc@));
            bindings.push(b);
            assert(functions_view(bindings@) =~= mid.push(setter_binding(class_name@, acc@)));
        }
        proof {
            let g: Seq<FunctionBindingView> = if acc@.getter {
                seq![getter_binding(class_name@, acc@)]
            } else {
                Seq::empty()
            };
            let st: Seq<FunctionBindingView> = if acc@.setter {
                seq![setter_binding(class_name@, acc@)]
            } else {
                Seq::empty()
            };
            assert(mid =~= before + g);
            assert(functions_view(bindings@) =~= before + g + st);
        }
        i = i + 1;
    }
    assert(accessors_view(accessors@).take(i as int) =~= accessors_view(accessors@));
    bindings
}

// ---------------------------------------------------------------------------
// #[leanfn] functions
// ---------------------------------------------------------------------------

pub open spec fn self_param_msg() -> Seq<char> {
    "Methods with `self` are not supported. Use standalone functions."@
}

pub open spec fn pattern_msg() -> Seq<char> {
    "Only simple parameter patterns are supported"@
}

/// The parameters of the first `n` inputs of a `#[leanfn]` function.
pub open spec fn fn_params_spec(inputs: Seq<FnInput>, n: int) -> Result<Seq<ParameterBindingView>, Seq<char>>
    decreases n,
{
    if n <= 0 || n > inputs.len() {
        Ok(Seq::empty())
    } else {
        match fn_params_spec(inputs, n - 1) {
            Err(e) => Err(e),
            Ok(v) => match inputs[n - 1] {
                FnInput::Receiver(_) => Err(self_param_msg()),
                FnInput::Typed(None, _) => Err(pattern_msg()),
                FnInput::Typed(Some(name), ty) => match type_spec(ty, None) {
                    Err(e) => Err(e),
                    Ok(b) => Ok(
                        v.push(ParameterBindingView { name: name@, ty: b, passing: passing_style_spec(ty) }),
                    ),
                },
            },
        }
    }
}

proof fn lemma_fn_params_err_extends(inputs: Seq<FnInput>, k: int, n: int)
    requires
        0 < k <= n <= inputs.len(),
        fn_params_spec(inputs, k) is Err,
    ensures
        fn_params_spec(inputs, n) == fn_params_spec(inputs, k),
    decreases n - k,
{
    if n > k {
        lemma_fn_params_err_extends(inputs, k, n - 1);
    }
}

/// The return binding of a `#[leanfn]` function (`()` when it has none).
pub open spec fn fn_return_spec(out: Option<RustType>) -> Result<TypeBindingView, Seq<char>> {
    match out {
        None => Ok(unit_binding_spec()),
        Some(t) => type_spec(t, None),
    }
}

/// A free function's binding: its FFI symbol is its Lean name.
pub open spec fn free_fn_binding(
    rust_name: Seq<char>,
    lean_name: Seq<char>,
    params: Seq<ParameterBindingView>,
    ret: TypeBindingView,
) -> FunctionBindingView {
    FunctionBindingView {
        rust_name,
        lean_name,
        owner: None,
        ffi_symbol: lean_name,
        receiver: ReceiverStyle::NoSelf,
        params,
        return_type: ret,
        semantics: BindingSemantics::Value,
        kind: BindingKind::Method,
        lean_decl: None,
    }
}

/// The signature part of a free function's binding.
pub open spec fn fn_signature_spec(func: FnItem, lean_name: Seq<char>) -> Result<FunctionBindingView, Seq<char>> {
    match fn_params_spec(func.inputs@, func.inputs@.len() as int) {
        Err(e) => Err(e),
        Ok(ps) => match fn_return_spec(func.output) {
            Err(e) => Err(e),
            Ok(r) => Ok(free_fn_binding(func.ident@, lean_name, ps, r)),
        },
    }
}

/// The binding of a `#[leanfn]` function, named `lean_name` in Lean when given.
pub open spec fn lean_function_spec(func: FnItem, lean_name: Option<Seq<char>>) -> Result<
    FunctionBindingView,
    Seq<char>,
> {
    if func.generics@.len() > 0 {
        Err("Generic functions are not supported yet"@)
    } else {
        fn_signature_spec(
            func,
            match lean_name {
                Some(n) => n,
                None => func.ident@,
            },
        )
    }
}

pub open spec fn fn_result_view(r: Result<FunctionBinding, String>) -> Result<FunctionBindingView, Seq<char>> {
    match r {
        Ok(b) => Ok(b@),
        Err(e) => Err(e@),
    }
}

fn fn_params(inputs: &Vec<FnInput>) -> (r: Result<Vec<ParameterBinding>, String>)
    ensures
        match fn_params_spec(inputs@, inputs@.len() as int) {
            Ok(v) => r matches Ok(ps) && params_view(ps@) == v,
            Err(e) => r matches Err(m) && m@ == e,
        },
{
    let mut params: Vec<ParameterBinding> = Vec::new();
    let mut i: usize = 0;
    assert(params_view(params@) =~= Seq::<ParameterBindingView>::empty());
    while i < inputs.len()
        invariant
            i <= inputs.len(),
            fn_params_spec(inputs@, i as int) == Ok::<Seq<ParameterBindingView>, Seq<char>>(params_view(params@)),
        decreases inputs.len() - i,
    {
        let ghost prev = params_view(params@);
        match &inputs[i] {
            FnInput::Receiver(_) => {
                proof {
                    lemma_fn_params_err_extends(inputs@, i + 1, inputs@.len() as int);
                }
                return Err(owned("Methods with `self` are not supported. Use standalone functions."));
            },
            FnInput::Typed(None, _) => {
                proof {
                    lemma_fn_params_err_extends(inputs@, i + 1, inputs@.len() as int);
                }
                return Err(owned("Only simple parameter patterns are supported"));
            },
            FnInput::Typed(Some(name), ty) => {
                let b = match analyze_leanfn_type(ty) {
                    Ok(b) => b,
                    Err(e) => {
                        proof {
                            lemma_fn_params_err_extends(inputs@, i + 1, inputs@.len() as int);
                        }
                        return Err(e);
                    },
                };
                let p = ParameterBinding { name: name.clone(), ty: b, passing: passing_style_for_leanfn(ty) };
                let ghost pv = p@;
                params.push(p);
                assert(params_view(params@) =~= prev.push(pv));
            },
        }
        i = i + 1;
    }
    Ok(params)
}

fn fn_return(out: &Option<RustType>) -> (r: Result<TypeBinding, String>)
    ensures
        tb_result(r) == fn_return_spec(*out),
{
    match out {
        None => Ok(unit_binding()),
        Some(t) => analyze_leanfn_type(t),
    }
}

fn fn_signature(func: &FnItem, lean_name: String) -> (r: Result<FunctionBinding, String>)
    ensures
        fn_result_view(r) == fn_signature_spec(*func, lean_name@),
{
    let params = fn_params(&func.inputs)?;
    let return_type = fn_return(&func.output)?;
    Ok(FunctionBinding {
        rust_name: func.ident.clone(),
        lean_name: lean_name.clone(),
        owner: None,
        ffi_symbol: lean_name,
        receiver: ReceiverStyle::NoSelf,
        params,
        return_type,
        semantics: BindingSemantics::Value,
        kind: BindingKind::Method,
        lean_decl: None,
    })
}

/// Analyze a `#[leanfn]` function.
pub fn analyze_lean_function(func: &FnItem, options: FunctionOptions) -> (r: Result<FunctionBinding, String>)
    ensures
        fn_result_view(r) == lean_function_spec(*func, opt_str_view(options.lean_name)),
{
    if func.generics.len() > 0 {
        return Err(owned("Generic functions are not supported yet"));
    }
    let lean_name = match options.lean_name {
        Some(n) => n,
        None => func.ident.clone(),
    };
    fn_signature(func, lean_name)
}

/// The type parameter names of a function; lifetime and const parameters
/// cannot be monomorphised.
pub open spec fn generic_names_spec(gs: Seq<crate::syntax::GenericParamItem>, n: int) -> Result<nat, Seq<char>>
    decreases n,
{
    if n <= 0 || n > gs.len() {
        Ok(0)
    } else {
        match generic_names_spec(gs, n - 1) {
            Err(e) => Err(e),
            Ok(k) => match gs[n - 1].kind {
                GenericParam::Type => Ok(k + 1),
                GenericParam::Lifetime => Err("lifetime parameters are not supported with `concrete`"@),
                GenericParam::Const => Err("const parameters are not supported with `concrete`"@),
            },
        }
    }
}

pub open spec fn arity_msg(params: nat, types: nat) -> Seq<char> {
    "expected "@ + crate::text::decimal_digits(params) + " concrete type(s) for "@ + crate::text::decimal_digits(params)
        + " generic parameter(s), got "@ + crate::text::decimal_digits(types)
}

/// The binding of one monomorphised instance. `func` is the generic function
/// with the instance's types substituted for its type parameters.
pub open spec fn concrete_spec(func: FnItem, c: ConcreteAttr) -> Result<FunctionBindingView, Seq<char>> {
    match generic_names_spec(func.generics@, func.generics@.len() as int) {
        Err(e) => Err(e),
        Ok(k) => if k != c.types@.len() {
            Err(arity_msg(k, c.types@.len()))
        } else {
            fn_signature_spec(func, c.name@)
        },
    }
}

proof fn lemma_generic_names_err_extends(gs: Seq<crate::syntax::GenericParamItem>, k: int, n: int)
    requires
        0 < k <= n <= gs.len(),
        generic_names_spec(gs, k) is Err,
    ensures
        generic_names_spec(gs, n) == generic_names_spec(gs, k),
    decreases n - k,
{
    if n > k {
        lemma_generic_names_err_extends(gs, k, n - 1);
    }
}

/// Whether name `j` of a list already occurred before it.
pub open spec fn seen_before(ns: Seq<Seq<char>>, j: int) -> bool {
    exists|i: int| 0 <= i < j && ns[i] == #[trigger] ns[j]
}

/// The first position, from `j` on, whose name already occurred before it.
pub open spec fn first_repeat(ns: Seq<Seq<char>>, j: int) -> Option<int>
    decreases ns.len() - j,
{
    if j < 0 || j >= ns.len() {
        None
    } else if seen_before(ns, j) {
        Some(j)
    } else {
        first_repeat(ns, j + 1)
    }
}

/// Check that the `concrete(...)` instances of one function have distinct
/// names; the first repeated name is the error.
pub fn check_concrete_names(names: &[String]) -> (r: Result<(), String>)
    ensures
        match first_repeat(strings_view(names@), 0) {
            None => r is Ok,
            Some(j) => r matches Err(m) && m@ == "duplicate concrete name `"@ + names@[j]@ + "`"@,
        },
{
    let ghost ns = strings_view(names@);
    let mut j: usize = 0;
    while j < names.len()
        invariant
            ns == strings_view(names@),
            j <= names.len(),
            first_repeat(ns, 0) == first_repeat(ns, j as int),
        decreases names.len() - j,
    {
        let mut i: usize = 0;
        let mut found = false;
        while i < j
            invariant
                ns == strings_view(names@),
                i <= j < names.len(),
                found ==> seen_before(ns, j as int),
                !found ==> forall|k: int| 0 <= k < i ==> ns[k] != ns[j as int],
            decreases j - i,
        {
            if str_eq(names[i].as_str(), names[j].as_str()) {
                found = true;
                assert(ns[i as int] == ns[j as int]);
            }
            i = i + 1;
        }
        if found {
            let mut m = owned("duplicate concrete name `");
            m.append(names[j].as_str());
            m.append("`");
            return Err(m);
        }
        assert(!seen_before(ns, j as int));
        j = j + 1;
    }
    Ok(())
}

/// Analyze one `concrete(...)` instance of a generic `#[leanfn]` function;
/// `func` carries the instance's types in place of the type parameters.
pub fn analyze_concrete_instance(func: &FnItem, concrete: &ConcreteAttr) -> (r: Result<FunctionBinding, String>)
    ensures
        fn_result_view(r) == concrete_spec(*func, *concrete),
{
    let mut count: usize = 0;
    let mut i: usize = 0;
    while i < func.generics.len()
        invariant
            i <= func.generics.len(),
            count <= i,
            generic_names_spec(func.generics@, i as int) == Ok::<nat, Seq<char>>(count as nat),
        decreases func.generics.len() - i,
    {
        match func.generics[i].kind {
            GenericParam::Type => {
                count = count + 1;
            },
            GenericParam::Lifetime => {
                proof {
                    lemma_generic_names_err_extends(func.generics@, i + 1, func.generics@.len() as int);
                }
                return Err(owned("lifetime parameters are not supported with `concrete`"));
            },
            GenericParam::Const => {
                proof {
                    lemma_generic_names_err_extends(func.generics@, i + 1, func.generics@.len() as int);
                }
                return Err(owned("const parameters are not supported with `concrete`"));
            },
        }
        i = i + 1;
    }
    if count != concrete.types.len() {
        let mut m = owned("expected ");
        crate::text::push_decimal(&mut m, count as u64);
        m.append(" concrete type(s) for ");
        crate::text::push_decimal(&mut m, count as u64);
        m.append(" generic parameter(s), got ");
        crate::text::push_decimal(&mut m, concrete.types.len() as u64);
        return Err(m);
    }
    fn_signature(func, concrete.name.clone())
}

// ---------------------------------------------------------------------------
// #[leanclass] impl blocks
// ---------------------------------------------------------------------------

/// The receiver of a method and the index of its first non-receiver input.
pub open spec fn receiver_spec(inputs: Seq<FnInput>) -> (ReceiverStyle, int) {
    if inputs.len() > 0 && inputs[0] is Receiver {
        let r = inputs[0]->Receiver_0;
        (
            if r.mutable {
                ReceiverStyle::MutRef
            } else if r.reference {
                ReceiverStyle::Ref
            } else {
                ReceiverStyle::Owned
            },
            1,
        )
    } else {
        (ReceiverStyle::NoSelf, 0)
    }
}

/// The parameters of inputs `start..n` of a `#[leanclass]` method.
pub open spec fn method_params_spec(inputs: Seq<FnInput>, start: int, n: int, class: Seq<char>) -> Result<
    Seq<ParameterBindingView>,
    Seq<char>,
>
    decreases n,
{
    if n <= 0 || n <= start || n > inputs.len() {
        Ok(Seq::empty())
    } else {
        match method_params_spec(inputs, start, n - 1, class) {
            Err(e) => Err(e),
            Ok(v) => match inputs[n - 1] {
                FnInput::Receiver(_) => Ok(v),
                FnInput::Typed(None, _) => Err(pattern_msg()),
                FnInput::Typed(Some(name), ty) => match type_spec(ty, Some(class)) {
                    Err(e) => Err(e),
                    Ok(b) => Ok(
                        v.push(ParameterBindingView { name: name@, ty: b, passing: PassingStyle::Owned }),
                    ),
                },
            },
        }
    }
}

proof fn lemma_method_params_err_extends(inputs: Seq<FnInput>, start: int, k: int, n: int, class: Seq<char>)
    requires
        start < k <= n <= inputs.len(),
        method_params_spec(inputs, start, k, class) is Err,
    ensures
        method_params_spec(inputs, start, n, class) == method_params_spec(inputs, start, k, class),
    decreases n - k,
{
    if n > k {
        lemma_method_params_err_extends(inputs, start, k, n - 1, class);
    }
}

/// The kind of a method: `#[getter]` methods take `&self`, no parameters and
/// return a value; `#[setter]` methods take `&mut self` and one parameter and
/// return `()`.
pub open spec fn binding_kind_spec(attrs: Seq<AttrItem>, recv: ReceiverStyle, nparams: int, unit_return: bool) -> Result<
    BindingKind,
    Seq<char>,
> {
    let g = has_attr_spec(attrs, "getter"@);
    let st = has_attr_spec(attrs, "setter"@);
    if g && st {
        Err("#[getter] and #[setter] are mutually exclusive"@)
    } else if g {
        if recv != ReceiverStyle::Ref {
            Err("#[getter] methods must take &self"@)
        } else if nparams != 0 {
            Err("#[getter] methods must not take additional parameters"@)
        } else if unit_return {
            Err("#[getter] methods must return a non-unit value"@)
        } else {
            Ok(BindingKind::Getter)
        }
    } else if st {
        if recv != ReceiverStyle::MutRef {
            Err("#[setter] methods must take &mut self"@)
        } else if nparams != 1 {
            Err("#[setter] methods must take exactly one parameter"@)
        } else if !unit_return {
            Err("#[setter] methods must return `()` (the updated object is returned to Lean)"@)
        } else {
            Ok(BindingKind::Setter)
        }
    } else {
        Ok(BindingKind::Method)
    }
}

/// Decide a method's binding kind from its helper attributes.
pub fn detect_binding_kind(
    method: &FnItem,
    receiver: ReceiverStyle,
    params: &[ParameterBinding],
    rust_return: &RustType,
) -> (r: Result<BindingKind, String>)
    ensures
        match binding_kind_spec(method.attrs@, receiver, params@.len() as int, is_unit_spec(*rust_return)) {
            Ok(k) => r == Ok::<BindingKind, String>(k),
            Err(e) => r matches Err(m) && m@ == e,
        },
{
    let is_getter = has_attr(&method.attrs, "getter");
    let is_setter = has_attr(&method.attrs, "setter");
    if is_getter && is_setter {
        return Err(owned("#[getter] and #[setter] are mutually exclusive"));
    }
    if is_getter {
        if receiver != ReceiverStyle::Ref {
            return Err(owned("#[getter] methods must take &self"));
        }
        if params.len() != 0 {
            return Err(owned("#[getter] methods must not take additional parameters"));
        }
        if is_unit_type(rust_return) {
            return Err(owned("#[getter] methods must return a non-unit value"));
        }
        return Ok(BindingKind::Getter);
    }
    if is_setter {
        if receiver != ReceiverStyle::MutRef {
            return Err(owned("#[setter] methods must take &mut self"));
        }
        if params.len() != 1 {
            return Err(owned("#[setter] methods must take exactly one parameter"));
        }
        if !is_unit_type(rust_return) {
            return Err(owned("#[setter] methods must return `()` (the updated object is returned to Lean)"));
        }
        return Ok(BindingKind::Setter);
    }
    Ok(BindingKind::Method)
}

/// The binding a method returns: `&mut self` methods return the updated
/// object, paired with their value when they have one.
pub open spec fn method_return_spec(
    recv: ReceiverStyle,
    unit_return: bool,
    ret_text: Seq<char>,
    base: TypeBindingView,
    class: Seq<char>,
) -> TypeBindingView {
    if recv == ReceiverStyle::MutRef {
        if unit_return {
            binding(class, Some(class), TypeShape::Named)
        } else {
            binding(
                "("@ + class + ", "@ + ret_text + ")"@,
                Some(
                    "Prod "@ + class + " "@ + lean_type_arg_spec(
                        match base.lean {
                            Some(l) => l,
                            None => class,
                        },
                    ),
                ),
                TypeShape::Prod,
            )
        }
    } else {
        base
    }
}

pub open spec fn method_semantics_spec(recv: ReceiverStyle, unit_return: bool) -> BindingSemantics {
    if recv == ReceiverStyle::MutRef {
        if unit_return {
            BindingSemantics::MutatesSelf
        } else {
            BindingSemantics::MutatesSelfWithValue
        }
    } else {
        BindingSemantics::Value
    }
}

/// The arrow-separated parts of a method's Lean type: the class for a
/// receiver, the parameters, the result.
pub open spec fn method_type_parts(
    recv: ReceiverStyle,
    lean_class: Seq<char>,
    ps: Seq<ParameterBindingView>,
    ret: TypeBindingView,
) -> Seq<Seq<char>> {
    (if recv != ReceiverStyle::NoSelf {
        seq![lean_class]
    } else {
        Seq::empty()
    }) + ps.map_values(|p: ParameterBindingView| lean_or_rust(p.ty)) + seq![lean_or_rust(ret)]
}

/// The binding of a `#[leanclass]` method of `class`, named in Lean under
/// `lean_class`.
pub open spec fn class_method_spec(m: FnItem, class: Seq<char>, lean_class: Seq<char>) -> Result<
    FunctionBindingView,
    Seq<char>,
> {
    if m.generics@.len() > 0 {
        Err("Generic methods are not supported yet"@)
    } else {
        let recv = receiver_spec(m.inputs@).0;
        let start = receiver_spec(m.inputs@).1;
        match method_params_spec(m.inputs@, start, m.inputs@.len() as int, class) {
            Err(e) => Err(e),
            Ok(ps) => {
                let unit_ret = match m.output {
                    None => true,
                    Some(t) => is_unit_spec(t),
                };
                match binding_kind_spec(m.attrs@, recv, ps.len() as int, unit_ret) {
                    Err(e) => Err(e),
                    Ok(kind) => match (match m.output {
                        None => Ok(unit_binding_spec()),
                        Some(t) => type_spec(t, Some(class)),
                    }) {
                        Err(e) => Err(e),
                        Ok(base) => {
                            let ret_text = match m.output {
                                None => "()"@,
                                Some(t) => t.text@,
                            };
                            let ret = method_return_spec(recv, unit_ret, ret_text, base, class);
                            let lean_method = match attr_name_value_spec(m.attrs@, "name"@) {
                                Some(n) => n,
                                None => m.ident@,
                            };
                            let lean_name = lean_class + "."@ + lean_method;
                            let ffi = ffi_symbol_spec(class, m.ident@);
                            Ok(
                                FunctionBindingView {
                                    rust_name: m.ident@,
                                    lean_name,
                                    owner: Some(class),
                                    ffi_symbol: ffi,
                                    receiver: recv,
                                    params: ps,
                                    return_type: ret,
                                    semantics: method_semantics_spec(recv, unit_ret),
                                    kind,
                                    lean_decl: Some(
                                        extern_opaque(
                                            ffi,
                                            lean_name,
                                            seq_join(method_type_parts(recv, lean_class, ps, ret), " → "@),
                                        ),
                                    ),
                                },
                            )
                        },
                    },
                }
            },
        }
    }
}

fn method_params(inputs: &Vec<FnInput>, start: usize, class_name: &str) -> (r: Result<Vec<ParameterBinding>, String>)
    requires
        start <= inputs@.len(),
    ensures
        match method_params_spec(inputs@, start as int, inputs@.len() as int, class_name@) {
            Ok(v) => r matches Ok(ps) && params_view(ps@) == v,
            Err(e) => r matches Err(m) && m@ == e,
        },
{
    let mut params: Vec<ParameterBinding> = Vec::new();
    let mut i: usize = start;
    assert(params_view(params@) =~= Seq::<ParameterBindingView>::empty());
    while i < inputs.len()
        invariant
            start <= i <= inputs.len(),
            method_params_spec(inputs@, start as int, i as int, class_name@) == Ok::<
                Seq<ParameterBindingView>,
                Seq<char>,
            >(params_view(params@)),
        decreases inputs.len() - i,
    {
        let ghost prev = params_view(params@);
        match &inputs[i] {
            FnInput::Receiver(_) => {},
            FnInput::Typed(None, _) => {
                proof {
                    lemma_method_params_err_extends(inputs@, start as int, i + 1, inputs@.len() as int, class_name@);
                }
                return Err(owned("Only simple parameter patterns are supported"));
            },
            FnInput::Typed(Some(name), ty) => {
                let b = match analyze_leanclass_type(ty, class_name) {
                    Ok(b) => b,
                    Err(e) => {
                        proof {
                            lemma_method_params_err_extends(inputs@, start as int, i + 1, inputs@.len() as int, class_name@);
                        }
                        return Err(e);
                    },
                };
                let p = ParameterBinding { name: name.clone(), ty: b, passing: PassingStyle::Owned };
                let ghost pv = p@;
                params.push(p);
                assert(params_view(params@) =~= prev.push(pv));
            },
        }
        i = i + 1;
    }
    Ok(params)
}

/// Whether a method returns `()` (written or left out).
pub open spec fn method_returns_unit(m: FnItem) -> bool {
    match m.output {
        None => true,
        Some(t) => is_unit_spec(t),
    }
}

/// Whether the helper attributes reject a method: both `#[getter]` and
/// `#[setter]`, a getter that does not take `&self`, takes parameters or
/// returns `()`, or a setter that does not take `&mut self`, does not take
/// exactly one parameter or does not return `()`.
pub open spec fn accessor_kind_rejected(g: bool, st: bool, recv: ReceiverStyle, nparams: int, unit: bool) -> bool {
    ||| g && st
    ||| g && (recv != ReceiverStyle::Ref || nparams != 0 || unit)
    ||| st && (recv != ReceiverStyle::MutRef || nparams != 1 || !unit)
}

/// Law: for a method whose generics, parameters and return type are
/// accepted, the `#[leanclass]` analysis fails exactly when the helper
/// attributes reject it, and otherwise gives kind `Getter` under
/// `#[getter]`, `Setter` under `#[setter]` and `Method` without either.
pub proof fn lemma_class_method_kind_iff(m: FnItem, class: Seq<char>, lean_class: Seq<char>)
    requires
        m.generics@.len() == 0,
        method_params_spec(m.inputs@, receiver_spec(m.inputs@).1, m.inputs@.len() as int, class) is Ok,
        match m.output {
            None => true,
            Some(t) => type_spec(t, Some(class)) is Ok,
        },
    ensures
        ({
            let ps = method_params_spec(m.inputs@, receiver_spec(m.inputs@).1, m.inputs@.len() as int, class)->Ok_0;
            let g = has_attr_spec(m.attrs@, "getter"@);
            let st = has_attr_spec(m.attrs@, "setter"@);
            let recv = receiver_spec(m.inputs@).0;
            &&& class_method_spec(m, class, lean_class) is Err <==> accessor_kind_rejected(
                g,
                st,
                recv,
                ps.len() as int,
                method_returns_unit(m),
            )
            &&& class_method_spec(m, class, lean_class) matches Ok(b) ==> b.kind == (if g {
                BindingKind::Getter
            } else if st {
                BindingKind::Setter
            } else {
                BindingKind::Method
            })
        }),
{
}

/// Law: a `#[leanclass]` method binding is a getter exactly when the method
/// carries `#[getter]` and a setter exactly when it carries `#[setter]`; a
/// getter takes `&self`, no other parameter and returns a value, a setter
/// takes `&mut self` and one parameter and returns `()`. A method whose
/// generics and parameters are accepted is refused when it carries both
/// attributes, when a getter does not take `&self`, and when a setter does
/// not take `&mut self`.
pub proof fn lemma_accessor_method_rules(m: FnItem, class: Seq<char>, lean_class: Seq<char>)
    ensures
        class_method_spec(m, class, lean_class) matches Ok(b) ==> {
            &&& (b.kind == BindingKind::Getter <==> has_attr_spec(m.attrs@, "getter"@))
            &&& (b.kind == BindingKind::Setter <==> has_attr_spec(m.attrs@, "setter"@))
            &&& (b.kind == BindingKind::Getter ==> b.receiver == ReceiverStyle::Ref && b.params.len()
                == 0 && !method_returns_unit(m))
            &&& (b.kind == BindingKind::Setter ==> b.receiver == ReceiverStyle::MutRef
                && b.params.len() == 1 && method_returns_unit(m))
        },
        ({
            let accepted = m.generics@.len() == 0 && method_params_spec(
                m.inputs@,
                receiver_spec(m.inputs@).1,
                m.inputs@.len() as int,
                class,
            ) is Ok;
            let g = has_attr_spec(m.attrs@, "getter"@);
            let st = has_attr_spec(m.attrs@, "setter"@);
            let recv = receiver_spec(m.inputs@).0;
            &&& accepted && g && st ==> class_method_spec(m, class, lean_class) == Err::<
                FunctionBindingView,
                Seq<char>,
            >("#[getter] and #[setter] are mutually exclusive"@)
            &&& accepted && g && !st && recv != ReceiverStyle::Ref ==> class_method_spec(
                m,
                class,
                lean_class,
            ) == Err::<FunctionBindingView, Seq<char>>("#[getter] methods must take &self"@)
            &&& accepted && st && !g && recv != ReceiverStyle::MutRef ==> class_method_spec(
                m,
                class,
                lean_class,
            ) == Err::<FunctionBindingView, Seq<char>>("#[setter] methods must take &mut self"@)
        }),
{
}


/// Analyze one method of a `#[leanclass]` impl block of `class_name`, named
/// in Lean under `lean_class_name`.
pub fn analyze_lean_class_method(method: &FnItem, class_name: &str, lean_class_name: &str) -> (r: Result<
    FunctionBinding,
    String,
>)
    ensures
        fn_result_view(r) == class_method_spec(*method, class_name@, lean_class_name@),
{
    if method.generics.len() > 0 {
        return Err(owned("Generic methods are not supported yet"));
    }
    let (receiver, start): (ReceiverStyle, usize) = if method.inputs.len() > 0 {
        match &method.inputs[0] {
            FnInput::Receiver(recv) => {
                if recv.mutable {
                    (ReceiverStyle::MutRef, 1)
                } else if recv.reference {
                    (ReceiverStyle::Ref, 1)
                } else {
                    (ReceiverStyle::Owned, 1)
                }
            },
            FnInput::Typed(..) => (ReceiverStyle::NoSelf, 0),
        }
    } else {
        (ReceiverStyle::NoSelf, 0)
    };
    assert(receiver == receiver_spec(method.inputs@).0 && start as int == receiver_spec(method.inputs@).1);
    let params = method_params(&method.inputs, start, class_name)?;
    let unit_ty = RustType { text: owned("()"), kind: TypeKind::Tuple(Vec::new()) };
    let rust_return: &RustType = match &method.output {
        Some(t) => t,
        None => &unit_ty,
    };
    let unit_ret = is_unit_type(rust_return);
    let kind = detect_binding_kind(method, receiver, params.as_slice(), rust_return)?;
    let base = analyze_leanclass_type(rust_return, class_name)?;
    let return_type = if receiver == ReceiverStyle::MutRef {
        if unit_ret {
            TypeBinding { rust: owned(class_name), lean: Some(owned(class_name)), shape: TypeShape::Named }
        } else {
            let mut rust = owned("(");
            rust.append(class_name);
            rust.append(", ");
            rust.append(rust_return.text.as_str());
            rust.append(")");
            let inner = match &base.lean {
                Some(l) => l.clone(),
                None => owned(class_name),
            };
            let mut lean = owned("Prod ");
            lean.append(class_name);
            lean.append(" ");
            lean.append(lean_type_arg(inner.as_str()).as_str());
            TypeBinding { rust, lean: Some(lean), shape: TypeShape::Prod }
        }
    } else {
        base
    };
    let semantics = if receiver == ReceiverStyle::MutRef {
        if unit_ret {
            BindingSemantics::MutatesSelf
        } else {
            BindingSemantics::MutatesSelfWithValue
        }
    } else {
        BindingSemantics::Value
    };
    let lean_method_name = match attr_name_value(&method.attrs, "name") {
        Some(n) => n,
        None => method.ident.clone(),
    };
    let lean_name = concat3(lean_class_name, ".", lean_method_name.as_str());
    let mut ffi_symbol = concat3("__lean_ffi_", class_name, "_");
    ffi_symbol.append(method.ident.as_str());
    let mut parts: Vec<String> = Vec::new();
    if receiver != ReceiverStyle::NoSelf {
        parts.push(owned(lean_class_name));
    }
    let ghost head = strings_view(parts@);
    assert(head =~= if receiver != ReceiverStyle::NoSelf {
        seq![lean_class_name@]
    } else {
        Seq::<Seq<char>>::empty()
    });
    let mut i: usize = 0;
    while i < params.len()
        invariant
            i <= params.len(),
            strings_view(parts@) == head + params_view(params@).take(i as int).map_values(
                |p: ParameterBindingView| lean_or_rust(p.ty),
            ),
        decreases params.len() - i,
    {
        let ghost prev = strings_view(parts@);
        parts.push(lean_or_rust_string(&params[i].ty));
        proof {
            let pv = params_view(params@);
            assert(pv.take(i + 1) =~= pv.take(i as int).push(pv[i as int]));
            assert(strings_view(parts@) =~= prev.push(lean_or_rust(pv[i as int].ty)));
        }
        i = i + 1;
    }
    assert(params_view(params@).take(i as int) =~= params_view(params@));
    let ghost before_ret = strings_view(parts@);
    parts.push(lean_or_rust_string(&return_type));
    assert(strings_view(parts@) =~= before_ret.push(lean_or_rust(return_type@)));
    let ghost rv = return_type@;
    assert(strings_view(parts@) =~= method_type_parts(receiver, lean_class_name@, params_view(params@), rv));
    let joined = join_strings(&parts, " → ");
    let decl = extern_opaque_exec(ffi_symbol.as_str(), lean_name.as_str(), joined.as_str());
    Ok(FunctionBinding {
        rust_name: method.ident.clone(),
        lean_name,
        owner: Some(owned(class_name)),
        ffi_symbol,
        receiver,
        params,
        return_type,
        semantics,
        kind,
        lean_decl: Some(decl),
    })
}

/// The Lean declarations of methods that have one.
pub open spec fn method_decls(ms: Seq<FunctionBindingView>) -> Seq<Seq<char>>
    decreases ms.len(),
{
    if ms.len() == 0 {
        Seq::empty()
    } else {
        method_decls(ms.drop_last()) + match ms.last().lean_decl {
            Some(d) => seq![d],
            None => Seq::<Seq<char>>::empty(),
        }
    }
}

/// The bindings of the first `n` methods; the first error wins.
pub open spec fn methods_spec(ms: Seq<FnItem>, n: int, class: Seq<char>, lean_class: Seq<char>) -> Result<
    Seq<FunctionBindingView>,
    Seq<char>,
>
    decreases n,
{
    if n <= 0 || n > ms.len() {
        Ok(Seq::empty())
    } else {
        match methods_spec(ms, n - 1, class, lean_class) {
            Err(e) => Err(e),
            Ok(v) => match class_method_spec(ms[n - 1], class, lean_class) {
                Err(e) => Err(e),
                Ok(b) => Ok(v.push(b)),
            },
        }
    }
}

proof fn lemma_methods_err_extends(ms: Seq<FnItem>, k: int, n: int, class: Seq<char>, lean_class: Seq<char>)
    requires
        0 < k <= n <= ms.len(),
        methods_spec(ms, k, class, lean_class) is Err,
    ensures
        methods_spec(ms, n, class, lean_class) == methods_spec(ms, k, class, lean_class),
    decreases n - k,
{
    if n > k {
        lemma_methods_err_extends(ms, k, n - 1, class, lean_class);
    }
}

/// The struct name of an impl's self type.
pub open spec fn self_class_spec(t: RustType) -> Result<Seq<char>, Seq<char>> {
    match t.kind {
        TypeKind::Path(p) => if p.segments@.len() == 0 {
            Err("Could not extract struct name from impl"@)
        } else {
            Ok(p.segments@[p.segments@.len() - 1].ident@)
        },
        _ => Err("#[leanclass] impl must be for a simple struct type"@),
    }
}

/// The binding of a `#[leanclass]` impl block: its methods and their Lean
/// declarations, one per line.
pub open spec fn class_impl_spec(item: ImplItem, over: Option<Seq<char>>) -> Result<
    crate::model::ClassImplBindingView,
    Seq<char>,
> {
    match self_class_spec(item.self_ty) {
        Err(e) => Err(e),
        Ok(class) => if item.has_generics {
            Err("#[leanclass] does not support generic impl blocks yet"@)
        } else {
            let lean_class = match over {
                Some(o) => o,
                None => class,
            };
            match methods_spec(item.methods@, item.methods@.len() as int, class, lean_class) {
                Err(e) => Err(e),
                Ok(ms) => Ok(
                    crate::model::ClassImplBindingView {
                        class_name: class,
                        methods: ms,
                        methods_decl: seq_join(method_decls(ms), "\n"@),
                    },
                ),
            }
        },
    }
}

/// Analyze a `#[leanclass]` impl block.
pub fn analyze_lean_class_impl(item: &ImplItem, lean_class_name: Option<&str>) -> (r: Result<
    ClassImplBinding,
    String,
>)
    ensures
        match class_impl_spec(*item, opt_str(lean_class_name)) {
            Ok(v) => r matches Ok(b) && b@ == v,
            Err(e) => r matches Err(m) && m@ == e,
        },
{
    let class_name = class_name_from_self_ty(&item.self_ty)?;
    let lean_class = match lean_class_name {
        Some(n) => owned(n),
        None => class_name.clone(),
    };
    if item.has_generics {
        return Err(owned("#[leanclass] does not support generic impl blocks yet"));
    }
    let ghost cls = class_name@;
    let ghost lcls = lean_class@;
    let mut methods: Vec<FunctionBinding> = Vec::new();
    let mut decls: Vec<String> = Vec::new();
    let mut i: usize = 0;
    assert(functions_view(methods@) =~= Seq::<FunctionBindingView>::empty());
    assert(strings_view(decls@) =~= Seq::<Seq<char>>::empty());
    while i < item.methods.len()
        invariant
            i <= item.methods.len(),
            cls == class_name@,
            lcls == lean_class@,
            !item.has_generics,
            self_class_spec(item.self_ty) == Ok::<Seq<char>, Seq<char>>(cls),
            lcls == match opt_str(lean_class_name) {
                Some(o) => o,
                None => cls,
            },
            methods_spec(item.methods@, i as int, cls, lcls) == Ok::<Seq<FunctionBindingView>, Seq<char>>(
                functions_view(methods@),
            ),
            strings_view(decls@) == method_decls(functions_view(methods@)),
        decreases item.methods.len() - i,
    {
        let b = match analyze_lean_class_method(&item.methods[i], class_name.as_str(), lean_class.as_str()) {
            Ok(b) => b,
            Err(e) => {
                proof {
                    assert(class_method_spec(item.methods@[i as int], cls, lcls) == Err::<FunctionBindingView, Seq<char>>(e@));
                    assert(methods_spec(item.methods@, i + 1, cls, lcls) == Err::<Seq<FunctionBindingView>, Seq<char>>(e@));
                    lemma_methods_err_extends(item.methods@, i + 1, item.methods@.len() as int, cls, lcls);
                }
                return Err(e);
            },
        };
        let ghost prev = functions_view(methods@);
        let ghost dprev = strings_view(decls@);
        match &b.lean_decl {
            Some(d) => {
                decls.push(d.clone());
            },
            None => {},
        }
        let ghost bv = b@;
        methods.push(b);
        proof {
            assert(functions_view(methods@) =~= prev.push(bv));
            assert(functions_view(methods@).drop_last() =~= prev);
            match bv.lean_decl {
                Some(d) => assert(strings_view(decls@) =~= dprev + seq![d]),
                None => assert(strings_view(decls@) =~= dprev + Seq::<Seq<char>>::empty()),
            }
        }
        i = i + 1;
    }
    let methods_decl = join_strings(&decls, "\n");
    Ok(ClassImplBinding { class_name, methods, methods_decl })
}

// ---------------------------------------------------------------------------
// Module exports
// ---------------------------------------------------------------------------

pub open spec fn is_leanfn_spec(a: AttrItem) -> bool {
    crate::syntax::attr_last_segment(a) == Some("leanfn"@)
}

/// The bindings of the first `n` concrete instances; the first error wins.
pub open spec fn concretes_spec(cs: Seq<crate::syntax::ConcreteInstance>, n: int) -> Result<
    Seq<FunctionBindingView>,
    Seq<char>,
>
    decreases n,
{
    if n <= 0 || n > cs.len() {
        Ok(Seq::empty())
    } else {
        match concretes_spec(cs, n - 1) {
            Err(e) => Err(e),
            Ok(v) => match concrete_spec(cs[n - 1].instance, cs[n - 1].attr) {
                Err(e) => Err(e),
                Ok(b) => Ok(v.push(b)),
            },
        }
    }
}

/// The exports one attribute of a function gives: none unless it is
/// `#[leanfn]`; one binding without `concrete` options, else one per instance.
pub open spec fn attr_export_spec(f: FnItem, a: AttrItem) -> Result<Seq<FunctionBindingView>, Seq<char>> {
    if !is_leanfn_spec(a) {
        Ok(Seq::empty())
    } else {
        match a.leanfn_options {
            None => Ok(Seq::empty()),
            Some(Err(m)) => Err(m@),
            Some(Ok(o)) => if o.concretes@.len() == 0 {
                match lean_function_spec(f, opt_str_view(o.name)) {
                    Err(e) => Err(e),
                    Ok(b) => Ok(seq![b]),
                }
            } else {
                concretes_spec(o.concretes@, o.concretes@.len() as int)
            },
        }
    }
}

/// The exports of the first `n` attributes of a function.
pub open spec fn fn_exports_spec(f: FnItem, n: int) -> Result<Seq<FunctionBindingView>, Seq<char>>
    decreases n,
{
    if n <= 0 || n > f.attrs@.len() {
        Ok(Seq::empty())
    } else {
        match fn_exports_spec(f, n - 1) {
            Err(e) => Err(e),
            Ok(v) => match attr_export_spec(f, f.attrs@[n - 1]) {
                Err(e) => Err(e),
                Ok(w) => Ok(v + w),
            },
        }
    }
}

/// The `#[leanfn]` exports of the first `n` items of a module.
pub open spec fn module_exports_spec(items: Seq<Item>, n: int) -> Result<Seq<FunctionBindingView>, Seq<char>>
    decreases n,
{
    if n <= 0 || n > items.len() {
        Ok(Seq::empty())
    } else {
        match module_exports_spec(items, n - 1) {
            Err(e) => Err(e),
            Ok(v) => match items[n - 1] {
                Item::Fn(f) => match fn_exports_spec(f, f.attrs@.len() as int) {
                    Err(e) => Err(e),
                    Ok(w) => Ok(v + w),
                },
                _ => Ok(v),
            },
        }
    }
}

proof fn lemma_module_exports_err_extends(items: Seq<Item>, k: int, n: int)
    requires
        0 < k <= n <= items.len(),
        module_exports_spec(items, k) is Err,
    ensures
        module_exports_spec(items, n) == module_exports_spec(items, k),
    decreases n - k,
{
    if n > k {
        lemma_module_exports_err_extends(items, k, n - 1);
    }
}

proof fn lemma_fn_exports_err_extends(f: FnItem, k: int, n: int)
    requires
        0 < k <= n <= f.attrs@.len(),
        fn_exports_spec(f, k) is Err,
    ensures
        fn_exports_spec(f, n) == fn_exports_spec(f, k),
    decreases n - k,
{
    if n > k {
        lemma_fn_exports_err_extends(f, k, n - 1);
    }
}

proof fn lemma_concretes_err_extends(cs: Seq<crate::syntax::ConcreteInstance>, k: int, n: int)
    requires
        0 < k <= n <= cs.len(),
        concretes_spec(cs, k) is Err,
    ensures
        concretes_spec(cs, n) == concretes_spec(cs, k),
    decreases n - k,
{
    if n > k {
        lemma_concretes_err_extends(cs, k, n - 1);
    }
}

fn append_functions(v: &mut Vec<FunctionBinding>, w: Vec<FunctionBinding>)
    ensures
        functions_view(final(v)@) == functions_view(old(v)@) + functions_view(w@),
{
    let ghost start = functions_view(v@);
    let mut w = w;
    let mut rest: Vec<FunctionBinding> = Vec::new();
    // move the items over in order
    let n = w.len();
    let ghost wv = functions_view(w@);
    let mut i: usize = 0;
    while i < n
        invariant
            i <= n,
            n == wv.len(),
            functions_view(v@) == start + wv.take(i as int),
            functions_view(w@) == wv,
        decreases n - i,
    {
        let ghost prev = functions_view(v@);
        v.push(w[i].copy());
        assert(functions_view(v@) =~= prev.push(wv[i as int]));
        assert(wv.take(i + 1) =~= wv.take(i as int).push(wv[i as int]));
        i = i + 1;
    }
    assert(wv.take(i as int) =~= wv);
}

fn attr_exports(f: &FnItem, a: &AttrItem) -> (r: Result<Vec<FunctionBinding>, String>)
    ensures
        match attr_export_spec(*f, *a) {
            Ok(v) => r matches Ok(bs) && functions_view(bs@) == v,
            Err(e) => r matches Err(m) && m@ == e,
        },
{
    let mut out: Vec<FunctionBinding> = Vec::new();
    assert(functions_view(out@) =~= Seq::<FunctionBindingView>::empty());
    if !is_leanfn_attr(a) {
        return Ok(out);
    }
    let o = match &a.leanfn_options {
        None => return Ok(out),
        Some(Err(m)) => return Err(m.clone()),
        Some(Ok(o)) => o,
    };
    if o.concretes.len() == 0 {
        let name = match &o.name {
            Some(n) => Some(n.clone()),
            None => None,
        };
        let b = analyze_lean_function(f, FunctionOptions { lean_name: name })?;
        let ghost bv = b@;
        out.push(b);
        assert(functions_view(out@) =~= seq![bv]);
        return Ok(out);
    }
    let mut i: usize = 0;
    while i < o.concretes.len()
        invariant
            i <= o.concretes.len(),
            is_leanfn_spec(*a),
            a.leanfn_options == Some(Ok::<crate::syntax::LeanfnOptions, String>(*o)),
            o.concretes@.len() > 0,
            concretes_spec(o.concretes@, i as int) == Ok::<Seq<FunctionBindingView>, Seq<char>>(
                functions_view(out@),
            ),
        decreases o.concretes.len() - i,
    {
        let c = &o.concretes[i];
        let b = match analyze_concrete_instance(&c.instance, &c.attr) {
            Ok(b) => b,
            Err(e) => {
                proof {
                    assert(concretes_spec(o.concretes@, i + 1) == Err::<Seq<FunctionBindingView>, Seq<char>>(e@));
                    lemma_concretes_err_extends(o.concretes@, i + 1, o.concretes@.len() as int);
                }
                return Err(e);
            },
        };
        let ghost prev = functions_view(out@);
        let ghost bv = b@;
        out.push(b);
        assert(functions_view(out@) =~= prev.push(bv));
        i = i + 1;
    }
    Ok(out)
}

fn fn_exports(f: &FnItem) -> (r: Result<Vec<FunctionBinding>, String>)
    ensures
        match fn_exports_spec(*f, f.attrs@.len() as int) {
            Ok(v) => r matches Ok(bs) && functions_view(bs@) == v,
            Err(e) => r matches Err(m) && m@ == e,
        },
{
    let mut out: Vec<FunctionBinding> = Vec::new();
    assert(functions_view(out@) =~= Seq::<FunctionBindingView>::empty());
    let mut i: usize = 0;
    while i < f.attrs.len()
        invariant
            i <= f.attrs.len(),
            fn_exports_spec(*f, i as int) == Ok::<Seq<FunctionBindingView>, Seq<char>>(functions_view(out@)),
        decreases f.attrs.len() - i,
    {
        let w = match attr_exports(f, &f.attrs[i]) {
            Ok(w) => w,
            Err(e) => {
                proof {
                    assert(fn_exports_spec(*f, i + 1) == Err::<Seq<FunctionBindingView>, Seq<char>>(e@));
                    lemma_fn_exports_err_extends(*f, i + 1, f.attrs@.len() as int);
                }
                return Err(e);
            },
        };
        append_functions(&mut out, w);
        i = i + 1;
    }
    Ok(out)
}

/// The `#[leanfn]` exports of a module's items, in order.
pub fn collect_module_exports(items: &[Item]) -> (r: Result<Vec<FunctionBinding>, String>)
    ensures
        match module_exports_spec(items@, items@.len() as int) {
            Ok(v) => r matches Ok(bs) && functions_view(bs@) == v,
            Err(e) => r matches Err(m) && m@ == e,
        },
{
    let mut exports: Vec<FunctionBinding> = Vec::new();
    assert(functions_view(exports@) =~= Seq::<FunctionBindingView>::empty());
    let mut i: usize = 0;
    while i < items.len()
        invariant
            i <= items.len(),
            module_exports_spec(items@, i as int) == Ok::<Seq<FunctionBindingView>, Seq<char>>(
                functions_view(exports@),
            ),
        decreases items.len() - i,
    {
        match &items[i] {
            Item::Fn(f) => {
                let w = match fn_exports(f) {
                    Ok(w) => w,
                    Err(e) => {
                        proof {
                            assert(module_exports_spec(items@, i + 1) == Err::<Seq<FunctionBindingView>, Seq<char>>(e@));
                            lemma_module_exports_err_extends(items@, i + 1, items@.len() as int);
                        }
                        return Err(e);
                    },
                };
                append_functions(&mut exports, w);
            },
            _ => {},
        }
        i = i + 1;
    }
    Ok(exports)
}

/// The dotted path of a nested module.
pub open spec fn nested_module_path(prefix: Seq<char>, ident: Seq<char>) -> Seq<char> {
    if prefix.len() == 0 {
        ident
    } else {
        prefix + "."@ + ident
    }
}

/// The submodules with exports among the first `n` items, depth first: each
/// inline module, then its own submodules.
pub open spec fn submodules_spec(items: Seq<Item>, n: int, prefix: Seq<char>) -> Result<
    Seq<crate::model::SubmoduleBindingView>,
    Seq<char>,
>
    decreases items, n,
{
    if n <= 0 || n > items.len() {
        Ok(Seq::empty())
    } else {
        match submodules_spec(items, n - 1, prefix) {
            Err(e) => Err(e),
            Ok(v) => match items[n - 1] {
                Item::Mod(ident, Some(sub)) => {
                    let path = nested_module_path(prefix, ident@);
                    match module_exports_spec(sub@, sub@.len() as int) {
                        Err(e) => Err(e),
                        Ok(ex) => {
                            let v2 = if ex.len() > 0 {
                                v.push(crate::model::SubmoduleBindingView { path, exports: ex })
                            } else {
                                v
                            };
                            match submodules_spec(sub@, sub@.len() as int, path) {
                                Err(e) => Err(e),
                                Ok(w) => Ok(v2 + w),
                            }
                        },
                    }
                },
                _ => Ok(v),
            },
        }
    }
}

proof fn lemma_submodules_err_extends(items: Seq<Item>, k: int, n: int, prefix: Seq<char>)
    requires
        0 < k <= n <= items.len(),
        submodules_spec(items, k, prefix) is Err,
    ensures
        submodules_spec(items, n, prefix) == submodules_spec(items, k, prefix),
    decreases n - k,
{
    if n > k {
        lemma_submodules_err_extends(items, k, n - 1, prefix);
    }
}

/// The submodules (with exports) of a module's inline submodules, at any
/// depth, named by their dotted paths below `prefix`.
pub fn collect_submodule_exports(items: &[Item], prefix: &str) -> (r: Result<Vec<SubmoduleBinding>, String>)
    ensures
        match submodules_spec(items@, items@.len() as int, prefix@) {
            Ok(v) => r matches Ok(ss) && crate::model::submodules_view(ss@) == v,
            Err(e) => r matches Err(m) && m@ == e,
        },
    decreases items@,
{
    let mut subs: Vec<SubmoduleBinding> = Vec::new();
    assert(crate::model::submodules_view(subs@) =~= Seq::<crate::model::SubmoduleBindingView>::empty());
    let mut i: usize = 0;
    while i < items.len()
        invariant
            i <= items.len(),
            submodules_spec(items@, i as int, prefix@) == Ok::<
                Seq<crate::model::SubmoduleBindingView>,
                Seq<char>,
            >(crate::model::submodules_view(subs@)),
        decreases items.len() - i,
    {
        match &items[i] {
            Item::Mod(ident, Some(sub)) => {
                let path = if prefix.is_empty() {
                    ident.clone()
                } else {
                    concat3(prefix, ".", ident.as_str())
                };
                assert(path@ == nested_module_path(prefix@, ident@));
                let exports = match collect_module_exports(sub.as_slice()) {
                    Ok(x) => x,
                    Err(e) => {
                        proof {
                            assert(submodules_spec(items@, i + 1, prefix@) == Err::<
                                Seq<crate::model::SubmoduleBindingView>,
                                Seq<char>,
                            >(e@));
                            lemma_submodules_err_extends(items@, i + 1, items@.len() as int, prefix@);
                        }
                        return Err(e);
                    },
                };
                let ghost prev = crate::model::submodules_view(subs@);
                let ghost ex = functions_view(exports@);
                if exports.len() > 0 {
                    subs.push(SubmoduleBinding { path: path.clone(), exports });
                    assert(crate::model::submodules_view(subs@) =~= prev.push(
                        crate::model::SubmoduleBindingView { path: path@, exports: ex },
                    ));
                }
                let ghost mid = crate::model::submodules_view(subs@);
                let nested = match collect_submodule_exports(sub.as_slice(), path.as_str()) {
                    Ok(x) => x,
                    Err(e) => {
                        proof {
                            assert(submodules_spec(items@, i + 1, prefix@) == Err::<
                                Seq<crate::model::SubmoduleBindingView>,
                                Seq<char>,
                            >(e@));
                            lemma_submodules_err_extends(items@, i + 1, items@.len() as int, prefix@);
                        }
                        return Err(e);
                    },
                };
                let ghost nv = crate::model::submodules_view(nested@);
                let mut j: usize = 0;
                let mut nested = nested;
                while j < nested.len()
                    invariant
                        j <= nested.len(),
                        nv == crate::model::submodules_view(nested@),
                        crate::model::submodules_view(subs@) == mid + nv.take(j as int),
                    decreases nested.len() - j,
                {
                    let ghost before = crate::model::submodules_view(subs@);
                    let s = copy_submodule(&nested[j]);
                    subs.push(s);
                    assert(crate::model::submodules_view(subs@) =~= before.push(nv[j as int]));
                    assert(nv.take(j + 1) =~= nv.take(j as int).push(nv[j as int]));
                    j = j + 1;
                }
                assert(nv.take(j as int) =~= nv);
            },
            _ => {},
        }
        i = i + 1;
    }
    Ok(subs)
}

fn copy_submodule(s: &SubmoduleBinding) -> (r: SubmoduleBinding)
    ensures
        r@ == s@,
{
    let mut exports: Vec<FunctionBinding> = Vec::new();
    assert(functions_view(exports@) =~= Seq::<FunctionBindingView>::empty());
    let mut i: usize = 0;
    while i < s.exports.len()
        invariant
            i <= s.exports.len(),
            functions_view(exports@) == functions_view(s.exports@).take(i as int),
        decreases s.exports.len() - i,
    {
        let ghost prev = functions_view(exports@);
        exports.push(s.exports[i].copy());
        assert(functions_view(exports@) =~= prev.push(s.exports@[i as int]@));
        assert(functions_view(s.exports@).take(i + 1) =~= functions_view(s.exports@).take(i as int).push(
            s.exports@[i as int]@,
        ));
        i = i + 1;
    }
    assert(functions_view(s.exports@).take(i as int) =~= functions_view(s.exports@));
    SubmoduleBinding { path: s.path.clone(), exports }
}

/// The first export named `name` in Lean or in Rust.
pub open spec fn find_export(es: Seq<FunctionBindingView>, name: Seq<char>, k: int) -> Option<int>
    decreases es.len() - k,
{
    if k >= es.len() || k < 0 {
        None
    } else if es[k].lean_name == name || es[k].rust_name == name {
        Some(k)
    } else {
        find_export(es, name, k + 1)
    }
}

/// The exports named by the first `n` allowed names, in the order of that
/// list; a name no export has is an error.
pub open spec fn filter_spec(es: Seq<FunctionBindingView>, allowed: Seq<Seq<char>>, n: int) -> Result<
    Seq<FunctionBindingView>,
    Seq<char>,
>
    decreases n,
{
    if n <= 0 || n > allowed.len() {
        Ok(Seq::empty())
    } else {
        match filter_spec(es, allowed, n - 1) {
            Err(e) => Err(e),
            Ok(v) => match find_export(es, allowed[n - 1], 0) {
                None => Err("export `"@ + allowed[n - 1] + "` not found in module"@),
                Some(k) => Ok(v.push(es[k])),
            },
        }
    }
}

proof fn lemma_filter_err_extends(es: Seq<FunctionBindingView>, allowed: Seq<Seq<char>>, k: int, n: int)
    requires
        0 < k <= n <= allowed.len(),
        filter_spec(es, allowed, k) is Err,
    ensures
        filter_spec(es, allowed, n) == filter_spec(es, allowed, k),
    decreases n - k,
{
    if n > k {
        lemma_filter_err_extends(es, allowed, k, n - 1);
    }
}

proof fn lemma_find_export_range(es: Seq<FunctionBindingView>, name: Seq<char>, k: int)
    ensures
        find_export(es, name, k) matches Some(i) ==> k <= i < es.len(),
    decreases es.len() - k,
{
    if k < es.len() && k >= 0 {
        lemma_find_export_range(es, name, k + 1);
    }
}

fn find_export_exec(exports: &Vec<FunctionBinding>, name: &String) -> (r: usize)
    ensures
        match find_export(functions_view(exports@), name@, 0) {
            Some(i) => r as int == i,
            None => r == exports@.len(),
        },
{
    let ghost es = functions_view(exports@);
    let mut k: usize = 0;
    while k < exports.len()
        invariant
            k <= exports.len(),
            es == functions_view(exports@),
            find_export(es, name@, 0) == find_export(es, name@, k as int),
        decreases exports.len() - k,
    {
        if exports[k].lean_name == *name || exports[k].rust_name == *name {
            return k;
        }
        k = k + 1;
    }
    k
}

/// Restrict exports to the allowed names (each a Lean or Rust name), in the
/// order of the allowed list.
pub fn filter_exports(exports: Vec<FunctionBinding>, allowed: &[String]) -> (r: Result<Vec<FunctionBinding>, String>)
    ensures
        match filter_spec(functions_view(exports@), strings_view(allowed@), allowed@.len() as int) {
            Ok(v) => r matches Ok(bs) && functions_view(bs@) == v,
            Err(e) => r matches Err(m) && m@ == e,
        },
{
    let ghost es = functions_view(exports@);
    let ghost names = strings_view(allowed@);
    let mut result: Vec<FunctionBinding> = Vec::new();
    assert(functions_view(result@) =~= Seq::<FunctionBindingView>::empty());
    let mut n: usize = 0;
    while n < allowed.len()
        invariant
            n <= allowed.len(),
            es == functions_view(exports@),
            names == strings_view(allowed@),
            filter_spec(es, names, n as int) == Ok::<Seq<FunctionBindingView>, Seq<char>>(functions_view(result@)),
        decreases allowed.len() - n,
    {
        let name = &allowed[n];
        assert(names[n as int] == name@);
        let k = find_export_exec(&exports, name);
        proof {
            lemma_find_export_range(es, name@, 0);
        }
        if k == exports.len() {
            proof {
                assert(filter_spec(es, names, n + 1) == Err::<Seq<FunctionBindingView>, Seq<char>>(
                    "export `"@ + name@ + "` not found in module"@,
                ));
                lemma_filter_err_extends(es, names, n + 1, allowed@.len() as int);
            }
            return Err(concat3("export `", name.as_str(), "` not found in module"));
        }
        let ghost prev = functions_view(result@);
        result.push(exports[k].copy());
        assert(functions_view(result@) =~= prev.push(es[k as int]));
        n = n + 1;
    }
    Ok(result)
}

} // verus!
