//! How the `#[leanfn]` wrapper moves each parameter and return value across
//! the Lean boundary: the shape tests on Rust types, the Lean source object a
//! value arrives as, and the storage and return plans the code generator
//! renders.
use vstd::prelude::*;
use vstd::string::*;
use crate::analysis::{is_u8_spec, is_u8_type, lemma_type_arg_positions, path_is_simple_ident, simple_ident_path, type_arg_positions};
use crate::syntax::{GenericArg, PathArgs, RustType, TypeKind, TypePath};
use crate::text::str_eq;

verus! {

// ---------------------------------------------------------------------------
// Shape tests
// ---------------------------------------------------------------------------

/// The inner type of `Name<T, ...>` when the last path segment is `name` and
/// its first generic argument is a type.
pub open spec fn wrapped_inner(t: RustType, name: Seq<char>) -> Option<RustType> {
    match t.kind {
        TypeKind::Path(p) => if p.segments@.len() == 0 {
            None
        } else {
            let seg = p.segments@[p.segments@.len() - 1];
            if seg.ident@ != name {
                None
            } else {
                match seg.args {
                    PathArgs::Angle(v) => if v@.len() == 0 {
                        None
                    } else {
                        match v@[0] {
                            GenericArg::Type(inner) => Some(inner),
                            GenericArg::Other => None,
                        }
                    },
                    _ => None,
                }
            }
        },
        _ => None,
    }
}

pub open spec fn option_inner_spec(t: RustType) -> Option<RustType> {
    wrapped_inner(t, "Option"@)
}

pub open spec fn vec_inner_spec(t: RustType) -> Option<RustType> {
    wrapped_inner(t, "Vec"@)
}

fn wrapped_inner_exec<'a>(t: &'a RustType, name: &str) -> (r: Option<&'a RustType>)
    ensures
        match wrapped_inner(*t, name@) {
            Some(x) => r matches Some(y) && *y == x,
            None => r is None,
        },
{
    match &t.kind {
        TypeKind::Path(p) => {
            if p.segments.len() == 0 {
                return None;
            }
            let seg = &p.segments[p.segments.len() - 1];
            if !str_eq(seg.ident.as_str(), name) {
                return None;
            }
            match &seg.args {
                PathArgs::Angle(v) => {
                    if v.len() == 0 {
                        return None;
                    }
                    match &v[0] {
                        GenericArg::Type(inner) => Some(inner),
                        GenericArg::Other => None,
                    }
                },
                _ => None,
            }
        },
        _ => None,
    }
}

/// The `T` of `Option<T>`.
pub fn option_inner(t: &RustType) -> (r: Option<&RustType>)
    ensures
        match option_inner_spec(*t) {
            Some(x) => r matches Some(y) && *y == x,
            None => r is None,
        },
{
    wrapped_inner_exec(t, "Option")
}

/// The `T` of `Vec<T>`.
pub fn vec_inner(t: &RustType) -> (r: Option<&RustType>)
    ensures
        match vec_inner_spec(*t) {
            Some(x) => r matches Some(y) && *y == x,
            None => r is None,
        },
{
    wrapped_inner_exec(t, "Vec")
}

/// The first two type arguments of `Result<T, E>` (other generic arguments
/// are skipped).
pub open spec fn result_parts_spec(t: RustType) -> Option<(RustType, RustType)> {
    match t.kind {
        TypeKind::Path(p) => if p.segments@.len() == 0 {
            None
        } else {
            let seg = p.segments@[p.segments@.len() - 1];
            if seg.ident@ != "Result"@ {
                None
            } else {
                match seg.args {
                    PathArgs::Angle(v) => {
                        let ps = type_arg_positions(v@);
                        if ps.len() < 2 || !(0 <= ps[0] < v@.len()) || !(0 <= ps[1] < v@.len()) {
                            None
                        } else {
                            match v@[ps[0]] {
                                GenericArg::Type(ok) => match v@[ps[1]] {
                                    GenericArg::Type(err) => Some((ok, err)),
                                    GenericArg::Other => None,
                                },
                                GenericArg::Other => None,
                            }
                        }
                    },
                    _ => None,
                }
            }
        },
        _ => None,
    }
}

pub(crate) proof fn lemma_positions_prefix(v: Seq<GenericArg>, n: int)
    requires
        0 <= n <= v.len(),
    ensures
        type_arg_positions(v.take(n)).len() <= type_arg_positions(v).len(),
        forall|k: int|
            0 <= k < type_arg_positions(v.take(n)).len() ==> #[trigger] type_arg_positions(v.take(n))[k]
                == type_arg_positions(v)[k],
    decreases v.len() - n,
{
    if n < v.len() {
        lemma_positions_prefix(v, n + 1);
        assert(v.take(n + 1).drop_last() =~= v.take(n));
        let p = type_arg_positions(v.take(n));
        let q = type_arg_positions(v.take(n + 1));
        assert(q == p || q == p.push(n));
        assert forall|k: int| 0 <= k < p.len() implies #[trigger] p[k] == type_arg_positions(v)[k] by {
            assert(q[k] == p[k]);
        }
    } else {
        assert(v.take(n) =~= v);
    }
}

/// The `T` and `E` of `Result<T, E>`.
pub fn result_parts(t: &RustType) -> (r: Option<(&RustType, &RustType)>)
    ensures
        match result_parts_spec(*t) {
            Some((a, b)) => r matches Some((x, y)) && *x == a && *y == b,
            None => r is None,
        },
{
    let p = match &t.kind {
        TypeKind::Path(p) => p,
        _ => return None,
    };
    if p.segments.len() == 0 {
        return None;
    }
    let seg = &p.segments[p.segments.len() - 1];
    if !str_eq(seg.ident.as_str(), "Result") {
        return None;
    }
    let v = match &seg.args {
        PathArgs::Angle(v) => v,
        _ => return None,
    };
    proof {
        lemma_type_arg_positions(v@);
    }
    let mut first: Option<&RustType> = None;
    let mut i: usize = 0;
    while i < v.len()
        invariant
            i <= v.len(),
            t.kind == TypeKind::Path(*p),
            p.segments@.len() > 0,
            *seg == p.segments@[p.segments@.len() - 1],
            seg.ident@ == "Result"@,
            seg.args == PathArgs::Angle(*v),
            first is None <==> type_arg_positions(v@.take(i as int)).len() == 0,
            type_arg_positions(v@.take(i as int)).len() <= 1,
            first matches Some(a) ==> {
                let q = type_arg_positions(v@.take(i as int))[0];
                0 <= q < i && v@[q] == GenericArg::Type(*a)
            },
            forall|k: int|
                0 <= k < type_arg_positions(v@).len() ==> {
                    let q = #[trigger] type_arg_positions(v@)[k];
                    0 <= q < v@.len() && v@[q] is Type
                },
        decreases v.len() - i,
    {
        assert(v@.take(i + 1).drop_last() =~= v@.take(i as int));
        match &v[i] {
            GenericArg::Type(b) => {
                match first {
                    Some(a) => {
                        proof {
                            let pi = type_arg_positions(v@.take(i as int));
                            let q = pi[0];
                            assert(v@.take(i + 1).last() == GenericArg::Type(*b));
                            assert(type_arg_positions(v@.take(i + 1)) == pi.push(i as int));
                            lemma_positions_prefix(v@, i + 1);
                            let ps = type_arg_positions(v@);
                            assert(type_arg_positions(v@.take(i + 1))[0] == ps[0]);
                            assert(type_arg_positions(v@.take(i + 1))[1] == ps[1]);
                            assert(ps[0] == q);
                            assert(ps[1] == i);
                            assert(v@[ps[0]] == GenericArg::Type(*a));
                            assert(v@[ps[1]] == GenericArg::Type(*b));
                        }
                        return Some((a, b));
                    },
                    None => {
                        first = Some(b);
                    },
                }
            },
            GenericArg::Other => {},
        }
        i = i + 1;
    }
    assert(v@.take(i as int) =~= v@);
    None
}

/// The referent of a shared reference type `&T`.
pub open spec fn shared_ref_elem(t: RustType) -> Option<RustType> {
    match t.kind {
        TypeKind::Reference { mutable, elem } => if !mutable {
            Some(*elem)
        } else {
            None
        },
        _ => None,
    }
}

fn shared_ref_elem_exec(t: &RustType) -> (r: Option<&RustType>)
    ensures
        match shared_ref_elem(*t) {
            Some(x) => r matches Some(y) && *y == x,
            None => r is None,
        },
{
    match &t.kind {
        TypeKind::Reference { mutable, elem } => if !*mutable {
            Some(&**elem)
        } else {
            None
        },
        _ => None,
    }
}

pub open spec fn is_vec_u8_spec(t: RustType) -> bool {
    match vec_inner_spec(t) {
        Some(i) => is_u8_spec(i),
        None => false,
    }
}

/// Whether a type is `Vec<u8>`.
pub fn is_vec_u8(t: &RustType) -> (r: bool)
    ensures
        r == is_vec_u8_spec(*t),
{
    match vec_inner(t) {
        Some(i) => is_u8_type(i),
        None => false,
    }
}

pub open spec fn is_borrowed_u8_slice_spec(t: RustType) -> bool {
    match shared_ref_elem(t) {
        Some(e) => match e.kind {
            TypeKind::Slice(s) => is_u8_spec(*s),
            _ => false,
        },
        None => false,
    }
}

/// Whether a type is `&[u8]`.
pub fn is_borrowed_u8_slice(t: &RustType) -> (r: bool)
    ensures
        r == is_borrowed_u8_slice_spec(*t),
{
    match shared_ref_elem_exec(t) {
        Some(e) => match &e.kind {
            TypeKind::Slice(s) => is_u8_type(s),
            _ => false,
        },
        None => false,
    }
}

pub open spec fn borrowed_vec_inner_spec(t: RustType) -> Option<RustType> {
    match shared_ref_elem(t) {
        Some(e) => match vec_inner_spec(e) {
            Some(i) => if is_u8_spec(i) {
                None
            } else {
                Some(i)
            },
            None => None,
        },
        None => None,
    }
}

/// The `T` of `&Vec<T>` when `T` is not `u8`.
pub fn borrowed_vec_inner(t: &RustType) -> (r: Option<&RustType>)
    ensures
        match borrowed_vec_inner_spec(*t) {
            Some(x) => r matches Some(y) && *y == x,
            None => r is None,
        },
{
    match shared_ref_elem_exec(t) {
        Some(e) => match vec_inner(e) {
            Some(i) => if is_u8_type(i) {
                None
            } else {
                Some(i)
            },
            None => None,
        },
        None => None,
    }
}

pub open spec fn is_borrowed_vec_u8_spec(t: RustType) -> bool {
    match shared_ref_elem(t) {
        Some(e) => is_vec_u8_spec(e),
        None => false,
    }
}

/// Whether a type is `&Vec<u8>`.
pub fn is_borrowed_vec_u8(t: &RustType) -> (r: bool)
    ensures
        r == is_borrowed_vec_u8_spec(*t),
{
    match shared_ref_elem_exec(t) {
        Some(e) => is_vec_u8(e),
        None => false,
    }
}

pub open spec fn borrowed_non_u8_slice_inner_spec(t: RustType) -> Option<RustType> {
    match shared_ref_elem(t) {
        Some(e) => match e.kind {
            TypeKind::Slice(s) => if is_u8_spec(*s) {
                None
            } else {
                Some(*s)
            },
            _ => None,
        },
        None => None,
    }
}

/// The `T` of `&[T]` when `T` is not `u8`.
pub fn borrowed_non_u8_slice_inner(t: &RustType) -> (r: Option<&RustType>)
    ensures
        match borrowed_non_u8_slice_inner_spec(*t) {
            Some(x) => r matches Some(y) && *y == x,
            None => r is None,
        },
{
    match shared_ref_elem_exec(t) {
        Some(e) => match &e.kind {
            TypeKind::Slice(s) => if is_u8_type(s) {
                None
            } else {
                Some(&**s)
            },
            _ => None,
        },
        None => None,
    }
}

pub open spec fn borrowed_fixed_array_inner_spec(t: RustType) -> Option<RustType> {
    match shared_ref_elem(t) {
        Some(e) => if e.kind is Array {
            Some(e)
        } else {
            None
        },
        None => None,
    }
}

/// The array type `[T; N]` of `&[T; N]`.
pub fn borrowed_fixed_array_inner(t: &RustType) -> (r: Option<&RustType>)
    ensures
        match borrowed_fixed_array_inner_spec(*t) {
            Some(x) => r matches Some(y) && *y == x,
            None => r is None,
        },
{
    match shared_ref_elem_exec(t) {
        Some(e) => match &e.kind {
            TypeKind::Array(_) => Some(e),
            _ => None,
        },
        None => None,
    }
}

/// Whether a type is `&[T; N]`.
pub fn is_borrowed_fixed_array(t: &RustType) -> (r: bool)
    ensures
        r == borrowed_fixed_array_inner_spec(*t) is Some,
{
    borrowed_fixed_array_inner(t).is_some()
}

/// `String`, `std::string::String` or `alloc::string::String`.
pub open spec fn path_is_string_spec(p: TypePath) -> bool {
    let s = p.segments@;
    (s.len() == 1 && s[0].ident@ == "String"@) || (s.len() == 3 && (s[0].ident@ == "std"@ || s[0].ident@
        == "alloc"@) && s[1].ident@ == "string"@ && s[2].ident@ == "String"@)
}

pub(crate) fn path_is_string_exec(p: &TypePath) -> (r: bool)
    ensures
        r == path_is_string_spec(*p),
{
    let s = &p.segments;
    if s.len() == 1 {
        str_eq(s[0].ident.as_str(), "String")
    } else if s.len() == 3 {
        (str_eq(s[0].ident.as_str(), "std") || str_eq(s[0].ident.as_str(), "alloc")) && str_eq(
            s[1].ident.as_str(),
            "string",
        ) && str_eq(s[2].ident.as_str(), "String")
    } else {
        false
    }
}

pub open spec fn is_borrowed_string_spec(t: RustType) -> bool {
    match shared_ref_elem(t) {
        Some(e) => match e.kind {
            TypeKind::Path(p) => path_is_string_spec(p),
            _ => false,
        },
        None => false,
    }
}

/// Whether a type is `&String`.
pub fn is_borrowed_string(t: &RustType) -> (r: bool)
    ensures
        r == is_borrowed_string_spec(*t),
{
    match shared_ref_elem_exec(t) {
        Some(e) => match &e.kind {
            TypeKind::Path(p) => path_is_string_exec(p),
            _ => false,
        },
        None => false,
    }
}

pub open spec fn is_borrowed_str_spec(t: RustType) -> bool {
    match shared_ref_elem(t) {
        Some(e) => match e.kind {
            TypeKind::Path(p) => simple_ident_path(p, "str"@),
            _ => false,
        },
        None => false,
    }
}

/// Whether a type is `&str`.
pub fn is_borrowed_str(t: &RustType) -> (r: bool)
    ensures
        r == is_borrowed_str_spec(*t),
{
    match shared_ref_elem_exec(t) {
        Some(e) => match &e.kind {
            TypeKind::Path(p) => path_is_simple_ident(p, "str"),
            _ => false,
        },
        None => false,
    }
}

/// The items of a tuple type with at least two of them.
pub open spec fn tuple_items_spec(t: RustType) -> Option<Seq<RustType>> {
    match t.kind {
        TypeKind::Tuple(es) => if es@.len() >= 2 {
            Some(es@)
        } else {
            None
        },
        _ => None,
    }
}

/// The items of a tuple type with at least two of them.
pub fn tuple_items(t: &RustType) -> (r: Option<&Vec<RustType>>)
    ensures
        match tuple_items_spec(*t) {
            Some(s) => r matches Some(v) && v@ == s && t.kind == TypeKind::Tuple(*v),
            None => r is None,
        },
{
    match &t.kind {
        TypeKind::Tuple(es) => if es.len() >= 2 {
            Some(es)
        } else {
            None
        },
        _ => None,
    }
}

// ---------------------------------------------------------------------------
// References anywhere inside a type
// ---------------------------------------------------------------------------

/// Whether a reference occurs in a type: directly, inside parentheses,
/// groups, arrays, slices and tuples, or as a type argument of a path.
pub open spec fn contains_ref(t: RustType) -> bool
    decreases t,
{
    match t.kind {
        TypeKind::Reference { .. } => true,
        TypeKind::Paren(e) => contains_ref(*e),
        TypeKind::Group(e) => contains_ref(*e),
        TypeKind::Array(e) => contains_ref(*e),
        TypeKind::Slice(e) => contains_ref(*e),
        TypeKind::Tuple(es) => any_contains_ref(es@),
        TypeKind::Path(p) => segments_contain_ref(p.segments@),
        TypeKind::Ptr | TypeKind::Other => false,
    }
}

pub open spec fn any_contains_ref(es: Seq<RustType>) -> bool
    decreases es,
{
    if es.len() == 0 {
        false
    } else {
        any_contains_ref(es.subrange(0, es.len() - 1)) || contains_ref(es[es.len() - 1])
    }
}

pub open spec fn segments_contain_ref(ss: Seq<crate::syntax::PathSegment>) -> bool
    decreases ss,
{
    if ss.len() == 0 {
        false
    } else {
        segments_contain_ref(ss.subrange(0, ss.len() - 1)) || match ss[ss.len() - 1].args {
            PathArgs::Angle(v) => args_contain_ref(v@),
            _ => false,
        }
    }
}

pub open spec fn args_contain_ref(args: Seq<GenericArg>) -> bool
    decreases args,
{
    if args.len() == 0 {
        false
    } else {
        args_contain_ref(args.subrange(0, args.len() - 1)) || match args[args.len() - 1] {
            GenericArg::Type(t) => contains_ref(t),
            GenericArg::Other => false,
        }
    }
}

/// Whether a reference occurs anywhere in a type.
pub fn type_contains_reference(t: &RustType) -> (r: bool)
    ensures
        r == contains_ref(*t),
    decreases t,
{
    match &t.kind {
        TypeKind::Reference { .. } => true,
        TypeKind::Paren(e) => type_contains_reference(e),
        TypeKind::Group(e) => type_contains_reference(e),
        TypeKind::Array(e) => type_contains_reference(e),
        TypeKind::Slice(e) => type_contains_reference(e),
        TypeKind::Tuple(es) => {
            let mut i: usize = 0;
            while i < es.len()
                invariant
                    i <= es.len(),
                    t.kind == TypeKind::Tuple(*es),
                    !any_contains_ref(es@.subrange(0, i as int)),
                decreases es.len() - i,
            {
                assert(es@.subrange(0, i + 1).subrange(0, i as int) =~= es@.subrange(0, i as int));
                proof {
                    let k = t.kind;
                    assert(decreases_to!(*t => k));
                    assert(decreases_to!(k => k->Tuple_0));
                    assert(decreases_to!(k->Tuple_0 => k->Tuple_0@));
                    assert(decreases_to!(k->Tuple_0@ => k->Tuple_0@[i as int]));
                    assert(decreases_to!(*t => es@[i as int]));
                }
                if type_contains_reference(&es[i]) {
                    proof {
                        lemma_any_from_prefix(es@, i + 1);
                    }
                    return true;
                }
                i = i + 1;
            }
            assert(es@.subrange(0, i as int) =~= es@);
            false
        },
        TypeKind::Path(p) => {
            let mut i: usize = 0;
            while i < p.segments.len()
                invariant
                    i <= p.segments.len(),
                    t.kind == TypeKind::Path(*p),
                    !segments_contain_ref(p.segments@.subrange(0, i as int)),
                decreases p.segments.len() - i,
            {
                assert(p.segments@.subrange(0, i + 1).subrange(0, i as int) =~= p.segments@.subrange(0, i as int));
                match &p.segments[i].args {
                    PathArgs::Angle(v) => {
                        let mut j: usize = 0;
                        while j < v.len()
                            invariant
                                j <= v.len(),
                                i < p.segments.len(),
                                t.kind == TypeKind::Path(*p),
                                p.segments@[i as int].args == PathArgs::Angle(*v),
                                !args_contain_ref(v@.subrange(0, j as int)),
                            decreases v.len() - j,
                        {
                            assert(v@.subrange(0, j + 1).subrange(0, j as int) =~= v@.subrange(0, j as int));
                            match &v[j] {
                                GenericArg::Type(inner) => {
                                    proof {
                                        let k = t.kind;
                                        let segs = k->Path_0.segments;
                                        let a = segs@[i as int].args->Angle_0;
                                        assert(decreases_to!(*t => k));
                                        assert(decreases_to!(k => k->Path_0));
                                        assert(decreases_to!(k->Path_0 => segs));
                                        assert(decreases_to!(segs => segs@));
                                        assert(decreases_to!(segs@ => segs@[i as int]));
                                        assert(decreases_to!(segs@[i as int] => segs@[i as int].args));
                                        assert(decreases_to!(segs@[i as int].args => a));
                                        assert(decreases_to!(a => a@));
                                        assert(decreases_to!(a@ => a@[j as int]));
                                        assert(decreases_to!(a@[j as int] => a@[j as int]->Type_0));
                                        assert(decreases_to!(*t => *inner));
                                    }
                                    if type_contains_reference(inner) {
                                        proof {
                                            lemma_args_from_prefix(v@, j + 1);
                                            lemma_segments_from_prefix(p.segments@, i + 1);
                                        }
                                        return true;
                                    }
                                },
                                GenericArg::Other => {},
                            }
                            j = j + 1;
                        }
                        assert(v@.subrange(0, j as int) =~= v@);
                    },
                    _ => {},
                }
                i = i + 1;
            }
            assert(p.segments@.subrange(0, i as int) =~= p.segments@);
            false
        },
        TypeKind::Ptr | TypeKind::Other => false,
    }
}

proof fn lemma_any_from_prefix(es: Seq<RustType>, n: int)
    requires
        0 < n <= es.len(),
        any_contains_ref(es.subrange(0, n)),
    ensures
        any_contains_ref(es),
    decreases es.len() - n,
{
    if n < es.len() {
        assert(es.subrange(0, n + 1).subrange(0, n) =~= es.subrange(0, n));
        lemma_any_from_prefix(es, n + 1);
    } else {
        assert(es.subrange(0, n) =~= es);
    }
}

proof fn lemma_args_from_prefix(a: Seq<GenericArg>, n: int)
    requires
        0 < n <= a.len(),
        args_contain_ref(a.subrange(0, n)),
    ensures
        args_contain_ref(a),
    decreases a.len() - n,
{
    if n < a.len() {
        assert(a.subrange(0, n + 1).subrange(0, n) =~= a.subrange(0, n));
        lemma_args_from_prefix(a, n + 1);
    } else {
        assert(a.subrange(0, n) =~= a);
    }
}

proof fn lemma_segments_from_prefix(s: Seq<crate::syntax::PathSegment>, n: int)
    requires
        0 < n <= s.len(),
        segments_contain_ref(s.subrange(0, n)),
    ensures
        segments_contain_ref(s),
    decreases s.len() - n,
{
    if n < s.len() {
        assert(s.subrange(0, n + 1).subrange(0, n) =~= s.subrange(0, n));
        lemma_segments_from_prefix(s, n + 1);
    } else {
        assert(s.subrange(0, n) =~= s);
    }
}

// ---------------------------------------------------------------------------
// The Lean object a value arrives as
// ---------------------------------------------------------------------------

/// The Lean object type a wrapper parameter arrives as.
#[derive(Debug, Clone, Copy, PartialEq, Eq, Structural)]
pub enum LeanSource {
    /// `LeanString`, for `&str` and `&String`.
    String,
    /// `LeanByteArray`, for `&[u8]`, `Vec<u8>` and `&Vec<u8>`.
    ByteArray,
    /// `LeanArray`, for `&[T; N]`, `&[T]` and `&Vec<T>`.
    Array,
    /// `LeanOption`, for `Option<T>`.
    Option,
    /// `LeanExcept`, for `Result<T, E>`.
    Except,
    /// `LeanProd`, for tuples.
    Prod,
    /// The type's own `FromLean::Source`.
    FromLean,
}

pub open spec fn lean_source_spec(t: RustType) -> LeanSource {
    if is_borrowed_str_spec(t) || is_borrowed_string_spec(t) {
        LeanSource::String
    } else if is_borrowed_u8_slice_spec(t) || is_vec_u8_spec(t) || is_borrowed_vec_u8_spec(t) {
        LeanSource::ByteArray
    } else if borrowed_fixed_array_inner_spec(t) is Some || borrowed_non_u8_slice_inner_spec(t) is Some
        || borrowed_vec_inner_spec(t) is Some {
        LeanSource::Array
    } else if option_inner_spec(t) is Some {
        LeanSource::Option
    } else if result_parts_spec(t) is Some {
        LeanSource::Except
    } else if tuple_items_spec(t) is Some {
        LeanSource::Prod
    } else {
        LeanSource::FromLean
    }
}

/// The Lean object type a parameter of this Rust type arrives as.
pub fn lean_source(t: &RustType) -> (r: LeanSource)
    ensures
        r == lean_source_spec(*t),
{
    if is_borrowed_str(t) || is_borrowed_string(t) {
        LeanSource::String
    } else if is_borrowed_u8_slice(t) || is_vec_u8(t) || is_borrowed_vec_u8(t) {
        LeanSource::ByteArray
    } else if is_borrowed_fixed_array(t) || borrowed_non_u8_slice_inner(t).is_some()
        || borrowed_vec_inner(t).is_some() {
        LeanSource::Array
    } else if option_inner(t).is_some() {
        LeanSource::Option
    } else if result_parts(t).is_some() {
        LeanSource::Except
    } else if tuple_items(t).is_some() {
        LeanSource::Prod
    } else {
        LeanSource::FromLean
    }
}

// ---------------------------------------------------------------------------
// Owned storage for borrowed parameters
// ---------------------------------------------------------------------------

/// How a borrowed parameter is held while the Rust function runs: the owned
/// value decoded from Lean that the borrow points into. The strings are the
/// token text of the element (or array) type.
#[derive(Debug, Clone, PartialEq, Eq)]
pub enum BorrowedStorage {
    /// `&String`, held in a `String`.
    String,
    /// `&[u8]`, held in a `Vec<u8>`.
    U8Slice,
    /// `&Vec<u8>`, held in a `Vec<u8>`.
    VecU8,
    /// `&Vec<T>`, held in a `Vec<T>`.
    Vec(String),
    /// `&[T]`, held in a `Vec<T>`.
    NonU8Slice(String),
    /// `&[T; N]`, held in a `[T; N]`.
    FixedArray(String),
}

pub enum BorrowedStorageView {
    String,
    U8Slice,
    VecU8,
    Vec(Seq<char>),
    NonU8Slice(Seq<char>),
    FixedArray(Seq<char>),
}

impl View for BorrowedStorage {
    type V = BorrowedStorageView;

    open spec fn view(&self) -> BorrowedStorageView {
        match self {
            BorrowedStorage::String => BorrowedStorageView::String,
            BorrowedStorage::U8Slice => BorrowedStorageView::U8Slice,
            BorrowedStorage::VecU8 => BorrowedStorageView::VecU8,
            BorrowedStorage::Vec(s) => BorrowedStorageView::Vec(s@),
            BorrowedStorage::NonU8Slice(s) => BorrowedStorageView::NonU8Slice(s@),
            BorrowedStorage::FixedArray(s) => BorrowedStorageView::FixedArray(s@),
        }
    }
}

/// The owned storage of a borrowed type, if it has one.
pub open spec fn borrowed_storage_spec(t: RustType) -> Option<BorrowedStorageView> {
    if is_borrowed_string_spec(t) {
        Some(BorrowedStorageView::String)
    } else if is_borrowed_u8_slice_spec(t) {
        Some(BorrowedStorageView::U8Slice)
    } else if is_borrowed_vec_u8_spec(t) {
        Some(BorrowedStorageView::VecU8)
    } else {
        match borrowed_vec_inner_spec(t) {
            Some(i) => Some(BorrowedStorageView::Vec(i.text@)),
            None => match borrowed_non_u8_slice_inner_spec(t) {
                Some(i) => Some(BorrowedStorageView::NonU8Slice(i.text@)),
                None => match borrowed_fixed_array_inner_spec(t) {
                    Some(a) => Some(BorrowedStorageView::FixedArray(a.text@)),
                    None => None,
                },
            },
        }
    }
}

/// The owned storage a borrowed parameter of this type is decoded into.
pub fn borrowed_storage(t: &RustType) -> (r: Option<BorrowedStorage>)
    ensures
        match borrowed_storage_spec(*t) {
            Some(b) => r matches Some(x) && x@ == b,
            None => r is None,
        },
{
    if is_borrowed_string(t) {
        Some(BorrowedStorage::String)
    } else if is_borrowed_u8_slice(t) {
        Some(BorrowedStorage::U8Slice)
    } else if is_borrowed_vec_u8(t) {
        Some(BorrowedStorage::VecU8)
    } else {
        match borrowed_vec_inner(t) {
            Some(i) => Some(BorrowedStorage::Vec(i.text.clone())),
            None => match borrowed_non_u8_slice_inner(t) {
                Some(i) => Some(BorrowedStorage::NonU8Slice(i.text.clone())),
                None => match borrowed_fixed_array_inner(t) {
                    Some(a) => Some(BorrowedStorage::FixedArray(a.text.clone())),
                    None => None,
                },
            },
        }
    }
}

/// The borrowed types a wrapper keeps owned storage for (`&[u8]` is read in
/// place instead).
pub open spec fn supports_borrowed_storage_spec(t: RustType) -> bool {
    is_borrowed_string_spec(t) || is_borrowed_vec_u8_spec(t) || borrowed_vec_inner_spec(t) is Some
        || borrowed_non_u8_slice_inner_spec(t) is Some || borrowed_fixed_array_inner_spec(t) is Some
}

/// Whether a borrowed parameter of this type gets owned storage.
pub fn supports_borrowed_storage(t: &RustType) -> (r: bool)
    ensures
        r == supports_borrowed_storage_spec(*t),
{
    is_borrowed_string(t) || is_borrowed_vec_u8(t) || borrowed_vec_inner(t).is_some()
        || borrowed_non_u8_slice_inner(t).is_some() || borrowed_fixed_array_inner(t).is_some()
}

/// Whether a `Result` parameter arm of this type can be passed as a borrow of
/// owned storage.
pub fn supports_result_borrowed_alias_param(t: &RustType) -> (r: bool)
    ensures
        r == borrowed_storage_spec(*t) is Some,
{
    borrowed_storage(t).is_some()
}

/// The storage of a supported borrowed type.
pub open spec fn supported_storage(t: RustType) -> Option<BorrowedStorageView> {
    if supports_borrowed_storage_spec(t) {
        borrowed_storage_spec(t)
    } else {
        None
    }
}

fn supported_storage_exec(t: &RustType) -> (r: Option<BorrowedStorage>)
    ensures
        match supported_storage(*t) {
            Some(b) => r matches Some(x) && x@ == b,
            None => r is None,
        },
{
    if supports_borrowed_storage(t) {
        borrowed_storage(t)
    } else {
        None
    }
}

// ---------------------------------------------------------------------------
// Storage plans
// ---------------------------------------------------------------------------

/// How one arm of a `Result` parameter is held.
#[derive(Debug, Clone, PartialEq, Eq)]
pub enum ResultArmPlan {
    /// A borrowed arm, held in owned storage.
    Borrowed(BorrowedStorage),
    /// An owned arm without references, held as itself; its type text.
    Owned(String),
}

pub enum ResultArmView {
    Borrowed(BorrowedStorageView),
    Owned(Seq<char>),
}

impl View for ResultArmPlan {
    type V = ResultArmView;

    open spec fn view(&self) -> ResultArmView {
        match self {
            ResultArmPlan::Borrowed(b) => ResultArmView::Borrowed(b@),
            ResultArmPlan::Owned(s) => ResultArmView::Owned(s@),
        }
    }
}

/// How a parameter that needs owned storage is decoded and then borrowed.
#[derive(Debug, PartialEq, Eq)]
pub enum StoragePlan {
    /// A borrowed parameter held in owned storage.
    Borrowed(BorrowedStorage),
    /// `Option<&T>`, held as `Option` of owned storage.
    OptionBorrowed(BorrowedStorage),
    /// `Result<A, B>` whose arms are borrowed or reference-free.
    Result { ok: ResultArmPlan, err: ResultArmPlan },
    /// `Option<Result<A, B>>` of the same kind.
    OptionResult { ok: ResultArmPlan, err: ResultArmPlan },
    /// A tuple (its type text) whose items are borrowed or nested tuples of
    /// borrowed items.
    Tuple { text: String, items: Vec<StoragePlan> },
}

pub enum StoragePlanView {
    Borrowed(BorrowedStorageView),
    OptionBorrowed(BorrowedStorageView),
    Result { ok: ResultArmView, err: ResultArmView },
    OptionResult { ok: ResultArmView, err: ResultArmView },
    Tuple { text: Seq<char>, items: Seq<StoragePlanView> },
}

pub open spec fn storage_plan_view(p: StoragePlan) -> StoragePlanView
    decreases p,
{
    match p {
        StoragePlan::Borrowed(b) => StoragePlanView::Borrowed(b@),
        StoragePlan::OptionBorrowed(b) => StoragePlanView::OptionBorrowed(b@),
        StoragePlan::Result { ok, err } => StoragePlanView::Result { ok: ok@, err: err@ },
        StoragePlan::OptionResult { ok, err } => StoragePlanView::OptionResult { ok: ok@, err: err@ },
        StoragePlan::Tuple { text, items } => StoragePlanView::Tuple {
            text: text@,
            items: storage_plans_view(items@),
        },
    }
}

pub open spec fn storage_plans_view(ps: Seq<StoragePlan>) -> Seq<StoragePlanView>
    decreases ps,
{
    if ps.len() == 0 {
        Seq::empty()
    } else {
        storage_plans_view(ps.subrange(0, ps.len() - 1)).push(storage_plan_view(ps[ps.len() - 1]))
    }
}

proof fn lemma_storage_plans_push(ps: Seq<StoragePlan>, p: StoragePlan)
    ensures
        storage_plans_view(ps.push(p)) == storage_plans_view(ps).push(storage_plan_view(p)),
{
    assert(ps.push(p).subrange(0, ps.len() as int) =~= ps);
}

/// The plans of a tuple's items: each item a nested tuple plan or borrowed
/// storage; `None` when some item is neither.
pub open spec fn tuple_plan_spec(t: RustType) -> Option<Seq<StoragePlanView>>
    decreases t,
{
    match t.kind {
        TypeKind::Tuple(es) => if es@.len() >= 2 {
            item_plans_spec(es@)
        } else {
            None
        },
        _ => None,
    }
}

pub open spec fn item_plans_spec(es: Seq<RustType>) -> Option<Seq<StoragePlanView>>
    decreases es,
{
    if es.len() == 0 {
        Some(Seq::empty())
    } else {
        match item_plans_spec(es.subrange(0, es.len() - 1)) {
            None => None,
            Some(v) => {
                let e = es[es.len() - 1];
                match tuple_plan_spec(e) {
                    Some(items) => Some(v.push(StoragePlanView::Tuple { text: e.text@, items })),
                    None => match supported_storage(e) {
                        Some(b) => Some(v.push(StoragePlanView::Borrowed(b))),
                        None => None,
                    },
                }
            },
        }
    }
}

proof fn lemma_item_plans_none_extends(es: Seq<RustType>, n: int)
    requires
        0 < n <= es.len(),
        item_plans_spec(es.subrange(0, n)) is None,
    ensures
        item_plans_spec(es) is None,
    decreases es.len() - n,
{
    if n < es.len() {
        assert(es.subrange(0, n + 1).subrange(0, n) =~= es.subrange(0, n));
        lemma_item_plans_none_extends(es, n + 1);
    } else {
        assert(es.subrange(0, n) =~= es);
    }
}

/// The item plans of a tuple type whose items all have owned storage.
pub fn build_tuple_plan(t: &RustType) -> (r: Option<Vec<StoragePlan>>)
    ensures
        match tuple_plan_spec(*t) {
            Some(v) => r matches Some(ps) && storage_plans_view(ps@) == v,
            None => r is None,
        },
    decreases t,
{
    let es = match &t.kind {
        TypeKind::Tuple(es) => es,
        _ => return None,
    };
    if es.len() < 2 {
        return None;
    }
    let mut out: Vec<StoragePlan> = Vec::new();
    let mut i: usize = 0;
    assert(es@.subrange(0, 0) =~= Seq::<RustType>::empty());
    assert(storage_plans_view(out@) =~= Seq::<StoragePlanView>::empty());
    while i < es.len()
        invariant
            i <= es.len(),
            es@.len() >= 2,
            t.kind == TypeKind::Tuple(*es),
            item_plans_spec(es@.subrange(0, i as int)) == Some(storage_plans_view(out@)),
        decreases es.len() - i,
    {
        let e = &es[i];
        assert(es@.subrange(0, i + 1).subrange(0, i as int) =~= es@.subrange(0, i as int));
        assert(es@.subrange(0, i + 1)[i as int] == *e);
        proof {
            let k = t.kind;
            assert(decreases_to!(*t => k));
            assert(decreases_to!(k => k->Tuple_0));
            assert(decreases_to!(k->Tuple_0 => k->Tuple_0@));
            assert(decreases_to!(k->Tuple_0@ => k->Tuple_0@[i as int]));
        }
        let item = match build_tuple_plan(e) {
            Some(items) => StoragePlan::Tuple { text: e.text.clone(), items },
            None => match supported_storage_exec(e) {
                Some(b) => StoragePlan::Borrowed(b),
                None => {
                    proof {
                        lemma_item_plans_none_extends(es@, i + 1);
                    }
                    return None;
                },
            },
        };
        proof {
            lemma_storage_plans_push(out@, item);
        }
        out.push(item);
        i = i + 1;
    }
    assert(es@.subrange(0, i as int) =~= es@);
    Some(out)
}

/// How one `Result` arm is held: borrowed storage, or the arm itself when it
/// holds no reference.
pub open spec fn result_arm_spec(t: RustType) -> Option<ResultArmView> {
    match supported_storage(t) {
        Some(b) => Some(ResultArmView::Borrowed(b)),
        None => if !contains_ref(t) {
            Some(ResultArmView::Owned(t.text@))
        } else {
            None
        },
    }
}

/// How one `Result` arm of a parameter is held.
pub fn build_result_arm(t: &RustType) -> (r: Option<ResultArmPlan>)
    ensures
        match result_arm_spec(*t) {
            Some(a) => r matches Some(x) && x@ == a,
            None => r is None,
        },
{
    match supported_storage_exec(t) {
        Some(b) => Some(ResultArmPlan::Borrowed(b)),
        None => if !type_contains_reference(t) {
            Some(ResultArmPlan::Owned(t.text.clone()))
        } else {
            None
        },
    }
}

pub open spec fn arms_spec(ok: RustType, err: RustType) -> Option<(ResultArmView, ResultArmView)> {
    match result_arm_spec(ok) {
        Some(a) => match result_arm_spec(err) {
            Some(b) => Some((a, b)),
            None => None,
        },
        None => None,
    }
}

/// The storage plan of a parameter: tuples of borrowed items, `Result` (or
/// `Option<Result>`) with borrowed or reference-free arms, `Option` of a
/// borrowed type, or a borrowed type; `None` for parameters decoded directly.
pub open spec fn storage_plan_spec(t: RustType) -> Option<StoragePlanView> {
    match tuple_plan_spec(t) {
        Some(items) => Some(StoragePlanView::Tuple { text: t.text@, items }),
        None => match result_parts_spec(t) {
            Some((ok, err)) => match arms_spec(ok, err) {
                Some((a, b)) => Some(StoragePlanView::Result { ok: a, err: b }),
                None => None,
            },
            None => {
                let plain = match supported_storage(t) {
                    Some(b) => Some(StoragePlanView::Borrowed(b)),
                    None => None,
                };
                match option_inner_spec(t) {
                    Some(inner) => match result_parts_spec(inner) {
                        Some((ok, err)) => match arms_spec(ok, err) {
                            Some((a, b)) => Some(StoragePlanView::OptionResult { ok: a, err: b }),
                            None => None,
                        },
                        None => match supported_storage(inner) {
                            Some(b) => Some(StoragePlanView::OptionBorrowed(b)),
                            None => plain,
                        },
                    },
                    None => plain,
                }
            },
        },
    }
}

pub open spec fn opt_storage_view(r: Option<StoragePlan>) -> Option<StoragePlanView> {
    match r {
        Some(p) => Some(storage_plan_view(p)),
        None => None,
    }
}

fn build_arms(ok: &RustType, err: &RustType) -> (r: Option<(ResultArmPlan, ResultArmPlan)>)
    ensures
        match arms_spec(*ok, *err) {
            Some((a, b)) => r matches Some((x, y)) && x@ == a && y@ == b,
            None => r is None,
        },
{
    let a = build_result_arm(ok)?;
    let b = build_result_arm(err)?;
    Some((a, b))
}

/// The storage plan of a `#[leanfn]` parameter, if it needs owned storage.
pub fn build_storage_plan(t: &RustType) -> (r: Option<StoragePlan>)
    ensures
        opt_storage_view(r) == storage_plan_spec(*t),
{
    match build_tuple_plan(t) {
        Some(items) => {
            return Some(StoragePlan::Tuple { text: t.text.clone(), items });
        },
        None => {},
    }
    match result_parts(t) {
        Some((ok, err)) => {
            return match build_arms(ok, err) {
                Some((a, b)) => Some(StoragePlan::Result { ok: a, err: b }),
                None => None,
            };
        },
        None => {},
    }
    match option_inner(t) {
        Some(inner) => {
            match result_parts(inner) {
                Some((ok, err)) => {
                    return match build_arms(ok, err) {
                        Some((a, b)) => Some(StoragePlan::OptionResult { ok: a, err: b }),
                        None => None,
                    };
                },
                None => {},
            }
            match supported_storage_exec(inner) {
                Some(b) => {
                    return Some(StoragePlan::OptionBorrowed(b));
                },
                None => {},
            }
        },
        None => {},
    }
    match supported_storage_exec(t) {
        Some(b) => Some(StoragePlan::Borrowed(b)),
        None => None,
    }
}

// ---------------------------------------------------------------------------
// Return plans
// ---------------------------------------------------------------------------

/// How a wrapper turns the Rust function's result into a Lean object.
#[derive(Debug, PartialEq, Eq)]
pub enum ReturnPlan {
    /// `&String`: a new `LeanString` of its text.
    BorrowedString,
    /// `&[u8]`: a new byte array.
    BorrowedU8Slice,
    /// `&Vec<u8>`: a new byte array.
    BorrowedVecU8,
    /// `&Vec<T>`: a new array of its elements.
    BorrowedVec,
    /// `&[T]` or `&[T; N]`: a new array of its elements.
    BorrowedSliceLike,
    /// `Vec<u8>`: a byte array.
    VecU8,
    /// `Option<T>`: `none`, or `some` of the inner plan's object.
    Option(Box<ReturnPlan>),
    /// `Result<T, E>`: `Except.ok` or `Except.error` of the arms' objects.
    Result { ok: Box<ReturnPlan>, err: Box<ReturnPlan> },
    /// A tuple: right-nested `Prod`s of the items' objects.
    Tuple(Vec<ReturnPlan>),
    /// Any other type, by its own `IntoLean`; its type text.
    Generic(String),
}

pub enum ReturnPlanView {
    BorrowedString,
    BorrowedU8Slice,
    BorrowedVecU8,
    BorrowedVec,
    BorrowedSliceLike,
    VecU8,
    Option(Box<ReturnPlanView>),
    Result { ok: Box<ReturnPlanView>, err: Box<ReturnPlanView> },
    Tuple(Seq<ReturnPlanView>),
    Generic(Seq<char>),
}

pub open spec fn return_plan_view(p: ReturnPlan) -> ReturnPlanView
    decreases p,
{
    match p {
        ReturnPlan::BorrowedString => ReturnPlanView::BorrowedString,
        ReturnPlan::BorrowedU8Slice => ReturnPlanView::BorrowedU8Slice,
        ReturnPlan::BorrowedVecU8 => ReturnPlanView::BorrowedVecU8,
        ReturnPlan::BorrowedVec => ReturnPlanView::BorrowedVec,
        ReturnPlan::BorrowedSliceLike => ReturnPlanView::BorrowedSliceLike,
        ReturnPlan::VecU8 => ReturnPlanView::VecU8,
        ReturnPlan::Option(inner) => ReturnPlanView::Option(Box::new(return_plan_view(*inner))),
        ReturnPlan::Result { ok, err } => ReturnPlanView::Result {
            ok: Box::new(return_plan_view(*ok)),
            err: Box::new(return_plan_view(*err)),
        },
        ReturnPlan::Tuple(items) => ReturnPlanView::Tuple(return_plans_view(items@)),
        ReturnPlan::Generic(text) => ReturnPlanView::Generic(text@),
    }
}

pub open spec fn return_plans_view(ps: Seq<ReturnPlan>) -> Seq<ReturnPlanView>
    decreases ps,
{
    if ps.len() == 0 {
        Seq::empty()
    } else {
        return_plans_view(ps.subrange(0, ps.len() - 1)).push(return_plan_view(ps[ps.len() - 1]))
    }
}

/// The return plan of a type: the borrowed and byte-array cases first, then
/// `Option`, `Result` and tuples by their parts, anything else generic.
pub open spec fn return_plan_spec(t: RustType) -> ReturnPlanView
    decreases t,
{
    if is_borrowed_string_spec(t) {
        ReturnPlanView::BorrowedString
    } else if is_borrowed_u8_slice_spec(t) {
        ReturnPlanView::BorrowedU8Slice
    } else if is_borrowed_vec_u8_spec(t) {
        ReturnPlanView::BorrowedVecU8
    } else if borrowed_vec_inner_spec(t) is Some {
        ReturnPlanView::BorrowedVec
    } else if borrowed_non_u8_slice_inner_spec(t) is Some || borrowed_fixed_array_inner_spec(t) is Some {
        ReturnPlanView::BorrowedSliceLike
    } else if is_vec_u8_spec(t) {
        ReturnPlanView::VecU8
    } else {
        match t.kind {
            TypeKind::Path(p) => if p.segments@.len() == 0 {
                ReturnPlanView::Generic(t.text@)
            } else {
                let seg = p.segments@[p.segments@.len() - 1];
                match seg.args {
                    PathArgs::Angle(v) => if option_inner_spec(t) is Some {
                        match v@[0] {
                            GenericArg::Type(inner) => ReturnPlanView::Option(
                                Box::new(return_plan_spec(inner)),
                            ),
                            GenericArg::Other => ReturnPlanView::Generic(t.text@),
                        }
                    } else if result_parts_spec(t) is Some {
                        let ps = type_arg_positions(v@);
                        match v@[ps[0]] {
                            GenericArg::Type(ok) => match v@[ps[1]] {
                                GenericArg::Type(err) => ReturnPlanView::Result {
                                    ok: Box::new(return_plan_spec(ok)),
                                    err: Box::new(return_plan_spec(err)),
                                },
                                GenericArg::Other => ReturnPlanView::Generic(t.text@),
                            },
                            GenericArg::Other => ReturnPlanView::Generic(t.text@),
                        }
                    } else {
                        ReturnPlanView::Generic(t.text@)
                    },
                    _ => ReturnPlanView::Generic(t.text@),
                }
            },
            TypeKind::Tuple(es) => if es@.len() >= 2 {
                ReturnPlanView::Tuple(return_plans_spec(es@))
            } else {
                ReturnPlanView::Generic(t.text@)
            },
            _ => ReturnPlanView::Generic(t.text@),
        }
    }
}

pub open spec fn return_plans_spec(es: Seq<RustType>) -> Seq<ReturnPlanView>
    decreases es,
{
    if es.len() == 0 {
        Seq::empty()
    } else {
        return_plans_spec(es.subrange(0, es.len() - 1)).push(return_plan_spec(es[es.len() - 1]))
    }
}

/// The return plan of a `#[leanfn]` result (or a part of one).
pub fn build_return_plan(t: &RustType) -> (r: ReturnPlan)
    ensures
        return_plan_view(r) == return_plan_spec(*t),
    decreases t,
{
    if is_borrowed_string(t) {
        return ReturnPlan::BorrowedString;
    }
    if is_borrowed_u8_slice(t) {
        return ReturnPlan::BorrowedU8Slice;
    }
    if is_borrowed_vec_u8(t) {
        return ReturnPlan::BorrowedVecU8;
    }
    if borrowed_vec_inner(t).is_some() {
        return ReturnPlan::BorrowedVec;
    }
    if borrowed_non_u8_slice_inner(t).is_some() || borrowed_fixed_array_inner(t).is_some() {
        return ReturnPlan::BorrowedSliceLike;
    }
    if is_vec_u8(t) {
        return ReturnPlan::VecU8;
    }
    match option_inner(t) {
        Some(inner) => {
            proof {
                let k = t.kind;
                let segs = k->Path_0.segments;
                let seg = segs@[segs@.len() - 1];
                let v = seg.args->Angle_0;
                assert(decreases_to!(*t => k));
                assert(decreases_to!(k => k->Path_0));
                assert(decreases_to!(k->Path_0 => segs));
                assert(decreases_to!(segs => segs@));
                assert(decreases_to!(segs@ => seg));
                assert(decreases_to!(seg => seg.args));
                assert(decreases_to!(seg.args => v));
                assert(decreases_to!(v => v@));
                assert(decreases_to!(v@ => v@[0]));
                assert(decreases_to!(v@[0] => v@[0]->Type_0));
            }
            return ReturnPlan::Option(Box::new(build_return_plan(inner)));
        },
        None => {},
    }
    match result_parts(t) {
        Some((ok, err)) => {
            proof {
                let k = t.kind;
                let segs = k->Path_0.segments;
                let seg = segs@[segs@.len() - 1];
                let v = seg.args->Angle_0;
                let ps = type_arg_positions(v@);
                assert(decreases_to!(*t => k));
                assert(decreases_to!(k => k->Path_0));
                assert(decreases_to!(k->Path_0 => segs));
                assert(decreases_to!(segs => segs@));
                assert(decreases_to!(segs@ => seg));
                assert(decreases_to!(seg => seg.args));
                assert(decreases_to!(seg.args => v));
                assert(decreases_to!(v => v@));
                assert(decreases_to!(v@ => v@[ps[0]]));
                assert(decreases_to!(v@[ps[0]] => v@[ps[0]]->Type_0));
                assert(decreases_to!(v@ => v@[ps[1]]));
                assert(decreases_to!(v@[ps[1]] => v@[ps[1]]->Type_0));
            }
            let a = build_return_plan(ok);
            let b = build_return_plan(err);
            return ReturnPlan::Result { ok: Box::new(a), err: Box::new(b) };
        },
        None => {},
    }
    match tuple_items(t) {
        Some(es) => {
            let mut out: Vec<ReturnPlan> = Vec::new();
            let mut i: usize = 0;
            assert(return_plans_view(out@) =~= Seq::<ReturnPlanView>::empty());
            assert(es@.subrange(0, 0) =~= Seq::<RustType>::empty());
            while i < es.len()
                invariant
                    i <= es.len(),
                    t.kind == TypeKind::Tuple(*es),
                    return_plans_view(out@) == return_plans_spec(es@.subrange(0, i as int)),
                decreases es.len() - i,
            {
                proof {
                    let k = t.kind;
                    assert(decreases_to!(*t => k));
                    assert(decreases_to!(k => k->Tuple_0));
                    assert(decreases_to!(k->Tuple_0 => k->Tuple_0@));
                    assert(decreases_to!(k->Tuple_0@ => k->Tuple_0@[i as int]));
                }
                let p = build_return_plan(&es[i]);
                proof {
                    assert(out@.push(p).subrange(0, out@.len() as int) =~= out@);
                    assert(es@.subrange(0, i + 1).subrange(0, i as int) =~= es@.subrange(0, i as int));
                    assert(es@.subrange(0, i + 1)[i as int] == es@[i as int]);
                }
                out.push(p);
                i = i + 1;
            }
            assert(es@.subrange(0, i as int) =~= es@);
            ReturnPlan::Tuple(out)
        },
        None => ReturnPlan::Generic(t.text.clone()),
    }
}

// ---------------------------------------------------------------------------
// Decode plans
// ---------------------------------------------------------------------------

/// How a wrapper decodes a Lean object into a value of one Rust type: the
/// type's token text, the Lean object type it arrives as, and the decoding.
#[derive(Debug, PartialEq, Eq)]
pub struct DecodePlan {
    pub text: String,
    pub source: LeanSource,
    pub kind: DecodeKind,
}

#[derive(Debug, PartialEq, Eq)]
pub enum DecodeKind {
    /// `&str`: the string's C text, borrowed.
    BorrowedStr,
    /// `&String`: an owned copy through `String`'s own decoding.
    BorrowedString,
    /// `&[u8]`: the byte array's contents, borrowed.
    BorrowedU8Slice,
    /// `Vec<u8>`: a copy of the byte array.
    VecU8,
    /// `Option<T>`: `None`, or `Some` of the inner value.
    Option(Box<DecodePlan>),
    /// `Result<T, E>`: the `Except` value's arm, decoded by that arm's plan.
    Result { ok: Box<DecodePlan>, err: Box<DecodePlan> },
    /// A tuple of two or more items: right-nested `Prod`s, head first.
    Tuple(Vec<DecodePlan>),
    /// Any other type, by its own `FromLean`.
    FromLean,
}

pub struct DecodePlanView {
    pub text: Seq<char>,
    pub source: LeanSource,
    pub kind: DecodeKindView,
}

pub enum DecodeKindView {
    BorrowedStr,
    BorrowedString,
    BorrowedU8Slice,
    VecU8,
    Option(Box<DecodePlanView>),
    Result { ok: Box<DecodePlanView>, err: Box<DecodePlanView> },
    Tuple(Seq<DecodePlanView>),
    FromLean,
}

pub open spec fn decode_plan_view(p: DecodePlan) -> DecodePlanView
    decreases p,
{
    DecodePlanView {
        text: p.text@,
        source: p.source,
        kind: match p.kind {
            DecodeKind::BorrowedStr => DecodeKindView::BorrowedStr,
            DecodeKind::BorrowedString => DecodeKindView::BorrowedString,
            DecodeKind::BorrowedU8Slice => DecodeKindView::BorrowedU8Slice,
            DecodeKind::VecU8 => DecodeKindView::VecU8,
            DecodeKind::Option(inner) => DecodeKindView::Option(Box::new(decode_plan_view(*inner))),
            DecodeKind::Result { ok, err } => DecodeKindView::Result {
                ok: Box::new(decode_plan_view(*ok)),
                err: Box::new(decode_plan_view(*err)),
            },
            DecodeKind::Tuple(items) => DecodeKindView::Tuple(decode_plans_view(items@)),
            DecodeKind::FromLean => DecodeKindView::FromLean,
        },
    }
}

pub open spec fn decode_plans_view(ps: Seq<DecodePlan>) -> Seq<DecodePlanView>
    decreases ps,
{
    if ps.len() == 0 {
        Seq::empty()
    } else {
        decode_plans_view(ps.subrange(0, ps.len() - 1)).push(decode_plan_view(ps[ps.len() - 1]))
    }
}

/// The decoding of a type: `&str`, `&String`, `&[u8]` and `Vec<u8>` first,
/// then `Option`, `Result` and tuples by their parts, anything else by its
/// own `FromLean`.
pub open spec fn decode_kind_spec(t: RustType) -> DecodeKindView
    decreases t, 1int,
{
    if is_borrowed_str_spec(t) {
        DecodeKindView::BorrowedStr
    } else if is_borrowed_string_spec(t) {
        DecodeKindView::BorrowedString
    } else if is_borrowed_u8_slice_spec(t) {
        DecodeKindView::BorrowedU8Slice
    } else if is_vec_u8_spec(t) {
        DecodeKindView::VecU8
    } else {
        match t.kind {
            TypeKind::Path(p) => if p.segments@.len() == 0 {
                DecodeKindView::FromLean
            } else {
                let seg = p.segments@[p.segments@.len() - 1];
                match seg.args {
                    PathArgs::Angle(v) => if option_inner_spec(t) is Some {
                        match v@[0] {
                            GenericArg::Type(inner) => DecodeKindView::Option(
                                Box::new(decode_plan_spec(inner)),
                            ),
                            GenericArg::Other => DecodeKindView::FromLean,
                        }
                    } else if result_parts_spec(t) is Some {
                        let ps = type_arg_positions(v@);
                        match v@[ps[0]] {
                            GenericArg::Type(ok) => match v@[ps[1]] {
                                GenericArg::Type(err) => DecodeKindView::Result {
                                    ok: Box::new(decode_plan_spec(ok)),
                                    err: Box::new(decode_plan_spec(err)),
                                },
                                GenericArg::Other => DecodeKindView::FromLean,
                            },
                            GenericArg::Other => DecodeKindView::FromLean,
                        }
                    } else {
                        DecodeKindView::FromLean
                    },
                    _ => DecodeKindView::FromLean,
                }
            },
            TypeKind::Tuple(es) => if es@.len() >= 2 {
                DecodeKindView::Tuple(decode_plans_spec(es@))
            } else {
                DecodeKindView::FromLean
            },
            _ => DecodeKindView::FromLean,
        }
    }
}

/// The decode plan of a type: its text, its Lean source and its decoding.
pub open spec fn decode_plan_spec(t: RustType) -> DecodePlanView
    decreases t, 2int,
{
    DecodePlanView { text: t.text@, source: lean_source_spec(t), kind: decode_kind_spec(t) }
}

pub open spec fn decode_plans_spec(es: Seq<RustType>) -> Seq<DecodePlanView>
    decreases es,
{
    if es.len() == 0 {
        Seq::empty()
    } else {
        decode_plans_spec(es.subrange(0, es.len() - 1)).push(decode_plan_spec(es[es.len() - 1]))
    }
}

/// The decode plan of a `#[leanfn]` parameter type (or a part of one).
pub fn build_decode_plan(t: &RustType) -> (r: DecodePlan)
    ensures
        decode_plan_view(r) == decode_plan_spec(*t),
    decreases t,
{
    let source = lean_source(t);
    let text = t.text.clone();
    if is_borrowed_str(t) {
        return DecodePlan { text, source, kind: DecodeKind::BorrowedStr };
    }
    if is_borrowed_string(t) {
        return DecodePlan { text, source, kind: DecodeKind::BorrowedString };
    }
    if is_borrowed_u8_slice(t) {
        return DecodePlan { text, source, kind: DecodeKind::BorrowedU8Slice };
    }
    if is_vec_u8(t) {
        return DecodePlan { text, source, kind: DecodeKind::VecU8 };
    }
    match option_inner(t) {
        Some(inner) => {
            proof {
                let k = t.kind;
                let segs = k->Path_0.segments;
                let seg = segs@[segs@.len() - 1];
                let v = seg.args->Angle_0;
                assert(decreases_to!(*t => k));
                assert(decreases_to!(k => k->Path_0));
                assert(decreases_to!(k->Path_0 => segs));
                assert(decreases_to!(segs => segs@));
                assert(decreases_to!(segs@ => seg));
                assert(decreases_to!(seg => seg.args));
                assert(decreases_to!(seg.args => v));
                assert(decreases_to!(v => v@));
                assert(decreases_to!(v@ => v@[0]));
                assert(decreases_to!(v@[0] => v@[0]->Type_0));
            }
            let p = build_decode_plan(inner);
            return DecodePlan { text, source, kind: DecodeKind::Option(Box::new(p)) };
        },
        None => {},
    }
    match result_parts(t) {
        Some((ok, err)) => {
            proof {
                let k = t.kind;
                let segs = k->Path_0.segments;
                let seg = segs@[segs@.len() - 1];
                let v = seg.args->Angle_0;
                let ps = type_arg_positions(v@);
                assert(decreases_to!(*t => k));
                assert(decreases_to!(k => k->Path_0));
                assert(decreases_to!(k->Path_0 => segs));
                assert(decreases_to!(segs => segs@));
                assert(decreases_to!(segs@ => seg));
                assert(decreases_to!(seg => seg.args));
                assert(decreases_to!(seg.args => v));
                assert(decreases_to!(v => v@));
                assert(decreases_to!(v@ => v@[ps[0]]));
                assert(decreases_to!(v@[ps[0]] => v@[ps[0]]->Type_0));
                assert(decreases_to!(v@ => v@[ps[1]]));
                assert(decreases_to!(v@[ps[1]] => v@[ps[1]]->Type_0));
            }
            let a = build_decode_plan(ok);
            let b = build_decode_plan(err);
            return DecodePlan {
                text,
                source,
                kind: DecodeKind::Result { ok: Box::new(a), err: Box::new(b) },
            };
        },
        None => {},
    }
    match tuple_items(t) {
        Some(es) => {
            let mut out: Vec<DecodePlan> = Vec::new();
            let mut i: usize = 0;
            assert(decode_plans_view(out@) =~= Seq::<DecodePlanView>::empty());
            assert(es@.subrange(0, 0) =~= Seq::<RustType>::empty());
            while i < es.len()
                invariant
                    i <= es.len(),
                    t.kind == TypeKind::Tuple(*es),
                    decode_plans_view(out@) == decode_plans_spec(es@.subrange(0, i as int)),
                decreases es.len() - i,
            {
                proof {
                    let k = t.kind;
                    assert(decreases_to!(*t => k));
                    assert(decreases_to!(k => k->Tuple_0));
                    assert(decreases_to!(k->Tuple_0 => k->Tuple_0@));
                    assert(decreases_to!(k->Tuple_0@ => k->Tuple_0@[i as int]));
                }
                let p = build_decode_plan(&es[i]);
                proof {
                    assert(out@.push(p).subrange(0, out@.len() as int) =~= out@);
                    assert(es@.subrange(0, i + 1).subrange(0, i as int) =~= es@.subrange(0, i as int));
                    assert(es@.subrange(0, i + 1)[i as int] == es@[i as int]);
                }
                out.push(p);
                i = i + 1;
            }
            assert(es@.subrange(0, i as int) =~= es@);
            DecodePlan { text, source, kind: DecodeKind::Tuple(out) }
        },
        None => DecodePlan { text, source, kind: DecodeKind::FromLean },
    }
}

/// Law: the Lean object a decode plan reads matches its decoding: strings
/// arrive as `LeanString`, bytes as `LeanByteArray`, options as
/// `LeanOption`, results as `LeanExcept` and tuples as `LeanProd`.
pub proof fn lemma_decode_source_matches(t: RustType)
    ensures
        decode_kind_spec(t) is BorrowedStr || decode_kind_spec(t) is BorrowedString
            ==> lean_source_spec(t) == LeanSource::String,
        decode_kind_spec(t) is BorrowedU8Slice || decode_kind_spec(t) is VecU8
            ==> lean_source_spec(t) == LeanSource::ByteArray,
        decode_kind_spec(t) is Option ==> lean_source_spec(t) == LeanSource::Option,
        decode_kind_spec(t) is Result ==> lean_source_spec(t) == LeanSource::Except,
        decode_kind_spec(t) is Tuple ==> lean_source_spec(t) == LeanSource::Prod,
{
}

} // verus!
