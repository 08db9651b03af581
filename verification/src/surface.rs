//! The Rust-to-Lean surface rules shared by tools that consume Leo3 items:
//! which items carry Leo3 attributes, and the Lean declarations (`opaque`
//! externs) and custom type names each one lowers to.
use vstd::prelude::*;
use vstd::string::*;
use crate::analysis::{lean_type_arg, lean_type_arg_spec, lemma_type_arg_positions, scalar_lean, type_arg_positions};
use crate::syntax::{
    AttrItem, FnInput, FnItem, GenericArg, ImplItem, Item, PathArgs, PathSegment, RustType,
    StructItem, TypeKind, TypePath,
};
use crate::text::{
    chars_of, lemma_lex_total, lemma_lex_transitive, lex_lt, owned, seq_join, sorted_names, str_eq, str_lt,
    string_from_chars, strings_view, trim, trim_chars,
};

verus! {

/// Insert a name into a sorted list of names, unless it is there already.
fn insert_name(names: &mut Vec<String>, name: String)
    requires
        sorted_names(strings_view(old(names)@)),
    ensures
        sorted_names(strings_view(final(names)@)),
        strings_view(final(names)@).to_set() == strings_view(old(names)@).to_set().insert(name@),
{
    let ghost s = strings_view(names@);
    let mut k: usize = 0;
    while k < names.len() && str_lt(names[k].as_str(), name.as_str())
        invariant
            k <= names.len(),
            s == strings_view(names@),
            sorted_names(s),
            forall|j: int| 0 <= j < k ==> lex_lt(#[trigger] s[j], name@),
        decreases names.len() - k,
    {
        k = k + 1;
    }
    if k < names.len() && str_eq(names[k].as_str(), name.as_str()) {
        assert(s.to_set().insert(name@) =~= s.to_set()) by {
            assert(s[k as int] == name@);
        }
        return;
    }
    proof {
        if k < s.len() {
            lemma_lex_total(s[k as int], name@);
        }
    }
    let ghost x = name@;
    names.insert(k, name);
    let ghost t = strings_view(names@);
    assert(t =~= s.take(k as int).push(x) + s.skip(k as int));
    assert forall|i: int, j: int| 0 <= i < j < t.len() implies lex_lt(#[trigger] t[i], #[trigger] t[j]) by {
        if j < k {
            assert(t[i] == s[i] && t[j] == s[j]);
        } else if j == k {
            assert(t[i] == s[i] && t[j] == x);
        } else if i > k {
            assert(t[i] == s[i - 1] && t[j] == s[j - 1]);
        } else if i == k {
            assert(t[j] == s[j - 1]);
            if j - 1 > k {
                lemma_lex_transitive(x, s[k as int], s[j - 1]);
            }
        } else {
            assert(t[i] == s[i] && t[j] == s[j - 1]);
            assert(lex_lt(x, s[j - 1])) by {
                if j - 1 > k {
                    lemma_lex_transitive(x, s[k as int], s[j - 1]);
                }
            }
            lemma_lex_transitive(s[i], x, s[j - 1]);
        }
    }
    assert(t.to_set() =~= s.to_set().insert(x)) by {
        assert forall|y: Seq<char>| t.to_set().contains(y) <==> s.to_set().insert(x).contains(y) by {
            if t.to_set().contains(y) {
                let i = choose|i: int| 0 <= i < t.len() && t[i] == y;
                if i < k {
                    assert(s[i] == y);
                } else if i > k {
                    assert(s[i - 1] == y);
                }
            }
            if s.to_set().contains(y) {
                let i = choose|i: int| 0 <= i < s.len() && s[i] == y;
                if i < k {
                    assert(t[i] == y);
                } else {
                    assert(t[i + 1] == y);
                }
            }
            if y == x {
                assert(t[k as int] == x);
            }
        }
    }
}

// ---------------------------------------------------------------------------
// Rust type text in diagnostics
// ---------------------------------------------------------------------------

/// A type's token text with the space before each comma removed.
pub open spec fn rust_type_text(s: Seq<char>) -> Seq<char>
    decreases s.len(),
{
    if s.len() < 2 {
        s
    } else if s[0] == ' ' && s[1] == ',' {
        seq![','] + rust_type_text(s.skip(2))
    } else {
        seq![s[0]] + rust_type_text(s.skip(1))
    }
}

/// A type as diagnostics print it.
pub fn render_rust_type(t: &RustType) -> (r: String)
    ensures
        r@ == rust_type_text(t.text@),
{
    let cs = chars_of(t.text.as_str());
    let mut out: Vec<char> = Vec::new();
    let mut i: usize = 0;
    assert(cs@.skip(0) =~= cs@);
    while i < cs.len()
        invariant
            i <= cs.len(),
            cs@ == t.text@,
            out@ + rust_type_text(cs@.skip(i as int)) == rust_type_text(cs@),
        decreases cs.len() - i,
    {
        let ghost rest = cs@.skip(i as int);
        if i + 1 < cs.len() && cs[i] == ' ' && cs[i + 1] == ',' {
            assert(rest[0] == ' ' && rest[1] == ',');
            assert(rest.skip(2) =~= cs@.skip(i + 2));
            out.push(',');
            assert(out@ + rust_type_text(cs@.skip(i + 2)) =~= out@.drop_last() + rust_type_text(rest));
            i = i + 2;
        } else {
            assert(rest[0] == cs@[i as int]);
            assert(rest.skip(1) =~= cs@.skip(i + 1));
            let c = cs[i];
            out.push(c);
            proof {
                if rest.len() < 2 {
                    assert(cs@.skip(i + 1).len() == 0);
                    assert(rest =~= seq![c]);
                }
            }
            assert(out@ + rust_type_text(cs@.skip(i + 1)) =~= out@.drop_last() + rust_type_text(rest));
            i = i + 1;
        }
    }
    assert(cs@.skip(i as int) =~= Seq::<char>::empty());
    assert(out@ =~= rust_type_text(cs@));
    string_from_chars(out.as_slice())
}

// ---------------------------------------------------------------------------
// Lowering Rust types to Lean type text
// ---------------------------------------------------------------------------

/// The Lean text of a type and the custom (user-defined) type names it
/// mentions, or why it cannot be lowered.
pub type Rendered = Result<(Seq<char>, Set<Seq<char>>), Seq<char>>;

pub open spec fn array_text(inner: Seq<char>) -> Seq<char> {
    "Array "@ + lean_type_arg_spec(inner)
}

pub open spec fn map_array(r: Rendered) -> Rendered {
    match r {
        Ok((x, c)) => Ok((array_text(x), c)),
        Err(e) => Err(e),
    }
}

/// Whether the last segment of a path type is `u8`.
pub open spec fn last_is_u8(t: RustType) -> bool {
    match t.kind {
        TypeKind::Path(p) => p.segments@.len() > 0 && p.segments@[p.segments@.len() - 1].ident@ == "u8"@,
        _ => false,
    }
}

pub open spec fn args_msg(ident: Seq<char>, n: nat) -> Seq<char> {
    ident + " requires exactly "@ + crate::text::decimal_digits(n) + " type argument(s)"@
}

pub open spec fn mut_borrow_msg() -> Seq<char> {
    "unsupported leo3 type `&mut ...`; mutable borrowed inputs are not supported yet"@
}

pub open spec fn borrowed_msg(t: RustType) -> Seq<char> {
    "unsupported leo3 borrowed type `"@ + rust_type_text(t.text@)
        + "`; currently supported borrowed shapes are `&str`, `&String`, borrowed Vec containers like `&Vec<T>`, borrowed slices/arrays like `&[T]`/`&[T; N]`, and borrowed bytes `&[u8]`"@
}

pub open spec fn unsupported_msg(t: RustType) -> Seq<char> {
    "unsupported leo3 type `"@ + rust_type_text(t.text@) + "`"@
}

pub open spec fn pointer_msg(t: RustType) -> Seq<char> {
    "unsupported leo3 type `"@ + rust_type_text(t.text@) + "`; raw pointers are out of scope for leo3 mode"@
}

pub open spec fn slice_msg(t: RustType) -> Seq<char> {
    "unsupported leo3 type `"@ + rust_type_text(t.text@)
        + "`; slice values are only supported as borrowed `&[u8]`, not as standalone slice types"@
}

pub open spec fn generic_msg(t: RustType) -> Seq<char> {
    "unsupported leo3 generic type `"@ + rust_type_text(t.text@)
        + "`; only Vec<T>, Option<T>, and Result<T, E> are supported"@
}

/// A `Vec<T>`'s element rendered: bytes for `u8`, else an array.
pub open spec fn vec_text(seg: PathSegment, self_ty: Option<Seq<char>>) -> Rendered
    decreases seg, 0int,
{
    match seg.args {
        PathArgs::Angle(v) => {
            let ps = type_arg_positions(v@);
            if ps.len() != 1 || !(0 <= ps[0] < v@.len()) {
                Err(args_msg(seg.ident@, 1))
            } else {
                match v@[ps[0]] {
                    GenericArg::Type(a) => if last_is_u8(a) {
                        Ok(("ByteArray"@, Set::empty()))
                    } else {
                        map_array(value_spec(a, self_ty))
                    },
                    GenericArg::Other => Err(args_msg(seg.ident@, 1)),
                }
            }
        },
        _ => Err(args_msg(seg.ident@, 1)),
    }
}

/// A parameter type: shared borrows of text, bytes, vectors, slices and
/// arrays, or a value type.
pub open spec fn param_spec(t: RustType, self_ty: Option<Seq<char>>) -> Rendered
    decreases t, 2int,
{
    match t.kind {
        TypeKind::Reference { mutable, elem } => if mutable {
            Err(mut_borrow_msg())
        } else {
            match (*elem).kind {
                TypeKind::Path(p) => if p.segments@.len() > 0 && p.segments@[p.segments@.len() - 1].ident@
                    == "str"@ {
                    Ok(("String"@, Set::empty()))
                } else if crate::conversion_plan::path_is_string_spec(p) {
                    Ok(("String"@, Set::empty()))
                } else if p.segments@.len() > 0 && p.segments@[p.segments@.len() - 1].ident@ == "Vec"@ {
                    vec_text(p.segments@[p.segments@.len() - 1], self_ty)
                } else {
                    Err(borrowed_msg(t))
                },
                TypeKind::Slice(e) => if last_is_u8(*e) {
                    Ok(("ByteArray"@, Set::empty()))
                } else {
                    map_array(value_spec(*e, self_ty))
                },
                TypeKind::Array(e) => map_array(value_spec(*e, self_ty)),
                _ => Err(borrowed_msg(t)),
            }
        },
        _ => value_spec(t, self_ty),
    }
}

/// A value type: unit, tuples, paths, borrows (as parameters) and arrays.
pub open spec fn value_spec(t: RustType, self_ty: Option<Seq<char>>) -> Rendered
    decreases t, (if t.kind is Reference { 3int } else { 1int }),
{
    match t.kind {
        TypeKind::Paren(e) => value_spec(*e, self_ty),
        TypeKind::Group(e) => value_spec(*e, self_ty),
        TypeKind::Tuple(es) => if es@.len() == 0 {
            Ok(("Unit"@, Set::empty()))
        } else {
            tuple_spec(es@, self_ty)
        },
        TypeKind::Path(p) => path_text_spec(t, self_ty),
        TypeKind::Reference { .. } => param_spec(t, self_ty),
        TypeKind::Array(e) => map_array(value_spec(*e, self_ty)),
        TypeKind::Ptr => Err(pointer_msg(t)),
        TypeKind::Slice(_) => Err(slice_msg(t)),
        TypeKind::Other => Err(unsupported_msg(t)),
    }
}

/// A tuple of two or more items: right-nested `Prod`s.
pub open spec fn tuple_spec(items: Seq<RustType>, self_ty: Option<Seq<char>>) -> Rendered
    decreases items, 0int,
{
    if items.len() < 2 {
        Err("tuple Lean declarations require at least two elements"@)
    } else {
        match value_spec(items[0], self_ty) {
            Err(e) => Err(e),
            Ok((l, c1)) => {
                let right = if items.len() == 2 {
                    value_spec(items[1], self_ty)
                } else {
                    tuple_spec(items.subrange(1, items.len() as int), self_ty)
                };
                match right {
                    Err(e) => Err(e),
                    Ok((r, c2)) => Ok(
                        ("Prod "@ + lean_type_arg_spec(l) + " "@ + lean_type_arg_spec(r), c1.union(c2)),
                    ),
                }
            },
        }
    }
}

/// A path type by its last segment: scalars, `String`, `Self`, `Vec`,
/// `Option`, `Result`, or a custom type without arguments.
pub open spec fn path_text_spec(t: RustType, self_ty: Option<Seq<char>>) -> Rendered
    decreases t, 0int,
{
    match t.kind {
        TypeKind::Path(p) => if p.segments@.len() == 0 {
            Err(unsupported_msg(t))
        } else {
            let seg = p.segments@[p.segments@.len() - 1];
            let ident = seg.ident@;
            match scalar_lean(ident) {
                Some(l) => Ok((l, Set::empty())),
                None => if ident == "String"@ && crate::conversion_plan::path_is_string_spec(p) {
                    Ok(("String"@, Set::empty()))
                } else if ident == "str"@ {
                    Err("unsupported leo3 type `str`; use owned `String`"@)
                } else if ident == "Self"@ {
                    match self_ty {
                        Some(s) => Ok((s, Set::empty())),
                        None => Err("unsupported leo3 type `Self` outside `#[leanclass]` methods"@),
                    }
                } else if ident == "Vec"@ {
                    vec_text(seg, self_ty)
                } else if ident == "Option"@ {
                    match seg.args {
                        PathArgs::Angle(v) => {
                            let ps = type_arg_positions(v@);
                            if ps.len() != 1 || !(0 <= ps[0] < v@.len()) {
                                Err(args_msg(ident, 1))
                            } else {
                                match v@[ps[0]] {
                                    GenericArg::Type(a) => match value_spec(a, self_ty) {
                                        Ok((x, c)) => Ok(("Option "@ + lean_type_arg_spec(x), c)),
                                        Err(e) => Err(e),
                                    },
                                    GenericArg::Other => Err(args_msg(ident, 1)),
                                }
                            }
                        },
                        _ => Err(args_msg(ident, 1)),
                    }
                } else if ident == "Result"@ {
                    match seg.args {
                        PathArgs::Angle(v) => {
                            let ps = type_arg_positions(v@);
                            if ps.len() != 2 || !(0 <= ps[0] < v@.len()) || !(0 <= ps[1] < v@.len()) {
                                Err(args_msg(ident, 2))
                            } else {
                                match v@[ps[0]] {
                                    GenericArg::Type(a) => match v@[ps[1]] {
                                        GenericArg::Type(b) => match value_spec(a, self_ty) {
                                            Err(e) => Err(e),
                                            Ok((ok, c1)) => match value_spec(b, self_ty) {
                                                Err(e) => Err(e),
                                                Ok((err, c2)) => Ok(
                                                    (
                                                        "Except "@ + lean_type_arg_spec(err) + " "@
                                                            + lean_type_arg_spec(ok),
                                                        c1.union(c2),
                                                    ),
                                                ),
                                            },
                                        },
                                        GenericArg::Other => Err(args_msg(ident, 2)),
                                    },
                                    GenericArg::Other => Err(args_msg(ident, 2)),
                                }
                            }
                        },
                        _ => Err(args_msg(ident, 2)),
                    }
                } else if !(seg.args is Plain) {
                    Err(generic_msg(t))
                } else {
                    Ok((ident, Set::empty().insert(ident)))
                },
            }
        },
        _ => Err(unsupported_msg(t)),
    }
}

/// What a rendering call returned, against what it should: the Lean text and
/// the custom names added to the list, or the error.
pub open spec fn rendered_as(
    r: Result<String, String>,
    want: Rendered,
    before: Seq<String>,
    after: Seq<String>,
) -> bool {
    match want {
        Ok((x, c)) => r matches Ok(s) && s@ == x && strings_view(after).to_set() == strings_view(
            before,
        ).to_set().union(c),
        Err(e) => r matches Err(m) && m@ == e,
    }
}

proof fn lemma_seg_arg_smaller(seg: PathSegment, q: int)
    requires
        seg.args is Angle,
        0 <= q < seg.args->Angle_0@.len(),
        seg.args->Angle_0@[q] is Type,
    ensures
        decreases_to!(seg => seg.args->Angle_0@[q]->Type_0),
{
    let a = seg.args;
    let v = a->Angle_0;
    assert(decreases_to!(seg => a));
    assert(decreases_to!(a => v));
    assert(decreases_to!(v => v@));
    assert(decreases_to!(v@ => v@[q]));
    assert(decreases_to!(v@[q] => v@[q]->Type_0));
}

proof fn lemma_last_seg_smaller(u: RustType)
    requires
        u.kind is Path,
        u.kind->Path_0.segments@.len() > 0,
    ensures
        decreases_to!(u => u.kind->Path_0.segments@[u.kind->Path_0.segments@.len() - 1]),
{
    let k = u.kind;
    let segs = k->Path_0.segments;
    assert(decreases_to!(u => k));
    assert(decreases_to!(k => k->Path_0));
    assert(decreases_to!(k->Path_0 => segs));
    assert(decreases_to!(segs => segs@));
    assert(decreases_to!(segs@ => segs@[segs@.len() - 1]));
}

/// The type arguments of a segment: how many, and the first two.
fn type_args_of<'a>(seg: &'a PathSegment) -> (r: (usize, Option<&'a RustType>, Option<&'a RustType>))
    ensures
        seg.args is Angle ==> {
            let v = seg.args->Angle_0@;
            let ps = type_arg_positions(v);
            &&& r.0 == ps.len()
            &&& ps.len() >= 1 ==> (r.1 matches Some(a) && 0 <= ps[0] < v.len() && v[ps[0]]
                == GenericArg::Type(*a))
            &&& ps.len() >= 2 ==> (r.2 matches Some(b) && 0 <= ps[1] < v.len() && v[ps[1]]
                == GenericArg::Type(*b))
        },
        !(seg.args is Angle) ==> r.0 == 0,
{
    let v = match &seg.args {
        PathArgs::Angle(v) => v,
        _ => return (0, None, None),
    };
    let mut count: usize = 0;
    let mut first: Option<&RustType> = None;
    let mut second: Option<&RustType> = None;
    let mut i: usize = 0;
    while i < v.len()
        invariant
            i <= v.len(),
            seg.args == PathArgs::Angle(*v),
            count == type_arg_positions(v@.take(i as int)).len(),
            count <= i,
            count >= 1 ==> (first matches Some(a) && 0 <= type_arg_positions(v@.take(i as int))[0] < i
                && v@[type_arg_positions(v@.take(i as int))[0]] == GenericArg::Type(*a)),
            count >= 2 ==> (second matches Some(b) && 0 <= type_arg_positions(v@.take(i as int))[1] < i
                && v@[type_arg_positions(v@.take(i as int))[1]] == GenericArg::Type(*b)),
        decreases v.len() - i,
    {
        assert(v@.take(i + 1).drop_last() =~= v@.take(i as int));
        let ghost before = type_arg_positions(v@.take(i as int));
        match &v[i] {
            GenericArg::Type(t) => {
                assert(type_arg_positions(v@.take(i + 1)) == before.push(i as int));
                if count == 0 {
                    first = Some(t);
                } else if count == 1 {
                    second = Some(t);
                }
                count = count + 1;
            },
            GenericArg::Other => {
                assert(type_arg_positions(v@.take(i + 1)) == before);
            },
        }
        i = i + 1;
    }
    assert(v@.take(i as int) =~= v@);
    (count, first, second)
}

fn args_error(ident: &String, n: u64) -> (r: String)
    ensures
        r@ == args_msg(ident@, n as nat),
{
    let mut m = ident.clone();
    m.append(" requires exactly ");
    crate::text::push_decimal(&mut m, n);
    m.append(" type argument(s)");
    m
}

fn text_with(prefix: &str, t: &RustType, suffix: &str) -> (r: String)
    ensures
        r@ == prefix@ + rust_type_text(t.text@) + suffix@,
{
    let mut m = owned(prefix);
    m.append(render_rust_type(t).as_str());
    m.append(suffix);
    m
}

fn array_of_text(inner: &String) -> (r: String)
    ensures
        r@ == array_text(inner@),
{
    let mut m = owned("Array ");
    m.append(lean_type_arg(inner.as_str()).as_str());
    m
}

/// Render a `Vec<T>` segment.
fn render_vec(seg: &PathSegment, self_ty: Option<&str>, custom: &mut Vec<String>) -> (r: Result<String, String>)
    requires
        sorted_names(strings_view(old(custom)@)),
    ensures
        sorted_names(strings_view(final(custom)@)),
        rendered_as(r, vec_text(*seg, crate::analysis::opt_str(self_ty)), old(custom)@, final(custom)@),
    decreases seg, 0int,
{
    proof {
        if seg.args is Angle {
            lemma_type_arg_positions(seg.args->Angle_0@);
        }
    }
    let (count, first, _) = type_args_of(seg);
    if count != 1 {
        return Err(args_error(&seg.ident, 1));
    }
    let a = match first {
        Some(a) => a,
        None => return Err(args_error(&seg.ident, 1)),
    };
    proof {
        let ps = type_arg_positions(seg.args->Angle_0@);
        lemma_seg_arg_smaller(*seg, ps[0]);
    }
    if last_is_u8_exec(a) {
        assert(strings_view(custom@).to_set().union(Set::empty()) =~= strings_view(custom@).to_set());
        return Ok(owned("ByteArray"));
    }
    let inner = render_value_type(a, self_ty, custom)?;
    Ok(array_of_text(&inner))
}

fn last_is_u8_exec(t: &RustType) -> (r: bool)
    ensures
        r == last_is_u8(*t),
{
    match &t.kind {
        TypeKind::Path(p) => p.segments.len() > 0 && str_eq(p.segments[p.segments.len() - 1].ident.as_str(), "u8"),
        _ => false,
    }
}

fn last_ident_is(p: &TypePath, name: &str) -> (r: bool)
    ensures
        r == (p.segments@.len() > 0 && p.segments@[p.segments@.len() - 1].ident@ == name@),
{
    p.segments.len() > 0 && str_eq(p.segments[p.segments.len() - 1].ident.as_str(), name)
}

/// Render a parameter type.
pub fn render_param_type(t: &RustType, self_ty: Option<&str>, custom: &mut Vec<String>) -> (r: Result<
    String,
    String,
>)
    requires
        sorted_names(strings_view(old(custom)@)),
    ensures
        sorted_names(strings_view(final(custom)@)),
        rendered_as(r, param_spec(*t, crate::analysis::opt_str(self_ty)), old(custom)@, final(custom)@),
    decreases t, 2int,
{
    let ghost before = strings_view(custom@).to_set();
    match &t.kind {
        TypeKind::Reference { mutable, elem } => {
            if *mutable {
                return Err(owned("unsupported leo3 type `&mut ...`; mutable borrowed inputs are not supported yet"));
            }
            match &elem.kind {
                TypeKind::Path(p) => {
                    if last_ident_is(p, "str") || crate::conversion_plan::path_is_string_exec(p) {
                        assert(before.union(Set::empty()) =~= before);
                        Ok(owned("String"))
                    } else if last_ident_is(p, "Vec") {
                        proof {
                            lemma_last_seg_smaller(**elem);
                        }
                        render_vec(&p.segments[p.segments.len() - 1], self_ty, custom)
                    } else {
                        Err(text_with("unsupported leo3 borrowed type `", t, "`; currently supported borrowed shapes are `&str`, `&String`, borrowed Vec containers like `&Vec<T>`, borrowed slices/arrays like `&[T]`/`&[T; N]`, and borrowed bytes `&[u8]`"))
                    }
                },
                TypeKind::Slice(e) => {
                    if last_is_u8_exec(e) {
                        assert(before.union(Set::empty()) =~= before);
                        Ok(owned("ByteArray"))
                    } else {
                        let inner = render_value_type(e, self_ty, custom)?;
                        Ok(array_of_text(&inner))
                    }
                },
                TypeKind::Array(e) => {
                    let inner = render_value_type(e, self_ty, custom)?;
                    Ok(array_of_text(&inner))
                },
                _ => Err(text_with("unsupported leo3 borrowed type `", t, "`; currently supported borrowed shapes are `&str`, `&String`, borrowed Vec containers like `&Vec<T>`, borrowed slices/arrays like `&[T]`/`&[T; N]`, and borrowed bytes `&[u8]`")),
            }
        },
        _ => render_value_type(t, self_ty, custom),
    }
}

/// Render a value type.
pub fn render_value_type(t: &RustType, self_ty: Option<&str>, custom: &mut Vec<String>) -> (r: Result<
    String,
    String,
>)
    requires
        sorted_names(strings_view(old(custom)@)),
    ensures
        sorted_names(strings_view(final(custom)@)),
        rendered_as(r, value_spec(*t, crate::analysis::opt_str(self_ty)), old(custom)@, final(custom)@),
    decreases t, (if t.kind is Reference { 3int } else { 1int }),
{
    let ghost before = strings_view(custom@).to_set();
    match &t.kind {
        TypeKind::Paren(e) => render_value_type(e, self_ty, custom),
        TypeKind::Group(e) => render_value_type(e, self_ty, custom),
        TypeKind::Tuple(es) => {
            if es.len() == 0 {
                assert(before.union(Set::empty()) =~= before);
                Ok(owned("Unit"))
            } else {
                proof {
                    let k = t.kind;
                    assert(decreases_to!(*t => k));
                    assert(decreases_to!(k => k->Tuple_0));
                    assert(decreases_to!(k->Tuple_0 => k->Tuple_0@));
                }
                render_tuple_type(es.as_slice(), self_ty, custom)
            }
        },
        TypeKind::Path(_) => render_path_type(t, self_ty, custom),
        TypeKind::Reference { .. } => render_param_type(t, self_ty, custom),
        TypeKind::Array(e) => {
            let inner = render_value_type(e, self_ty, custom)?;
            Ok(array_of_text(&inner))
        },
        TypeKind::Ptr => Err(text_with("unsupported leo3 type `", t, "`; raw pointers are out of scope for leo3 mode")),
        TypeKind::Slice(_) => Err(text_with("unsupported leo3 type `", t, "`; slice values are only supported as borrowed `&[u8]`, not as standalone slice types")),
        TypeKind::Other => Err(text_with("unsupported leo3 type `", t, "`")),
    }
}

/// Render the items of a tuple as right-nested `Prod`s.
fn render_tuple_type(items: &[RustType], self_ty: Option<&str>, custom: &mut Vec<String>) -> (r: Result<
    String,
    String,
>)
    requires
        sorted_names(strings_view(old(custom)@)),
    ensures
        sorted_names(strings_view(final(custom)@)),
        rendered_as(r, tuple_spec(items@, crate::analysis::opt_str(self_ty)), old(custom)@, final(custom)@),
    decreases items@, 0int,
{
    if items.len() < 2 {
        return Err(owned("tuple Lean declarations require at least two elements"));
    }
    let ghost c0 = strings_view(custom@).to_set();
    proof {
        assert(decreases_to!(items@ => items@[0]));
    }
    let left = render_value_type(&items[0], self_ty, custom)?;
    let ghost c1 = strings_view(custom@).to_set();
    let right = if items.len() == 2 {
        proof {
            assert(decreases_to!(items@ => items@[1]));
        }
        render_value_type(&items[1], self_ty, custom)?
    } else {
        let rest = &items[1..items.len()];
        assert(rest@ =~= items@.subrange(1, items@.len() as int));
        render_tuple_type(rest, self_ty, custom)?
    };
    let mut out = owned("Prod ");
    out.append(lean_type_arg(left.as_str()).as_str());
    out.append(" ");
    out.append(lean_type_arg(right.as_str()).as_str());
    proof {
        let want = tuple_spec(items@, crate::analysis::opt_str(self_ty));
        if let Ok((_, cs)) = want {
            let (x1, s1) = value_spec(items@[0], crate::analysis::opt_str(self_ty))->Ok_0;
            let (x2, s2) = (if items@.len() == 2 {
                value_spec(items@[1], crate::analysis::opt_str(self_ty))
            } else {
                tuple_spec(items@.subrange(1, items@.len() as int), crate::analysis::opt_str(self_ty))
            })->Ok_0;
            assert(c1 == c0.union(s1));
            assert(strings_view(custom@).to_set() == c1.union(s2));
            assert(c0.union(s1).union(s2) =~= c0.union(s1.union(s2)));
        }
    }
    Ok(out)
}

/// Render a path type.
fn render_path_type(t: &RustType, self_ty: Option<&str>, custom: &mut Vec<String>) -> (r: Result<
    String,
    String,
>)
    requires
        sorted_names(strings_view(old(custom)@)),
        t.kind is Path,
    ensures
        sorted_names(strings_view(final(custom)@)),
        rendered_as(r, path_text_spec(*t, crate::analysis::opt_str(self_ty)), old(custom)@, final(custom)@),
    decreases t, 0int,
{
    let ghost before = strings_view(custom@).to_set();
    let p = match &t.kind {
        TypeKind::Path(p) => p,
        _ => return Err(String::new()),
    };
    if p.segments.len() == 0 {
        return Err(text_with("unsupported leo3 type `", t, "`"));
    }
    let seg = &p.segments[p.segments.len() - 1];
    let ident = seg.ident.as_str();
    assert(before.union(Set::empty()) =~= before);
    match crate::analysis::scalar_lean_exec(ident) {
        Some(l) => {
            return Ok(owned(l));
        },
        None => {},
    }
    if str_eq(ident, "String") && crate::conversion_plan::path_is_string_exec(p) {
        return Ok(owned("String"));
    }
    if str_eq(ident, "str") {
        return Err(owned("unsupported leo3 type `str`; use owned `String`"));
    }
    if str_eq(ident, "Self") {
        return match self_ty {
            Some(s) => Ok(owned(s)),
            None => Err(owned("unsupported leo3 type `Self` outside `#[leanclass]` methods")),
        };
    }
    proof {
        lemma_last_seg_smaller(*t);
        if seg.args is Angle {
            lemma_type_arg_positions(seg.args->Angle_0@);
        }
    }
    if str_eq(ident, "Vec") {
        return render_vec(seg, self_ty, custom);
    }
    if str_eq(ident, "Option") {
        let (count, first, _) = type_args_of(seg);
        if count != 1 {
            return Err(args_error(&seg.ident, 1));
        }
        let a = match first {
            Some(a) => a,
            None => return Err(args_error(&seg.ident, 1)),
        };
        proof {
            lemma_seg_arg_smaller(*seg, type_arg_positions(seg.args->Angle_0@)[0]);
        }
        let inner = render_value_type(a, self_ty, custom)?;
        let mut out = owned("Option ");
        out.append(lean_type_arg(inner.as_str()).as_str());
        return Ok(out);
    }
    if str_eq(ident, "Result") {
        let (count, first, second) = type_args_of(seg);
        if count != 2 {
            return Err(args_error(&seg.ident, 2));
        }
        let (a, b) = match (first, second) {
            (Some(a), Some(b)) => (a, b),
            _ => return Err(args_error(&seg.ident, 2)),
        };
        proof {
            let ps = type_arg_positions(seg.args->Angle_0@);
            lemma_seg_arg_smaller(*seg, ps[0]);
            lemma_seg_arg_smaller(*seg, ps[1]);
        }
        let ghost c0 = strings_view(custom@).to_set();
        let ok = render_value_type(a, self_ty, custom)?;
        let ghost c1 = strings_view(custom@).to_set();
        let err = render_value_type(b, self_ty, custom)?;
        let mut out = owned("Except ");
        out.append(lean_type_arg(err.as_str()).as_str());
        out.append(" ");
        out.append(lean_type_arg(ok.as_str()).as_str());
        proof {
            let s1 = value_spec(*a, crate::analysis::opt_str(self_ty))->Ok_0.1;
            let s2 = value_spec(*b, crate::analysis::opt_str(self_ty))->Ok_0.1;
            assert(c0.union(s1).union(s2) =~= c0.union(s1.union(s2)));
        }
        return Ok(out);
    }
    match &seg.args {
        PathArgs::Plain => {},
        _ => {
            return Err(text_with("unsupported leo3 generic type `", t, "`; only Vec<T>, Option<T>, and Result<T, E> are supported"));
        },
    }
    let name = seg.ident.clone();
    insert_name(custom, seg.ident.clone());
    assert(before.insert(name@) =~= before.union(Set::empty().insert(name@)));
    Ok(name)
}

// ---------------------------------------------------------------------------
// Declaration blocks
// ---------------------------------------------------------------------------

/// A generated Lean declaration block sourced from Leo3 semantics.
#[derive(Debug, Clone, PartialEq, Eq)]
pub struct LeanDeclBlock {
    /// Human-readable item name used in diagnostics.
    pub item_name: String,
    /// Optional doc comment text.
    pub doc: Option<String>,
    /// Lean declaration lines to emit verbatim.
    pub lines: Vec<String>,
    /// Custom Lean type names referenced by this declaration block, in
    /// lexicographic order without repeats.
    pub custom_types: Vec<String>,
}

pub struct DeclView {
    pub item_name: Seq<char>,
    pub doc: Option<Seq<char>>,
    pub lines: Seq<Seq<char>>,
    pub custom_types: Set<Seq<char>>,
}

impl View for LeanDeclBlock {
    type V = DeclView;

    open spec fn view(&self) -> DeclView {
        DeclView {
            item_name: self.item_name@,
            doc: crate::model::opt_str_view(self.doc),
            lines: strings_view(self.lines@),
            custom_types: strings_view(self.custom_types@).to_set(),
        }
    }
}

impl LeanDeclBlock {
    /// The custom type names are sorted and distinct.
    pub open spec fn wf(&self) -> bool {
        sorted_names(strings_view(self.custom_types@))
    }
}

/// A discovered Leo3 item that could not be lowered safely.
#[derive(Debug, Clone, PartialEq, Eq)]
pub struct SkippedItem {
    /// Lean-facing binding or item name.
    pub item_name: String,
    /// Human-readable skip reason.
    pub reason: String,
}

/// Non-fatal semantic diagnostic discovered while scanning Leo3 items.
#[derive(Debug, Clone, PartialEq, Eq)]
pub struct SemanticDiagnostic {
    /// Associated item name.
    pub item_name: String,
    /// Human-readable diagnostic message.
    pub message: String,
}

/// Whether an attribute is `#[name]` or `#[leo3::name]`.
pub open spec fn attr_matches(a: AttrItem, ident: Seq<char>) -> bool {
    (a.path@.len() == 1 && a.path@[0]@ == ident) || (a.path@.len() == 2 && a.path@[0]@ == "leo3"@
        && a.path@[1]@ == ident)
}

fn attr_matches_exec(a: &AttrItem, ident: &str) -> (r: bool)
    ensures
        r == attr_matches(*a, ident@),
{
    (a.path.len() == 1 && str_eq(a.path[0].as_str(), ident)) || (a.path.len() == 2 && str_eq(
        a.path[0].as_str(),
        "leo3",
    ) && str_eq(a.path[1].as_str(), ident))
}

/// The position of the first attribute at or after `k` that matches `ident`.
pub open spec fn first_attr(attrs: Seq<AttrItem>, ident: Seq<char>, k: int) -> Option<int>
    decreases attrs.len() - k,
{
    if k < 0 || k >= attrs.len() {
        None
    } else if attr_matches(attrs[k], ident) {
        Some(k)
    } else {
        first_attr(attrs, ident, k + 1)
    }
}

fn first_attr_exec(attrs: &Vec<AttrItem>, ident: &str) -> (r: Option<usize>)
    ensures
        r matches Some(k) ==> first_attr(attrs@, ident@, 0) == Some(k as int) && k < attrs@.len(),
        r is None ==> first_attr(attrs@, ident@, 0) is None,
{
    let mut k: usize = 0;
    while k < attrs.len()
        invariant
            k <= attrs.len(),
            first_attr(attrs@, ident@, 0) == first_attr(attrs@, ident@, k as int),
        decreases attrs.len() - k,
    {
        if attr_matches_exec(&attrs[k], ident) {
            return Some(k);
        }
        k = k + 1;
    }
    None
}

/// The trimmed texts of the `#[doc = "..."]` attributes, in order.
pub open spec fn doc_lines(attrs: Seq<AttrItem>) -> Seq<Seq<char>>
    decreases attrs.len(),
{
    if attrs.len() == 0 {
        Seq::empty()
    } else {
        let a = attrs.last();
        let rest = doc_lines(attrs.drop_last());
        if crate::syntax::attr_path_is(a, "doc"@) && a.str_value is Some {
            rest.push(trim(a.str_value->Some_0@))
        } else {
            rest
        }
    }
}

/// The doc comment of an item: its doc lines joined by newlines.
pub open spec fn doc_spec(attrs: Seq<AttrItem>) -> Option<Seq<char>> {
    if doc_lines(attrs).len() == 0 {
        None
    } else {
        Some(seq_join(doc_lines(attrs), "\n"@))
    }
}

fn doc_comments(attrs: &Vec<AttrItem>) -> (r: Option<String>)
    ensures
        crate::model::opt_str_view(r) == doc_spec(attrs@),
{
    let mut docs: Vec<String> = Vec::new();
    let mut i: usize = 0;
    assert(attrs@.take(0) =~= Seq::<AttrItem>::empty());
    while i < attrs.len()
        invariant
            i <= attrs.len(),
            strings_view(docs@) == doc_lines(attrs@.take(i as int)),
        decreases attrs.len() - i,
    {
        let a = &attrs[i];
        assert(attrs@.take(i + 1).drop_last() =~= attrs@.take(i as int));
        assert(attrs@.take(i + 1).last() == *a);
        if crate::analysis::attr_path_exec(a, "doc") {
            match &a.str_value {
                Some(v) => {
                    let t = trim_chars(chars_of(v.as_str()).as_slice());
                    let line = string_from_chars(t.as_slice());
                    let ghost before = strings_view(docs@);
                    docs.push(line);
                    assert(strings_view(docs@) =~= before.push(trim(v@)));
                },
                None => {},
            }
        }
        i = i + 1;
    }
    assert(attrs@.take(i as int) =~= attrs@);
    if docs.len() == 0 {
        None
    } else {
        Some(crate::text::join_strings(&docs, "\n"))
    }
}

pub open spec fn extern_line(name: Seq<char>) -> Seq<char> {
    "@[extern \""@ + name + "\"]"@
}

pub open spec fn opaque_line(name: Seq<char>, parts: Seq<Seq<char>>) -> Seq<char> {
    "opaque "@ + name + " : "@ + seq_join(parts, " → "@)
}

/// The Lean types of the first `n` parameters of a `#[leanfn]` function.
pub open spec fn fn_param_texts(inputs: Seq<FnInput>, n: int, name: Seq<char>) -> Result<
    (Seq<Seq<char>>, Set<Seq<char>>),
    Seq<char>,
>
    decreases n,
{
    if n <= 0 || n > inputs.len() {
        Ok((Seq::empty(), Set::empty()))
    } else {
        match fn_param_texts(inputs, n - 1, name) {
            Err(e) => Err(e),
            Ok((ps, c)) => match inputs[n - 1] {
                FnInput::Receiver(_) => Err(
                    "skipping binding with self receiver; only free functions are supported"@,
                ),
                FnInput::Typed(_, ty) => match param_spec(ty, None) {
                    Err(e) => Err("unsupported leo3 type in `"@ + name + "` parameter: "@ + e),
                    Ok((x, c2)) => Ok((ps.push(x), c.union(c2))),
                },
            },
        }
    }
}

proof fn lemma_fn_params_err_extends(inputs: Seq<FnInput>, k: int, n: int, name: Seq<char>)
    requires
        0 < k <= n <= inputs.len(),
        fn_param_texts(inputs, k, name) is Err,
    ensures
        fn_param_texts(inputs, n, name) == fn_param_texts(inputs, k, name),
    decreases n - k,
{
    if n > k {
        lemma_fn_params_err_extends(inputs, k, n - 1, name);
    }
}

/// The Lean name of a `#[leanfn]` function: its `name` option, else its own.
pub open spec fn leanfn_name(f: FnItem, a: AttrItem) -> Seq<char> {
    match a.leanfn_options {
        Some(Ok(o)) => match o.name {
            Some(n) => n@,
            None => f.ident@,
        },
        _ => f.ident@,
    }
}

/// The Lean declaration block of a `#[leanfn]` function.
pub open spec fn leanfn_block_spec(f: FnItem, a: AttrItem) -> Result<DeclView, Seq<char>> {
    match a.leanfn_options {
        Some(Err(e)) => Err("ignoring malformed #[leanfn(...)] attribute: "@ + e@),
        _ => if f.generics@.len() > 0 {
            Err("skipping generic binding; generic exported functions are not supported"@)
        } else if f.variadic {
            Err("skipping variadic binding; variadic functions are not supported"@)
        } else {
            let name = leanfn_name(f, a);
            match fn_param_texts(f.inputs@, f.inputs@.len() as int, name) {
                Err(e) => Err(e),
                Ok((ps, c1)) => {
                    let ret: Result<(Seq<char>, Set<Seq<char>>), Seq<char>> = match f.output {
                        None => Ok(("Unit"@, Set::empty())),
                        Some(ty) => match value_spec(ty, None) {
                            Err(e) => Err("unsupported leo3 return type in `"@ + name + "`: "@ + e),
                            Ok(x) => Ok(x),
                        },
                    };
                    match ret {
                        Err(e) => Err(e),
                        Ok((r, c2)) => Ok(
                            DeclView {
                                item_name: name,
                                doc: doc_spec(f.attrs@),
                                lines: seq![extern_line(name), opaque_line(name, ps.push(r))],
                                custom_types: c1.union(c2),
                            },
                        ),
                    }
                },
            }
        },
    }
}

fn prefixed_error(prefix: &str, middle: &String, rest: &str, e: &String) -> (r: String)
    ensures
        r@ == prefix@ + middle@ + rest@ + e@,
{
    let mut m = owned(prefix);
    m.append(middle.as_str());
    m.append(rest);
    m.append(e.as_str());
    m
}

fn push_text(v: &mut Vec<String>, s: String)
    ensures
        strings_view(final(v)@) == strings_view(old(v)@).push(s@),
{
    v.push(s);
    assert(strings_view(final(v)@) =~= strings_view(old(v)@).push(s@));
}

/// Render the declaration block of a `#[leanfn]` function, given its
/// `#[leanfn]` attribute.
pub fn render_leanfn_block(f: &FnItem, a: &AttrItem) -> (r: Result<LeanDeclBlock, String>)
    ensures
        match leanfn_block_spec(*f, *a) {
            Ok(v) => r matches Ok(b) && b@ == v && b.wf(),
            Err(e) => r matches Err(m) && m@ == e,
        },
{
    let name = match &a.leanfn_options {
        Some(Err(e)) => {
            let mut m = owned("ignoring malformed #[leanfn(...)] attribute: ");
            m.append(e.as_str());
            return Err(m);
        },
        Some(Ok(o)) => match &o.name {
            Some(n) => n.clone(),
            None => f.ident.clone(),
        },
        None => f.ident.clone(),
    };
    if f.generics.len() > 0 {
        return Err(owned("skipping generic binding; generic exported functions are not supported"));
    }
    if f.variadic {
        return Err(owned("skipping variadic binding; variadic functions are not supported"));
    }
    let mut custom: Vec<String> = Vec::new();
    let mut parts: Vec<String> = Vec::new();
    let mut i: usize = 0;
    assert(strings_view(custom@).to_set() =~= Set::<Seq<char>>::empty());
    assert(strings_view(parts@) =~= Seq::<Seq<char>>::empty());
    while i < f.inputs.len()
        invariant
            i <= f.inputs.len(),
            name@ == leanfn_name(*f, *a),
            f.generics@.len() == 0,
            !f.variadic,
            !(a.leanfn_options matches Some(Err(_))),
            sorted_names(strings_view(custom@)),
            fn_param_texts(f.inputs@, i as int, name@) == Ok::<(Seq<Seq<char>>, Set<Seq<char>>), Seq<char>>(
                (strings_view(parts@), strings_view(custom@).to_set()),
            ),
        decreases f.inputs.len() - i,
    {
        match &f.inputs[i] {
            FnInput::Receiver(_) => {
                proof {
                    lemma_fn_params_err_extends(f.inputs@, i + 1, f.inputs@.len() as int, name@);
                }
                return Err(owned("skipping binding with self receiver; only free functions are supported"));
            },
            FnInput::Typed(_, ty) => {
                match render_param_type(ty, None, &mut custom) {
                    Ok(x) => {
                        push_text(&mut parts, x);
                    },
                    Err(e) => {
                        proof {
                            lemma_fn_params_err_extends(f.inputs@, i + 1, f.inputs@.len() as int, name@);
                        }
                        return Err(prefixed_error("unsupported leo3 type in `", &name, "` parameter: ", &e));
                    },
                }
            },
        }
        i = i + 1;
    }
    let ret = match &f.output {
        None => {
            assert(strings_view(custom@).to_set().union(Set::empty()) =~= strings_view(custom@).to_set());
            owned("Unit")
        },
        Some(ty) => match render_value_type(ty, None, &mut custom) {
            Ok(x) => x,
            Err(e) => {
                return Err(prefixed_error("unsupported leo3 return type in `", &name, "`: ", &e));
            },
        },
    };
    push_text(&mut parts, ret);
    let mut ext = owned("@[extern \"");
    ext.append(name.as_str());
    ext.append("\"]");
    let mut opq = owned("opaque ");
    opq.append(name.as_str());
    opq.append(" : ");
    opq.append(crate::text::join_strings(&parts, " → ").as_str());
    let mut lines: Vec<String> = Vec::new();
    push_text(&mut lines, ext);
    push_text(&mut lines, opq);
    let doc = doc_comments(&f.attrs);
    let b = LeanDeclBlock { item_name: name, doc, lines, custom_types: custom };
    assert(b@.lines =~= seq![extern_line(name@), opaque_line(name@, strings_view(parts@))]);
    Ok(b)
}

/// Why a `#[leanclass]` attribute is not usable, if it is not: missing, or
/// with options that did not parse.
pub open spec fn leanclass_attr_problem(attrs: Seq<AttrItem>) -> Option<Seq<char>> {
    match first_attr(attrs, "leanclass"@, 0) {
        None => Some("missing #[leanclass] attribute"@),
        Some(k) => match attrs[k].leanclass_options {
            Some(Err(e)) => Some("ignoring malformed #[leanclass(...)] attribute: "@ + e@),
            _ => None,
        },
    }
}

fn leanclass_attr_check(attrs: &Vec<AttrItem>) -> (r: Result<(), String>)
    ensures
        match leanclass_attr_problem(attrs@) {
            Some(m) => r matches Err(e) && e@ == m,
            None => r is Ok,
        },
{
    match first_attr_exec(attrs, "leanclass") {
        None => Err(owned("missing #[leanclass] attribute")),
        Some(k) => {
            match &attrs[k].leanclass_options {
                Some(Err(e)) => {
                    let mut m = owned("ignoring malformed #[leanclass(...)] attribute: ");
                    m.append(e.as_str());
                    Err(m)
                },
                _ => Ok(()),
            }
        },
    }
}

/// The Lean declaration block of a `#[leanclass]` struct.
pub open spec fn struct_block_spec(item: StructItem) -> Result<DeclView, Seq<char>> {
    match leanclass_attr_problem(item.attrs@) {
        Some(m) => Err(m),
        None => if item.has_generics {
            Err("#[leanclass] does not support generic types yet"@)
        } else {
            Ok(
                DeclView {
                    item_name: item.ident@,
                    doc: doc_spec(item.attrs@),
                    lines: seq!["opaque "@ + item.ident@ + " : Type"@],
                    custom_types: Set::empty(),
                },
            )
        },
    }
}

/// Render the declaration block of a `#[leanclass]` struct.
pub fn render_leanclass_struct_block(item: &StructItem) -> (r: Result<LeanDeclBlock, String>)
    ensures
        match struct_block_spec(*item) {
            Ok(v) => r matches Ok(b) && b@ == v && b.wf(),
            Err(e) => r matches Err(m) && m@ == e,
        },
{
    leanclass_attr_check(&item.attrs)?;
    if item.has_generics {
        return Err(owned("#[leanclass] does not support generic types yet"));
    }
    let mut line = owned("opaque ");
    line.append(item.ident.as_str());
    line.append(" : Type");
    let mut lines: Vec<String> = Vec::new();
    push_text(&mut lines, line);
    let custom: Vec<String> = Vec::new();
    let b = LeanDeclBlock { item_name: item.ident.clone(), doc: doc_comments(&item.attrs), lines, custom_types: custom };
    assert(b@.custom_types =~= Set::<Seq<char>>::empty());
    assert(b@.lines =~= seq!["opaque "@ + item.ident@ + " : Type"@]);
    Ok(b)
}

/// The name an impl block is reported under: its type's last path segment.
pub open spec fn impl_name_spec(item: ImplItem) -> Seq<char> {
    match item.self_ty.kind {
        TypeKind::Path(p) => if p.segments@.len() > 0 {
            p.segments@[p.segments@.len() - 1].ident@
        } else {
            "impl"@
        },
        _ => "impl"@,
    }
}

/// The name an impl block is reported under.
pub fn impl_item_name(item: &ImplItem) -> (r: String)
    ensures
        r@ == impl_name_spec(*item),
{
    match &item.self_ty.kind {
        TypeKind::Path(p) => if p.segments.len() > 0 {
            p.segments[p.segments.len() - 1].ident.clone()
        } else {
            owned("impl")
        },
        _ => owned("impl"),
    }
}

/// The Lean types of the first `n` inputs of a `#[leanclass]` method: the
/// class for a leading receiver, else each parameter's type.
pub open spec fn method_param_texts(inputs: Seq<FnInput>, n: int, class: Seq<char>, method: Seq<char>) -> Result<
    (Seq<Seq<char>>, Set<Seq<char>>),
    Seq<char>,
>
    decreases n,
{
    if n <= 0 || n > inputs.len() {
        Ok((Seq::empty(), Set::empty()))
    } else {
        match method_param_texts(inputs, n - 1, class, method) {
            Err(e) => Err(e),
            Ok((ps, c)) => match inputs[n - 1] {
                FnInput::Receiver(_) => if n - 1 == 0 {
                    Ok((ps.push(class), c))
                } else {
                    Err("unsupported #[leanclass] method `"@ + method + "`; only a leading receiver is supported"@)
                },
                FnInput::Typed(_, ty) => match param_spec(ty, Some(class)) {
                    Err(e) => Err(e),
                    Ok((x, c2)) => Ok((ps.push(x), c.union(c2))),
                },
            },
        }
    }
}

proof fn lemma_method_params_err_extends(inputs: Seq<FnInput>, k: int, n: int, class: Seq<char>, method: Seq<char>)
    requires
        0 < k <= n <= inputs.len(),
        method_param_texts(inputs, k, class, method) is Err,
    ensures
        method_param_texts(inputs, n, class, method) == method_param_texts(inputs, k, class, method),
    decreases n - k,
{
    if n > k {
        lemma_method_params_err_extends(inputs, k, n - 1, class, method);
    }
}

/// Whether a method takes `&mut self` (or `mut self`).
pub open spec fn mut_receiver(m: FnItem) -> bool {
    m.inputs@.len() > 0 && m.inputs@[0] is Receiver && m.inputs@[0]->Receiver_0.mutable
}

/// The extern declaration of one `#[leanclass]` method and the custom types it
/// mentions. A method taking `&mut self` also returns the updated object.
pub open spec fn method_line_spec(m: FnItem, class: Seq<char>) -> Result<(Seq<char>, Set<Seq<char>>), Seq<char>> {
    if m.generics@.len() > 0 {
        Err("unsupported #[leanclass] method `"@ + m.ident@ + "`; generic methods are not supported yet"@)
    } else {
        match method_param_texts(m.inputs@, m.inputs@.len() as int, class, m.ident@) {
            Err(e) => Err(e),
            Ok((ps, c1)) => {
                let ret: Rendered = match m.output {
                    None => Ok(("Unit"@, Set::empty())),
                    Some(ty) => value_spec(ty, Some(class)),
                };
                match ret {
                    Err(e) => Err(e),
                    Ok((r, c2)) => {
                        let r2 = if mut_receiver(m) {
                            if r == "Unit"@ {
                                class
                            } else {
                                "Prod "@ + class + " "@ + lean_type_arg_spec(r)
                            }
                        } else {
                            r
                        };
                        Ok(
                            (
                                "@[extern \"__lean_ffi_"@ + class + "_"@ + m.ident@ + "\"] opaque "@ + class + "."@
                                    + m.ident@ + " : "@ + seq_join(ps.push(r2), " → "@),
                                c1.union(c2),
                            ),
                        )
                    },
                }
            },
        }
    }
}

/// The extern declarations of the first `n` methods.
pub open spec fn method_lines_spec(ms: Seq<FnItem>, n: int, class: Seq<char>) -> Result<
    (Seq<Seq<char>>, Set<Seq<char>>),
    Seq<char>,
>
    decreases n,
{
    if n <= 0 || n > ms.len() {
        Ok((Seq::empty(), Set::empty()))
    } else {
        match method_lines_spec(ms, n - 1, class) {
            Err(e) => Err(e),
            Ok((ls, c)) => match method_line_spec(ms[n - 1], class) {
                Err(e) => Err(e),
                Ok((l, c2)) => Ok((ls.push(l), c.union(c2))),
            },
        }
    }
}

proof fn lemma_method_lines_err_extends(ms: Seq<FnItem>, k: int, n: int, class: Seq<char>)
    requires
        0 < k <= n <= ms.len(),
        method_lines_spec(ms, k, class) is Err,
    ensures
        method_lines_spec(ms, n, class) == method_lines_spec(ms, k, class),
    decreases n - k,
{
    if n > k {
        lemma_method_lines_err_extends(ms, k, n - 1, class);
    }
}

/// The Lean declaration block of a `#[leanclass]` impl block.
pub open spec fn impl_block_spec(item: ImplItem) -> Result<DeclView, Seq<char>> {
    match leanclass_attr_problem(item.attrs@) {
        Some(m) => Err(m),
        None => if item.has_generics {
            Err("#[leanclass] does not support generic impl blocks yet"@)
        } else {
            let class = impl_name_spec(item);
            match method_lines_spec(item.methods@, item.methods@.len() as int, class) {
                Err(e) => Err(e),
                Ok((ls, c)) => Ok(DeclView { item_name: class, doc: None, lines: ls, custom_types: c }),
            }
        },
    }
}

/// Render one method's extern declaration.
fn render_method_line(m: &FnItem, class: &String, custom: &mut Vec<String>) -> (r: Result<String, String>)
    requires
        sorted_names(strings_view(old(custom)@)),
    ensures
        sorted_names(strings_view(final(custom)@)),
        rendered_as(r, method_line_spec(*m, class@), old(custom)@, final(custom)@),
{
    if m.generics.len() > 0 {
        let mut e = owned("unsupported #[leanclass] method `");
        e.append(m.ident.as_str());
        e.append("`; generic methods are not supported yet");
        return Err(e);
    }
    let ghost c0 = strings_view(custom@).to_set();
    let mut parts: Vec<String> = Vec::new();
    let mut i: usize = 0;
    assert(strings_view(parts@) =~= Seq::<Seq<char>>::empty());
    assert(c0.union(Set::empty()) =~= c0);
    while i < m.inputs.len()
        invariant
            i <= m.inputs.len(),
            m.generics@.len() == 0,
            sorted_names(strings_view(custom@)),
            method_param_texts(m.inputs@, i as int, class@, m.ident@) matches Ok((ps, c)) && ps
                == strings_view(parts@) && strings_view(custom@).to_set() == c0.union(c),
        decreases m.inputs.len() - i,
    {
        let ghost c_before = strings_view(custom@).to_set();
        let ghost prev = method_param_texts(m.inputs@, i as int, class@, m.ident@)->Ok_0.1;
        match &m.inputs[i] {
            FnInput::Receiver(_) => {
                if i == 0 {
                    push_text(&mut parts, class.clone());
                    assert(c0.union(prev.union(Set::empty())) =~= c0.union(prev));
                } else {
                    proof {
                        lemma_method_params_err_extends(m.inputs@, i + 1, m.inputs@.len() as int, class@, m.ident@);
                    }
                    let mut e = owned("unsupported #[leanclass] method `");
                    e.append(m.ident.as_str());
                    e.append("`; only a leading receiver is supported");
                    return Err(e);
                }
            },
            FnInput::Typed(_, ty) => {
                match render_param_type(ty, Some(class.as_str()), custom) {
                    Ok(x) => {
                        push_text(&mut parts, x);
                        proof {
                            let c2 = param_spec(*ty, Some(class@))->Ok_0.1;
                            assert(c0.union(prev).union(c2) =~= c0.union(prev.union(c2)));
                        }
                    },
                    Err(e) => {
                        proof {
                            lemma_method_params_err_extends(m.inputs@, i + 1, m.inputs@.len() as int, class@, m.ident@);
                        }
                        return Err(e);
                    },
                }
            },
        }
        i = i + 1;
    }
    let ghost c1 = strings_view(custom@).to_set();
    let ret = match &m.output {
        None => {
            assert(c1.union(Set::empty()) =~= c1);
            owned("Unit")
        },
        Some(ty) => render_value_type(ty, Some(class.as_str()), custom)?,
    };
    let is_mut = m.inputs.len() > 0 && match &m.inputs[0] {
        FnInput::Receiver(recv) => recv.mutable,
        _ => false,
    };
    let ret2 = if is_mut {
        if str_eq(ret.as_str(), "Unit") {
            class.clone()
        } else {
            let mut x = owned("Prod ");
            x.append(class.as_str());
            x.append(" ");
            x.append(lean_type_arg(ret.as_str()).as_str());
            x
        }
    } else {
        ret
    };
    push_text(&mut parts, ret2);
    let mut line = owned("@[extern \"__lean_ffi_");
    line.append(class.as_str());
    line.append("_");
    line.append(m.ident.as_str());
    line.append("\"] opaque ");
    line.append(class.as_str());
    line.append(".");
    line.append(m.ident.as_str());
    line.append(" : ");
    line.append(crate::text::join_strings(&parts, " → ").as_str());
    proof {
        let (ps, pc) = method_param_texts(m.inputs@, m.inputs@.len() as int, class@, m.ident@)->Ok_0;
        let rc = match &m.output {
            None => Set::<Seq<char>>::empty(),
            Some(ty) => value_spec(*ty, Some(class@))->Ok_0.1,
        };
        assert(c0.union(pc).union(rc) =~= c0.union(pc.union(rc)));
    }
    Ok(line)
}

/// Render the declaration block of a `#[leanclass]` impl block.
pub fn render_leanclass_impl_block(item: &ImplItem) -> (r: Result<LeanDeclBlock, String>)
    ensures
        match impl_block_spec(*item) {
            Ok(v) => r matches Ok(b) && b@ == v && b.wf(),
            Err(e) => r matches Err(m) && m@ == e,
        },
{
    leanclass_attr_check(&item.attrs)?;
    if item.has_generics {
        return Err(owned("#[leanclass] does not support generic impl blocks yet"));
    }
    let class = impl_item_name(item);
    let mut custom: Vec<String> = Vec::new();
    let mut lines: Vec<String> = Vec::new();
    let mut i: usize = 0;
    assert(strings_view(custom@).to_set() =~= Set::<Seq<char>>::empty());
    assert(strings_view(lines@) =~= Seq::<Seq<char>>::empty());
    while i < item.methods.len()
        invariant
            i <= item.methods.len(),
            leanclass_attr_problem(item.attrs@) is None,
            !item.has_generics,
            class@ == impl_name_spec(*item),
            sorted_names(strings_view(custom@)),
            method_lines_spec(item.methods@, i as int, class@) == Ok::<(Seq<Seq<char>>, Set<Seq<char>>), Seq<char>>(
                (strings_view(lines@), strings_view(custom@).to_set()),
            ),
        decreases item.methods.len() - i,
    {
        match render_method_line(&item.methods[i], &class, &mut custom) {
            Ok(l) => {
                push_text(&mut lines, l);
            },
            Err(e) => {
                proof {
                    lemma_method_lines_err_extends(item.methods@, i + 1, item.methods@.len() as int, class@);
                }
                return Err(e);
            },
        }
        i = i + 1;
    }
    Ok(LeanDeclBlock { item_name: class, doc: None, lines, custom_types: custom })
}

// ---------------------------------------------------------------------------
// Scanning an item tree
// ---------------------------------------------------------------------------

/// Aggregated scan results for a Rust item tree.
#[derive(Debug, Clone, Default, PartialEq, Eq)]
pub struct ScanResult {
    /// Generated declaration blocks.
    pub declarations: Vec<LeanDeclBlock>,
    /// Leo3 items skipped because they could not be lowered.
    pub skipped: Vec<SkippedItem>,
    /// Non-fatal diagnostics.
    pub diagnostics: Vec<SemanticDiagnostic>,
}

/// A scan's blocks, skipped items (name, reason) and diagnostics (name,
/// message).
pub struct ScanView {
    pub declarations: Seq<DeclView>,
    pub skipped: Seq<(Seq<char>, Seq<char>)>,
    pub diagnostics: Seq<(Seq<char>, Seq<char>)>,
}

impl View for ScanResult {
    type V = ScanView;

    open spec fn view(&self) -> ScanView {
        ScanView {
            declarations: self.declarations@.map_values(|b: LeanDeclBlock| b@),
            skipped: self.skipped@.map_values(|x: SkippedItem| (x.item_name@, x.reason@)),
            diagnostics: self.diagnostics@.map_values(|x: SemanticDiagnostic| (x.item_name@, x.message@)),
        }
    }
}

impl ScanResult {
    /// Every block's custom type names are sorted and distinct.
    pub open spec fn wf(&self) -> bool {
        forall|i: int| 0 <= i < self.declarations@.len() ==> (#[trigger] self.declarations@[i]).wf()
    }

    /// An empty scan.
    pub fn new() -> (r: ScanResult)
        ensures
            r@ == empty_scan(),
            r.wf(),
    {
        let r = ScanResult { declarations: Vec::new(), skipped: Vec::new(), diagnostics: Vec::new() };
        assert(r@.declarations =~= Seq::<DeclView>::empty());
        assert(r@.skipped =~= Seq::<(Seq<char>, Seq<char>)>::empty());
        assert(r@.diagnostics =~= Seq::<(Seq<char>, Seq<char>)>::empty());
        r
    }
}

pub open spec fn empty_scan() -> ScanView {
    ScanView { declarations: Seq::empty(), skipped: Seq::empty(), diagnostics: Seq::empty() }
}

pub open spec fn scan_concat(a: ScanView, b: ScanView) -> ScanView {
    ScanView {
        declarations: a.declarations + b.declarations,
        skipped: a.skipped + b.skipped,
        diagnostics: a.diagnostics + b.diagnostics,
    }
}

pub open spec fn declared(v: DeclView) -> ScanView {
    ScanView { declarations: seq![v], skipped: Seq::empty(), diagnostics: Seq::empty() }
}

pub open spec fn skipped_item(name: Seq<char>, reason: Seq<char>) -> ScanView {
    ScanView { declarations: Seq::empty(), skipped: seq![(name, reason)], diagnostics: Seq::empty() }
}

pub open spec fn diagnosed(name: Seq<char>, message: Seq<char>) -> ScanView {
    ScanView { declarations: Seq::empty(), skipped: Seq::empty(), diagnostics: seq![(name, message)] }
}

/// What one item contributes to a scan: a `#[leanfn]` function its block or
/// a skip (by its first `#[leanfn]` attribute); a `#[leanclass]` struct or
/// impl block its block or a diagnostic; an inline module its own items.
pub open spec fn item_scan(it: Item) -> ScanView
    decreases it,
{
    match it {
        Item::Fn(f) => match first_attr(f.attrs@, "leanfn"@, 0) {
            Some(k) => match leanfn_block_spec(f, f.attrs@[k]) {
                Ok(b) => declared(b),
                Err(r) => skipped_item(f.ident@, r),
            },
            None => empty_scan(),
        },
        Item::Struct(st) => if first_attr(st.attrs@, "leanclass"@, 0) is Some {
            match struct_block_spec(st) {
                Ok(b) => declared(b),
                Err(m) => diagnosed(st.ident@, m),
            }
        } else {
            empty_scan()
        },
        Item::Impl(im) => if first_attr(im.attrs@, "leanclass"@, 0) is Some {
            match impl_block_spec(im) {
                Ok(b) => declared(b),
                Err(m) => diagnosed(impl_name_spec(im), m),
            }
        } else {
            empty_scan()
        },
        Item::Mod(_, Some(nested)) => scan_spec(nested@),
        _ => empty_scan(),
    }
}

/// The scan of a sequence of items, in order.
pub open spec fn scan_spec(items: Seq<Item>) -> ScanView
    decreases items,
{
    if items.len() == 0 {
        empty_scan()
    } else {
        scan_concat(scan_spec(items.subrange(0, items.len() - 1)), item_scan(items[items.len() - 1]))
    }
}

proof fn lemma_concat_assoc(a: ScanView, b: ScanView, c: ScanView)
    ensures
        scan_concat(scan_concat(a, b), c) == scan_concat(a, scan_concat(b, c)),
{
    assert(scan_concat(scan_concat(a, b), c).declarations =~= scan_concat(a, scan_concat(b, c)).declarations);
    assert(scan_concat(scan_concat(a, b), c).skipped =~= scan_concat(a, scan_concat(b, c)).skipped);
    assert(scan_concat(scan_concat(a, b), c).diagnostics =~= scan_concat(a, scan_concat(b, c)).diagnostics);
}

fn push_block(result: &mut ScanResult, b: LeanDeclBlock)
    requires
        old(result).wf(),
        b.wf(),
    ensures
        final(result).wf(),
        final(result)@ == scan_concat(old(result)@, declared(b@)),
{
    let ghost v = b@;
    result.declarations.push(b);
    assert(final(result)@.declarations =~= old(result)@.declarations.push(v));
    assert(final(result)@.declarations =~= scan_concat(old(result)@, declared(v)).declarations);
    assert(final(result)@.skipped =~= scan_concat(old(result)@, declared(v)).skipped);
    assert(final(result)@.diagnostics =~= scan_concat(old(result)@, declared(v)).diagnostics);
}

fn push_skipped(result: &mut ScanResult, name: String, reason: String)
    requires
        old(result).wf(),
    ensures
        final(result).wf(),
        final(result)@ == scan_concat(old(result)@, skipped_item(name@, reason@)),
{
    let ghost w = skipped_item(name@, reason@);
    result.skipped.push(SkippedItem { item_name: name, reason });
    assert(final(result)@.declarations =~= scan_concat(old(result)@, w).declarations);
    assert(final(result)@.skipped =~= scan_concat(old(result)@, w).skipped);
    assert(final(result)@.diagnostics =~= scan_concat(old(result)@, w).diagnostics);
}

fn push_diagnostic(result: &mut ScanResult, name: String, message: String)
    requires
        old(result).wf(),
    ensures
        final(result).wf(),
        final(result)@ == scan_concat(old(result)@, diagnosed(name@, message@)),
{
    let ghost w = diagnosed(name@, message@);
    result.diagnostics.push(SemanticDiagnostic { item_name: name, message });
    assert(final(result)@.declarations =~= scan_concat(old(result)@, w).declarations);
    assert(final(result)@.skipped =~= scan_concat(old(result)@, w).skipped);
    assert(final(result)@.diagnostics =~= scan_concat(old(result)@, w).diagnostics);
}

fn scan_item_into(it: &Item, result: &mut ScanResult)
    requires
        old(result).wf(),
    ensures
        final(result).wf(),
        final(result)@ == scan_concat(old(result)@, item_scan(*it)),
    decreases it, 1int,
{
    let ghost start = result@;
    match it {
        Item::Fn(f) => {
            match first_attr_exec(&f.attrs, "leanfn") {
                Some(k) => match render_leanfn_block(f, &f.attrs[k]) {
                    Ok(b) => push_block(result, b),
                    Err(reason) => push_skipped(result, f.ident.clone(), reason),
                },
                None => {
                    assert(scan_concat(start, empty_scan()) =~= start);
                },
            }
        },
        Item::Struct(st) => {
            if first_attr_exec(&st.attrs, "leanclass").is_some() {
                match render_leanclass_struct_block(st) {
                    Ok(b) => push_block(result, b),
                    Err(m) => push_diagnostic(result, st.ident.clone(), m),
                }
            } else {
                assert(scan_concat(start, empty_scan()) =~= start);
            }
        },
        Item::Impl(im) => {
            if first_attr_exec(&im.attrs, "leanclass").is_some() {
                match render_leanclass_impl_block(im) {
                    Ok(b) => push_block(result, b),
                    Err(m) => push_diagnostic(result, impl_item_name(im), m),
                }
            } else {
                assert(scan_concat(start, empty_scan()) =~= start);
            }
        },
        Item::Mod(_, Some(nested)) => {
            proof {
                let inner = it->Mod_1;
                assert(decreases_to!(*it => inner));
                assert(decreases_to!(inner => inner->Some_0));
                assert(decreases_to!(inner->Some_0 => inner->Some_0@));
            }
            scan_items_into(nested.as_slice(), result);
        },
        _ => {
            assert(scan_concat(start, empty_scan()) =~= start);
        },
    }
}

fn scan_items_into(items: &[Item], result: &mut ScanResult)
    requires
        old(result).wf(),
    ensures
        final(result).wf(),
        final(result)@ == scan_concat(old(result)@, scan_spec(items@)),
    decreases items@, 0int,
{
    let ghost start = result@;
    let mut i: usize = 0;
    assert(items@.subrange(0, 0) =~= Seq::<Item>::empty());
    assert(scan_concat(start, empty_scan()) =~= start);
    while i < items.len()
        invariant
            i <= items.len(),
            result.wf(),
            result@ == scan_concat(start, scan_spec(items@.subrange(0, i as int))),
        decreases items.len() - i,
    {
        proof {
            assert(decreases_to!(items@ => items@[i as int]));
        }
        scan_item_into(&items[i], result);
        proof {
            let pre = items@.subrange(0, i as int);
            assert(items@.subrange(0, i + 1).subrange(0, i as int) =~= pre);
            assert(items@.subrange(0, i + 1)[i as int] == items@[i as int]);
            lemma_concat_assoc(start, scan_spec(pre), item_scan(items@[i as int]));
        }
        i = i + 1;
    }
    assert(items@.subrange(0, i as int) =~= items@);
}

/// Scan a Rust item tree for Leo3-generated Lean declarations.
pub fn scan_items(items: &[Item]) -> (r: ScanResult)
    ensures
        r@ == scan_spec(items@),
        r.wf(),
{
    let mut result = ScanResult::new();
    scan_items_into(items, &mut result);
    proof {
        let s = scan_spec(items@);
        assert(scan_concat(empty_scan(), s).declarations =~= s.declarations);
        assert(scan_concat(empty_scan(), s).skipped =~= s.skipped);
        assert(scan_concat(empty_scan(), s).diagnostics =~= s.diagnostics);
    }
    result
}

// ---------------------------------------------------------------------------
// Module export names
// ---------------------------------------------------------------------------

/// The export names of one function's `#[leanfn]` attributes among its first
/// `n`: each its `name` option or the function's own name.
pub open spec fn fn_export_names(f: FnItem, n: int) -> Result<Seq<Seq<char>>, Seq<char>>
    decreases n,
{
    if n <= 0 || n > f.attrs@.len() {
        Ok(Seq::empty())
    } else {
        match fn_export_names(f, n - 1) {
            Err(e) => Err(e),
            Ok(v) => {
                let a = f.attrs@[n - 1];
                if !attr_matches(a, "leanfn"@) {
                    Ok(v)
                } else {
                    match a.leanfn_options {
                        Some(Err(e)) => Err(e@),
                        _ => Ok(v.push(leanfn_name(f, a))),
                    }
                }
            },
        }
    }
}

/// The Lean-visible export names of the first `n` items of a module body.
pub open spec fn export_names_spec(items: Seq<Item>, n: int) -> Result<Seq<Seq<char>>, Seq<char>>
    decreases n,
{
    if n <= 0 || n > items.len() {
        Ok(Seq::empty())
    } else {
        match export_names_spec(items, n - 1) {
            Err(e) => Err(e),
            Ok(v) => match items[n - 1] {
                Item::Fn(f) => match fn_export_names(f, f.attrs@.len() as int) {
                    Err(e) => Err(e),
                    Ok(w) => Ok(v + w),
                },
                _ => Ok(v),
            },
        }
    }
}

proof fn lemma_fn_names_err_extends(f: FnItem, k: int, n: int)
    requires
        0 < k <= n <= f.attrs@.len(),
        fn_export_names(f, k) is Err,
    ensures
        fn_export_names(f, n) == fn_export_names(f, k),
    decreases n - k,
{
    if n > k {
        lemma_fn_names_err_extends(f, k, n - 1);
    }
}

proof fn lemma_export_names_err_extends(items: Seq<Item>, k: int, n: int)
    requires
        0 < k <= n <= items.len(),
        export_names_spec(items, k) is Err,
    ensures
        export_names_spec(items, n) == export_names_spec(items, k),
    decreases n - k,
{
    if n > k {
        lemma_export_names_err_extends(items, k, n - 1);
    }
}

/// Collect the Lean-visible export names from a `#[leanmodule]` body.
pub fn collect_module_exports(items: &[Item]) -> (r: Result<Vec<String>, String>)
    ensures
        match export_names_spec(items@, items@.len() as int) {
            Ok(v) => r matches Ok(names) && strings_view(names@) == v,
            Err(e) => r matches Err(m) && m@ == e,
        },
{
    let mut names: Vec<String> = Vec::new();
    let mut i: usize = 0;
    assert(strings_view(names@) =~= Seq::<Seq<char>>::empty());
    while i < items.len()
        invariant
            i <= items.len(),
            export_names_spec(items@, i as int) == Ok::<Seq<Seq<char>>, Seq<char>>(strings_view(names@)),
        decreases items.len() - i,
    {
        match &items[i] {
            Item::Fn(f) => {
                let ghost before = strings_view(names@);
                let mut j: usize = 0;
                while j < f.attrs.len()
                    invariant
                        j <= f.attrs.len(),
                        i < items.len(),
                        items@[i as int] == Item::Fn(*f),
                        export_names_spec(items@, i as int) == Ok::<Seq<Seq<char>>, Seq<char>>(before),
                        fn_export_names(*f, j as int) matches Ok(w) && strings_view(names@) == before + w,
                    decreases f.attrs.len() - j,
                {
                    let a = &f.attrs[j];
                    if attr_matches_exec(a, "leanfn") {
                        match &a.leanfn_options {
                            Some(Err(e)) => {
                                proof {
                                    lemma_fn_names_err_extends(*f, j + 1, f.attrs@.len() as int);
                                    lemma_export_names_err_extends(items@, i + 1, items@.len() as int);
                                }
                                return Err(e.clone());
                            },
                            Some(Ok(o)) => {
                                let n = match &o.name {
                                    Some(n) => n.clone(),
                                    None => f.ident.clone(),
                                };
                                let ghost prev = strings_view(names@);
                                names.push(n);
                                assert(strings_view(names@) =~= prev.push(n@));
                            },
                            None => {
                                let ghost prev = strings_view(names@);
                                names.push(f.ident.clone());
                                assert(strings_view(names@) =~= prev.push(f.ident@));
                            },
                        }
                    }
                    proof {
                        let w1 = fn_export_names(*f, j + 1)->Ok_0;
                        assert(before + w1 =~= strings_view(names@));
                    }
                    j = j + 1;
                }
            },
            _ => {},
        }
        i = i + 1;
    }
    Ok(names)
}

} // verus!
