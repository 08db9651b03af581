//! The decisions behind `#[lean_instance(...)]`: which Lean type classes an
//! impl block provides, which method backs each one, and which container-key
//! bridges follow from them.
use vstd::prelude::*;
use vstd::string::*;
use crate::syntax::{FnItem, ImplItem, RustType, TypeKind};
use crate::text::{owned, str_eq};

verus! {

/// Supported type classes.
#[derive(Debug, Clone, Copy, PartialEq, Eq, Structural)]
pub enum TypeClass {
    /// Boolean equality (BEq)
    BEq,
    /// Hashing (Hashable)
    Hashable,
    /// Representation (Repr)
    Repr,
    /// String conversion (ToString)
    ToString,
    /// Ordering comparison (Ord)
    Ord,
}

/// The type class a Lean class name denotes.
pub open spec fn type_class_spec(ident: Seq<char>) -> Option<TypeClass> {
    if ident == "BEq"@ {
        Some(TypeClass::BEq)
    } else if ident == "Hashable"@ {
        Some(TypeClass::Hashable)
    } else if ident == "Repr"@ {
        Some(TypeClass::Repr)
    } else if ident == "ToString"@ {
        Some(TypeClass::ToString)
    } else if ident == "Ord"@ {
        Some(TypeClass::Ord)
    } else {
        None
    }
}

/// The Rust method that implements a type class.
pub open spec fn method_name_spec(t: TypeClass) -> Seq<char> {
    match t {
        TypeClass::BEq => "beq"@,
        TypeClass::Hashable => "hash"@,
        TypeClass::Repr => "repr"@,
        TypeClass::ToString => "to_string"@,
        TypeClass::Ord => "compare"@,
    }
}

/// The prefix of the generated FFI function of a type class.
pub open spec fn ffi_prefix_spec(t: TypeClass) -> Seq<char> {
    match t {
        TypeClass::BEq => "__lean_beq"@,
        TypeClass::Hashable => "__lean_hash"@,
        TypeClass::Repr => "__lean_repr"@,
        TypeClass::ToString => "__lean_to_string"@,
        TypeClass::Ord => "__lean_compare"@,
    }
}

impl TypeClass {
    /// Parse from an identifier.
    pub fn from_ident(ident: &str) -> (r: Option<Self>)
        ensures
            r == type_class_spec(ident@),
    {
        if str_eq(ident, "BEq") {
            Some(TypeClass::BEq)
        } else if str_eq(ident, "Hashable") {
            Some(TypeClass::Hashable)
        } else if str_eq(ident, "Repr") {
            Some(TypeClass::Repr)
        } else if str_eq(ident, "ToString") {
            Some(TypeClass::ToString)
        } else if str_eq(ident, "Ord") {
            Some(TypeClass::Ord)
        } else {
            None
        }
    }

    /// The required method name.
    pub fn method_name(&self) -> (r: &'static str)
        ensures
            r@ == method_name_spec(*self),
    {
        match self {
            TypeClass::BEq => "beq",
            TypeClass::Hashable => "hash",
            TypeClass::Repr => "repr",
            TypeClass::ToString => "to_string",
            TypeClass::Ord => "compare",
        }
    }

    /// The FFI function prefix.
    pub fn ffi_prefix(&self) -> (r: &'static str)
        ensures
            r@ == ffi_prefix_spec(*self),
    {
        match self {
            TypeClass::BEq => "__lean_beq",
            TypeClass::Hashable => "__lean_hash",
            TypeClass::Repr => "__lean_repr",
            TypeClass::ToString => "__lean_to_string",
            TypeClass::Ord => "__lean_compare",
        }
    }
}

/// What the exported function of a type class hands back to Lean.
#[derive(Debug, Clone, Copy, PartialEq, Eq, Structural)]
pub enum FfiReturn {
    /// A boxed `Bool`: `lean_box` of the method's result.
    BoxedBool,
    /// A constructor with no object fields and one scalar `UInt64`: the hash.
    UInt64Ctor,
    /// A new Lean `String` of the method's text.
    LeanString,
    /// A boxed `Ordering`: 0 for less, 1 for equal, 2 for greater.
    BoxedOrdering,
}

/// Whether the method of a type class compares two values (and its exported
/// function takes two Lean objects) rather than reading one.
pub open spec fn takes_two_spec(t: TypeClass) -> bool {
    t == TypeClass::BEq || t == TypeClass::Ord
}

/// How the exported function of a type class encodes the method's result.
pub open spec fn ffi_return_spec(t: TypeClass) -> FfiReturn {
    match t {
        TypeClass::BEq => FfiReturn::BoxedBool,
        TypeClass::Hashable => FfiReturn::UInt64Ctor,
        TypeClass::Repr => FfiReturn::LeanString,
        TypeClass::ToString => FfiReturn::LeanString,
        TypeClass::Ord => FfiReturn::BoxedOrdering,
    }
}

impl TypeClass {
    /// Whether the exported function takes two objects (`BEq`, `Ord`) or one.
    pub fn takes_two_objects(&self) -> (r: bool)
        ensures
            r == takes_two_spec(*self),
    {
        match self {
            TypeClass::BEq | TypeClass::Ord => true,
            _ => false,
        }
    }

    /// How the exported function encodes the method's result for Lean.
    pub fn ffi_return(&self) -> (r: FfiReturn)
        ensures
            r == ffi_return_spec(*self),
    {
        match self {
            TypeClass::BEq => FfiReturn::BoxedBool,
            TypeClass::Hashable => FfiReturn::UInt64Ctor,
            TypeClass::Repr => FfiReturn::LeanString,
            TypeClass::ToString => FfiReturn::LeanString,
            TypeClass::Ord => FfiReturn::BoxedOrdering,
        }
    }
}

/// Law: the comparing classes, and only they, return a boxed scalar computed
/// from two objects; every other class reads one object.
pub proof fn lemma_ffi_shape(t: TypeClass)
    ensures
        takes_two_spec(t) <==> (ffi_return_spec(t) == FfiReturn::BoxedBool || ffi_return_spec(t)
            == FfiReturn::BoxedOrdering),
{
}

/// Law: no two type classes share a required method name or an FFI prefix,
/// so the functions generated for one impl block never collide.
pub proof fn lemma_type_class_names_distinct(a: TypeClass, b: TypeClass)
    ensures
        a != b ==> method_name_spec(a) != method_name_spec(b),
        a != b ==> ffi_prefix_spec(a) != ffi_prefix_spec(b),
{
    reveal_strlit("beq");
    reveal_strlit("hash");
    reveal_strlit("repr");
    reveal_strlit("to_string");
    reveal_strlit("compare");
    reveal_strlit("__lean_beq");
    reveal_strlit("__lean_hash");
    reveal_strlit("__lean_repr");
    reveal_strlit("__lean_to_string");
    reveal_strlit("__lean_compare");
    if a != b {
        assert(method_name_spec(a).len() != method_name_spec(b).len() || method_name_spec(a)[0]
            != method_name_spec(b)[0]);
        assert(ffi_prefix_spec(a).len() != ffi_prefix_spec(b).len() || ffi_prefix_spec(a)[7]
            != ffi_prefix_spec(b)[7]);
    }
}

pub open spec fn unsupported_class_msg(ident: Seq<char>) -> Seq<char> {
    "Unsupported type class '"@ + ident + "'. Supported: BEq, Hashable, Repr, ToString, Ord"@
}

/// The type classes named by a `#[lean_instance(...)]` attribute (its
/// arguments other than `crate = ...`), or why they are not usable.
pub open spec fn type_classes_spec(idents: Seq<Seq<char>>, n: int) -> Result<Seq<TypeClass>, Seq<char>>
    decreases n,
{
    if n <= 0 || n > idents.len() {
        Ok(Seq::empty())
    } else {
        match type_classes_spec(idents, n - 1) {
            Err(e) => Err(e),
            Ok(v) => match type_class_spec(idents[n - 1]) {
                None => Err(unsupported_class_msg(idents[n - 1])),
                Some(t) => Ok(v.push(t)),
            },
        }
    }
}

pub open spec fn instance_classes_spec(idents: Seq<Seq<char>>) -> Result<Seq<TypeClass>, Seq<char>> {
    match type_classes_spec(idents, idents.len() as int) {
        Err(e) => Err(e),
        Ok(v) => if v.len() == 0 {
            Err("Expected at least one type class, e.g. `#[lean_instance(Hashable)]`"@)
        } else {
            Ok(v)
        },
    }
}

proof fn lemma_classes_err_extends(idents: Seq<Seq<char>>, k: int, n: int)
    requires
        0 < k <= n <= idents.len(),
        type_classes_spec(idents, k) is Err,
    ensures
        type_classes_spec(idents, n) == type_classes_spec(idents, k),
    decreases n - k,
{
    if n > k {
        lemma_classes_err_extends(idents, k, n - 1);
    }
}

/// The type classes a `#[lean_instance(...)]` attribute names.
pub fn parse_type_classes(idents: &[String]) -> (r: Result<Vec<TypeClass>, String>)
    ensures
        match instance_classes_spec(crate::text::strings_view(idents@)) {
            Ok(v) => r matches Ok(ts) && ts@ == v,
            Err(e) => r matches Err(m) && m@ == e,
        },
{
    let ghost names = crate::text::strings_view(idents@);
    let mut out: Vec<TypeClass> = Vec::new();
    let mut i: usize = 0;
    while i < idents.len()
        invariant
            i <= idents.len(),
            names == crate::text::strings_view(idents@),
            type_classes_spec(names, i as int) == Ok::<Seq<TypeClass>, Seq<char>>(out@),
        decreases idents.len() - i,
    {
        assert(names[i as int] == idents@[i as int]@);
        match TypeClass::from_ident(idents[i].as_str()) {
            Some(t) => {
                out.push(t);
            },
            None => {
                proof {
                    lemma_classes_err_extends(names, i + 1, names.len() as int);
                }
                let mut m = owned("Unsupported type class '");
                m.append(idents[i].as_str());
                m.append("'. Supported: BEq, Hashable, Repr, ToString, Ord");
                return Err(m);
            },
        }
        i = i + 1;
    }
    if out.len() == 0 {
        return Err(owned("Expected at least one type class, e.g. `#[lean_instance(Hashable)]`"));
    }
    Ok(out)
}

/// Which container-key bridges the requested classes allow: a hash-map key
/// needs `Hashable` and `BEq`, a red-black-map key needs `Ord`.
pub fn key_bridges(classes: &[TypeClass]) -> (r: (bool, bool))
    ensures
        r.0 == (classes@.contains(TypeClass::Hashable) && classes@.contains(TypeClass::BEq)),
        r.1 == classes@.contains(TypeClass::Ord),
{
    let mut hashable = false;
    let mut beq = false;
    let mut ord = false;
    let mut i: usize = 0;
    while i < classes.len()
        invariant
            i <= classes.len(),
            hashable == classes@.take(i as int).contains(TypeClass::Hashable),
            beq == classes@.take(i as int).contains(TypeClass::BEq),
            ord == classes@.take(i as int).contains(TypeClass::Ord),
        decreases classes.len() - i,
    {
        let ghost t = classes@.take(i + 1);
        assert(t =~= classes@.take(i as int).push(classes@[i as int]));
        match classes[i] {
            TypeClass::Hashable => hashable = true,
            TypeClass::BEq => beq = true,
            TypeClass::Ord => ord = true,
            _ => {},
        }
        proof {
            assert forall|c: TypeClass| #[trigger] t.contains(c) <==> (classes@.take(i as int).contains(c)
                || classes@[i as int] == c) by {
                if t.contains(c) {
                    let k = choose|k: int| 0 <= k < t.len() && t[k] == c;
                    if k < i {
                        assert(classes@.take(i as int)[k] == c);
                    }
                }
                if classes@.take(i as int).contains(c) {
                    let k = choose|k: int| 0 <= k < i && classes@.take(i as int)[k] == c;
                    assert(t[k] == c);
                }
                if classes@[i as int] == c {
                    assert(t[i as int] == c);
                }
            }
        }
        i = i + 1;
    }
    assert(classes@.take(i as int) =~= classes@);
    (hashable && beq, ord)
}

/// The generated FFI function of a class for a struct, and its fallible
/// inner function: `<prefix>_<Struct>` and `__leo3_try_<prefix>_<Struct>`.
pub fn ffi_function_names(class: TypeClass, struct_name: &str) -> (r: (String, String))
    ensures
        r.0@ == ffi_prefix_spec(class) + "_"@ + struct_name@,
        r.1@ == "__leo3_try_"@ + ffi_prefix_spec(class) + "_"@ + struct_name@,
{
    let mut ffi = owned(class.ffi_prefix());
    ffi.append("_");
    ffi.append(struct_name);
    let mut try_name = owned("__leo3_try_");
    try_name.append(ffi.as_str());
    (ffi, try_name)
}

/// The struct an instance impl block is for: the last segment of its path.
pub fn extract_struct_name(self_ty: &RustType) -> (r: Result<String, String>)
    ensures
        match self_ty.kind {
            TypeKind::Path(p) => if p.segments@.len() == 0 {
                r matches Err(e) && e@ == "Cannot determine struct name from impl block"@
            } else {
                r matches Ok(n) && n@ == p.segments@[p.segments@.len() - 1].ident@
            },
            _ => r matches Err(e) && e@ == "Expected a path type in impl block"@,
        },
{
    match &self_ty.kind {
        TypeKind::Path(p) => if p.segments.len() == 0 {
            Err(owned("Cannot determine struct name from impl block"))
        } else {
            Ok(p.segments[p.segments.len() - 1].ident.clone())
        },
        _ => Err(owned("Expected a path type in impl block")),
    }
}

/// The first method of an impl block with the given name.
pub open spec fn find_method_spec(ms: Seq<FnItem>, name: Seq<char>, k: int) -> Option<int>
    decreases ms.len() - k,
{
    if k < 0 || k >= ms.len() {
        None
    } else if ms[k].ident@ == name {
        Some(k)
    } else {
        find_method_spec(ms, name, k + 1)
    }
}

/// The position of the method a type class needs, or why it is missing.
pub fn find_method(item: &ImplItem, name: &str) -> (r: Result<usize, String>)
    ensures
        match find_method_spec(item.methods@, name@, 0) {
            Some(k) => r == Ok::<usize, String>(k as usize),
            None => r matches Err(m) && m@ == "Method '"@ + name@
                + "' not found in impl block. This method is required for the type class."@,
        },
{
    let mut k: usize = 0;
    while k < item.methods.len()
        invariant
            k <= item.methods.len(),
            find_method_spec(item.methods@, name@, 0) == find_method_spec(item.methods@, name@, k as int),
        decreases item.methods.len() - k,
    {
        if str_eq(item.methods[k].ident.as_str(), name) {
            return Ok(k);
        }
        k = k + 1;
    }
    let mut m = owned("Method '");
    m.append(name);
    m.append("' not found in impl block. This method is required for the type class.");
    Err(m)
}

} // verus!
