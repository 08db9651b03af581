//! The Rust syntax the binding analysis reads, as plain values: item names,
//! attributes, signatures and types. A proc macro builds these from its parsed
//! input; each type keeps its token rendering alongside its structure.
use vstd::prelude::*;

verus! {

/// A Rust type: its token rendering (as `quote` prints it) and its structure.
#[derive(Debug)]
pub struct RustType {
    pub text: String,
    pub kind: TypeKind,
}

#[derive(Debug)]
pub enum TypeKind {
    /// A path type such as `Vec<u8>` or `std::string::String`.
    Path(TypePath),
    /// `&T` or `&mut T`.
    Reference { mutable: bool, elem: Box<RustType> },
    /// `(A, B, ...)`; `()` has no elements.
    Tuple(Vec<RustType>),
    /// `[T; N]`.
    Array(Box<RustType>),
    /// `[T]`.
    Slice(Box<RustType>),
    /// `(T)`.
    Paren(Box<RustType>),
    /// A type in an invisible group.
    Group(Box<RustType>),
    /// A raw pointer `*const T` or `*mut T`.
    Ptr,
    /// Any other type (trait objects, function pointers, ...).
    Other,
}

/// A path type: whether it has a qualified self (`<T as Trait>::X`) and its
/// segments.
#[derive(Debug)]
pub struct TypePath {
    pub qself: bool,
    pub segments: Vec<PathSegment>,
}

#[derive(Debug)]
pub struct PathSegment {
    pub ident: String,
    pub args: PathArgs,
}

#[derive(Debug)]
pub enum PathArgs {
    /// No arguments.
    Plain,
    /// `<...>`.
    Angle(Vec<GenericArg>),
    /// `(...) -> ...`, as in `Fn(A) -> B`.
    Parenthesized,
}

#[derive(Debug)]
pub enum GenericArg {
    Type(RustType),
    /// A lifetime, const or binding argument.
    Other,
}

/// What the analysis reads of an attribute.
#[derive(Debug)]
pub struct AttrItem {
    /// The segments of the attribute's path (`leo3::leanfn` has two).
    pub path: Vec<String>,
    /// The string value of a name-value attribute such as `#[name = "..."]`
    /// or a doc comment (`#[doc = "..."]`).
    pub str_value: Option<String>,
    /// The string of a list attribute whose argument is `name = "..."`.
    pub nested_name: Option<String>,
    /// For a `leanfn` attribute: its parsed options, or the parse error.
    pub leanfn_options: Option<Result<LeanfnOptions, String>>,
    /// For a `leanclass` attribute: its parsed options, or the parse error.
    pub leanclass_options: Option<Result<LeanclassOptions, String>>,
}

/// Whether an attribute's path is the single identifier `name`.
pub open spec fn attr_path_is(a: AttrItem, name: Seq<char>) -> bool {
    a.path@.len() == 1 && a.path@[0]@ == name
}

/// The last segment of an attribute's path.
pub open spec fn attr_last_segment(a: AttrItem) -> Option<Seq<char>> {
    if a.path@.len() == 0 {
        None
    } else {
        Some(a.path@[a.path@.len() - 1]@)
    }
}

/// The options of a `#[leanclass(...)]` attribute.
#[derive(Debug)]
pub struct LeanclassOptions {
    pub name: Option<String>,
}

/// The options of a `#[leanfn(...)]` attribute.
#[derive(Debug)]
pub struct LeanfnOptions {
    pub name: Option<String>,
    pub concretes: Vec<ConcreteInstance>,
}

/// A `concrete(T, ..., name = "...")` option: the types and name, and the
/// annotated function with those types substituted for its type parameters.
#[derive(Debug)]
pub struct ConcreteInstance {
    pub attr: ConcreteAttr,
    pub instance: FnItem,
}

/// The types and Lean name of one monomorphised instance.
#[derive(Debug)]
pub struct ConcreteAttr {
    pub types: Vec<RustType>,
    pub name: String,
}

#[derive(Debug, Clone, Copy, PartialEq, Eq, Structural)]
pub enum GenericParam {
    Type,
    Lifetime,
    Const,
}

/// A generic parameter with its name (for a type parameter).
#[derive(Debug)]
pub struct GenericParamItem {
    pub kind: GenericParam,
    pub name: String,
}

/// A `self` receiver: `&self`, `&mut self`, `self` or `mut self`.
#[derive(Debug, Clone, Copy, PartialEq, Eq, Structural)]
pub struct Receiver {
    pub reference: bool,
    pub mutable: bool,
}

#[derive(Debug)]
pub enum FnInput {
    Receiver(Receiver),
    /// A typed parameter: its name when the pattern is a plain identifier.
    Typed(Option<String>, RustType),
}

/// A function or method: name, generics, parameters, return type, attributes.
#[derive(Debug)]
pub struct FnItem {
    pub ident: String,
    /// Whether the signature ends in `...`.
    pub variadic: bool,
    pub generics: Vec<GenericParamItem>,
    pub inputs: Vec<FnInput>,
    pub output: Option<RustType>,
    pub attrs: Vec<AttrItem>,
}

/// A struct field.
#[derive(Debug)]
pub struct FieldItem {
    pub ident: Option<String>,
    pub attrs: Vec<AttrItem>,
    pub ty: RustType,
}

#[derive(Debug)]
pub enum Fields {
    Named(Vec<FieldItem>),
    Unnamed(Vec<FieldItem>),
    Unit,
}

/// A struct definition.
#[derive(Debug)]
pub struct StructItem {
    pub attrs: Vec<AttrItem>,
    pub ident: String,
    pub has_generics: bool,
    pub fields: Fields,
}

/// An inherent impl block and its methods.
#[derive(Debug)]
pub struct ImplItem {
    pub attrs: Vec<AttrItem>,
    pub self_ty: RustType,
    pub has_generics: bool,
    pub methods: Vec<FnItem>,
}

/// A module item the export scan looks at.
#[derive(Debug)]
pub enum Item {
    Fn(FnItem),
    Struct(StructItem),
    Impl(ImplItem),
    /// A module, with its items when they are inline.
    Mod(String, Option<Vec<Item>>),
    Other,
}

} // verus!
