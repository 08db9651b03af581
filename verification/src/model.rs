//! The binding IR: what the Rust-to-Lean analysis produces and what the Lean
//! declaration generator consumes.
use vstd::prelude::*;

verus! {

/// Version of the metadata schema embedded in binaries.
pub const BINDING_SCHEMA_VERSION: u32 = 2;

#[derive(Clone, Copy, Debug, PartialEq, Eq, Structural)]
pub enum PassingStyle {
    Owned,
    Borrowed,
}

#[derive(Clone, Copy, Debug, PartialEq, Eq, Structural)]
pub enum ReceiverStyle {
    NoSelf,
    Ref,
    MutRef,
    Owned,
}

#[derive(Clone, Copy, Debug, PartialEq, Eq, Structural)]
pub enum BindingSemantics {
    Value,
    MutatesSelf,
    MutatesSelfWithValue,
}

#[derive(Clone, Copy, Debug, PartialEq, Eq, Structural)]
pub enum BindingKind {
    Method,
    Getter,
    Setter,
}

#[derive(Clone, Copy, Debug, PartialEq, Eq, Structural)]
pub enum TypeShape {
    Unit,
    Scalar,
    String,
    ByteArray,
    Array,
    Option,
    Except,
    Prod,
    Named,
    Unknown,
}

#[derive(Clone, Debug)]
pub struct TypeBinding {
    pub rust: String,
    pub lean: Option<String>,
    pub shape: TypeShape,
}

#[derive(Clone, Debug)]
pub struct ParameterBinding {
    pub name: String,
    pub ty: TypeBinding,
    pub passing: PassingStyle,
}

#[derive(Clone, Debug)]
pub struct FunctionBinding {
    pub rust_name: String,
    pub lean_name: String,
    pub owner: Option<String>,
    pub ffi_symbol: String,
    pub receiver: ReceiverStyle,
    pub params: Vec<ParameterBinding>,
    pub return_type: TypeBinding,
    pub semantics: BindingSemantics,
    pub kind: BindingKind,
    pub lean_decl: Option<String>,
}

#[derive(Clone, Debug)]
pub struct ClassTypeBinding {
    pub rust_name: String,
    pub lean_name: String,
    pub opaque_decl: String,
}

#[derive(Clone, Debug)]
pub struct ClassImplBinding {
    pub class_name: String,
    pub methods: Vec<FunctionBinding>,
    pub methods_decl: String,
}

#[derive(Clone, Debug)]
pub struct SubmoduleBinding {
    pub path: String,
    pub exports: Vec<FunctionBinding>,
}

#[derive(Clone, Debug)]
pub struct ModuleBinding {
    pub name: String,
    pub exports: Vec<FunctionBinding>,
    pub submodules: Vec<SubmoduleBinding>,
}

/// Class metadata as embedded in a binary: the class type plus its methods.
#[derive(Clone, Debug)]
pub struct ClassMetadata {
    pub schema_version: u32,
    pub rust_name: String,
    pub lean_name: String,
    pub opaque_decl: String,
    pub methods_decl: String,
    pub methods: Vec<FunctionBinding>,
}

#[derive(Debug, Default)]
pub struct FunctionOptions {
    pub lean_name: Option<String>,
}

// ---------------------------------------------------------------------------
// Mathematical views
// ---------------------------------------------------------------------------

pub open spec fn opt_str_view(o: Option<String>) -> Option<Seq<char>> {
    match o {
        Some(s) => Some(s@),
        None => None,
    }
}

pub struct TypeBindingView {
    pub rust: Seq<char>,
    pub lean: Option<Seq<char>>,
    pub shape: TypeShape,
}

impl View for TypeBinding {
    type V = TypeBindingView;

    open spec fn view(&self) -> TypeBindingView {
        TypeBindingView { rust: self.rust@, lean: opt_str_view(self.lean), shape: self.shape }
    }
}

pub struct ParameterBindingView {
    pub name: Seq<char>,
    pub ty: TypeBindingView,
    pub passing: PassingStyle,
}

impl View for ParameterBinding {
    type V = ParameterBindingView;

    open spec fn view(&self) -> ParameterBindingView {
        ParameterBindingView { name: self.name@, ty: self.ty@, passing: self.passing }
    }
}

pub open spec fn params_view(ps: Seq<ParameterBinding>) -> Seq<ParameterBindingView> {
    ps.map_values(|p: ParameterBinding| p@)
}

pub struct FunctionBindingView {
    pub rust_name: Seq<char>,
    pub lean_name: Seq<char>,
    pub owner: Option<Seq<char>>,
    pub ffi_symbol: Seq<char>,
    pub receiver: ReceiverStyle,
    pub params: Seq<ParameterBindingView>,
    pub return_type: TypeBindingView,
    pub semantics: BindingSemantics,
    pub kind: BindingKind,
    pub lean_decl: Option<Seq<char>>,
}

impl View for FunctionBinding {
    type V = FunctionBindingView;

    open spec fn view(&self) -> FunctionBindingView {
        FunctionBindingView {
            rust_name: self.rust_name@,
            lean_name: self.lean_name@,
            owner: opt_str_view(self.owner),
            ffi_symbol: self.ffi_symbol@,
            receiver: self.receiver,
            params: params_view(self.params@),
            return_type: self.return_type@,
            semantics: self.semantics,
            kind: self.kind,
            lean_decl: opt_str_view(self.lean_decl),
        }
    }
}

pub open spec fn functions_view(fs: Seq<FunctionBinding>) -> Seq<FunctionBindingView> {
    fs.map_values(|f: FunctionBinding| f@)
}

pub struct ClassTypeBindingView {
    pub rust_name: Seq<char>,
    pub lean_name: Seq<char>,
    pub opaque_decl: Seq<char>,
}

impl View for ClassTypeBinding {
    type V = ClassTypeBindingView;

    open spec fn view(&self) -> ClassTypeBindingView {
        ClassTypeBindingView {
            rust_name: self.rust_name@,
            lean_name: self.lean_name@,
            opaque_decl: self.opaque_decl@,
        }
    }
}

pub struct ClassImplBindingView {
    pub class_name: Seq<char>,
    pub methods: Seq<FunctionBindingView>,
    pub methods_decl: Seq<char>,
}

impl View for ClassImplBinding {
    type V = ClassImplBindingView;

    open spec fn view(&self) -> ClassImplBindingView {
        ClassImplBindingView {
            class_name: self.class_name@,
            methods: functions_view(self.methods@),
            methods_decl: self.methods_decl@,
        }
    }
}

pub struct SubmoduleBindingView {
    pub path: Seq<char>,
    pub exports: Seq<FunctionBindingView>,
}

impl View for SubmoduleBinding {
    type V = SubmoduleBindingView;

    open spec fn view(&self) -> SubmoduleBindingView {
        SubmoduleBindingView { path: self.path@, exports: functions_view(self.exports@) }
    }
}

pub open spec fn submodules_view(ss: Seq<SubmoduleBinding>) -> Seq<SubmoduleBindingView> {
    ss.map_values(|s: SubmoduleBinding| s@)
}

pub struct ModuleBindingView {
    pub name: Seq<char>,
    pub exports: Seq<FunctionBindingView>,
    pub submodules: Seq<SubmoduleBindingView>,
}

impl View for ModuleBinding {
    type V = ModuleBindingView;

    open spec fn view(&self) -> ModuleBindingView {
        ModuleBindingView {
            name: self.name@,
            exports: functions_view(self.exports@),
            submodules: submodules_view(self.submodules@),
        }
    }
}

pub struct ClassMetadataView {
    pub schema_version: u32,
    pub rust_name: Seq<char>,
    pub lean_name: Seq<char>,
    pub opaque_decl: Seq<char>,
    pub methods_decl: Seq<char>,
    pub methods: Seq<FunctionBindingView>,
}

impl View for ClassMetadata {
    type V = ClassMetadataView;

    open spec fn view(&self) -> ClassMetadataView {
        ClassMetadataView {
            schema_version: self.schema_version,
            rust_name: self.rust_name@,
            lean_name: self.lean_name@,
            opaque_decl: self.opaque_decl@,
            methods_decl: self.methods_decl@,
            methods: functions_view(self.methods@),
        }
    }
}

// ---------------------------------------------------------------------------
// Copies that keep the view
// ---------------------------------------------------------------------------

fn copy_opt_string(o: &Option<String>) -> (r: Option<String>)
    ensures
        opt_str_view(r) == opt_str_view(*o),
{
    match o {
        Some(s) => Some(s.clone()),
        None => None,
    }
}

impl TypeBinding {
    /// A copy with the same view.
    pub fn copy(&self) -> (r: TypeBinding)
        ensures
            r@ == self@,
    {
        TypeBinding { rust: self.rust.clone(), lean: copy_opt_string(&self.lean), shape: self.shape }
    }
}

impl ParameterBinding {
    /// A copy with the same view.
    pub fn copy(&self) -> (r: ParameterBinding)
        ensures
            r@ == self@,
    {
        ParameterBinding { name: self.name.clone(), ty: self.ty.copy(), passing: self.passing }
    }
}

impl FunctionBinding {
    /// A copy with the same view.
    pub fn copy(&self) -> (r: FunctionBinding)
        ensures
            r@ == self@,
    {
        let mut params: Vec<ParameterBinding> = Vec::new();
        let mut i: usize = 0;
        while i < self.params.len()
            invariant
                i <= self.params.len(),
                params_view(params@) == params_view(self.params@).take(i as int),
            decreases self.params.len() - i,
        {
            let ghost prev = params_view(params@);
            params.push(self.params[i].copy());
            assert(params_view(params@) =~= prev.push(self.params@[i as int]@));
            assert(params_view(self.params@).take(i + 1) =~= params_view(self.params@).take(i as int).push(
                self.params@[i as int]@,
            ));
            i = i + 1;
        }
        assert(params_view(self.params@).take(i as int) =~= params_view(self.params@));
        FunctionBinding {
            rust_name: self.rust_name.clone(),
            lean_name: self.lean_name.clone(),
            owner: copy_opt_string(&self.owner),
            ffi_symbol: self.ffi_symbol.clone(),
            receiver: self.receiver,
            params,
            return_type: self.return_type.copy(),
            semantics: self.semantics,
            kind: self.kind,
            lean_decl: copy_opt_string(&self.lean_decl),
        }
    }
}

} // verus!
