//! Lean source generation from recovered binding metadata.
use vstd::prelude::*;
use vstd::string::*;
use crate::model::{
    functions_view, submodules_view, ClassMetadata, ClassMetadataView, FunctionBinding,
    FunctionBindingView, ModuleBinding, ModuleBindingView, ParameterBindingView,
    SubmoduleBindingView, TypeBinding, TypeBindingView,
};
use crate::text::{
    chars_of, has_prefix, join_strings, lemma_lex_irreflexive, lemma_lex_total, lemma_lex_transitive, lex_lt,
    push_char, seq_join, sorted_names, str_eq, str_lt, strings_view,
};

verus! {

/// The kind of metadata a symbol name carries.
#[derive(Debug, Clone, Copy, PartialEq, Eq, Structural)]
pub enum MetadataKind {
    Module,
    Class,
}

/// Classify a metadata symbol name into its kind and base name.
///
/// Module symbols are `__leo3_module_metadata_json_<name>` and class symbols
/// are `__leo3_class_metadata_json_<name>`; anything else is not metadata.
pub fn metadata_symbol_kind(name: &str) -> (r: Option<(MetadataKind, &str)>)
    ensures
        "__leo3_module_metadata_json_"@.is_prefix_of(name@) ==> (r matches Some((k, rest)) && k
            == MetadataKind::Module && rest@ == name@.skip(
            "__leo3_module_metadata_json_"@.len() as int,
        )),
        !"__leo3_module_metadata_json_"@.is_prefix_of(name@)
            && "__leo3_class_metadata_json_"@.is_prefix_of(name@) ==> (r matches Some((k, rest))
            && k == MetadataKind::Class && rest@ == name@.skip(
            "__leo3_class_metadata_json_"@.len() as int,
        )),
        !"__leo3_module_metadata_json_"@.is_prefix_of(name@)
            && !"__leo3_class_metadata_json_"@.is_prefix_of(name@) ==> r is None,
{
    let module_prefix = "__leo3_module_metadata_json_";
    let class_prefix = "__leo3_class_metadata_json_";
    if has_prefix(name, module_prefix) {
        let from = module_prefix.unicode_len();
        let to = name.unicode_len();
        Some((MetadataKind::Module, name.substring_char(from, to)))
    } else if has_prefix(name, class_prefix) {
        let from = class_prefix.unicode_len();
        let to = name.unicode_len();
        Some((MetadataKind::Class, name.substring_char(from, to)))
    } else {
        None
    }
}

/// The Lean type of a binding, falling back to its Rust spelling.
pub open spec fn lean_or_rust(t: TypeBindingView) -> Seq<char> {
    match t.lean {
        Some(l) => l,
        None => t.rust,
    }
}

/// The arrow-separated parts of a synthesized declaration: parameters, then result.
pub open spec fn signature_parts(f: FunctionBindingView) -> Seq<Seq<char>> {
    f.params.map_values(|p: ParameterBindingView| lean_or_rust(p.ty)).push(
        lean_or_rust(f.return_type),
    )
}

/// The extern declaration emitted for one function, newline-terminated.
pub open spec fn extern_decl_text(f: FunctionBindingView) -> Seq<char> {
    match f.lean_decl {
        Some(d) => d + "\n"@,
        None => "@[extern \""@ + f.ffi_symbol + "\"] opaque "@ + f.lean_name + " : "@ + seq_join(
            signature_parts(f),
            " → "@,
        ) + "\n"@,
    }
}

pub(crate) fn lean_or_rust_string(t: &TypeBinding) -> (r: String)
    ensures
        r@ == lean_or_rust(t@),
{
    match &t.lean {
        Some(l) => l.clone(),
        None => t.rust.clone(),
    }
}

/// The declaration for one function: its pre-rendered `lean_decl` when present,
/// otherwise an `@[extern]` opaque synthesized from the parameter and return types.
pub fn generate_function_extern(func: &FunctionBinding) -> (r: String)
    ensures
        r@ == extern_decl_text(func@),
{
    if let Some(decl) = &func.lean_decl {
        let mut out = decl.clone();
        out.append("\n");
        return out;
    }
    let mut parts: Vec<String> = Vec::new();
    let mut i: usize = 0;
    while i < func.params.len()
        invariant
            i <= func.params.len(),
            parts.len() == i,
            forall|k: int| 0 <= k < i ==> #[trigger] parts@[k]@ == lean_or_rust(func@.params[k].ty),
        decreases func.params.len() - i,
    {
        let s = lean_or_rust_string(&func.params[i].ty);
        assert(func@.params[i as int] == func.params@[i as int]@);
        parts.push(s);
        i = i + 1;
    }
    parts.push(lean_or_rust_string(&func.return_type));
    assert(strings_view(parts@) =~= signature_parts(func@));
    let mut out = String::new();
    out.append("@[extern \"");
    out.append(func.ffi_symbol.as_str());
    out.append("\"] opaque ");
    out.append(func.lean_name.as_str());
    out.append(" : ");
    let joined = join_strings(&parts, " → ");
    out.append(joined.as_str());
    out.append("\n");
    out
}

/// Each function's declaration followed by a blank separator line.
pub open spec fn exports_text(es: Seq<FunctionBindingView>) -> Seq<char>
    decreases es.len(),
{
    if es.len() == 0 {
        Seq::empty()
    } else {
        exports_text(es.drop_last()) + extern_decl_text(es.last()) + "\n"@
    }
}

/// Each submodule's header comment followed by its exports.
pub open spec fn submodules_text(ss: Seq<SubmoduleBindingView>) -> Seq<char>
    decreases ss.len(),
{
    if ss.len() == 0 {
        Seq::empty()
    } else {
        submodules_text(ss.drop_last()) + "-- Submodule: "@ + ss.last().path + "\n"@ + exports_text(
            ss.last().exports,
        )
    }
}

/// The banner that opens every generated file.
pub open spec fn banner() -> Seq<char> {
    "-- Generated by leo3-codegen. Do not edit.\n"@
}

/// The generated Lean file for a module.
pub open spec fn module_lean_text(b: ModuleBindingView) -> Seq<char> {
    banner() + "-- Module: "@ + b.name + "\n\n"@ + exports_text(b.exports) + submodules_text(
        b.submodules,
    )
}

fn append_exports(out: &mut String, exports: &Vec<FunctionBinding>)
    ensures
        final(out)@ == old(out)@ + exports_text(functions_view(exports@)),
{
    let ghost start = out@;
    let mut i: usize = 0;
    while i < exports.len()
        invariant
            i <= exports.len(),
            out@ == start + exports_text(functions_view(exports@).take(i as int)),
        decreases exports.len() - i,
    {
        let text = generate_function_extern(&exports[i]);
        out.append(text.as_str());
        out.append("\n");
        assert(functions_view(exports@).take(i + 1).drop_last() =~= functions_view(exports@).take(
            i as int,
        ));
        i = i + 1;
    }
    assert(functions_view(exports@).take(exports.len() as int) =~= functions_view(exports@));
}

/// Generate the Lean source for a module: a banner, the module name, its
/// exports and then each submodule's exports under a header comment.
pub fn generate_module_lean(binding: &ModuleBinding) -> (r: String)
    ensures
        r@ == module_lean_text(binding@),
{
    let mut out = String::new();
    out.append("-- Generated by leo3-codegen. Do not edit.\n");
    out.append("-- Module: ");
    out.append(binding.name.as_str());
    out.append("\n\n");
    append_exports(&mut out, &binding.exports);
    let ghost start = out@;
    let mut i: usize = 0;
    while i < binding.submodules.len()
        invariant
            i <= binding.submodules.len(),
            out@ == start + submodules_text(submodules_view(binding.submodules@).take(i as int)),
        decreases binding.submodules.len() - i,
    {
        let sub = &binding.submodules[i];
        out.append("-- Submodule: ");
        out.append(sub.path.as_str());
        out.append("\n");
        append_exports(&mut out, &sub.exports);
        assert(submodules_view(binding.submodules@).take(i + 1).drop_last()
            =~= submodules_view(binding.submodules@).take(i as int));
        i = i + 1;
    }
    assert(submodules_view(binding.submodules@).take(binding.submodules.len() as int)
        =~= submodules_view(binding.submodules@));
    out
}

/// The pre-rendered declarations of the methods that have one, each
/// newline-terminated; methods without one contribute nothing.
pub open spec fn method_decls_text(ms: Seq<FunctionBindingView>) -> Seq<char>
    decreases ms.len(),
{
    if ms.len() == 0 {
        Seq::empty()
    } else {
        method_decls_text(ms.drop_last()) + match ms.last().lean_decl {
            Some(d) => d + "\n"@,
            None => Seq::empty(),
        }
    }
}

/// The generated Lean file for a class.
pub open spec fn class_lean_text(m: ClassMetadataView) -> Seq<char> {
    banner() + "-- Class: "@ + m.lean_name + "\n\n"@ + m.opaque_decl + "\n\n"@ + method_decls_text(
        m.methods,
    )
}

/// Generate the Lean source for a class: a banner, the class name, the
/// opaque type declaration and every method's pre-rendered declaration.
pub fn generate_class_lean(metadata: &ClassMetadata) -> (r: String)
    ensures
        r@ == class_lean_text(metadata@),
{
    let mut out = String::new();
    out.append("-- Generated by leo3-codegen. Do not edit.\n");
    out.append("-- Class: ");
    out.append(metadata.lean_name.as_str());
    out.append("\n\n");
    out.append(metadata.opaque_decl.as_str());
    out.append("\n\n");
    let ghost start = out@;
    let mut i: usize = 0;
    while i < metadata.methods.len()
        invariant
            i <= metadata.methods.len(),
            out@ == start + method_decls_text(functions_view(metadata.methods@).take(i as int)),
        decreases metadata.methods.len() - i,
    {
        if let Some(decl) = &metadata.methods[i].lean_decl {
            out.append(decl.as_str());
            out.append("\n");
        }
        assert(functions_view(metadata.methods@).take(i + 1).drop_last() =~= functions_view(
            metadata.methods@,
        ).take(i as int));
        i = i + 1;
    }
    assert(functions_view(metadata.methods@).take(metadata.methods.len() as int) =~= functions_view(
        metadata.methods@,
    ));
    out
}

/// The declarations of the first `n` methods open the declarations of all.
proof fn lemma_method_decls_prefix(ms: Seq<FunctionBindingView>, n: int)
    requires
        0 <= n <= ms.len(),
    ensures
        method_decls_text(ms.take(n)).len() <= method_decls_text(ms).len(),
        method_decls_text(ms).subrange(0, method_decls_text(ms.take(n)).len() as int)
            == method_decls_text(ms.take(n)),
    decreases ms.len() - n,
{
    if n < ms.len() {
        lemma_method_decls_prefix(ms, n + 1);
        assert(ms.take(n + 1).drop_last() =~= ms.take(n));
        let a = method_decls_text(ms.take(n));
        let b = method_decls_text(ms.take(n + 1));
        let all = method_decls_text(ms);
        assert(b.subrange(0, a.len() as int) =~= a);
        assert(all.subrange(0, a.len() as int) =~= b.subrange(0, a.len() as int));
    } else {
        assert(ms.take(n) =~= ms);
        assert(method_decls_text(ms).subrange(0, method_decls_text(ms).len() as int)
            =~= method_decls_text(ms));
    }
}

/// Law: the file generated for a class holds the declaration of every method
/// that has one, each followed by a newline, the last method included.
pub proof fn lemma_class_text_has_every_method(m: ClassMetadataView, j: int)
    requires
        0 <= j < m.methods.len(),
        m.methods[j].lean_decl is Some,
    ensures
        ({
            let d = m.methods[j].lean_decl->Some_0;
            let t = class_lean_text(m);
            exists|k: int|
                0 <= k && k + d.len() + 1 <= t.len() && #[trigger] t.subrange(k, k + d.len() + 1)
                    == d + "\n"@
        }),
{
    let ms = m.methods;
    let d = ms[j].lean_decl->Some_0;
    let h = banner() + "-- Class: "@ + m.lean_name + "\n\n"@ + m.opaque_decl + "\n\n"@;
    let t = class_lean_text(m);
    lemma_method_decls_prefix(ms, j + 1);
    assert(ms.take(j + 1).drop_last() =~= ms.take(j));
    assert(ms.take(j + 1).last() == ms[j]);
    let a = method_decls_text(ms.take(j));
    let b = method_decls_text(ms.take(j + 1));
    let all = method_decls_text(ms);
    assert(b == a + (d + "\n"@));
    assert(t == h + all);
    reveal_strlit("\n");
    assert(b.len() == a.len() + d.len() + 1);
    let k = (h.len() + a.len()) as int;
    assert forall|i: int| 0 <= i < d.len() + 1 implies #[trigger] t[k + i] == b[a.len() + i] by {
        assert(t[k + i] == all[a.len() + i]);
        assert(all.subrange(0, b.len() as int)[a.len() + i] == all[a.len() + i]);
    }
    assert(t.subrange(k, k + d.len() + 1) =~= b.subrange(a.len() as int, b.len() as int));
    assert(b.subrange(a.len() as int, b.len() as int) =~= d + "\n"@);
    assert(t.subrange(k, k + d.len() + 1) == d + "\n"@);
}

// ---------------------------------------------------------------------------
// Merging class metadata that arrives in several entries
// ---------------------------------------------------------------------------

/// Whether `ms` holds a method with the same Rust and Lean names as `m`.
pub open spec fn method_key_present(ms: Seq<FunctionBindingView>, m: FunctionBindingView) -> bool {
    exists|j: int|
        0 <= j < ms.len() && (#[trigger] ms[j]).rust_name == m.rust_name && ms[j].lean_name
            == m.lean_name
}

/// `existing` extended, in order, by each incoming method whose
/// `(rust_name, lean_name)` is not present yet.
pub open spec fn merge_methods(
    existing: Seq<FunctionBindingView>,
    incoming: Seq<FunctionBindingView>,
) -> Seq<FunctionBindingView>
    decreases incoming.len(),
{
    if incoming.len() == 0 {
        existing
    } else {
        let acc = merge_methods(existing, incoming.drop_last());
        if method_key_present(acc, incoming.last()) {
            acc
        } else {
            acc.push(incoming.last())
        }
    }
}

/// An existing class entry with another entry's methods merged in.
pub open spec fn merged_entry(e: ClassMetadataView, m: ClassMetadataView) -> ClassMetadataView {
    ClassMetadataView {
        schema_version: e.schema_version,
        rust_name: e.rust_name,
        lean_name: e.lean_name,
        opaque_decl: e.opaque_decl,
        methods_decl: e.methods_decl,
        methods: merge_methods(e.methods, m.methods),
    }
}

/// The class names of a table, in its order.
pub open spec fn class_names(t: Seq<ClassMetadataView>) -> Seq<Seq<char>> {
    t.map_values(|c: ClassMetadataView| c.rust_name)
}

/// The class entries recovered from a library, one per Rust class name, kept
/// in the lexicographic order of those names.
pub struct ClassTable {
    entries: Vec<ClassMetadata>,
}

impl View for ClassTable {
    type V = Seq<ClassMetadataView>;

    closed spec fn view(&self) -> Seq<ClassMetadataView> {
        self.entries@.map_values(|c: ClassMetadata| c@)
    }
}

impl ClassTable {
    /// The class names are strictly increasing: sorted, and none twice.
    pub open spec fn wf(&self) -> bool {
        sorted_names(class_names(self@))
    }

    pub fn new() -> (t: ClassTable)
        ensures
            t@ == Seq::<ClassMetadataView>::empty(),
            t.wf(),
    {
        let t = ClassTable { entries: Vec::new() };
        assert(class_names(t@) =~= Seq::<Seq<char>>::empty());
        t
    }

    pub fn len(&self) -> (n: usize)
        ensures
            n == self@.len(),
    {
        self.entries.len()
    }

    /// The entries, in the order of their class names.
    pub fn entries(&self) -> (r: &[ClassMetadata])
        ensures
            r@.map_values(|c: ClassMetadata| c@) == self@,
    {
        self.entries.as_slice()
    }

    /// The entry for a Rust class name, if any.
    pub fn get(&self, rust_name: &str) -> (r: Option<&ClassMetadata>)
        requires
            self.wf(),
        ensures
            r is None <==> (forall|k: int| 0 <= k < self@.len() ==> self@[k].rust_name != rust_name@),
            r matches Some(c) ==> exists|k: int|
                0 <= k < self@.len() && self@[k] == c@ && c@.rust_name == rust_name@,
    {
        let mut i: usize = 0;
        while i < self.entries.len()
            invariant
                i <= self.entries.len(),
                forall|k: int| 0 <= k < i ==> self@[k].rust_name != rust_name@,
            decreases self.entries.len() - i,
        {
            if str_eq(self.entries[i].rust_name.as_str(), rust_name) {
                assert(self@[i as int] == self.entries@[i as int]@);
                return Some(&self.entries[i]);
            }
            i = i + 1;
        }
        None
    }
}

/// Where a name belongs in a sorted table: the number of entries whose names
/// come before it.
fn class_position(entries: &Vec<ClassMetadata>, name: &String) -> (r: usize)
    requires
        sorted_names(class_names(entries@.map_values(|c: ClassMetadata| c@))),
    ensures
        r <= entries.len(),
        forall|k: int| 0 <= k < r ==> lex_lt((#[trigger] entries@[k])@.rust_name, name@),
        r < entries.len() ==> !lex_lt(entries@[r as int]@.rust_name, name@),
{
    let mut i: usize = 0;
    while i < entries.len() && str_lt(entries[i].rust_name.as_str(), name.as_str())
        invariant
            i <= entries.len(),
            forall|k: int| 0 <= k < i ==> lex_lt((#[trigger] entries@[k])@.rust_name, name@),
        decreases entries.len() - i,
    {
        i = i + 1;
    }
    i
}

fn find_method_key(ms: &Vec<FunctionBinding>, m: &FunctionBinding) -> (r: bool)
    ensures
        r == method_key_present(functions_view(ms@), m@),
{
    let mut i: usize = 0;
    while i < ms.len()
        invariant
            i <= ms.len(),
            forall|k: int|
                0 <= k < i ==> !((#[trigger] functions_view(ms@)[k]).rust_name == m@.rust_name
                    && functions_view(ms@)[k].lean_name == m@.lean_name),
        decreases ms.len() - i,
    {
        if ms[i].rust_name == m.rust_name && ms[i].lean_name == m.lean_name {
            assert(functions_view(ms@)[i as int] == ms@[i as int]@);
            return true;
        }
        i = i + 1;
    }
    false
}

/// Append to `methods`, in order, each incoming method whose
/// `(rust_name, lean_name)` is not present yet.
fn merge_methods_into(methods: &mut Vec<FunctionBinding>, incoming: Vec<FunctionBinding>)
    ensures
        functions_view(final(methods)@) == merge_methods(functions_view(old(methods)@), functions_view(incoming@)),
{
    let ghost e0 = functions_view(methods@);
    let mut incoming = incoming;
    let ghost all_incoming = functions_view(incoming@);
    let ghost mut done: int = 0;
    while incoming.len() > 0
        invariant
            0 <= done <= all_incoming.len(),
            functions_view(incoming@) == all_incoming.skip(done),
            functions_view(methods@) == merge_methods(e0, all_incoming.take(done)),
        decreases incoming.len(),
    {
        let ghost before = incoming@;
        assert(functions_view(before).len() == before.len());
        assert(all_incoming.skip(done).len() == all_incoming.len() - done);
        assert(functions_view(before)[0] == before[0]@);
        assert(all_incoming.skip(done)[0] == all_incoming[done]);
        let m = incoming.remove(0);
        assert(m@ == all_incoming[done]);
        let present = find_method_key(methods, &m);
        proof {
            assert(all_incoming.take(done + 1).drop_last() =~= all_incoming.take(done));
            assert(all_incoming.take(done + 1).last() == all_incoming[done]);
        }
        if !present {
            methods.push(m);
            assert(functions_view(methods@) =~= merge_methods(e0, all_incoming.take(done + 1)));
        }
        proof {
            assert(incoming@ =~= before.subrange(1, before.len() as int));
            assert forall|k: int| 0 <= k < incoming@.len() implies functions_view(incoming@)[k]
                == all_incoming.skip(done + 1)[k] by {
                assert(functions_view(before)[k + 1] == before[k + 1]@);
                assert(all_incoming.skip(done)[k + 1] == all_incoming[done + 1 + k]);
            }
            done = done + 1;
            assert(functions_view(incoming@) =~= all_incoming.skip(done));
        }
    }
    assert(all_incoming.take(done) =~= all_incoming);
}

/// A class entry as first added to the table: its methods with repeated
/// `(rust_name, lean_name)` pairs dropped (the first one kept).
pub open spec fn fresh_entry(m: ClassMetadataView) -> ClassMetadataView {
    ClassMetadataView { methods: merge_methods(Seq::empty(), m.methods), ..m }
}

/// Merge one class metadata entry into the per-class table.
///
/// Methods are deduplicated by `(rust_name, lean_name)`: a class seen for the
/// first time is added, at its place in name order, with each method once;
/// for a class already in the table, each incoming method is appended unless
/// a method with the same pair is already there. So a class that arrives
/// across several entries yields one entry holding each method once.
pub fn merge_class_metadata(classes: &mut ClassTable, metadata: ClassMetadata)
    requires
        old(classes).wf(),
    ensures
        final(classes).wf(),
        forall|k: int|
            0 <= k < old(classes)@.len() && old(classes)@[k].rust_name == metadata@.rust_name
                ==> final(classes)@ == old(classes)@.update(
                k,
                merged_entry(old(classes)@[k], metadata@),
            ),
        (forall|k: int|
            0 <= k < old(classes)@.len() ==> old(classes)@[k].rust_name != metadata@.rust_name)
            ==> exists|p: int|
            0 <= p <= old(classes)@.len() && final(classes)@ == old(classes)@.insert(
                p,
                fresh_entry(metadata@),
            ),
        (forall|k: int| 0 <= k < old(classes)@.len() ==> method_keys_unique(#[trigger] old(classes)@[k].methods))
            ==> (forall|k: int| 0 <= k < final(classes)@.len() ==> method_keys_unique(
            #[trigger] final(classes)@[k].methods,
        )),
{
    let ghost t0 = classes@;
    let ghost n0 = class_names(t0);
    let ghost m0 = metadata@;
    let i = class_position(&classes.entries, &metadata.rust_name);
    assert(forall|k: int| 0 <= k < t0.len() ==> t0[k] == classes.entries@[k]@);
    let present = i < classes.entries.len() && classes.entries[i].rust_name == metadata.rust_name;
    if !present {
        let ClassMetadata { schema_version, rust_name, lean_name, opaque_decl, methods_decl, methods } =
            metadata;
        let mut kept: Vec<FunctionBinding> = Vec::new();
        assert(functions_view(kept@) =~= Seq::<FunctionBindingView>::empty());
        merge_methods_into(&mut kept, methods);
        let entry = ClassMetadata { schema_version, rust_name, lean_name, opaque_decl, methods_decl, methods: kept };
        let ghost x = entry@;
        assert(x == fresh_entry(m0));
        proof {
            if i < t0.len() {
                lemma_lex_total(t0[i as int].rust_name, x.rust_name);
            }
            lemma_merge_keys_unique(Seq::empty(), m0.methods);
        }
        classes.entries.insert(i, entry);
        let ghost t = classes@;
        assert(t =~= t0.insert(i as int, x));
        let ghost n = class_names(t);
        assert(n =~= n0.insert(i as int, x.rust_name));
        assert(sorted_names(n)) by {
            assert forall|a: int, b: int| 0 <= a < b < n.len() implies lex_lt(#[trigger] n[a], #[trigger] n[b]) by {
                if b < i {
                    assert(n[a] == n0[a] && n[b] == n0[b]);
                } else if b == i {
                    assert(n[a] == n0[a] && n[b] == x.rust_name);
                    assert(n0[a] == t0[a].rust_name);
                } else if a > i {
                    assert(n[a] == n0[a - 1] && n[b] == n0[b - 1]);
                } else {
                    assert(n[b] == n0[b - 1]);
                    assert(lex_lt(x.rust_name, n0[b - 1])) by {
                        assert(n0[i as int] == t0[i as int].rust_name);
                        if b - 1 > i {
                            lemma_lex_transitive(x.rust_name, n0[i as int], n0[b - 1]);
                        }
                    }
                    if a < i {
                        assert(n[a] == n0[a]);
                        assert(n0[a] == t0[a].rust_name);
                        lemma_lex_transitive(n0[a], x.rust_name, n0[b - 1]);
                    }
                }
            }
        }
        proof {
            assert forall|k: int| 0 <= k < t0.len() implies t0[k].rust_name != x.rust_name by {
                if k < i {
                    lemma_lex_irreflexive(x.rust_name);
                } else {
                    assert(n0[k] == t0[k].rust_name);
                    if k > i {
                        assert(lex_lt(n0[i as int], n0[k]));
                    }
                    if t0[k].rust_name == x.rust_name {
                        lemma_lex_total(n0[i as int], x.rust_name);
                        if k > i {
                            lemma_lex_total(n0[i as int], n0[k]);
                        }
                    }
                }
            }
            if forall|k: int| 0 <= k < t0.len() ==> method_keys_unique(#[trigger] t0[k].methods) {
                assert forall|k: int| 0 <= k < t.len() implies method_keys_unique(#[trigger] t[k].methods) by {
                    if k < i {
                        assert(t[k] == t0[k]);
                    } else if k > i {
                        assert(t[k] == t0[k - 1]);
                    }
                }
            }
        }
        return;
    }
    let i: usize = i;
    assert(t0[i as int].rust_name == metadata@.rust_name);
    let mut entry = classes.entries.remove(i);
    let ghost e0 = entry@;
    assert(e0 == t0[i as int]);
    merge_methods_into(&mut entry.methods, metadata.methods);
    classes.entries.insert(i, entry);
    assert(classes@ =~= t0.update(i as int, merged_entry(t0[i as int], m0)));
    assert(class_names(classes@) =~= n0);
    assert forall|k: int|
        0 <= k < t0.len() && t0[k].rust_name == m0.rust_name implies classes@ == t0.update(
        k,
        merged_entry(t0[k], m0),
    ) by {
        if k != i {
            assert(n0[k] == t0[k].rust_name && n0[i as int] == t0[i as int].rust_name);
            if k < i {
                assert(lex_lt(n0[k], n0[i as int]));
            } else {
                assert(lex_lt(n0[i as int], n0[k]));
            }
            lemma_lex_irreflexive(n0[k]);
        }
    }
    proof {
        let t = classes@;
        if forall|k: int| 0 <= k < t0.len() ==> method_keys_unique(#[trigger] t0[k].methods) {
            assert(method_keys_unique(t0[i as int].methods));
            lemma_merge_keys_unique(t0[i as int].methods, m0.methods);
            assert forall|k: int| 0 <= k < t.len() implies method_keys_unique(#[trigger] t[k].methods) by {
                if k != i {
                    assert(t[k] == t0[k]);
                }
            }
        }
    }
}

/// Whether no two methods share both their Rust and their Lean name.
pub open spec fn method_keys_unique(ms: Seq<FunctionBindingView>) -> bool {
    forall|i: int, j: int|
        0 <= i < j < ms.len() ==> !((#[trigger] ms[i]).rust_name == (#[trigger] ms[j]).rust_name
            && ms[i].lean_name == ms[j].lean_name)
}

/// Law: merging keeps every existing method, in place.
pub proof fn lemma_merge_keeps_existing(
    existing: Seq<FunctionBindingView>,
    incoming: Seq<FunctionBindingView>,
)
    ensures
        merge_methods(existing, incoming).len() >= existing.len(),
        merge_methods(existing, incoming).take(existing.len() as int) == existing,
    decreases incoming.len(),
{
    if incoming.len() > 0 {
        lemma_merge_keeps_existing(existing, incoming.drop_last());
        let acc = merge_methods(existing, incoming.drop_last());
        assert(acc.push(incoming.last()).take(existing.len() as int) =~= acc.take(
            existing.len() as int,
        ));
    } else {
        assert(existing.take(existing.len() as int) =~= existing);
    }
}

proof fn lemma_present_grows(ms: Seq<FunctionBindingView>, x: FunctionBindingView, m: FunctionBindingView)
    requires
        method_key_present(ms, m),
    ensures
        method_key_present(ms.push(x), m),
{
    let j = choose|j: int|
        0 <= j < ms.len() && (#[trigger] ms[j]).rust_name == m.rust_name && ms[j].lean_name
            == m.lean_name;
    assert(ms.push(x)[j] == ms[j]);
}

/// Law: after merging, every incoming method's `(rust_name, lean_name)` is present.
pub proof fn lemma_merge_covers_incoming(
    existing: Seq<FunctionBindingView>,
    incoming: Seq<FunctionBindingView>,
)
    ensures
        forall|k: int|
            0 <= k < incoming.len() ==> method_key_present(
                merge_methods(existing, incoming),
                #[trigger] incoming[k],
            ),
    decreases incoming.len(),
{
    if incoming.len() > 0 {
        let init = incoming.drop_last();
        lemma_merge_covers_incoming(existing, init);
        let acc = merge_methods(existing, init);
        let last = incoming.last();
        assert forall|k: int| 0 <= k < incoming.len() implies method_key_present(
            merge_methods(existing, incoming),
            #[trigger] incoming[k],
        ) by {
            if k < incoming.len() - 1 {
                assert(init[k] == incoming[k]);
                if !method_key_present(acc, last) {
                    lemma_present_grows(acc, last, incoming[k]);
                }
            } else {
                if !method_key_present(acc, last) {
                    assert(acc.push(last)[acc.len() as int] == last);
                }
            }
        }
    }
}

/// Law: merging never introduces a second method with the same
/// `(rust_name, lean_name)`.
pub proof fn lemma_merge_keys_unique(
    existing: Seq<FunctionBindingView>,
    incoming: Seq<FunctionBindingView>,
)
    requires
        method_keys_unique(existing),
    ensures
        method_keys_unique(merge_methods(existing, incoming)),
    decreases incoming.len(),
{
    if incoming.len() > 0 {
        lemma_merge_keys_unique(existing, incoming.drop_last());
        let acc = merge_methods(existing, incoming.drop_last());
        let last = incoming.last();
        if !method_key_present(acc, last) {
            let r = acc.push(last);
            assert forall|i: int, j: int| 0 <= i < j < r.len() implies !((#[trigger] r[i]).rust_name
                == (#[trigger] r[j]).rust_name && r[i].lean_name == r[j].lean_name) by {
                if j == acc.len() {
                    assert(r[i] == acc[i]);
                } else {
                    assert(r[i] == acc[i] && r[j] == acc[j]);
                }
            }
        }
    }
}

proof fn lemma_merge_all_present(
    existing: Seq<FunctionBindingView>,
    incoming: Seq<FunctionBindingView>,
)
    requires
        forall|k: int| 0 <= k < incoming.len() ==> method_key_present(existing, #[trigger] incoming[k]),
    ensures
        merge_methods(existing, incoming) == existing,
    decreases incoming.len(),
{
    if incoming.len() > 0 {
        assert forall|k: int| 0 <= k < incoming.drop_last().len() implies method_key_present(
            existing,
            #[trigger] incoming.drop_last()[k],
        ) by {
            assert(incoming.drop_last()[k] == incoming[k]);
        }
        lemma_merge_all_present(existing, incoming.drop_last());
        assert(method_key_present(existing, incoming[incoming.len() - 1]));
    }
}

/// Law: merging the same class entry twice is the same as merging it once.
pub proof fn lemma_merge_idempotent(e: ClassMetadataView, m: ClassMetadataView)
    ensures
        merged_entry(merged_entry(e, m), m) == merged_entry(e, m),
{
    lemma_merge_covers_incoming(e.methods, m.methods);
    lemma_merge_all_present(merge_methods(e.methods, m.methods), m.methods);
}

/// The path of a module's generated file: its dotted name as directories.
pub open spec fn module_file_name_text(name: Seq<char>) -> Seq<char> {
    name.map_values(|c: char| if c == '.' { '/' } else { c }) + ".lean"@
}

/// The file a module's Lean source is written to, following the dotted module
/// name so nested modules land where Lean's import resolution expects them
/// (`A.B` becomes `A/B.lean`).
pub fn module_file_name(name: &str) -> (r: String)
    ensures
        r@ == module_file_name_text(name@),
{
    let cs = chars_of(name);
    let mut out = String::new();
    let mut i: usize = 0;
    while i < cs.len()
        invariant
            cs@ == name@,
            i <= cs.len(),
            out@ == name@.take(i as int).map_values(|c: char| if c == '.' { '/' } else { c }),
        decreases cs.len() - i,
    {
        let c = cs[i];
        push_char(&mut out, if c == '.' { '/' } else { c });
        assert(name@.take(i + 1).map_values(|c: char| if c == '.' { '/' } else { c })
            =~= name@.take(i as int).map_values(|c: char| if c == '.' { '/' } else { c }).push(
            if c == '.' { '/' } else { c }));
        i = i + 1;
    }
    assert(name@.take(cs.len() as int) =~= name@);
    out.append(".lean");
    out
}

} // verus!
