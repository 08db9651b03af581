//! The decisions behind `#[leanmodule]`: the module's Lean name, the binding
//! it exports, and the symbols its initializer and embedded metadata get.
use vstd::prelude::*;
use crate::analysis::{
    collect_module_exports, collect_submodule_exports, filter_exports, module_exports_spec,
    submodules_spec, filter_spec,
};
use crate::model::{ModuleBinding, ModuleBindingView, FunctionBindingView, SubmoduleBindingView};
use crate::syntax::Item;
use crate::metadata_scan::{lemma_until_nul, metadata_text};
use crate::text::{chars_of, owned, push_char, strings_view};

verus! {

/// A module name with each `.` replaced by `_`, as used in symbol names.
pub open spec fn symbol_safe(name: Seq<char>) -> Seq<char> {
    name.map_values(|c: char| if c == '.' { '_' } else { c })
}

/// The module's name with each `.` replaced by `_`.
pub fn symbol_safe_name(name: &str) -> (r: String)
    ensures
        r@ == symbol_safe(name@),
{
    let cs = chars_of(name);
    let mut r = String::new();
    let mut i: usize = 0;
    while i < cs.len()
        invariant
            cs@ == name@,
            i <= cs.len(),
            r@ == symbol_safe(name@).take(i as int),
        decreases cs.len() - i,
    {
        let c = cs[i];
        if c == '.' {
            push_char(&mut r, '_');
        } else {
            push_char(&mut r, c);
        }
        proof {
            assert(symbol_safe(name@).take(i + 1) =~= symbol_safe(name@).take(i as int).push(
                if c == '.' { '_' } else { c },
            ));
        }
        i = i + 1;
    }
    assert(symbol_safe(name@).take(cs.len() as int) =~= symbol_safe(name@));
    r
}

pub open spec fn module_init_symbol_spec(name: Seq<char>) -> Seq<char> {
    "initialize_"@ + symbol_safe(name)
}

pub open spec fn module_json_symbol_spec(name: Seq<char>) -> Seq<char> {
    "__leo3_module_metadata_json_"@ + symbol_safe(name)
}

/// The module initializer Lean calls when it loads the module:
/// `initialize_<name>` with dots as underscores.
pub fn module_init_symbol(name: &str) -> (r: String)
    ensures
        r@ == module_init_symbol_spec(name@),
{
    let mut r = owned("initialize_");
    let safe = symbol_safe_name(name);
    r.append(safe.as_str());
    r
}

/// The symbol of the module's embedded metadata JSON:
/// `__leo3_module_metadata_json_<name>` with dots as underscores.
pub fn module_json_symbol(name: &str) -> (r: String)
    ensures
        r@ == module_json_symbol_spec(name@),
{
    let mut r = owned("__leo3_module_metadata_json_");
    let safe = symbol_safe_name(name);
    r.append(safe.as_str());
    r
}

/// Law: the metadata symbol a module embeds carries the module prefix that
/// the code generator looks for, and what follows the prefix is the module's
/// name with dots as underscores (so `metadata_symbol_kind` classifies it as
/// a module and hands that name back).
pub proof fn lemma_module_symbol_recovered(name: Seq<char>)
    ensures
        "__leo3_module_metadata_json_"@.is_prefix_of(module_json_symbol_spec(name)),
        module_json_symbol_spec(name).skip("__leo3_module_metadata_json_"@.len() as int)
            == symbol_safe(name),
{
    reveal_strlit("__leo3_module_metadata_json_");
    let p = "__leo3_module_metadata_json_"@;
    assert(module_json_symbol_spec(name).take(p.len() as int) =~= p);
    assert(module_json_symbol_spec(name).skip(p.len() as int) =~= symbol_safe(name));
}


/// The data of a module's metadata JSON symbol: the JSON's UTF-8 bytes and a
/// terminating NUL.
pub fn nul_terminated_json(json: &str) -> (out: Vec<u8>)
    ensures
        out@ == vstd::utf8::encode_utf8(json@).push(0u8),
{
    let mut out: Vec<u8> = Vec::new();
    out.extend_from_slice(json.as_bytes());
    out.push(0u8);
    out
}

/// Law: reading a module's metadata symbol back up to its NUL gives the
/// JSON text that was embedded, for any JSON text without a NUL byte (JSON
/// text never holds one unescaped).
pub proof fn lemma_json_symbol_readback(json: Seq<char>)
    requires
        forall|k: int| 0 <= k < vstd::utf8::encode_utf8(json).len() ==> #[trigger] vstd::utf8::encode_utf8(json)[k] != 0u8,
    ensures
        metadata_text(vstd::utf8::encode_utf8(json).push(0u8)) == Ok::<Seq<char>, Seq<char>>(json),
{
    let b = vstd::utf8::encode_utf8(json);
    let d = b.push(0u8);
    assert forall|k: int| 0 <= k < b.len() implies d[k] != 0 by {
        assert(d[k] == b[k]);
    }
    lemma_until_nul(d, b.len() as int);
    assert(d.take(b.len() as int) =~= b);
    vstd::utf8::encode_utf8_valid_utf8(json);
    vstd::utf8::encode_utf8_decode_utf8(json);
}

/// The Lean name of a module: the `name` option, else the Rust module's
/// identifier.
pub fn module_name(name: Option<String>, ident: &str) -> (r: String)
    ensures
        r@ == match name {
            Some(n) => n@,
            None => ident@,
        },
{
    match name {
        Some(n) => n,
        None => owned(ident),
    }
}

/// The binding a `#[leanmodule]` exports: for an inline module, its
/// `#[leanfn]` items (restricted to `allowed`, in that order, when given) and
/// its submodules with exports; for a module without a body, nothing.
pub open spec fn module_binding_spec(
    name: Seq<char>,
    items: Option<Seq<Item>>,
    allowed: Option<Seq<Seq<char>>>,
) -> Result<ModuleBindingView, Seq<char>> {
    match items {
        None => Ok(
            ModuleBindingView {
                name,
                exports: Seq::<FunctionBindingView>::empty(),
                submodules: Seq::<SubmoduleBindingView>::empty(),
            },
        ),
        Some(its) => match module_exports_spec(its, its.len() as int) {
            Err(e) => Err(e),
            Ok(all) => match (match allowed {
                None => Ok::<Seq<FunctionBindingView>, Seq<char>>(all),
                Some(a) => filter_spec(all, a, a.len() as int),
            }) {
                Err(e) => Err(e),
                Ok(exports) => match submodules_spec(its, its.len() as int, Seq::<char>::empty()) {
                    Err(e) => Err(e),
                    Ok(subs) => Ok(ModuleBindingView { name, exports, submodules: subs }),
                },
            },
        },
    }
}

pub open spec fn opt_items_view(items: Option<&Vec<Item>>) -> Option<Seq<Item>> {
    match items {
        Some(v) => Some(v@),
        None => None,
    }
}

pub open spec fn opt_names_view(allowed: Option<&Vec<String>>) -> Option<Seq<Seq<char>>> {
    match allowed {
        Some(v) => Some(strings_view(v@)),
        None => None,
    }
}

/// Build the binding a `#[leanmodule]` exports (see [`module_binding_spec`]).
pub fn build_module_binding(
    name: String,
    items: Option<&Vec<Item>>,
    allowed: Option<&Vec<String>>,
) -> (r: Result<ModuleBinding, String>)
    ensures
        match module_binding_spec(name@, opt_items_view(items), opt_names_view(allowed)) {
            Ok(b) => r matches Ok(x) && x@ == b,
            Err(e) => r matches Err(m) && m@ == e,
        },
{
    match items {
        None => {
            let r = ModuleBinding { name, exports: Vec::new(), submodules: Vec::new() };
            proof {
                assert(crate::model::functions_view(r.exports@) =~= Seq::<FunctionBindingView>::empty());
                assert(crate::model::submodules_view(r.submodules@) =~= Seq::<SubmoduleBindingView>::empty());
            }
            Ok(r)
        },
        Some(its) => {
            let all = match collect_module_exports(its.as_slice()) {
                Ok(v) => v,
                Err(e) => return Err(e),
            };
            let exports = match allowed {
                None => all,
                Some(a) => match filter_exports(all, a.as_slice()) {
                    Ok(v) => v,
                    Err(e) => return Err(e),
                },
            };
            proof {
                reveal_strlit("");
                assert(""@ =~= Seq::<char>::empty());
            }
            let submodules = match collect_submodule_exports(its.as_slice(), "") {
                Ok(v) => v,
                Err(e) => return Err(e),
            };
            Ok(ModuleBinding { name, exports, submodules })
        },
    }
}

} // verus!
