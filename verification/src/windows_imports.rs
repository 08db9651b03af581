//! Regenerating Windows import libraries from the Lean DLLs' live export
//! tables.
//!
//! Official Lean Windows dists bundle import libraries that can lag the DLL
//! export tables shipped in `bin/`. The build script parses each Lean DLL's PE
//! export table, writes a `.def` file per DLL and has the rustc-bundled
//! `rust-lld` turn it into an import library. This module holds the parts
//! that decide: the PE export-table parser, the forwarder recogniser, the
//! `.def` text, the cross-DLL symbol dedupe, the cache key and the link order.
use vstd::prelude::*;
use vstd::string::*;
use vstd::utf8::{decode_utf8, valid_utf8};
use crate::metadata_scan::{until_nul, lemma_until_nul};
use crate::text::{
    chars_of, hex_digit, hex_digits, hex_u64, owned, push_char, split_char, string_from_chars,
    strings_view, utf8_to_string, utf8_lossy, utf8_lossy_string,
};

verus! {

/// DLL base names, in link order.
pub open spec fn dll_stems() -> Seq<Seq<char>> {
    seq!["libInit_shared"@, "libleanshared_2"@, "libleanshared_1"@, "libleanshared"@]
}

/// DLL base names, in link order.
pub fn lean_dll_stems() -> (r: Vec<&'static str>)
    ensures
        r@.map_values(|s: &str| s@) == dll_stems(),
{
    let mut r: Vec<&'static str> = Vec::new();
    r.push("libInit_shared");
    r.push("libleanshared_2");
    r.push("libleanshared_1");
    r.push("libleanshared");
    assert(r@.map_values(|s: &str| s@) =~= dll_stems());
    r
}

/// A symbol a Lean DLL makes available to importers.
#[derive(Debug, Clone)]
pub struct Export {
    /// Exported name as it appears in the DLL's export table.
    pub name: String,
    /// `Some((target_dll, target_name))` for a forwarded export; the
    /// importer must import from `target_dll` directly.
    pub forwarder: Option<(String, String)>,
}

pub struct ExportView {
    pub name: Seq<char>,
    pub forwarder: Option<(Seq<char>, Seq<char>)>,
}

impl View for Export {
    type V = ExportView;

    open spec fn view(&self) -> ExportView {
        ExportView {
            name: self.name@,
            forwarder: match self.forwarder {
                Some((d, n)) => Some((d@, n@)),
                None => None,
            },
        }
    }
}

pub open spec fn exports_view(es: Seq<Export>) -> Seq<ExportView> {
    es.map_values(|e: Export| e@)
}

/// Result of regenerating the import libs: the link-search directory holding
/// the generated `.lib` files, one entry per DLL actually generated.
#[derive(Debug, Clone)]
pub struct GeneratedImportLibs {
    pub search_dir: String,
    /// `(dll name, generated import-lib file name)`, in link order.
    pub libs: Vec<(String, String)>,
}

// ---------------------------------------------------------------------------
// FNV-1a
// ---------------------------------------------------------------------------

pub open spec fn fnv_offset() -> u64 {
    0xcbf2_9ce4_8422_2325
}

pub open spec fn fnv_prime() -> u64 {
    0x0000_0100_0000_01b3
}

/// 64-bit FNV-1a of a byte string.
pub open spec fn fnv1a_spec(b: Seq<u8>) -> u64
    decreases b.len(),
{
    if b.len() == 0 {
        fnv_offset()
    } else {
        (((fnv1a_spec(b.drop_last()) ^ (b.last() as u64)) as nat * fnv_prime() as nat)
            % 0x1_0000_0000_0000_0000nat) as u64
    }
}

/// 64-bit FNV-1a of a byte string.
pub fn fnv1a_64(bytes: &[u8]) -> (r: u64)
    ensures
        r == fnv1a_spec(bytes@),
{
    let mut hash: u64 = 0xcbf2_9ce4_8422_2325;
    let mut i: usize = 0;
    while i < bytes.len()
        invariant
            i <= bytes.len(),
            hash == fnv1a_spec(bytes@.take(i as int)),
        decreases bytes.len() - i,
    {
        assert(bytes@.take(i + 1).drop_last() =~= bytes@.take(i as int));
        hash = (hash ^ (bytes[i] as u64)).wrapping_mul(0x0000_0100_0000_01b3);
        i = i + 1;
    }
    assert(bytes@.take(i as int) =~= bytes@);
    hash
}

// ---------------------------------------------------------------------------
// The `.def` file
// ---------------------------------------------------------------------------

/// One `EXPORTS` line; a forwarded export becomes `name = "dll:target"`.
pub open spec fn export_line(e: ExportView) -> Seq<char> {
    match e.forwarder {
        Some((d, n)) => e.name + " = \""@ + d + ":"@ + n + "\"\n"@,
        None => e.name + "\n"@,
    }
}

pub open spec fn export_lines(es: Seq<ExportView>) -> Seq<char>
    decreases es.len(),
{
    if es.len() == 0 {
        Seq::empty()
    } else {
        export_lines(es.drop_last()) + export_line(es.last())
    }
}

/// The `LIBRARY`/`EXPORTS` def-file body for a DLL.
pub open spec fn def_file_text(dll_name: Seq<char>, es: Seq<ExportView>) -> Seq<char> {
    "LIBRARY "@ + dll_name + "\nEXPORTS\n"@ + export_lines(es)
}

/// `LIBRARY`/`EXPORTS` def-file body; forwarded exports become
/// `name = "target.dll:target_name"`.
pub fn def_file_for(dll_name: &str, exports: &[Export]) -> (r: String)
    ensures
        r@ == def_file_text(dll_name@, exports_view(exports@)),
{
    let mut out = owned("LIBRARY ");
    out.append(dll_name);
    out.append("\nEXPORTS\n");
    let ghost head = "LIBRARY "@ + dll_name@ + "\nEXPORTS\n"@;
    assert(out@ =~= head);
    let mut i: usize = 0;
    while i < exports.len()
        invariant
            i <= exports.len(),
            out@ == head + export_lines(exports_view(exports@).take(i as int)),
        decreases exports.len() - i,
    {
        let e = &exports[i];
        match &e.forwarder {
            Some((target_dll, target_name)) => {
                out.append(e.name.as_str());
                out.append(" = \"");
                out.append(target_dll.as_str());
                out.append(":");
                out.append(target_name.as_str());
                out.append("\"\n");
            },
            None => {
                out.append(e.name.as_str());
                out.append("\n");
            },
        }
        proof {
            let ev = exports_view(exports@);
            assert(ev.take(i + 1).drop_last() =~= ev.take(i as int));
            assert(ev.take(i + 1).last() == ev[i as int]);
        }
        i = i + 1;
    }
    assert(exports_view(exports@).take(i as int) =~= exports_view(exports@));
    out
}

// ---------------------------------------------------------------------------
// Forwarder strings
// ---------------------------------------------------------------------------

pub open spec fn is_ascii_alnum(c: char) -> bool {
    ('0' <= c && c <= '9') || ('a' <= c && c <= 'z') || ('A' <= c && c <= 'Z')
}

/// A character allowed in a forwarder's DLL name.
pub open spec fn dll_name_char(c: char) -> bool {
    is_ascii_alnum(c) || c == '.' || c == '_' || c == '-'
}

/// A printable ASCII character other than space.
pub open spec fn is_ascii_graphic(c: char) -> bool {
    '!' <= c && c <= '~'
}

pub open spec fn ascii_lower(c: char) -> char {
    if 'A' <= c && c <= 'Z' {
        ((c as u32) + 32) as char
    } else {
        c
    }
}

/// Whether a name ends in `.dll`, ignoring ASCII case.
pub open spec fn ends_with_dll(d: Seq<char>) -> bool {
    &&& d.len() >= 4
    &&& d[d.len() - 4] == '.'
    &&& ascii_lower(d[d.len() - 3]) == 'd'
    &&& ascii_lower(d[d.len() - 2]) == 'l'
    &&& ascii_lower(d[d.len() - 1]) == 'l'
}

/// A real forwarder string is `<dllname>.dll:<symbol>`: short and ASCII.
pub open spec fn forwarder_spec(c: Seq<char>) -> Option<(Seq<char>, Seq<char>)> {
    if split_char(c, ':').len() < 2 {
        None
    } else {
        let d = split_char(c, ':')[0];
        let sym = c.skip(d.len() + 1int);
        if !ends_with_dll(d) {
            None
        } else if exists|i: int| 0 <= i < d.len() && !dll_name_char(#[trigger] d[i]) {
            None
        } else if sym.len() == 0 || exists|i: int|
            0 <= i < sym.len() && !is_ascii_graphic(#[trigger] sym[i]) {
            None
        } else {
            Some((d, sym))
        }
    }
}

/// Where the first separator stands decides the first field of a split.
pub proof fn lemma_split_at_first(s: Seq<char>, c: char, k: int)
    requires
        0 <= k <= s.len(),
        forall|j: int| 0 <= j < k ==> s[j] != c,
        k == s.len() || s[k] == c,
    ensures
        k == s.len() ==> split_char(s, c).len() == 1,
        k < s.len() ==> split_char(s, c).len() >= 2 && split_char(s, c)[0] == s.take(k),
{
    crate::text::lemma_split_char_no_sep(s.take(k), c);
    if k == s.len() {
        assert(s.take(k) =~= s);
    } else {
        crate::text::lemma_split_char_concat(s.take(k), c, s.skip(k + 1));
        crate::text::lemma_split_char_nonempty(s.skip(k + 1), c);
        assert(s.take(k) + seq![c] + s.skip(k + 1) =~= s);
    }
}

/// Law: a string is a forwarder `(dll, symbol)` exactly when it is `dll`,
/// `:`, `symbol`, where `dll` ends in `.dll` (any ASCII case) and has only
/// ASCII letters, digits, `.`, `_` and `-`, and `symbol` is non-empty
/// printable ASCII without spaces.
pub proof fn lemma_forwarder_iff(c: Seq<char>, d: Seq<char>, sym: Seq<char>)
    ensures
        forwarder_spec(c) == Some((d, sym)) <==> {
            &&& c == d + seq![':'] + sym
            &&& ends_with_dll(d)
            &&& forall|i: int| 0 <= i < d.len() ==> dll_name_char(#[trigger] d[i])
            &&& sym.len() > 0
            &&& forall|i: int| 0 <= i < sym.len() ==> is_ascii_graphic(#[trigger] sym[i])
        },
{
    crate::text::lemma_split_first(c, ':');
    let f = split_char(c, ':');
    if forwarder_spec(c) == Some((d, sym)) {
        assert(d == f[0]);
        assert(c =~= d + seq![':'] + sym);
    }
    if c == d + seq![':'] + sym && ends_with_dll(d) && (forall|i: int| 0 <= i < d.len() ==> dll_name_char(
        #[trigger] d[i],
    )) && sym.len() > 0 && (forall|i: int| 0 <= i < sym.len() ==> is_ascii_graphic(#[trigger] sym[i])) {
        assert forall|j: int| 0 <= j < d.len() implies c[j] != ':' by {
            assert(c[j] == d[j]);
            assert(dll_name_char(d[j]));
        }
        assert(c[d.len() as int] == ':');
        lemma_split_at_first(c, ':', d.len() as int);
        assert(c.take(d.len() as int) =~= d);
        assert(c.skip(d.len() + 1int) =~= sym);
    }
}

fn is_dll_name_char(c: char) -> (r: bool)
    ensures
        r == dll_name_char(c),
{
    ('0' <= c && c <= '9') || ('a' <= c && c <= 'z') || ('A' <= c && c <= 'Z') || c == '.' || c
        == '_' || c == '-'
}

fn lower_ascii(c: char) -> (r: char)
    ensures
        r == ascii_lower(c),
{
    if 'A' <= c && c <= 'Z' {
        ((c as u32) + 32) as u8 as char
    } else {
        c
    }
}

/// Recognise a `dll:symbol` forwarder string. Code bytes that happen to hold
/// `:` and `.` are not forwarders.
pub fn parse_forwarder(candidate: &str) -> (r: Option<(String, String)>)
    ensures
        match forwarder_spec(candidate@) {
            Some((d, s)) => r matches Some((rd, rs)) && rd@ == d && rs@ == s,
            None => r is None,
        },
{
    let cs = chars_of(candidate);
    let mut k: usize = 0;
    while k < cs.len() && cs[k] != ':'
        invariant
            k <= cs.len(),
            cs@ == candidate@,
            forall|j: int| 0 <= j < k ==> cs@[j] != ':',
        decreases cs.len() - k,
    {
        k = k + 1;
    }
    proof {
        lemma_split_at_first(candidate@, ':', k as int);
    }
    if k == cs.len() {
        return None;
    }
    let dll = string_from_chars(&cs.as_slice()[0..k]);
    let sym = string_from_chars(&cs.as_slice()[k + 1..cs.len()]);
    let ghost d = candidate@.take(k as int);
    let ghost s = candidate@.skip(k + 1);
    assert(dll@ =~= d);
    assert(sym@ =~= s);
    if k < 4 || cs[k - 4] != '.' || lower_ascii(cs[k - 3]) != 'd' || lower_ascii(cs[k - 2]) != 'l'
        || lower_ascii(cs[k - 1]) != 'l' {
        return None;
    }
    let mut i: usize = 0;
    while i < k
        invariant
            i <= k < cs.len(),
            cs@ == candidate@,
            d == candidate@.take(k as int),
            split_char(candidate@, ':').len() >= 2,
            split_char(candidate@, ':')[0] == d,
            forall|j: int| 0 <= j < i ==> dll_name_char(#[trigger] cs@[j]),
        decreases k - i,
    {
        if !is_dll_name_char(cs[i]) {
            assert(!dll_name_char(d[i as int]));
            return None;
        }
        i = i + 1;
    }
    assert forall|m: int| 0 <= m < d.len() implies dll_name_char(#[trigger] d[m]) by {
        assert(d[m] == cs@[m]);
    }
    if k + 1 == cs.len() {
        return None;
    }
    let mut j: usize = k + 1;
    while j < cs.len()
        invariant
            k < j <= cs.len(),
            cs@ == candidate@,
            s == candidate@.skip(k + 1),
            d == candidate@.take(k as int),
            split_char(candidate@, ':').len() >= 2,
            split_char(candidate@, ':')[0] == d,
            ends_with_dll(d),
            forall|m: int| 0 <= m < d.len() ==> dll_name_char(#[trigger] d[m]),
            forall|m: int| k < m < j ==> is_ascii_graphic(#[trigger] cs@[m]),
        decreases cs.len() - j,
    {
        let c = cs[j];
        if !('!' <= c && c <= '~') {
            assert(!is_ascii_graphic(s[j - k - 1]));
            return None;
        }
        j = j + 1;
    }
    assert forall|m: int| 0 <= m < s.len() implies is_ascii_graphic(#[trigger] s[m]) by {
        assert(s[m] == cs@[m + k + 1]);
    }
    Some((dll, sym))
}

// ---------------------------------------------------------------------------
// The PE export table
// ---------------------------------------------------------------------------

/// The little-endian `u16` at `off`, if the data holds it.
pub open spec fn le16(d: Seq<u8>, off: int) -> Option<int> {
    if 0 <= off && off + 2 <= d.len() {
        Some(d[off] as int + 256 * (d[off + 1] as int))
    } else {
        None
    }
}

/// The little-endian `u32` at `off`, if the data holds it.
pub open spec fn le32(d: Seq<u8>, off: int) -> Option<int> {
    if 0 <= off && off + 4 <= d.len() {
        Some(
            d[off] as int + 256 * (d[off + 1] as int) + 65536 * (d[off + 2] as int) + 16777216 * (
            d[off + 3] as int),
        )
    } else {
        None
    }
}

/// `{off:#x}` in an error about data too short for a read at `off`.
pub open spec fn truncated_at(off: int) -> Seq<char> {
    "truncated PE at "@ + seq!['0', 'x'] + hex_digits(off as nat)
}

/// Four zero-padded lower-case hex digits (`{:#06x}` without the `0x`).
pub open spec fn hex4(n: int) -> Seq<char> {
    seq![
        hex_digit(((n / 4096) % 16) as nat),
        hex_digit(((n / 256) % 16) as nat),
        hex_digit(((n / 16) % 16) as nat),
        hex_digit((n % 16) as nat),
    ]
}

/// The file offset of `rva`, from the first of the section headers at
/// `sections` (starting with header `k`) whose virtual range holds it.
pub open spec fn rva_lookup(d: Seq<u8>, sections: int, nsections: int, rva: int, k: int) -> Result<
    int,
    Seq<char>,
>
    decreases nsections - k,
{
    if k >= nsections {
        Err("RVA "@ + seq!['0', 'x'] + hex_digits(rva as nat) + " not in any section"@)
    } else {
        let s = sections + k * 40;
        match le32(d, s + 8) {
            None => Err(truncated_at(s + 8)),
            Some(vsize) => match le32(d, s + 12) {
                None => Err(truncated_at(s + 12)),
                Some(vaddr) => match le32(d, s + 16) {
                    None => Err(truncated_at(s + 16)),
                    Some(rawsize) => match le32(d, s + 20) {
                        None => Err(truncated_at(s + 20)),
                        Some(rawptr) => if vaddr <= rva && rva < vaddr + (if vsize >= rawsize {
                            vsize
                        } else {
                            rawsize
                        }) {
                            Ok(rawptr + (rva - vaddr))
                        } else {
                            rva_lookup(d, sections, nsections, rva, k + 1)
                        },
                    },
                },
            },
        }
    }
}

/// The at most 256 bytes from `off` in which a forwarder string must end.
pub open spec fn forwarder_window(d: Seq<u8>, off: int) -> Seq<u8> {
    d.subrange(off, if off + 256 <= d.len() { off + 256 } else { d.len() as int })
}

/// The forwarder named by the NUL-terminated UTF-8 string at `off`, if any.
pub open spec fn forwarder_at(d: Seq<u8>, off: int) -> Option<(Seq<char>, Seq<char>)> {
    if off >= d.len() {
        None
    } else {
        let w = forwarder_window(d, off);
        let c = until_nul(w);
        if c.len() == w.len() || !valid_utf8(c) {
            None
        } else {
            forwarder_spec(decode_utf8(c))
        }
    }
}

/// Where the export tables of a PE image lie.
pub struct PeTables {
    pub sections: int,
    pub nsections: int,
    pub num_funcs: int,
    pub num_names: int,
    pub funcs_off: int,
    pub names_off: int,
    pub ords_off: int,
}

/// The forwarder of an export whose function RVA is `func_rva`; one naming the
/// export itself as its DLL is ignored.
pub open spec fn export_forwarder(d: Seq<u8>, t: PeTables, func_rva: int, name: Seq<char>) -> Option<
    (Seq<char>, Seq<char>),
> {
    if func_rva == 0 {
        None
    } else {
        match rva_lookup(d, t.sections, t.nsections, func_rva, 0) {
            Err(_) => None,
            Ok(off) => match forwarder_at(d, off) {
                Some((dll, sym)) => if dll == name {
                    None
                } else {
                    Some((dll, sym))
                },
                None => None,
            },
        }
    }
}

/// Prefix `pre` to the exports of a later outcome.
pub open spec fn prefix_exports(
    pre: Seq<ExportView>,
    rest: Option<Result<Seq<ExportView>, Seq<char>>>,
) -> Option<Result<Seq<ExportView>, Seq<char>>> {
    match rest {
        None => None,
        Some(Err(e)) => Some(Err(e)),
        Some(Ok(r)) => Some(Ok(pre + r)),
    }
}

/// The exports named from name `i` on. An unreadable name-table entry is an
/// error; a name RVA outside every section, or an unreadable ordinal or
/// function entry, ends the list; empty names and out-of-range ordinals are
/// skipped. `None` when a name lies past the end of the data (the scan
/// cannot read it).
pub open spec fn export_loop(d: Seq<u8>, t: PeTables, i: int) -> Option<
    Result<Seq<ExportView>, Seq<char>>,
>
    decreases t.num_names - i,
{
    if i >= t.num_names {
        Some(Ok(Seq::empty()))
    } else {
        match le32(d, t.names_off + i * 4) {
            None => Some(Err(truncated_at(t.names_off + i * 4))),
            Some(name_rva) => match rva_lookup(d, t.sections, t.nsections, name_rva, 0) {
                Err(_) => Some(Ok(Seq::empty())),
                Ok(name_off) => if name_off > d.len() {
                    None
                } else {
                    let name = utf8_lossy(until_nul(d.skip(name_off)));
                    if name.len() == 0 {
                        export_loop(d, t, i + 1)
                    } else {
                        match le16(d, t.ords_off + i * 2) {
                            None => Some(Ok(Seq::empty())),
                            Some(ord) => if ord >= t.num_funcs {
                                export_loop(d, t, i + 1)
                            } else {
                                match le32(d, t.funcs_off + ord * 4) {
                                    None => Some(Ok(Seq::empty())),
                                    Some(func_rva) => prefix_exports(
                                        seq![
                                            ExportView {
                                                name,
                                                forwarder: export_forwarder(d, t, func_rva, name),
                                            },
                                        ],
                                        export_loop(d, t, i + 1),
                                    ),
                                }
                            },
                        }
                    }
                },
            },
        }
    }
}

/// Whether `e` is the export of name-table entry `j`: its name is the text of
/// the NUL-terminated string at the file offset of that entry's name RVA (a
/// non-empty one), its ordinal is below the function count, and its
/// forwarder is the one the function table gives for that ordinal.
pub open spec fn export_of_entry(d: Seq<u8>, t: PeTables, j: int, e: ExportView) -> bool {
    &&& 0 <= j < t.num_names
    &&& le32(d, t.names_off + j * 4) matches Some(name_rva)
    &&& rva_lookup(d, t.sections, t.nsections, name_rva, 0) matches Ok(name_off)
    &&& name_off <= d.len()
    &&& e.name == utf8_lossy(until_nul(d.skip(name_off)))
    &&& e.name.len() > 0
    &&& le16(d, t.ords_off + j * 2) matches Some(ord)
    &&& ord < t.num_funcs
    &&& le32(d, t.funcs_off + ord * 4) matches Some(func_rva)
    &&& e.forwarder == export_forwarder(d, t, func_rva, e.name)
}

/// Law: each export read from the name table from entry `i` on is the
/// export of one name-table entry, in table order (`js` gives the entries):
/// an export's name is the string at its name RVA, and its forwarder comes
/// from its function RVA.
pub proof fn lemma_export_loop_entries(d: Seq<u8>, t: PeTables, i: int) -> (js: Seq<int>)
    requires
        0 <= i,
    ensures
        export_loop(d, t, i) matches Some(Ok(es)) ==> {
            &&& js.len() == es.len()
            &&& forall|k: int| 0 <= k < js.len() ==> i <= #[trigger] js[k]
            &&& forall|k: int| 0 <= k < es.len() ==> #[trigger] export_of_entry(d, t, js[k], es[k])
            &&& forall|a: int, b: int| 0 <= a < b < es.len() ==> js[a] < js[b]
        },
    decreases t.num_names - i,
{
    if i >= t.num_names {
        return Seq::empty();
    }
    let rest_js = lemma_export_loop_entries(d, t, i + 1);
    if !(export_loop(d, t, i) is Some && export_loop(d, t, i)->Some_0 is Ok) {
        return Seq::empty();
    }
    let name_rva = le32(d, t.names_off + i * 4)->Some_0;
    if rva_lookup(d, t.sections, t.nsections, name_rva, 0) is Err {
        return Seq::empty();
    }
    let name_off = rva_lookup(d, t.sections, t.nsections, name_rva, 0)->Ok_0;
    let name = utf8_lossy(until_nul(d.skip(name_off)));
    if name.len() == 0 {
        assert(export_loop(d, t, i) == export_loop(d, t, i + 1));
        let es = export_loop(d, t, i)->Some_0->Ok_0;
        assert(export_loop(d, t, i + 1) == Some(Ok::<Seq<ExportView>, Seq<char>>(es)));
        assert(rest_js.len() == es.len());
        return rest_js;
    }
    match le16(d, t.ords_off + i * 2) {
        None => Seq::empty(),
        Some(ord) => {
            if ord >= t.num_funcs {
                assert(export_loop(d, t, i) == export_loop(d, t, i + 1));
                let es = export_loop(d, t, i)->Some_0->Ok_0;
                rest_js
            } else {
                match le32(d, t.funcs_off + ord * 4) {
                    None => Seq::empty(),
                    Some(func_rva) => {
                        let es = export_loop(d, t, i)->Some_0->Ok_0;
                        let rest = export_loop(d, t, i + 1)->Some_0->Ok_0;
                        let e = ExportView { name, forwarder: export_forwarder(d, t, func_rva, name) };
                        assert(es == seq![e] + rest);
                        let js2 = seq![i] + rest_js;
                        assert(export_of_entry(d, t, i, e));
                        assert forall|k: int| 0 <= k < js2.len() implies i <= #[trigger] js2[k] by {
                            if k > 0 {
                                assert(js2[k] == rest_js[k - 1]);
                            }
                        }
                        assert forall|k: int| 0 <= k < es.len() implies #[trigger] export_of_entry(d, t, js2[k], es[k]) by {
                            if k > 0 {
                                assert(js2[k] == rest_js[k - 1]);
                                assert(es[k] == rest[k - 1]);
                            } else {
                                assert(js2[0] == i);
                                assert(es[0] == e);
                            }
                        }
                        assert forall|a: int, b: int| 0 <= a < b < es.len() implies js2[a] < js2[b] by {
                            if a > 0 {
                                assert(js2[a] == rest_js[a - 1] && js2[b] == rest_js[b - 1]);
                            } else {
                                assert(js2[b] == rest_js[b - 1]);
                            }
                        }
                        js2
                    },
                }
            }
        },
    }
}

/// The headers of a PE32 or PE32+ image, as far as the export table:
/// `Ok(None)` when it has none.
pub open spec fn pe_header(d: Seq<u8>) -> Result<Option<PeTables>, Seq<char>> {
    match le32(d, 0x3c) {
        None => Err(truncated_at(0x3c)),
        Some(e_lfanew) => if e_lfanew + 4 > d.len() {
            Err("truncated PE"@)
        } else if d.subrange(e_lfanew, e_lfanew + 4) != seq![0x50u8, 0x45u8, 0u8, 0u8] {
            Err("not a PE file"@)
        } else {
            let fh = e_lfanew + 4;
            match le16(d, fh) {
                None => Err(truncated_at(fh)),
                Some(machine) => if machine != 0x8664 && machine != 0x014c {
                    Err("unsupported PE machine 0x"@ + hex4(machine))
                } else {
                    match le16(d, fh + 2) {
                        None => Err(truncated_at(fh + 2)),
                        Some(nsections) => match le16(d, fh + 16) {
                            None => Err(truncated_at(fh + 16)),
                            Some(opt_size) => pe_optional(d, fh + 20, nsections, opt_size),
                        },
                    }
                },
            }
        },
    }
}

/// The optional header at `opt` and the export directory it points at.
pub open spec fn pe_optional(d: Seq<u8>, opt: int, nsections: int, opt_size: int) -> Result<
    Option<PeTables>,
    Seq<char>,
> {
    match le16(d, opt) {
        None => Err(truncated_at(opt)),
        Some(magic) => if magic != 0x20b && magic != 0x10b {
            Err("unsupported PE optional-header magic 0x"@ + hex4(magic))
        } else {
            let dd = if magic == 0x20b { 112int } else { 96int };
            match le32(d, opt + dd) {
                None => Err(truncated_at(opt + dd)),
                Some(export_rva) => if export_rva == 0 {
                    Ok(None)
                } else {
                    pe_export_dir(d, opt + opt_size, nsections, export_rva)
                },
            }
        },
    }
}

/// The export directory at `export_rva`.
pub open spec fn pe_export_dir(d: Seq<u8>, sections: int, nsections: int, export_rva: int) -> Result<
    Option<PeTables>,
    Seq<char>,
> {
    match rva_lookup(d, sections, nsections, export_rva, 0) {
        Err(e) => Err(e),
        Ok(exp) => match le32(d, exp + 12) {
            None => Err(truncated_at(exp + 12)),
            Some(_) => match le32(d, exp + 20) {
                None => Err(truncated_at(exp + 20)),
                Some(num_funcs) => match le32(d, exp + 24) {
                    None => Err(truncated_at(exp + 24)),
                    Some(num_names) => match le32(d, exp + 28) {
                        None => Err(truncated_at(exp + 28)),
                        Some(funcs_rva) => match rva_lookup(d, sections, nsections, funcs_rva, 0) {
                            Err(e) => Err(e),
                            Ok(funcs_off) => match le32(d, exp + 32) {
                                None => Err(truncated_at(exp + 32)),
                                Some(names_rva) => match rva_lookup(
                                    d,
                                    sections,
                                    nsections,
                                    names_rva,
                                    0,
                                ) {
                                    Err(e) => Err(e),
                                    Ok(names_off) => match le32(d, exp + 36) {
                                        None => Err(truncated_at(exp + 36)),
                                        Some(ords_rva) => match rva_lookup(
                                            d,
                                            sections,
                                            nsections,
                                            ords_rva,
                                            0,
                                        ) {
                                            Err(e) => Err(e),
                                            Ok(ords_off) => Ok(
                                                Some(
                                                    PeTables {
                                                        sections,
                                                        nsections,
                                                        num_funcs,
                                                        num_names,
                                                        funcs_off,
                                                        names_off,
                                                        ords_off,
                                                    },
                                                ),
                                            ),
                                        },
                                    },
                                },
                            },
                        },
                    },
                },
            },
        },
    }
}

/// The exports of a PE image, or why it could not be read; `None` when a
/// name lies past the end of the data.
pub open spec fn pe_scan(d: Seq<u8>) -> Option<Result<Seq<ExportView>, Seq<char>>> {
    match pe_header(d) {
        Err(e) => Some(Err(e)),
        Ok(None) => Some(Ok(Seq::empty())),
        Ok(Some(t)) => export_loop(d, t, 0),
    }
}

/// Whether scanning a PE image reads every export name inside the data.
pub open spec fn pe_names_in_range(d: Seq<u8>) -> bool {
    pe_scan(d) is Some
}

pub open spec fn opt_int(o: Option<u64>) -> Option<int> {
    match o {
        Some(v) => Some(v as int),
        None => None,
    }
}

fn read_le16(d: &[u8], off: u64) -> (r: Option<u64>)
    ensures
        opt_int(r) == le16(d@, off as int),
        r matches Some(v) ==> v < 0x1_0000,
{
    let len = d.len() as u64;
    if off > len || len - off < 2 {
        None
    } else {
        let i = off as usize;
        Some(d[i] as u64 + 256 * (d[i + 1] as u64))
    }
}

fn read_le32(d: &[u8], off: u64) -> (r: Option<u64>)
    ensures
        opt_int(r) == le32(d@, off as int),
        r matches Some(v) ==> v < 0x1_0000_0000,
{
    let len = d.len() as u64;
    if off > len || len - off < 4 {
        None
    } else {
        let i = off as usize;
        Some(
            d[i] as u64 + 256 * (d[i + 1] as u64) + 65536 * (d[i + 2] as u64) + 16777216 * (d[i
                + 3] as u64),
        )
    }
}

fn truncated_msg(off: u64) -> (r: String)
    ensures
        r@ == truncated_at(off as int),
{
    let mut m = owned("truncated PE at ");
    m.append(hex_u64(off).as_str());
    m
}

fn hex4_exec(n: u64) -> (r: String)
    requires
        n < 0x1_0000,
    ensures
        r@ == hex4(n as int),
{
    let mut r = String::new();
    push_char(&mut r, crate::text::hex_digit_char((n / 4096) % 16));
    push_char(&mut r, crate::text::hex_digit_char((n / 256) % 16));
    push_char(&mut r, crate::text::hex_digit_char((n / 16) % 16));
    push_char(&mut r, crate::text::hex_digit_char(n % 16));
    r
}

pub open spec fn offset_result(r: Result<u64, String>) -> Result<int, Seq<char>> {
    match r {
        Ok(v) => Ok(v as int),
        Err(e) => Err(e@),
    }
}

/// The file offset of `rva` from the section headers at `sections`.
fn rva_to_off(d: &[u8], sections: u64, nsections: u64, rva: u64) -> (r: Result<u64, String>)
    requires
        sections < 0x100_0000_0000,
        nsections < 0x1_0000,
        rva < 0x1_0000_0000,
    ensures
        offset_result(r) == rva_lookup(d@, sections as int, nsections as int, rva as int, 0),
        r matches Ok(v) ==> v < 0x2_0000_0000,
{
    let mut k: u64 = 0;
    while k < nsections
        invariant
            k <= nsections < 0x1_0000,
            sections < 0x100_0000_0000,
            rva < 0x1_0000_0000,
            rva_lookup(d@, sections as int, nsections as int, rva as int, 0) == rva_lookup(
                d@,
                sections as int,
                nsections as int,
                rva as int,
                k as int,
            ),
        decreases nsections - k,
    {
        let s = sections + k * 40;
        let vsize = match read_le32(d, s + 8) {
            Some(v) => v,
            None => return Err(truncated_msg(s + 8)),
        };
        let vaddr = match read_le32(d, s + 12) {
            Some(v) => v,
            None => return Err(truncated_msg(s + 12)),
        };
        let rawsize = match read_le32(d, s + 16) {
            Some(v) => v,
            None => return Err(truncated_msg(s + 16)),
        };
        let rawptr = match read_le32(d, s + 20) {
            Some(v) => v,
            None => return Err(truncated_msg(s + 20)),
        };
        let span = if vsize >= rawsize { vsize } else { rawsize };
        if rva >= vaddr && rva < vaddr + span {
            return Ok(rawptr + (rva - vaddr));
        }
        k = k + 1;
    }
    let mut m = owned("RVA ");
    m.append(hex_u64(rva).as_str());
    m.append(" not in any section");
    assert(m@ =~= "RVA "@ + seq!['0', 'x'] + hex_digits(rva as nat) + " not in any section"@);
    Err(m)
}

/// The table offsets of an image's export directory.
struct TablesExec {
    sections: u64,
    nsections: u64,
    num_funcs: u64,
    num_names: u64,
    funcs_off: u64,
    names_off: u64,
    ords_off: u64,
}

impl TablesExec {
    spec fn tables(&self) -> PeTables {
        PeTables {
            sections: self.sections as int,
            nsections: self.nsections as int,
            num_funcs: self.num_funcs as int,
            num_names: self.num_names as int,
            funcs_off: self.funcs_off as int,
            names_off: self.names_off as int,
            ords_off: self.ords_off as int,
        }
    }

    spec fn bounded(&self) -> bool {
        &&& self.sections < 0x100_0000_0000
        &&& self.nsections < 0x1_0000
        &&& self.num_funcs < 0x1_0000_0000
        &&& self.num_names < 0x1_0000_0000
        &&& self.funcs_off < 0x2_0000_0000
        &&& self.names_off < 0x2_0000_0000
        &&& self.ords_off < 0x2_0000_0000
    }
}

pub open spec fn header_result(r: Result<Option<PeTables>, String>) -> Result<Option<PeTables>, Seq<char>> {
    match r {
        Ok(t) => Ok(t),
        Err(e) => Err(e@),
    }
}

fn read_export_dir(d: &[u8], sections: u64, nsections: u64, export_rva: u64) -> (r: Result<
    TablesExec,
    String,
>)
    requires
        sections < 0x100_0000_0000,
        nsections < 0x1_0000,
        export_rva < 0x1_0000_0000,
    ensures
        match r {
            Ok(t) => t.bounded() && pe_export_dir(
                d@,
                sections as int,
                nsections as int,
                export_rva as int,
            ) == Ok::<Option<PeTables>, Seq<char>>(Some(t.tables())),
            Err(e) => pe_export_dir(d@, sections as int, nsections as int, export_rva as int)
                == Err::<Option<PeTables>, Seq<char>>(e@),
        },
{
    let exp = rva_to_off(d, sections, nsections, export_rva)?;
    match read_le32(d, exp + 12) {
        Some(_) => {},
        None => return Err(truncated_msg(exp + 12)),
    }
    let num_funcs = match read_le32(d, exp + 20) {
        Some(v) => v,
        None => return Err(truncated_msg(exp + 20)),
    };
    let num_names = match read_le32(d, exp + 24) {
        Some(v) => v,
        None => return Err(truncated_msg(exp + 24)),
    };
    let funcs_rva = match read_le32(d, exp + 28) {
        Some(v) => v,
        None => return Err(truncated_msg(exp + 28)),
    };
    let funcs_off = rva_to_off(d, sections, nsections, funcs_rva)?;
    let names_rva = match read_le32(d, exp + 32) {
        Some(v) => v,
        None => return Err(truncated_msg(exp + 32)),
    };
    let names_off = rva_to_off(d, sections, nsections, names_rva)?;
    let ords_rva = match read_le32(d, exp + 36) {
        Some(v) => v,
        None => return Err(truncated_msg(exp + 36)),
    };
    let ords_off = rva_to_off(d, sections, nsections, ords_rva)?;
    Ok(TablesExec { sections, nsections, num_funcs, num_names, funcs_off, names_off, ords_off })
}

fn read_pe_header(d: &[u8]) -> (r: Result<Option<TablesExec>, String>)
    ensures
        match r {
            Ok(Some(t)) => t.bounded() && pe_header(d@) == Ok::<Option<PeTables>, Seq<char>>(
                Some(t.tables()),
            ),
            Ok(None) => pe_header(d@) == Ok::<Option<PeTables>, Seq<char>>(None),
            Err(e) => pe_header(d@) == Err::<Option<PeTables>, Seq<char>>(e@),
        },
{
    let e_lfanew = match read_le32(d, 0x3c) {
        Some(v) => v,
        None => return Err(truncated_msg(0x3c)),
    };
    let len = d.len() as u64;
    if e_lfanew > len || len - e_lfanew < 4 {
        return Err(owned("truncated PE"));
    }
    let at = e_lfanew as usize;
    if !(d[at] == 0x50 && d[at + 1] == 0x45 && d[at + 2] == 0 && d[at + 3] == 0) {
        assert(d@.subrange(e_lfanew as int, e_lfanew + 4) != seq![0x50u8, 0x45u8, 0u8, 0u8]) by {
            let w = d@.subrange(e_lfanew as int, e_lfanew + 4);
            if w == seq![0x50u8, 0x45u8, 0u8, 0u8] {
                assert(w[0] == d@[at as int]);
                assert(w[1] == d@[at + 1]);
                assert(w[2] == d@[at + 2]);
                assert(w[3] == d@[at + 3]);
            }
        }
        return Err(owned("not a PE file"));
    }
    assert(d@.subrange(e_lfanew as int, e_lfanew + 4) =~= seq![0x50u8, 0x45u8, 0u8, 0u8]);
    let fh = e_lfanew + 4;
    let machine = match read_le16(d, fh) {
        Some(v) => v,
        None => return Err(truncated_msg(fh)),
    };
    if machine != 0x8664 && machine != 0x014c {
        let mut m = owned("unsupported PE machine 0x");
        m.append(hex4_exec(machine).as_str());
        return Err(m);
    }
    let nsections = match read_le16(d, fh + 2) {
        Some(v) => v,
        None => return Err(truncated_msg(fh + 2)),
    };
    let opt_size = match read_le16(d, fh + 16) {
        Some(v) => v,
        None => return Err(truncated_msg(fh + 16)),
    };
    let opt = fh + 20;
    let magic = match read_le16(d, opt) {
        Some(v) => v,
        None => return Err(truncated_msg(opt)),
    };
    if magic != 0x20b && magic != 0x10b {
        let mut m = owned("unsupported PE optional-header magic 0x");
        m.append(hex4_exec(magic).as_str());
        return Err(m);
    }
    let dd: u64 = if magic == 0x20b { 112 } else { 96 };
    let export_rva = match read_le32(d, opt + dd) {
        Some(v) => v,
        None => return Err(truncated_msg(opt + dd)),
    };
    if export_rva == 0 {
        return Ok(None);
    }
    let t = read_export_dir(d, opt + opt_size, nsections, export_rva)?;
    Ok(Some(t))
}

/// The export name at file offset `off`: the bytes up to the first NUL,
/// decoded with invalid sequences replaced.
fn name_at(d: &[u8], off: usize) -> (r: String)
    requires
        off <= d.len(),
    ensures
        r@ == utf8_lossy(until_nul(d@.skip(off as int))),
{
    let mut end = off;
    while end < d.len() && d[end] != 0
        invariant
            off <= end <= d.len(),
            forall|k: int| off <= k < end ==> d@[k] != 0,
        decreases d.len() - end,
    {
        end = end + 1;
    }
    proof {
        lemma_until_nul(d@.skip(off as int), end - off);
        assert(d@.skip(off as int).take(end - off) =~= d@.subrange(off as int, end as int));
    }
    utf8_lossy_string(&d[off..end])
}

/// The forwarder named by the NUL-terminated string at `off`, if any.
fn forwarder_at_exec(d: &[u8], off: u64) -> (r: Option<(String, String)>)
    ensures
        match forwarder_at(d@, off as int) {
            Some((x, y)) => r matches Some((rx, ry)) && rx@ == x && ry@ == y,
            None => r is None,
        },
{
    let len = d.len() as u64;
    if off >= len {
        return None;
    }
    let start = off as usize;
    let mut end = start;
    while end < d.len() && end - start < 256 && d[end] != 0
        invariant
            start <= end <= d.len(),
            end - start <= 256,
            forall|k: int| start <= k < end ==> d@[k] != 0,
        decreases d.len() - end,
    {
        end = end + 1;
    }
    let ghost w = forwarder_window(d@, off as int);
    proof {
        assert(forall|k: int| 0 <= k < end - start ==> w[k] == d@[start + k]);
        if end < d.len() && end - start < 256 && d@[end as int] == 0 {
            lemma_until_nul(w, end - start);
        } else {
            lemma_until_nul(w, w.len() as int);
            assert(w.take(w.len() as int) =~= w);
        }
    }
    if end >= d.len() || end - start >= 256 || d[end] != 0 {
        return None;
    }
    assert(until_nul(w) =~= d@.subrange(start as int, end as int));
    match utf8_to_string(&d[start..end]) {
        Ok(candidate) => parse_forwarder(candidate.as_str()),
        Err(_) => None,
    }
}

fn export_forwarder_exec(d: &[u8], t: &TablesExec, func_rva: u64, name: &String) -> (r: Option<
    (String, String),
>)
    requires
        t.bounded(),
        func_rva < 0x1_0000_0000,
    ensures
        match export_forwarder(d@, t.tables(), func_rva as int, name@) {
            Some((x, y)) => r matches Some((rx, ry)) && rx@ == x && ry@ == y,
            None => r is None,
        },
{
    if func_rva == 0 {
        return None;
    }
    match rva_to_off(d, t.sections, t.nsections, func_rva) {
        Err(_) => None,
        Ok(off) => match forwarder_at_exec(d, off) {
            Some((dll, sym)) => {
                if dll == *name {
                    None
                } else {
                    Some((dll, sym))
                }
            },
            None => None,
        },
    }
}

pub open spec fn scan_view(r: Option<Result<Vec<Export>, String>>) -> Option<
    Result<Seq<ExportView>, Seq<char>>,
> {
    match r {
        None => None,
        Some(Ok(v)) => Some(Ok(exports_view(v@))),
        Some(Err(e)) => Some(Err(e@)),
    }
}

/// Scan the PE export directory of a Windows DLL (PE32 or PE32+); `None`
/// when an export name lies past the end of the data.
pub fn scan_pe_exports(data: &[u8]) -> (r: Option<Result<Vec<Export>, String>>)
    ensures
        scan_view(r) == pe_scan(data@),
{
    let t = match read_pe_header(data) {
        Err(e) => return Some(Err(e)),
        Ok(None) => {
            let v: Vec<Export> = Vec::new();
            assert(exports_view(v@) =~= Seq::<ExportView>::empty());
            return Some(Ok(v));
        },
        Ok(Some(t)) => t,
    };
    let ghost tt = t.tables();
    let mut out: Vec<Export> = Vec::new();
    let mut i: u64 = 0;
    assert(exports_view(out@) =~= Seq::<ExportView>::empty());
    assert(prefix_exports(Seq::<ExportView>::empty(), export_loop(data@, tt, 0)) == export_loop(
        data@,
        tt,
        0,
    )) by {
        match export_loop(data@, tt, 0) {
            Some(Ok(r)) => assert(Seq::<ExportView>::empty() + r =~= r),
            _ => {},
        }
    }
    while i < t.num_names
        invariant
            t.bounded(),
            tt == t.tables(),
            i <= t.num_names,
            pe_scan(data@) == prefix_exports(exports_view(out@), export_loop(data@, tt, i as int)),
        decreases t.num_names - i,
    {
        let ghost pre = exports_view(out@);
        let name_rva = match read_le32(data, t.names_off + i * 4) {
            Some(v) => v,
            None => return Some(Err(truncated_msg(t.names_off + i * 4))),
        };
        let name_off = match rva_to_off(data, t.sections, t.nsections, name_rva) {
            Ok(o) => o,
            Err(_) => {
                assert(pre + Seq::<ExportView>::empty() =~= pre);
                return Some(Ok(out));
            },
        };
        if name_off > data.len() as u64 {
            return None;
        }
        let name = name_at(data, name_off as usize);
        if name.as_str().is_empty() {
            i = i + 1;
            continue;
        }
        let ord = match read_le16(data, t.ords_off + i * 2) {
            Some(v) => v,
            None => {
                assert(pre + Seq::<ExportView>::empty() =~= pre);
                return Some(Ok(out));
            },
        };
        if ord >= t.num_funcs {
            i = i + 1;
            continue;
        }
        let func_rva = match read_le32(data, t.funcs_off + ord * 4) {
            Some(v) => v,
            None => {
                assert(pre + Seq::<ExportView>::empty() =~= pre);
                return Some(Ok(out));
            },
        };
        let forwarder = export_forwarder_exec(data, &t, func_rva, &name);
        let e = Export { name, forwarder };
        let ghost ev = e@;
        out.push(e);
        proof {
            assert(exports_view(out@) =~= pre.push(ev));
            match export_loop(data@, tt, i + 1) {
                Some(Ok(r)) => assert(pre + (seq![ev] + r) =~= pre.push(ev) + r),
                _ => {},
            }
        }
        i = i + 1;
    }
    assert(prefix_exports(exports_view(out@), export_loop(data@, tt, i as int)) == Some(
        Ok::<Seq<ExportView>, Seq<char>>(exports_view(out@) + Seq::<ExportView>::empty()),
    ));
    assert(exports_view(out@) + Seq::<ExportView>::empty() =~= exports_view(out@));
    Some(Ok(out))
}

/// Parse the PE export directory of a Windows DLL.
///
/// Handles PE32 and PE32+; a non-zero function RVA that points at a
/// `dll:symbol` string is treated as a forwarded export.
pub fn parse_pe_exports(data: &[u8]) -> (r: Result<Vec<Export>, String>)
    requires
        pe_names_in_range(data@),
    ensures
        Some(
            match r {
                Ok(v) => Ok::<Seq<ExportView>, Seq<char>>(exports_view(v@)),
                Err(e) => Err(e@),
            },
        ) == pe_scan(data@),
{
    match scan_pe_exports(data) {
        Some(r) => r,
        None => Err(String::new()),
    }
}

// ---------------------------------------------------------------------------
// Regeneration decisions
// ---------------------------------------------------------------------------

/// The DLL file name for a stem.
pub fn dll_file_name(stem: &str) -> (r: String)
    ensures
        r@ == stem@ + ".dll"@,
{
    let mut r = owned(stem);
    r.append(".dll");
    r
}

/// The `.def` and `.lib` file names generated for a DLL.
pub fn import_lib_names(dll_name: &str) -> (r: (String, String))
    ensures
        r.0@ == dll_name@ + ".def"@,
        r.1@ == dll_name@ + ".lib"@,
{
    let mut def = owned(dll_name);
    def.append(".def");
    let mut lib = owned(dll_name);
    lib.append(".lib");
    (def, lib)
}

/// The file name of the rustc-bundled LLD on a host triple.
pub fn rust_lld_exe(host: &str) -> (r: &'static str)
    ensures
        r@ == if "-pc-windows-msvc"@.is_suffix_of(host@) {
            "rust-lld.exe"@
        } else {
            "rust-lld"@
        },
{
    if crate::text::has_suffix(host, "-pc-windows-msvc") {
        "rust-lld.exe"
    } else {
        "rust-lld"
    }
}

/// Whether the mandatory `libleanshared.dll` is among the DLLs found.
pub fn has_required_dll(found: &[String]) -> (r: bool)
    ensures
        r == strings_view(found@).contains("libleanshared.dll"@),
{
    let target = owned("libleanshared.dll");
    let mut i: usize = 0;
    while i < found.len()
        invariant
            i <= found.len(),
            target@ == "libleanshared.dll"@,
            forall|k: int| 0 <= k < i ==> found@[k]@ != "libleanshared.dll"@,
        decreases found.len() - i,
    {
        if found[i] == target {
            assert(strings_view(found@)[i as int] == "libleanshared.dll"@);
            return true;
        }
        i = i + 1;
    }
    assert(!strings_view(found@).contains("libleanshared.dll"@)) by {
        if strings_view(found@).contains("libleanshared.dll"@) {
            let k = choose|k: int| 0 <= k < found@.len() && strings_view(found@)[k] == "libleanshared.dll"@;
            assert(found@[k]@ == strings_view(found@)[k]);
        }
    }
    false
}

/// `{n:016x}`: exactly `w` lower-case hex digits of `n`, zero-padded.
pub open spec fn hex_fixed(n: nat, w: nat) -> Seq<char>
    decreases w,
{
    if w == 0 {
        Seq::empty()
    } else {
        hex_fixed(n / 16, (w - 1) as nat).push(hex_digit(n % 16))
    }
}

/// The cache directory name for a DLL-set hash.
pub fn import_dir_name(hash: u64) -> (r: String)
    ensures
        r@ == "win-imports-"@ + hex_fixed(hash as nat, 16),
{
    let mut digits: Vec<char> = Vec::new();
    let mut m: u64 = hash;
    let mut k: u64 = 0;
    while k < 16
        invariant
            k <= 16,
            hex_fixed(hash as nat, 16) == hex_fixed(m as nat, (16 - k) as nat) + digits@.reverse(),
        decreases 16 - k,
    {
        let ghost old_digits = digits@;
        digits.push(crate::text::hex_digit_char(m % 16));
        assert(digits@.reverse() =~= seq![hex_digit((m % 16) as nat)] + old_digits.reverse());
        assert(hex_fixed(m as nat, (16 - k) as nat) == hex_fixed((m / 16) as nat, (16 - k - 1) as nat).push(
            hex_digit((m % 16) as nat),
        ));
        assert(hex_fixed((m / 16) as nat, (16 - k - 1) as nat).push(hex_digit((m % 16) as nat))
            + old_digits.reverse() =~= hex_fixed((m / 16) as nat, (16 - k - 1) as nat) + (seq![
            hex_digit((m % 16) as nat),
        ] + old_digits.reverse()));
        m = m / 16;
        k = k + 1;
    }
    assert(hex_fixed(m as nat, 0) =~= Seq::<char>::empty());
    assert(hex_fixed(hash as nat, 16) =~= digits@.reverse());
    let mut r = owned("win-imports-");
    let mut i: usize = digits.len();
    while i > 0
        invariant
            i <= digits.len(),
            r@ == "win-imports-"@ + digits@.reverse().take((digits.len() - i) as int),
        decreases i,
    {
        i = i - 1;
        push_char(&mut r, digits[i]);
        assert(digits@.reverse().take((digits.len() - i) as int) =~= digits@.reverse().take(
            (digits.len() - i - 1) as int,
        ).push(digits@[i as int]));
    }
    assert(digits@.reverse().take(digits.len() as int) =~= digits@.reverse());
    r
}

/// One DLL's part of the cache key: its path (as `{:?}` prints it), size and
/// modification time.
pub open spec fn cache_key_part(path_debug: Seq<char>, len: u64, mtime: u64) -> Seq<char> {
    path_debug + ":"@ + crate::text::decimal_digits(len as nat) + ":"@ + crate::text::decimal_digits(
        mtime as nat,
    ) + ";"@
}

pub open spec fn cache_key_text(parts: Seq<(Seq<char>, u64, u64)>) -> Seq<char>
    decreases parts.len(),
{
    if parts.len() == 0 {
        Seq::empty()
    } else {
        cache_key_text(parts.drop_last()) + cache_key_part(
            parts.last().0,
            parts.last().1,
            parts.last().2,
        )
    }
}

pub open spec fn key_entries_view(e: Seq<(String, u64, u64)>) -> Seq<(Seq<char>, u64, u64)> {
    e.map_values(|x: (String, u64, u64)| (x.0@, x.1, x.2))
}

/// The cache key of a DLL set: the identity of every input DLL.
pub fn cache_key(entries: &[(String, u64, u64)]) -> (r: String)
    ensures
        r@ == cache_key_text(key_entries_view(entries@)),
{
    let mut key = String::new();
    let mut i: usize = 0;
    while i < entries.len()
        invariant
            i <= entries.len(),
            key@ == cache_key_text(key_entries_view(entries@).take(i as int)),
        decreases entries.len() - i,
    {
        let ghost prev = key@;
        key.append(entries[i].0.as_str());
        key.append(":");
        crate::text::push_decimal(&mut key, entries[i].1);
        key.append(":");
        crate::text::push_decimal(&mut key, entries[i].2);
        key.append(";");
        proof {
            let ev = key_entries_view(entries@);
            assert(ev.take(i + 1).drop_last() =~= ev.take(i as int));
            assert(key@ =~= prev + cache_key_part(ev[i as int].0, ev[i as int].1, ev[i as int].2));
        }
        i = i + 1;
    }
    assert(key_entries_view(entries@).take(i as int) =~= key_entries_view(entries@));
    key
}

pub open spec fn export_names(es: Seq<ExportView>) -> Seq<Seq<char>> {
    es.map_values(|e: ExportView| e.name)
}

/// The exports of one DLL whose names were not already taken by `seen` or by
/// an earlier export of the same DLL.
pub open spec fn kept_exports(es: Seq<ExportView>, seen: Seq<Seq<char>>) -> Seq<ExportView>
    decreases es.len(),
{
    if es.len() == 0 {
        Seq::empty()
    } else {
        let prev = kept_exports(es.drop_last(), seen);
        let x = es.last();
        if seen.contains(x.name) || export_names(es.drop_last()).contains(x.name) {
            prev
        } else {
            prev.push(x)
        }
    }
}

/// Every export name of the DLLs, in link order.
pub open spec fn all_export_names(ds: Seq<(Seq<char>, Seq<ExportView>)>) -> Seq<Seq<char>>
    decreases ds.len(),
{
    if ds.len() == 0 {
        Seq::empty()
    } else {
        all_export_names(ds.drop_last()) + export_names(ds.last().1)
    }
}

/// Global symbol dedupe: the first DLL in link order that provides a symbol
/// keeps it.
pub open spec fn first_wins(ds: Seq<(Seq<char>, Seq<ExportView>)>) -> Seq<(Seq<char>, Seq<ExportView>)> {
    Seq::new(ds.len(), |j: int| (ds[j].0, kept_exports(ds[j].1, all_export_names(ds.take(j)))))
}

pub open spec fn dll_exports_view(ds: Seq<(String, Vec<Export>)>) -> Seq<(Seq<char>, Seq<ExportView>)> {
    ds.map_values(|d: (String, Vec<Export>)| (d.0@, exports_view(d.1@)))
}

fn contains_string(v: &Vec<String>, s: &String) -> (r: bool)
    ensures
        r == strings_view(v@).contains(s@),
{
    let mut i: usize = 0;
    while i < v.len()
        invariant
            i <= v.len(),
            forall|k: int| 0 <= k < i ==> v@[k]@ != s@,
        decreases v.len() - i,
    {
        if v[i] == *s {
            assert(strings_view(v@)[i as int] == s@);
            return true;
        }
        i = i + 1;
    }
    assert(!strings_view(v@).contains(s@)) by {
        if strings_view(v@).contains(s@) {
            let k = choose|k: int| 0 <= k < v@.len() && strings_view(v@)[k] == s@;
            assert(v@[k]@ == strings_view(v@)[k]);
        }
    }
    false
}

fn copy_export(e: &Export) -> (r: Export)
    ensures
        r@ == e@,
{
    Export {
        name: e.name.clone(),
        forwarder: match &e.forwarder {
            Some((d, n)) => Some((d.clone(), n.clone())),
            None => None,
        },
    }
}

/// Keep, per DLL in link order, only the exports whose names no earlier DLL
/// (and no earlier export of the same DLL) provided.
pub fn dedupe_exports(dlls: &Vec<(String, Vec<Export>)>) -> (r: Vec<(String, Vec<Export>)>)
    ensures
        dll_exports_view(r@) == first_wins(dll_exports_view(dlls@)),
{
    let ghost ds = dll_exports_view(dlls@);
    let mut seen: Vec<String> = Vec::new();
    let mut out: Vec<(String, Vec<Export>)> = Vec::new();
    let mut j: usize = 0;
    while j < dlls.len()
        invariant
            j <= dlls.len(),
            ds == dll_exports_view(dlls@),
            forall|n: Seq<char>|
                #![trigger strings_view(seen@).contains(n)]
                strings_view(seen@).contains(n) <==> all_export_names(ds.take(j as int)).contains(n),
            dll_exports_view(out@) == first_wins(ds).take(j as int),
        decreases dlls.len() - j,
    {
        let exports = &dlls[j].1;
        let ghost es = exports_view(exports@);
        let ghost seen0 = all_export_names(ds.take(j as int));
        assert(ds[j as int].1 == es);
        let mut kept: Vec<Export> = Vec::new();
        let mut i: usize = 0;
        assert(es.take(0) =~= Seq::<ExportView>::empty());
        while i < exports.len()
            invariant
                i <= exports.len(),
                es == exports_view(exports@),
                forall|n: Seq<char>|
                    #![trigger strings_view(seen@).contains(n)]
                    strings_view(seen@).contains(n) <==> (seen0.contains(n) || export_names(
                        es.take(i as int),
                    ).contains(n)),
                exports_view(kept@) == kept_exports(es.take(i as int), seen0),
            decreases exports.len() - i,
        {
            let ghost s_before = strings_view(seen@);
            let ghost x = es[i as int];
            assert(es.take(i + 1).drop_last() =~= es.take(i as int));
            assert(es.take(i + 1).last() == x);
            assert(export_names(es.take(i + 1)) =~= export_names(es.take(i as int)).push(x.name));
            assert(exports@[i as int].name@ == x.name);
            let present = contains_string(&seen, &exports[i].name);
            if !present {
                seen.push(exports[i].name.clone());
                let ghost kv = exports_view(kept@);
                kept.push(copy_export(&exports[i]));
                assert(exports_view(kept@) =~= kv.push(x));
                assert(strings_view(seen@) =~= s_before.push(x.name));
            }
            let ghost prev_names = export_names(es.take(i as int));
            let ghost next_names = export_names(es.take(i + 1));
            let ghost seen_now = strings_view(seen@);
            assert forall|n: Seq<char>|
                #![trigger seen_now.contains(n)]
                seen_now.contains(n) <==> (seen0.contains(n) || next_names.contains(n)) by {
                if n == x.name {
                    assert(next_names[i as int] == n);
                } else if prev_names.contains(n) {
                    let m = choose|m: int| 0 <= m < prev_names.len() && #[trigger] prev_names[m] == n;
                    assert(next_names[m] == n);
                } else if next_names.contains(n) {
                    let m = choose|m: int| 0 <= m < next_names.len() && #[trigger] next_names[m] == n;
                    if m < i {
                        assert(prev_names[m] == n);
                    }
                }
                if !present {
                    if seen_now.contains(n) && n != x.name {
                        let m = choose|m: int| 0 <= m < seen_now.len() && #[trigger] seen_now[m] == n;
                        assert(s_before[m] == n);
                    }
                    if s_before.contains(n) {
                        let m = choose|m: int| 0 <= m < s_before.len() && #[trigger] s_before[m] == n;
                        assert(seen_now[m] == n);
                    }
                    if n == x.name {
                        assert(seen_now[s_before.len() as int] == n);
                    }
                }
            }
            i = i + 1;
        }
        assert(es.take(i as int) =~= es);
        let ghost ov = dll_exports_view(out@);
        assert(ds.len() == dlls@.len());
        assert(first_wins(ds).len() == ds.len());
        assert(ov.len() == j);
        assert(out@.len() == ov.len());
        let ghost kept_view = exports_view(kept@);
        let name_copy = dlls[j].0.clone();
        out.push((name_copy, kept));
        assert(out@.len() == j + 1);
        assert(exports_view(out@[j as int].1@) == kept_view);
        assert(kept_view == kept_exports(es, seen0));
        proof {
            assert(ds.take(j + 1).drop_last() =~= ds.take(j as int));
            assert(ds.take(j + 1).last() == ds[j as int]);
            assert(all_export_names(ds.take(j + 1)) == seen0 + export_names(es));
            assert(ds[j as int].0 == dlls@[j as int].0@);
            assert(dll_exports_view(out@)[j as int] == first_wins(ds)[j as int]);
            assert(dll_exports_view(out@).take(j as int) =~= ov);
            assert(dll_exports_view(out@) =~= first_wins(ds).take(j + 1));
            assert forall|n: Seq<char>|
                #![trigger strings_view(seen@).contains(n)]
                strings_view(seen@).contains(n) <==> all_export_names(ds.take(j + 1)).contains(n) by {
                let all = seen0 + export_names(es);
                if seen0.contains(n) {
                    let m = choose|m: int| #![auto] 0 <= m < seen0.len() && seen0[m] == n;
                    assert(all[m] == n);
                }
                if export_names(es).contains(n) {
                    let m = choose|m: int| #![auto] 0 <= m < export_names(es).len() && export_names(es)[m] == n;
                    assert(all[seen0.len() + m] == n);
                }
                if all.contains(n) {
                    let m = choose|m: int| #![auto] 0 <= m < all.len() && all[m] == n;
                    if m < seen0.len() {
                        assert(seen0[m] == n);
                    } else {
                        assert(export_names(es)[m - seen0.len()] == n);
                    }
                }
            }
        }
        j = j + 1;
    }
    assert(first_wins(ds).take(j as int) =~= first_wins(ds));
    out
}

/// How many times `.dll` ends a name is removed (`trim_end_matches(".dll")`).
pub open spec fn trim_dll(s: Seq<char>) -> Seq<char>
    decreases s.len(),
{
    if s.len() >= 4 && ".dll"@ == s.skip(s.len() - 4) {
        trim_dll(s.take(s.len() - 4))
    } else {
        s
    }
}

/// The position in link order of a generated import lib's DLL.
pub open spec fn lib_rank(dll_name: Seq<char>) -> int {
    let t = trim_dll(dll_name);
    if t == dll_stems()[0] {
        0
    } else if t == dll_stems()[1] {
        1
    } else if t == dll_stems()[2] {
        2
    } else if t == dll_stems()[3] {
        3
    } else {
        4
    }
}

pub open spec fn lib_pairs_view(v: Seq<(String, String)>) -> Seq<(Seq<char>, Seq<char>)> {
    v.map_values(|p: (String, String)| (p.0@, p.1@))
}

/// The libs of rank `k`, in their given order.
pub open spec fn libs_of_rank(v: Seq<(Seq<char>, Seq<char>)>, k: int) -> Seq<(Seq<char>, Seq<char>)> {
    v.filter(rank_is(k))
}

pub open spec fn rank_is(k: int) -> spec_fn((Seq<char>, Seq<char>)) -> bool {
    |p: (Seq<char>, Seq<char>)| lib_rank(p.0) == k
}

/// The libs in link order: stably sorted by their DLL's position among the
/// stems, unknown DLLs last.
pub open spec fn link_order_spec(v: Seq<(Seq<char>, Seq<char>)>) -> Seq<(Seq<char>, Seq<char>)> {
    libs_of_rank(v, 0) + libs_of_rank(v, 1) + libs_of_rank(v, 2) + libs_of_rank(v, 3) + libs_of_rank(
        v,
        4,
    )
}

fn trim_dll_exec(s: &str) -> (r: Vec<char>)
    ensures
        r@ == trim_dll(s@),
{
    let mut cs = chars_of(s);
    while cs.len() >= 4 && cs[cs.len() - 4] == '.' && cs[cs.len() - 3] == 'd' && cs[cs.len() - 2]
        == 'l' && cs[cs.len() - 1] == 'l'
        invariant
            trim_dll(cs@) == trim_dll(s@),
        decreases cs.len(),
    {
        proof {
            reveal_strlit(".dll");
            assert(".dll"@ =~= cs@.skip(cs@.len() - 4));
        }
        cs.truncate(cs.len() - 4);
    }
    proof {
        reveal_strlit(".dll");
        if cs@.len() >= 4 && ".dll"@ == cs@.skip(cs@.len() - 4) {
            assert(cs@.skip(cs@.len() - 4)[0] == '.');
            assert(cs@.skip(cs@.len() - 4)[1] == 'd');
            assert(cs@.skip(cs@.len() - 4)[2] == 'l');
            assert(cs@.skip(cs@.len() - 4)[3] == 'l');
        }
    }
    cs
}

fn lib_rank_exec(dll_name: &str) -> (r: usize)
    ensures
        r as int == lib_rank(dll_name@),
{
    let t = trim_dll_exec(dll_name);
    let stems = lean_dll_stems();
    proof {
        assert(stems@.map_values(|s: &str| s@).len() == stems@.len());
        assert(stems@.len() == 4);
        assert(stems@.map_values(|s: &str| s@)[0] == stems@[0]@);
        assert(stems@.map_values(|s: &str| s@)[1] == stems@[1]@);
        assert(stems@.map_values(|s: &str| s@)[2] == stems@[2]@);
        assert(stems@.map_values(|s: &str| s@)[3] == stems@[3]@);
    }
    let mut k: usize = 0;
    while k < 4
        invariant
            k <= 4,
            stems@.len() == 4,
            stems@.map_values(|s: &str| s@) == dll_stems(),
            t@ == trim_dll(dll_name@),
            forall|m: int| 0 <= m < k ==> t@ != #[trigger] dll_stems()[m],
        decreases 4 - k,
    {
        assert(stems@.map_values(|s: &str| s@)[k as int] == stems@[k as int]@);
        if crate::text::chars_eq_str(&t, stems[k]) {
            return k;
        }
        k = k + 1;
    }
    4
}

/// Order generated import libs by link order (stable for equal ranks).
pub fn link_order(libs: Vec<(String, String)>) -> (r: Vec<(String, String)>)
    ensures
        lib_pairs_view(r@) == link_order_spec(lib_pairs_view(libs@)),
{
    let ghost v = lib_pairs_view(libs@);
    let mut ranks: Vec<usize> = Vec::new();
    let mut i: usize = 0;
    while i < libs.len()
        invariant
            i <= libs.len(),
            ranks@.len() == i,
            forall|m: int| 0 <= m < i ==> ranks@[m] as int == lib_rank(#[trigger] libs@[m].0@),
        decreases libs.len() - i,
    {
        ranks.push(lib_rank_exec(libs[i].0.as_str()));
        i = i + 1;
    }
    let mut out: Vec<(String, String)> = Vec::new();
    let mut k: usize = 0;
    while k < 5
        invariant
            k <= 5,
            v == lib_pairs_view(libs@),
            ranks@.len() == libs@.len(),
            forall|m: int| 0 <= m < libs@.len() ==> ranks@[m] as int == lib_rank(#[trigger] libs@[m].0@),
            lib_pairs_view(out@) == rank_prefix(v, k as int),
        decreases 5 - k,
    {
        let mut j: usize = 0;
        let ghost base = lib_pairs_view(out@);
        while j < libs.len()
            invariant
                j <= libs.len(),
                k < 5,
                v == lib_pairs_view(libs@),
                ranks@.len() == libs@.len(),
                forall|m: int| 0 <= m < libs@.len() ==> ranks@[m] as int == lib_rank(#[trigger] libs@[m].0@),
                lib_pairs_view(out@) == base + libs_of_rank(v.take(j as int), k as int),
            decreases libs.len() - j,
        {
            let ghost before = lib_pairs_view(out@);
            proof {
                assert(v.take(j + 1) =~= v.take(j as int).push(v[j as int]));
                assert(v[j as int].0 == libs@[j as int].0@);
                lemma_filter_push(v.take(j as int), v[j as int], k as int);
            }
            if ranks[j] == k {
                out.push((libs[j].0.clone(), libs[j].1.clone()));
                assert(lib_pairs_view(out@) =~= before.push(v[j as int]));
                assert(base + libs_of_rank(v.take(j as int), k as int).push(v[j as int]) =~= (base
                    + libs_of_rank(v.take(j as int), k as int)).push(v[j as int]));
            }
            j = j + 1;
        }
        assert(v.take(j as int) =~= v);
        proof {
            assert(rank_prefix(v, k + 1) == rank_prefix(v, k as int) + libs_of_rank(v, k as int));
        }
        k = k + 1;
    }
    proof {
        reveal_with_fuel(rank_prefix, 6);
        assert(rank_prefix(v, 5) =~= link_order_spec(v));
    }
    out
}

/// The libs of ranks below `k`, rank by rank.
pub open spec fn rank_prefix(v: Seq<(Seq<char>, Seq<char>)>, k: int) -> Seq<(Seq<char>, Seq<char>)>
    decreases k,
{
    if k <= 0 {
        Seq::empty()
    } else {
        rank_prefix(v, k - 1) + libs_of_rank(v, k - 1)
    }
}

proof fn lemma_filter_push(v: Seq<(Seq<char>, Seq<char>)>, x: (Seq<char>, Seq<char>), k: int)
    ensures
        libs_of_rank(v.push(x), k) == if lib_rank(x.0) == k {
            libs_of_rank(v, k).push(x)
        } else {
            libs_of_rank(v, k)
        },
{
    v.lemma_filter_push(x, rank_is(k));
}

/// No name occurs twice.
pub open spec fn names_distinct(s: Seq<Seq<char>>) -> bool {
    forall|i: int, j: int| 0 <= i < j < s.len() ==> s[i] != s[j]
}

proof fn lemma_kept_exports(es: Seq<ExportView>, seen: Seq<Seq<char>>)
    ensures
        names_distinct(export_names(kept_exports(es, seen))),
        forall|n: Seq<char>| #[trigger] export_names(kept_exports(es, seen)).contains(n) ==> !seen.contains(n)
            && export_names(es).contains(n),
        forall|n: Seq<char>| #[trigger] export_names(es).contains(n) ==> seen.contains(n) || export_names(
            kept_exports(es, seen),
        ).contains(n),
    decreases es.len(),
{
    if es.len() > 0 {
        let rest = es.drop_last();
        let x = es.last();
        lemma_kept_exports(rest, seen);
        let prev = kept_exports(rest, seen);
        let pn = export_names(prev);
        let en = export_names(es);
        let rn = export_names(rest);
        assert(en =~= rn.push(x.name));
        assert forall|n: Seq<char>| #[trigger] rn.contains(n) implies en.contains(n) by {
            let m = choose|m: int| 0 <= m < rn.len() && #[trigger] rn[m] == n;
            assert(en[m] == n);
        }
        if seen.contains(x.name) || rn.contains(x.name) {
            assert(kept_exports(es, seen) == prev);
            assert forall|n: Seq<char>| #[trigger] en.contains(n) implies seen.contains(n) || pn.contains(n) by {
                let m = choose|m: int| 0 <= m < en.len() && #[trigger] en[m] == n;
                if m < rn.len() {
                    assert(rn[m] == n);
                    assert(rn.contains(n));
                } else {
                    assert(n == x.name);
                    if rn.contains(x.name) {
                        assert(rn.contains(n));
                    }
                }
            }
            assert forall|n: Seq<char>| #[trigger] pn.contains(n) implies !seen.contains(n) && en.contains(n) by {
                assert(rn.contains(n));
            }
        } else {
            assert(kept_exports(es, seen) == prev.push(x));
            let k = prev.push(x);
            assert(export_names(k) =~= pn.push(x.name));
            assert(!pn.contains(x.name));
            assert forall|i: int, j: int| 0 <= i < j < export_names(k).len() implies export_names(k)[i]
                != export_names(k)[j] by {
                if j == pn.len() {
                    assert(pn[i] == export_names(k)[i]);
                }
            }
            assert forall|n: Seq<char>| #[trigger] export_names(k).contains(n) implies !seen.contains(n)
                && en.contains(n) by {
                let m = choose|m: int| 0 <= m < export_names(k).len() && #[trigger] export_names(k)[m] == n;
                if m < pn.len() {
                    assert(pn[m] == n);
                    assert(pn.contains(n));
                    assert(rn.contains(n));
                } else {
                    assert(en[rn.len() as int] == n);
                }
            }
            assert forall|n: Seq<char>| #[trigger] en.contains(n) implies seen.contains(n) || export_names(k).contains(n) by {
                let m = choose|m: int| 0 <= m < en.len() && #[trigger] en[m] == n;
                if m < rn.len() {
                    assert(rn[m] == n);
                    assert(rn.contains(n));
                    if pn.contains(n) {
                        let q = choose|q: int| 0 <= q < pn.len() && #[trigger] pn[q] == n;
                        assert(export_names(k)[q] == n);
                    }
                } else {
                    assert(export_names(k)[pn.len() as int] == n);
                }
            }
        }
    }
}

proof fn lemma_first_wins_last(ds: Seq<(Seq<char>, Seq<ExportView>)>)
    requires
        ds.len() > 0,
    ensures
        first_wins(ds) == first_wins(ds.drop_last()).push(
            (ds.last().0, kept_exports(ds.last().1, all_export_names(ds.drop_last()))),
        ),
{
    assert forall|j: int| 0 <= j < ds.len() - 1 implies #[trigger] ds.take(j) == ds.drop_last().take(j) by {
        assert(ds.take(j) =~= ds.drop_last().take(j));
    }
    assert(ds.take(ds.len() - 1) =~= ds.drop_last());
    assert(first_wins(ds) =~= first_wins(ds.drop_last()).push(
        (ds.last().0, kept_exports(ds.last().1, all_export_names(ds.drop_last()))),
    ));
}

/// Law: after the cross-DLL dedupe every symbol is imported from exactly one
/// DLL, every symbol some DLL exports is still imported, and nothing else is.
pub proof fn lemma_first_wins_dedupe(ds: Seq<(Seq<char>, Seq<ExportView>)>)
    ensures
        names_distinct(all_export_names(first_wins(ds))),
        forall|n: Seq<char>| #[trigger] all_export_names(ds).contains(n) <==> all_export_names(
            first_wins(ds),
        ).contains(n),
    decreases ds.len(),
{
    if ds.len() == 0 {
        assert(first_wins(ds) =~= Seq::<(Seq<char>, Seq<ExportView>)>::empty());
    } else {
        let prev = ds.drop_last();
        lemma_first_wins_dedupe(prev);
        lemma_first_wins_last(ds);
        let seen = all_export_names(prev);
        let kept = kept_exports(ds.last().1, seen);
        lemma_kept_exports(ds.last().1, seen);
        let fw = first_wins(ds);
        assert(fw.drop_last() =~= first_wins(prev));
        let a = all_export_names(first_wins(prev));
        let kn = export_names(kept);
        assert(all_export_names(fw) == a + kn);
        let en = export_names(ds.last().1);
        assert(all_export_names(ds) == seen + en);
        assert forall|i: int, j: int| 0 <= i < j < (a + kn).len() implies (a + kn)[i] != (a + kn)[j] by {
            if j >= a.len() && i < a.len() {
                assert(a.contains(a[i]));
                assert(seen.contains(a[i]) == a.contains(a[i]));
                assert(kn.contains(kn[j - a.len()]));
                assert(kn[j - a.len()] == (a + kn)[j]);
            } else if i >= a.len() {
                assert(kn[i - a.len()] == (a + kn)[i]);
                assert(kn[j - a.len()] == (a + kn)[j]);
            }
        }
        assert forall|n: Seq<char>| #[trigger] (seen + en).contains(n) <==> (a + kn).contains(n) by {
            if (seen + en).contains(n) {
                let m = choose|m: int| 0 <= m < (seen + en).len() && #[trigger] (seen + en)[m] == n;
                if m < seen.len() {
                    assert(seen[m] == n);
                    assert(seen.contains(n));
                    assert(a.contains(n));
                    let q = choose|q: int| 0 <= q < a.len() && #[trigger] a[q] == n;
                    assert((a + kn)[q] == n);
                } else {
                    assert(en[m - seen.len()] == n);
                    assert(en.contains(n));
                    if seen.contains(n) {
                        assert(a.contains(n));
                        let q = choose|q: int| 0 <= q < a.len() && #[trigger] a[q] == n;
                        assert((a + kn)[q] == n);
                    } else {
                        assert(kn.contains(n));
                        let q = choose|q: int| 0 <= q < kn.len() && #[trigger] kn[q] == n;
                        assert((a + kn)[a.len() + q] == n);
                    }
                }
            }
            if (a + kn).contains(n) {
                let m = choose|m: int| 0 <= m < (a + kn).len() && #[trigger] (a + kn)[m] == n;
                if m < a.len() {
                    assert(a[m] == n);
                    assert(a.contains(n));
                    assert(seen.contains(n) == a.contains(n));
                    let q = choose|q: int| 0 <= q < seen.len() && #[trigger] seen[q] == n;
                    assert((seen + en)[q] == n);
                } else {
                    assert(kn[m - a.len()] == n);
                    assert(kn.contains(n));
                    let q = choose|q: int| 0 <= q < en.len() && #[trigger] en[q] == n;
                    assert((seen + en)[seen.len() + q] == n);
                }
            }
        }
    }
}

} // verus!
