//! Recovering embedded metadata from a loaded binary image: from the symbol
//! table, from the dedicated metadata section and from a PE export table.
use vstd::prelude::*;
use vstd::string::*;
use vstd::utf8::{decode_utf8, valid_utf8};
use crate::codegen::metadata_symbol_kind;
use crate::embed::{pairs_view, parse_metadata_entries, scan_entries, METADATA_SECTION_MARKER};
use object::read::pe::{ExportTable, ExportTarget};
use object::{File, Object, ObjectSection, ObjectSymbol, Error as ObjError, Result as ObjResult};
use crate::text::{
    contains_seq, contains_str, decimal_digits, hex_digits, hex_u64, push_decimal,
    utf8_error_message, utf8_to_string,
};

verus! {

/// One section of a binary: its name (or the reader's error), load address,
/// size and contents (or the reader's error).
pub struct SectionInfo {
    pub name: Result<String, String>,
    pub address: u64,
    pub size: u64,
    pub data: Result<Vec<u8>, String>,
}

/// One symbol-table entry: its name (or the reader's error), address and size.
pub struct SymbolInfo {
    pub name: Result<String, String>,
    pub address: u64,
    pub size: u64,
}

/// One PE export: its raw name, if any, and its address when the export is
/// not a forwarder.
pub struct ExportInfo {
    pub name: Option<Vec<u8>>,
    pub address: Option<u32>,
}

/// The export directory of a PE image as the reader gives it: the table
/// (or the reader's error), absent, or its exports (or the reader's error).
pub type PeExports = Result<Option<Result<Vec<ExportInfo>, String>>, String>;

/// What the metadata recovery reads of a parsed binary: its sections and
/// symbols, and, for a PE image, its export directory.
pub struct ObjectImage {
    pub sections: Vec<SectionInfo>,
    pub symbols: Vec<SymbolInfo>,
    pub pe_exports: Option<PeExports>,
}

pub struct SectionView {
    pub name: Result<Seq<char>, Seq<char>>,
    pub address: u64,
    pub size: u64,
    pub data: Result<Seq<u8>, Seq<char>>,
}

pub struct SymbolView {
    pub name: Result<Seq<char>, Seq<char>>,
    pub address: u64,
    pub size: u64,
}

pub struct ExportView {
    pub name: Option<Seq<u8>>,
    pub address: Option<u32>,
}

pub struct ObjectImageView {
    pub sections: Seq<SectionView>,
    pub symbols: Seq<SymbolView>,
    pub exports: Seq<ExportView>,
}

pub open spec fn str_result_view(r: Result<String, String>) -> Result<Seq<char>, Seq<char>> {
    match r {
        Ok(s) => Ok(s@),
        Err(e) => Err(e@),
    }
}

impl View for SectionInfo {
    type V = SectionView;

    open spec fn view(&self) -> SectionView {
        SectionView {
            name: str_result_view(self.name),
            address: self.address,
            size: self.size,
            data: match self.data {
                Ok(d) => Ok(d@),
                Err(e) => Err(e@),
            },
        }
    }
}

impl View for SymbolInfo {
    type V = SymbolView;

    open spec fn view(&self) -> SymbolView {
        SymbolView { name: str_result_view(self.name), address: self.address, size: self.size }
    }
}

impl View for ExportInfo {
    type V = ExportView;

    open spec fn view(&self) -> ExportView {
        ExportView {
            name: match self.name {
                Some(n) => Some(n@),
                None => None,
            },
            address: self.address,
        }
    }
}

pub open spec fn sections_view(s: Seq<SectionInfo>) -> Seq<SectionView> {
    s.map_values(|x: SectionInfo| x@)
}

pub open spec fn symbols_view(s: Seq<SymbolInfo>) -> Seq<SymbolView> {
    s.map_values(|x: SymbolInfo| x@)
}

pub open spec fn exports_view(s: Seq<ExportInfo>) -> Seq<ExportView> {
    s.map_values(|x: ExportInfo| x@)
}

/// The exports the metadata recovery reads: those of a PE export table
/// that could be read and listed; none otherwise.
pub open spec fn readable_exports(pe: Option<PeExports>) -> Seq<ExportView> {
    match pe {
        Some(Ok(Some(Ok(v)))) => exports_view(v@),
        _ => Seq::empty(),
    }
}

impl View for ObjectImage {
    type V = ObjectImageView;

    open spec fn view(&self) -> ObjectImageView {
        ObjectImageView {
            sections: sections_view(self.sections@),
            symbols: symbols_view(self.symbols@),
            exports: readable_exports(self.pe_exports),
        }
    }
}

/// The sections `object` reads from a binary's bytes (name, address, size,
/// data, each read as the crate gives it), or its parse error text; a
/// function of the bytes alone.
pub uninterp spec fn object_sections_of(bytes: Seq<u8>) -> Result<Seq<SectionView>, Seq<char>>;

/// The symbols `object` reads from a binary's bytes, or its parse error text.
pub uninterp spec fn object_symbols_of(bytes: Seq<u8>) -> Result<Seq<SymbolView>, Seq<char>>;

/// The PE export directory `object` reads from a binary's bytes (`None` for
/// an image that is not PE), or its parse error text.
pub uninterp spec fn object_pe_exports_of(bytes: Seq<u8>) -> Result<Option<PeExportsView>, Seq<char>>;

pub enum PeExportsView {
    Unreadable(Seq<char>),
    Absent,
    Unlisted(Seq<char>),
    Listed(Seq<ExportView>),
}

pub open spec fn pe_exports_view(pe: PeExports) -> PeExportsView {
    match pe {
        Err(e) => PeExportsView::Unreadable(e@),
        Ok(None) => PeExportsView::Absent,
        Ok(Some(Err(e))) => PeExportsView::Unlisted(e@),
        Ok(Some(Ok(v))) => PeExportsView::Listed(exports_view(v@)),
    }
}

/// The image read from a binary's bytes: its sections, symbols and the
/// exports of a listed PE export table, or the first parse error.
pub open spec fn object_image_of(bytes: Seq<u8>) -> Result<ObjectImageView, Seq<char>> {
    match object_sections_of(bytes) {
        Err(e) => Err(e),
        Ok(sections) => match object_symbols_of(bytes) {
            Err(e) => Err(e),
            Ok(symbols) => match object_pe_exports_of(bytes) {
                Err(e) => Err(e),
                Ok(pe) => Ok(
                    ObjectImageView {
                        sections,
                        symbols,
                        exports: match pe {
                            Some(PeExportsView::Listed(v)) => v,
                            _ => Seq::empty(),
                        },
                    },
                ),
            },
        },
    }
}

/// Parse a binary with `object::File::parse` and read out its sections:
/// name, address, size and data, each as the crate gives it.
#[verifier::external_body]
fn object_sections(bytes: &[u8]) -> (r: Result<Vec<SectionInfo>, String>)
    ensures
        match r {
            Ok(v) => object_sections_of(bytes@) == Ok::<Seq<SectionView>, Seq<char>>(sections_view(v@)),
            Err(e) => object_sections_of(bytes@) == Err::<Seq<SectionView>, Seq<char>>(e@),
        },
{
    let f = File::parse(bytes).map_err(|e| e.to_string())?;
    Ok(f.sections().map(|s| SectionInfo { name: s.name().map(String::from).map_err(|e| e.to_string()), address: s.address(), size: s.size(), data: s.data().map(Vec::from).map_err(|e| e.to_string()) }).collect())
}

/// Parse a binary with `object::File::parse` and read out its symbols:
/// name, address and size, each as the crate gives it.
#[verifier::external_body]
fn object_symbols(bytes: &[u8]) -> (r: Result<Vec<SymbolInfo>, String>)
    ensures
        match r {
            Ok(v) => object_symbols_of(bytes@) == Ok::<Seq<SymbolView>, Seq<char>>(symbols_view(v@)),
            Err(e) => object_symbols_of(bytes@) == Err::<Seq<SymbolView>, Seq<char>>(e@),
        },
{
    let f = File::parse(bytes).map_err(|e| e.to_string())?;
    Ok(f.symbols().map(|s| SymbolInfo { name: s.name().map(String::from).map_err(|e| e.to_string()), address: s.address(), size: s.size() }).collect())
}

/// Parse a binary with `object::File::parse` and, for a PE image, read its
/// export table (`export_table`) and list its exports (`exports`): each
/// export's name and, when its target is an address, that address.
#[verifier::external_body]
fn object_pe_exports(bytes: &[u8]) -> (r: Result<Option<PeExports>, String>)
    ensures
        match r {
            Ok(pe) => object_pe_exports_of(bytes@) == Ok::<Option<PeExportsView>, Seq<char>>(
                match pe {
                    Some(x) => Some(pe_exports_view(x)),
                    None => None,
                },
            ),
            Err(e) => object_pe_exports_of(bytes@) == Err::<Option<PeExportsView>, Seq<char>>(e@),
        },
{
    let err = |e: ObjError| e.to_string();
    let f = File::parse(bytes).map_err(err)?;
    let list = |t: ExportTable| t.exports().map(|v| v.iter().map(|e| ExportInfo { name: e.name.map(Vec::from), address: match e.target { ExportTarget::Address(a) => Some(a), _ => None } }).collect());
    let table = |r: ObjResult<Option<ExportTable>>| r.map(|t| t.map(|t| list(t).map_err(err))).map_err(err);
    Ok(match &f { File::Pe32(pe) => Some(table(pe.export_table())), File::Pe64(pe) => Some(table(pe.export_table())), _ => None })
}

pub open spec fn image_result_view(r: Result<ObjectImage, String>) -> Result<ObjectImageView, Seq<char>> {
    match r {
        Ok(i) => Ok(i@),
        Err(e) => Err(e@),
    }
}

/// Read the image of a binary given as bytes.
pub fn parse_object_image(bytes: &[u8]) -> (r: Result<ObjectImage, String>)
    ensures
        image_result_view(r) == object_image_of(bytes@),
{
    let sections = object_sections(bytes)?;
    let symbols = object_symbols(bytes)?;
    let pe_exports = object_pe_exports(bytes)?;
    Ok(ObjectImage { sections, symbols, pe_exports })
}

/// Whether a symbol name carries module or class metadata.
pub open spec fn is_metadata_name(n: Seq<char>) -> bool {
    "__leo3_module_metadata_json_"@.is_prefix_of(n) || "__leo3_class_metadata_json_"@.is_prefix_of(n)
}

/// The bytes before the first NUL (all of them when there is none).
pub open spec fn until_nul(b: Seq<u8>) -> Seq<u8>
    decreases b.len(),
{
    if b.len() == 0 {
        Seq::empty()
    } else if b[0] == 0 {
        Seq::empty()
    } else {
        seq![b[0]] + until_nul(b.drop_first())
    }
}

/// The metadata text held by `bytes` up to the first NUL.
pub open spec fn metadata_text(bytes: Seq<u8>) -> Result<Seq<char>, Seq<char>> {
    let b = until_nul(bytes);
    if valid_utf8(b) {
        Ok(decode_utf8(b))
    } else {
        Err("metadata is not valid UTF-8: "@ + utf8_error_message(b))
    }
}

/// Whether section `s` contains the byte range `[address, address + size)`.
pub open spec fn holds_range(s: SectionView, address: u64, size: u64) -> bool {
    address >= s.address && address + size <= s.address + s.size
}

/// Whether section `s` contains the byte at `address`.
pub open spec fn holds_address(s: SectionView, address: u64) -> bool {
    address >= s.address && address < s.address + s.size
}

/// Index of the first section holding the range, or -1.
pub open spec fn first_holding_range(ss: Seq<SectionView>, address: u64, size: u64) -> int
    decreases ss.len(),
{
    if ss.len() == 0 {
        -1
    } else if holds_range(ss[0], address, size) {
        0
    } else {
        let r = first_holding_range(ss.drop_first(), address, size);
        if r < 0 {
            -1
        } else {
            r + 1
        }
    }
}

/// Index of the first section holding the address, or -1.
pub open spec fn first_holding_address(ss: Seq<SectionView>, address: u64) -> int
    decreases ss.len(),
{
    if ss.len() == 0 {
        -1
    } else if holds_address(ss[0], address) {
        0
    } else {
        let r = first_holding_address(ss.drop_first(), address);
        if r < 0 {
            -1
        } else {
            r + 1
        }
    }
}

/// The error for a read past the end of a section's file data (such as a
/// zero-filled `.bss` section, whose declared size has no bytes in the file).
pub open spec fn short_data_message() -> Seq<char> {
    "section data is shorter than its declared size"@
}

/// Reading `size` bytes of metadata at `address`.
pub open spec fn read_bytes_result(ss: Seq<SectionView>, address: u64, size: u64) -> Result<
    Seq<char>,
    Seq<char>,
> {
    let k = first_holding_range(ss, address, size);
    if k < 0 {
        Err("no section contains address "@ + seq!['0', 'x'] + hex_digits(address as nat)
            + " (size "@ + decimal_digits(size as nat) + ")"@)
    } else {
        match ss[k].data {
            Err(e) => Err("failed to read section data: "@ + e),
            Ok(d) => {
                let off = address - ss[k].address;
                if off + size > d.len() {
                    Err("failed to read section data: "@ + short_data_message())
                } else {
                    metadata_text(d.subrange(off, off + size))
                }
            },
        }
    }
}

/// Reading NUL-terminated metadata at `address`.
pub open spec fn read_null_terminated_result(ss: Seq<SectionView>, address: u64) -> Result<
    Seq<char>,
    Seq<char>,
> {
    let k = first_holding_address(ss, address);
    if k < 0 {
        Err("no section contains address "@ + seq!['0', 'x'] + hex_digits(address as nat))
    } else {
        match ss[k].data {
            Err(e) => Err("failed to read section data: "@ + e),
            Ok(d) => if address - ss[k].address > d.len() {
                Err("failed to read section data: "@ + short_data_message())
            } else {
                metadata_text(d.skip(address - ss[k].address))
            },
        }
    }
}

pub open spec fn string_result_view(r: Result<String, String>) -> Result<Seq<char>, Seq<char>> {
    str_result_view(r)
}

proof fn lemma_first_holding_range_step(ss: Seq<SectionView>, address: u64, size: u64, i: int)
    requires
        0 <= i < ss.len(),
        forall|j: int| 0 <= j < i ==> !holds_range(#[trigger] ss[j], address, size),
    ensures
        holds_range(ss[i], address, size) ==> first_holding_range(ss, address, size) == i,
        (forall|j: int| 0 <= j < ss.len() ==> !holds_range(#[trigger] ss[j], address, size))
            ==> first_holding_range(ss, address, size) == -1,
    decreases i,
{
    if i > 0 {
        lemma_first_holding_range_step(ss.drop_first(), address, size, i - 1);
    } else {
        lemma_first_holding_range_none(ss, address, size);
    }
}

proof fn lemma_first_holding_range_none(ss: Seq<SectionView>, address: u64, size: u64)
    ensures
        (forall|j: int| 0 <= j < ss.len() ==> !holds_range(#[trigger] ss[j], address, size))
            ==> first_holding_range(ss, address, size) == -1,
    decreases ss.len(),
{
    if ss.len() > 0 {
        lemma_first_holding_range_none(ss.drop_first(), address, size);
        if forall|j: int| 0 <= j < ss.len() ==> !holds_range(#[trigger] ss[j], address, size) {
            assert forall|j: int| 0 <= j < ss.drop_first().len() implies !holds_range(
                #[trigger] ss.drop_first()[j],
                address,
                size,
            ) by {
                assert(ss.drop_first()[j] == ss[j + 1]);
            }
        }
    }
}

proof fn lemma_first_holding_address_step(ss: Seq<SectionView>, address: u64, i: int)
    requires
        0 <= i < ss.len(),
        forall|j: int| 0 <= j < i ==> !holds_address(#[trigger] ss[j], address),
    ensures
        holds_address(ss[i], address) ==> first_holding_address(ss, address) == i,
    decreases i,
{
    if i > 0 {
        lemma_first_holding_address_step(ss.drop_first(), address, i - 1);
    }
}

proof fn lemma_first_holding_address_none(ss: Seq<SectionView>, address: u64)
    ensures
        (forall|j: int| 0 <= j < ss.len() ==> !holds_address(#[trigger] ss[j], address))
            ==> first_holding_address(ss, address) == -1,
    decreases ss.len(),
{
    if ss.len() > 0 {
        lemma_first_holding_address_none(ss.drop_first(), address);
        if forall|j: int| 0 <= j < ss.len() ==> !holds_address(#[trigger] ss[j], address) {
            assert forall|j: int| 0 <= j < ss.drop_first().len() implies !holds_address(
                #[trigger] ss.drop_first()[j],
                address,
            ) by {
                assert(ss.drop_first()[j] == ss[j + 1]);
            }
        }
    }
}

/// Decode the bytes before the first NUL of `bytes` as metadata text.
fn decode_until_nul(bytes: &[u8]) -> (r: Result<String, String>)
    ensures
        string_result_view(r) == metadata_text(bytes@),
{
    let mut end: usize = 0;
    while end < bytes.len() && bytes[end] != 0
        invariant
            end <= bytes.len(),
            forall|k: int| 0 <= k < end ==> bytes@[k] != 0,
        decreases bytes.len() - end,
    {
        end = end + 1;
    }
    proof {
        lemma_until_nul(bytes@, end as int);
    }
    let prefix = &bytes[0..end];
    match utf8_to_string(prefix) {
        Ok(s) => Ok(s),
        Err(e) => {
            let mut msg = String::new();
            msg.append("metadata is not valid UTF-8: ");
            msg.append(e.as_str());
            Err(msg)
        },
    }
}

pub proof fn lemma_until_nul(b: Seq<u8>, end: int)
    requires
        0 <= end <= b.len(),
        forall|k: int| 0 <= k < end ==> b[k] != 0,
        end == b.len() || b[end] == 0,
    ensures
        until_nul(b) == b.take(end),
    decreases end,
{
    if end > 0 {
        lemma_until_nul(b.drop_first(), end - 1);
        assert(b.take(end) =~= seq![b[0]] + b.drop_first().take(end - 1));
    } else {
        assert(b.take(end) =~= Seq::<u8>::empty());
    }
}

fn short_data_error() -> (r: String)
    ensures
        r@ == "failed to read section data: "@ + short_data_message(),
{
    let mut msg = String::new();
    msg.append("failed to read section data: ");
    msg.append("section data is shorter than its declared size");
    msg
}

fn data_error(e: &String) -> (r: String)
    ensures
        r@ == "failed to read section data: "@ + e@,
{
    let mut msg = String::new();
    msg.append("failed to read section data: ");
    msg.append(e.as_str());
    msg
}

/// Read `size` bytes of metadata at `address` from the first section that
/// holds them; the text ends at the first NUL.
pub fn read_bytes_at(obj: &ObjectImage, address: u64, size: u64) -> (r: Result<String, String>)
    ensures
        string_result_view(r) == read_bytes_result(sections_view(obj.sections@), address, size),
{
    let ghost ss = sections_view(obj.sections@);
    let mut i: usize = 0;
    while i < obj.sections.len()
        invariant
            i <= obj.sections.len(),
            ss == sections_view(obj.sections@),
            forall|j: int| 0 <= j < i ==> !holds_range(#[trigger] ss[j], address, size),
        decreases obj.sections.len() - i,
    {
        let section = &obj.sections[i];
        assert(ss[i as int] == section@);
        let section_addr = section.address;
        let section_size = section.size;
        if (address as u128) >= (section_addr as u128) && (address as u128) + (size as u128)
            <= (section_addr as u128) + (section_size as u128) {
            proof {
                lemma_first_holding_range_step(ss, address, size, i as int);
            }
            let offset = address - section_addr;
            match &section.data {
                Err(e) => {
                    return Err(data_error(e));
                },
                Ok(data) => {
                    assert(ss[i as int].data == Ok::<Seq<u8>, Seq<char>>(data@));
                    let dlen = data.len();
                    if (offset as u128) + (size as u128) > (dlen as u128) {
                        return Err(short_data_error());
                    }
                    let start = offset as usize;
                    let stop = (offset + size) as usize;
                    let slice = data.as_slice();
                    assert(slice@.len() == data@.len());
                    let part = &slice[start..stop];
                    assert(part@ =~= data@.subrange(start as int, stop as int));
                    return decode_until_nul(part);
                },
            }
        }
        i = i + 1;
    }
    proof {
        lemma_first_holding_range_none(ss, address, size);
    }
    let mut msg = String::new();
    msg.append("no section contains address ");
    let hex = hex_u64(address);
    msg.append(hex.as_str());
    msg.append(" (size ");
    push_decimal(&mut msg, size);
    msg.append(")");
    assert(msg@ =~= "no section contains address "@ + seq!['0', 'x'] + hex_digits(address as nat)
        + " (size "@ + decimal_digits(size as nat) + ")"@);
    Err(msg)
}

/// Read NUL-terminated metadata at `address` from the first section that
/// holds that address.
pub fn read_null_terminated_at(obj: &ObjectImage, address: u64) -> (r: Result<String, String>)
    ensures
        string_result_view(r) == read_null_terminated_result(sections_view(obj.sections@), address),
{
    let ghost ss = sections_view(obj.sections@);
    let mut i: usize = 0;
    while i < obj.sections.len()
        invariant
            i <= obj.sections.len(),
            ss == sections_view(obj.sections@),
            forall|j: int| 0 <= j < i ==> !holds_address(#[trigger] ss[j], address),
        decreases obj.sections.len() - i,
    {
        let section = &obj.sections[i];
        assert(ss[i as int] == section@);
        let section_addr = section.address;
        let section_size = section.size;
        if address >= section_addr && (address as u128) < (section_addr as u128) + (
        section_size as u128) {
            proof {
                lemma_first_holding_address_step(ss, address, i as int);
            }
            let offset = address - section_addr;
            match &section.data {
                Err(e) => {
                    return Err(data_error(e));
                },
                Ok(data) => {
                    assert(ss[i as int].data == Ok::<Seq<u8>, Seq<char>>(data@));
                    let dlen = data.len();
                    if (offset as u128) > (dlen as u128) {
                        return Err(short_data_error());
                    }
                    let start = offset as usize;
                    let s = data.as_slice();
                    let part = &s[start..s.len()];
                    assert(part@ =~= data@.skip(start as int));
                    return decode_until_nul(part);
                },
            }
        }
        i = i + 1;
    }
    proof {
        lemma_first_holding_address_none(ss, address);
    }
    let mut msg = String::new();
    msg.append("no section contains address ");
    let hex = hex_u64(address);
    msg.append(hex.as_str());
    assert(msg@ =~= "no section contains address "@ + seq!['0', 'x'] + hex_digits(address as nat));
    Err(msg)
}

// ---------------------------------------------------------------------------
// Collecting entries from every source
// ---------------------------------------------------------------------------

pub type Entries = Seq<(Seq<char>, Seq<char>)>;

/// Metadata read through the symbol table; the first failed read is the error.
pub open spec fn symbols_scan(ss: Seq<SectionView>, syms: Seq<SymbolView>) -> Result<Entries, Seq<char>>
    decreases syms.len(),
{
    if syms.len() == 0 {
        Ok(Seq::empty())
    } else {
        match symbols_scan(ss, syms.drop_last()) {
            Err(e) => Err(e),
            Ok(acc) => {
                let s = syms.last();
                match s.name {
                    Err(_) => Ok(acc),
                    Ok(n) => if !is_metadata_name(n) {
                        Ok(acc)
                    } else {
                        let read = if s.size > 0 {
                            read_bytes_result(ss, s.address, s.size)
                        } else {
                            read_null_terminated_result(ss, s.address)
                        };
                        match read {
                            Err(e) => Err(e),
                            Ok(j) => Ok(acc.push((n, j))),
                        }
                    },
                }
            },
        }
    }
}

/// Framed entries found in every readable metadata section, in section order.
pub open spec fn sections_scan(ss: Seq<SectionView>) -> Entries
    decreases ss.len(),
{
    if ss.len() == 0 {
        Seq::empty()
    } else {
        sections_scan(ss.drop_last()) + section_entries(ss.last())
    }
}

pub open spec fn section_entries(s: SectionView) -> Entries {
    match (s.name, s.data) {
        (Ok(n), Ok(d)) => if contains_seq(n, METADATA_SECTION_MARKER@) {
            scan_entries(d)
        } else {
            Seq::empty()
        },
        _ => Seq::empty(),
    }
}

/// Metadata read through PE exports; unreadable exports are skipped.
pub open spec fn exports_scan(ss: Seq<SectionView>, es: Seq<ExportView>) -> Entries
    decreases es.len(),
{
    if es.len() == 0 {
        Seq::empty()
    } else {
        exports_scan(ss, es.drop_last()) + export_entry(ss, es.last())
    }
}

pub open spec fn export_entry(ss: Seq<SectionView>, e: ExportView) -> Entries {
    match (e.name, e.address) {
        (Some(nb), Some(a)) => if valid_utf8(nb) && is_metadata_name(decode_utf8(nb)) {
            match read_null_terminated_result(ss, a as u64) {
                Ok(j) => seq![(decode_utf8(nb), j)],
                Err(_) => Seq::empty(),
            }
        } else {
            Seq::empty()
        },
        _ => Seq::empty(),
    }
}

/// Whether an entry with this name occurs in `es`.
pub open spec fn name_present(es: Entries, n: Seq<char>) -> bool {
    exists|j: int| 0 <= j < es.len() && (#[trigger] es[j]).0 == n
}

/// The entries with repeated names dropped, keeping each name's first entry.
pub open spec fn dedup_by_name(es: Entries) -> Entries
    decreases es.len(),
{
    if es.len() == 0 {
        Seq::empty()
    } else {
        let acc = dedup_by_name(es.drop_last());
        if name_present(acc, es.last().0) {
            acc
        } else {
            acc.push(es.last())
        }
    }
}

/// All metadata of an image: symbol table first, then metadata sections,
/// then PE exports, keeping the first entry for each name.
pub open spec fn collect_result(img: ObjectImageView) -> Result<Entries, Seq<char>> {
    let ss = img.sections;
    match symbols_scan(ss, img.symbols) {
        Err(e) => Err(e),
        Ok(a) => Ok(dedup_by_name(a + sections_scan(ss) + exports_scan(ss, img.exports))),
    }
}

pub open spec fn collect_metadata_result(obj: &ObjectImage) -> Result<Entries, Seq<char>> {
    collect_result(obj@)
}

fn is_metadata_str(name: &str) -> (r: bool)
    ensures
        r == is_metadata_name(name@),
{
    metadata_symbol_kind(name).is_some()
}

/// Metadata read through the symbol table.
pub fn extract_metadata_symbols(obj: &ObjectImage) -> (r: Result<Vec<(String, String)>, String>)
    ensures
        match r {
            Ok(v) => symbols_scan(sections_view(obj.sections@), symbols_view(obj.symbols@)) == Ok::<
                Entries,
                Seq<char>,
            >(pairs_view(v@)),
            Err(e) => symbols_scan(sections_view(obj.sections@), symbols_view(obj.symbols@))
                == Err::<Entries, Seq<char>>(e@),
        },
{
    let ghost ss = sections_view(obj.sections@);
    let ghost syms = symbols_view(obj.symbols@);
    let mut results: Vec<(String, String)> = Vec::new();
    let mut i: usize = 0;
    assert(syms.take(0) =~= Seq::<SymbolView>::empty());
    assert(pairs_view(results@) =~= Seq::<(Seq<char>, Seq<char>)>::empty());
    while i < obj.symbols.len()
        invariant
            ss == sections_view(obj.sections@),
            syms == symbols_view(obj.symbols@),
            i <= obj.symbols.len(),
            symbols_scan(ss, syms.take(i as int)) == Ok::<Entries, Seq<char>>(pairs_view(results@)),
        decreases obj.symbols.len() - i,
    {
        let symbol = &obj.symbols[i];
        assert(syms.take(i + 1).drop_last() =~= syms.take(i as int));
        assert(syms.take(i + 1).last() == symbol@);
        if let Ok(name) = &symbol.name {
            if is_metadata_str(name.as_str()) {
                let json = if symbol.size > 0 {
                    read_bytes_at(obj, symbol.address, symbol.size)
                } else {
                    read_null_terminated_at(obj, symbol.address)
                };
                match json {
                    Err(e) => {
                        proof {
                            lemma_symbols_scan_err_extends(ss, syms, i + 1);
                        }
                        return Err(e);
                    },
                    Ok(j) => {
                        let ghost before = results@;
                        results.push((name.clone(), j));
                        assert(pairs_view(results@) =~= pairs_view(before).push((name@, j@)));
                    },
                }
            }
        }
        i = i + 1;
    }
    assert(syms.take(obj.symbols.len() as int) =~= syms);
    Ok(results)
}

proof fn lemma_symbols_scan_err_extends(ss: Seq<SectionView>, syms: Seq<SymbolView>, k: int)
    requires
        0 <= k <= syms.len(),
        symbols_scan(ss, syms.take(k)) is Err,
    ensures
        symbols_scan(ss, syms) == symbols_scan(ss, syms.take(k)),
    decreases syms.len() - k,
{
    if k < syms.len() {
        assert(syms.take(k + 1).drop_last() =~= syms.take(k));
        lemma_symbols_scan_err_extends(ss, syms, k + 1);
    } else {
        assert(syms.take(k) =~= syms);
    }
}

/// Framed entries found in sections whose name contains the metadata marker.
pub fn extract_metadata_from_sections(obj: &ObjectImage) -> (r: Vec<(String, String)>)
    ensures
        pairs_view(r@) == sections_scan(sections_view(obj.sections@)),
{
    let ghost ss = sections_view(obj.sections@);
    let mut results: Vec<(String, String)> = Vec::new();
    let mut i: usize = 0;
    while i < obj.sections.len()
        invariant
            ss == sections_view(obj.sections@),
            i <= obj.sections.len(),
            pairs_view(results@) == sections_scan(ss.take(i as int)),
        decreases obj.sections.len() - i,
    {
        let section = &obj.sections[i];
        assert(ss.take(i + 1).drop_last() =~= ss.take(i as int));
        assert(ss.take(i + 1).last() == section@);
        let ghost before = results@;
        if let Ok(name) = &section.name {
            if contains_str(name.as_str(), METADATA_SECTION_MARKER) {
                if let Ok(data) = &section.data {
                    let mut found = parse_metadata_entries(data.as_slice());
                    results.append(&mut found);
                    assert(pairs_view(results@) =~= pairs_view(before) + scan_entries(data@));
                }
            }
        }
        assert(pairs_view(results@) =~= pairs_view(before) + section_entries(section@));
        i = i + 1;
    }
    assert(ss.take(obj.sections.len() as int) =~= ss);
    results
}

/// Metadata read through the exports of a list, in order.
fn exports_entries(obj: &ObjectImage, exports: &Vec<ExportInfo>) -> (r: Vec<(String, String)>)
    ensures
        pairs_view(r@) == exports_scan(sections_view(obj.sections@), exports_view(exports@)),
{
    let ghost ss = sections_view(obj.sections@);
    let ghost es = exports_view(exports@);
    let mut results: Vec<(String, String)> = Vec::new();
    let mut i: usize = 0;
    while i < exports.len()
        invariant
            ss == sections_view(obj.sections@),
            es == exports_view(exports@),
            i <= exports.len(),
            pairs_view(results@) == exports_scan(ss, es.take(i as int)),
        decreases exports.len() - i,
    {
        let export = &exports[i];
        assert(es.take(i + 1).drop_last() =~= es.take(i as int));
        assert(es.take(i + 1).last() == export@);
        let ghost before = results@;
        if let Some(name_bytes) = &export.name {
            if let Some(address) = export.address {
                if let Ok(name) = utf8_to_string(name_bytes.as_slice()) {
                    if is_metadata_str(name.as_str()) {
                        if let Ok(json) = read_null_terminated_at(obj, address as u64) {
                            results.push((name, json));
                        }
                    }
                }
            }
        }
        assert(pairs_view(results@) =~= pairs_view(before) + export_entry(ss, export@));
        i = i + 1;
    }
    assert(es.take(exports.len() as int) =~= es);
    results
}

/// Metadata read through the PE exports that name metadata and carry an
/// address; an export table that cannot be read or listed gives nothing.
pub fn extract_metadata_from_exports(obj: &ObjectImage) -> (r: Vec<(String, String)>)
    ensures
        pairs_view(r@) == exports_scan(sections_view(obj.sections@), obj@.exports),
{
    match &obj.pe_exports {
        Some(Ok(Some(Ok(list)))) => exports_entries(obj, list),
        _ => {
            let r: Vec<(String, String)> = Vec::new();
            assert(pairs_view(r@) =~= exports_scan(sections_view(obj.sections@), Seq::empty()));
            r
        },
    }
}

fn has_name(v: &Vec<(String, String)>, name: &String) -> (r: bool)
    ensures
        r == name_present(pairs_view(v@), name@),
{
    let mut i: usize = 0;
    while i < v.len()
        invariant
            i <= v.len(),
            forall|k: int| 0 <= k < i ==> (#[trigger] pairs_view(v@)[k]).0 != name@,
        decreases v.len() - i,
    {
        if v[i].0 == *name {
            assert(pairs_view(v@)[i as int].0 == name@);
            return true;
        }
        i = i + 1;
    }
    false
}

fn push_unseen(results: &mut Vec<(String, String)>, found: Vec<(String, String)>)
    ensures
        dedup_by_name(pairs_view(old(results)@)) == pairs_view(old(results)@) ==> dedup_by_name(
            pairs_view(old(results)@) + pairs_view(found@),
        ) == pairs_view(final(results)@),
{
    let ghost start = pairs_view(results@);
    let mut incoming = found;
    let ghost all = pairs_view(incoming@);
    let ghost mut done: int = 0;
    while incoming.len() > 0
        invariant
            0 <= done <= all.len(),
            pairs_view(incoming@) == all.skip(done),
            dedup_by_name(start) == start ==> dedup_by_name(start + all.take(done)) == pairs_view(
                results@,
            ),
        decreases incoming.len(),
    {
        let ghost before = incoming@;
        assert(pairs_view(before).len() == before.len());
        assert(all.skip(done).len() == all.len() - done);
        let pair = incoming.remove(0);
        assert(pairs_view(before)[0] == all[done]);
        assert((pair.0@, pair.1@) == all[done]);
        let ghost prev = pairs_view(results@);
        proof {
            assert((start + all.take(done + 1)).drop_last() =~= start + all.take(done));
            assert((start + all.take(done + 1)).last() == all[done]);
        }
        if !has_name(&results, &pair.0) {
            results.push(pair);
            assert(pairs_view(results@) =~= prev.push(all[done]));
        }
        proof {
            assert(incoming@ =~= before.subrange(1, before.len() as int));
            assert forall|k: int| 0 <= k < incoming@.len() implies pairs_view(incoming@)[k]
                == all.skip(done + 1)[k] by {
                assert(pairs_view(before)[k + 1] == all.skip(done)[k + 1]);
            }
            assert(pairs_view(incoming@) =~= all.skip(done + 1));
            done = done + 1;
        }
    }
    assert(all.take(done) =~= all);
}

/// Every metadata entry of the image: the symbol table first, then the
/// metadata sections, then PE exports, keeping the first entry per name.
pub fn collect_metadata(obj: &ObjectImage) -> (r: Result<Vec<(String, String)>, String>)
    ensures
        match r {
            Ok(v) => collect_metadata_result(obj) == Ok::<Entries, Seq<char>>(pairs_view(v@)),
            Err(e) => collect_metadata_result(obj) == Err::<Entries, Seq<char>>(e@),
        },
{
    let symbols = extract_metadata_symbols(obj)?;
    let mut results: Vec<(String, String)> = Vec::new();
    assert(dedup_by_name(pairs_view(results@)) =~= pairs_view(results@));
    let ghost a = pairs_view(symbols@);
    push_unseen(&mut results, symbols);
    assert(Seq::<(Seq<char>, Seq<char>)>::empty() + a =~= a);
    proof {
        lemma_dedup_idempotent(a);
    }
    let from_sections = extract_metadata_from_sections(obj);
    let ghost b = pairs_view(from_sections@);
    push_unseen(&mut results, from_sections);
    proof {
        lemma_dedup_concat(a, b);
        lemma_dedup_idempotent(a + b);
    }
    let from_exports = extract_metadata_from_exports(obj);
    let ghost c = pairs_view(from_exports@);
    push_unseen(&mut results, from_exports);
    proof {
        lemma_dedup_concat(a + b, c);
    }
    Ok(results)
}

/// The metadata of a binary given as bytes: a parse failure is reported as
/// `failed to parse object file: <error>`; otherwise every entry of the
/// parsed image (see [`collect_metadata`]).
pub open spec fn metadata_of_bytes(bytes: Seq<u8>) -> Result<Entries, Seq<char>> {
    match object_image_of(bytes) {
        Err(e) => Err("failed to parse object file: "@ + e),
        Ok(img) => collect_result(img),
    }
}

/// Parse a binary and recover every metadata entry in it.
pub fn collect_metadata_from_bytes(bytes: &[u8]) -> (r: Result<Vec<(String, String)>, String>)
    ensures
        match r {
            Ok(v) => metadata_of_bytes(bytes@) == Ok::<Entries, Seq<char>>(pairs_view(v@)),
            Err(e) => metadata_of_bytes(bytes@) == Err::<Entries, Seq<char>>(e@),
        },
{
    match parse_object_image(bytes) {
        Err(e) => {
            let mut msg = String::new();
            msg.append("failed to parse object file: ");
            msg.append(e.as_str());
            Err(msg)
        },
        Ok(image) => collect_metadata(&image),
    }
}

/// Law: dropping repeated names a second time changes nothing.
pub proof fn lemma_dedup_idempotent(es: Entries)
    ensures
        dedup_by_name(dedup_by_name(es)) == dedup_by_name(es),
{
    lemma_dedup_unique(es);
    lemma_dedup_of_unique(dedup_by_name(es));
}

/// Law: after dropping repeated names, every name occurs once, and the
/// names present are exactly those of the input.
pub proof fn lemma_dedup_unique(es: Entries)
    ensures
        forall|i: int, j: int|
            0 <= i < j < dedup_by_name(es).len() ==> (#[trigger] dedup_by_name(es)[i]).0 != (
            #[trigger] dedup_by_name(es)[j]).0,
        forall|n: Seq<char>| name_present(dedup_by_name(es), n) <==> name_present(es, n),
    decreases es.len(),
{
    if es.len() > 0 {
        lemma_dedup_unique(es.drop_last());
        let acc = dedup_by_name(es.drop_last());
        assert forall|n: Seq<char>| name_present(dedup_by_name(es), n) <==> name_present(es, n) by {
            if name_present(es, n) {
                let j = choose|j: int| 0 <= j < es.len() && (#[trigger] es[j]).0 == n;
                if j < es.len() - 1 {
                    assert(es.drop_last()[j] == es[j]);
                    assert(name_present(es.drop_last(), n));
                    assert(name_present(acc, n));
                    let k = choose|k: int| 0 <= k < acc.len() && (#[trigger] acc[k]).0 == n;
                    assert(dedup_by_name(es)[k] == acc[k]);
                } else if !name_present(acc, es.last().0) {
                    assert(dedup_by_name(es)[acc.len() as int] == es.last());
                }
            }
            if name_present(dedup_by_name(es), n) {
                let k = choose|k: int| 0 <= k < dedup_by_name(es).len() && (#[trigger] dedup_by_name(
                    es,
                )[k]).0 == n;
                if k < acc.len() {
                    assert(dedup_by_name(es)[k] == acc[k]);
                    assert(name_present(acc, n));
                    assert(name_present(es.drop_last(), n));
                    let j = choose|j: int| 0 <= j < es.drop_last().len() && (
                    #[trigger] es.drop_last()[j]).0 == n;
                    assert(es[j] == es.drop_last()[j]);
                } else {
                    assert(es[es.len() - 1] == es.last());
                }
            }
        }
    }
}

/// Dropping repeated names from a list without repeats changes nothing.
pub proof fn lemma_dedup_of_unique(es: Entries)
    requires
        forall|i: int, j: int| 0 <= i < j < es.len() ==> (#[trigger] es[i]).0 != (#[trigger] es[j]).0,
    ensures
        dedup_by_name(es) == es,
    decreases es.len(),
{
    if es.len() > 0 {
        lemma_dedup_of_unique(es.drop_last());
        assert(!name_present(es.drop_last(), es.last().0)) by {
            if name_present(es.drop_last(), es.last().0) {
                let j = choose|j: int| 0 <= j < es.drop_last().len() && (
                #[trigger] es.drop_last()[j]).0 == es.last().0;
                assert(es[j] == es.drop_last()[j]);
                assert(es[es.len() - 1] == es.last());
            }
        }
        assert(es.drop_last().push(es.last()) =~= es);
    }
}

/// Deduplicating a concatenation can first deduplicate the front part.
pub proof fn lemma_dedup_concat(a: Entries, b: Entries)
    ensures
        dedup_by_name(dedup_by_name(a) + b) == dedup_by_name(a + b),
    decreases b.len(),
{
    if b.len() == 0 {
        assert(dedup_by_name(a) + b =~= dedup_by_name(a));
        assert(a + b =~= a);
        lemma_dedup_idempotent(a);
    } else {
        lemma_dedup_concat(a, b.drop_last());
        assert((dedup_by_name(a) + b).drop_last() =~= dedup_by_name(a) + b.drop_last());
        assert((a + b).drop_last() =~= a + b.drop_last());
        assert((dedup_by_name(a) + b).last() == b.last());
        assert((a + b).last() == b.last());
    }
}

} // verus!
