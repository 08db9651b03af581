//! Self-describing framing for metadata entries embedded in a binary section.
//!
//! An entry is `MAGIC | name_len (u32 LE) | json_len (u32 LE) | name | json`.
//! The scanner searches for the magic marker and validates lengths and UTF-8
//! before accepting an entry, advancing one byte at a time when out of sync,
//! so padding or foreign bytes between entries are skipped.
use vstd::prelude::*;
use vstd::utf8::*;
use crate::text::utf8_to_string;

verus! {

broadcast use {vstd::utf8::encode_utf8_valid_utf8, vstd::utf8::encode_utf8_decode_utf8};

/// Substring used to locate the metadata section in a binary.
pub const METADATA_SECTION_MARKER: &'static str = "leo3meta";

/// The link section used on non-Apple targets (at most 8 bytes, for PE).
pub const METADATA_SECTION_NAME: &'static str = "leo3meta";

/// The link section used on Apple (Mach-O) targets: `segment,section`.
pub const METADATA_SECTION_NAME_APPLE: &'static str = "__DATA,__leo3meta";

/// The magic marker that starts every framed entry (`b"L3MJ"`).
pub const METADATA_ENTRY_MAGIC: [u8; 4] = [0x4c, 0x33, 0x4d, 0x4a];

/// The magic marker `b"L3MJ"`.
pub open spec fn magic() -> Seq<u8> {
    seq![0x4cu8, 0x33u8, 0x4du8, 0x4au8]
}

/// Length of the fixed entry header: magic plus two length words.
pub open spec fn header_len() -> int {
    12
}

/// Little-endian encoding of `v mod 2^32` in four bytes.
pub open spec fn le32_bytes(v: nat) -> Seq<u8> {
    seq![
        (v % 256) as u8,
        ((v / 256) % 256) as u8,
        ((v / 65536) % 256) as u8,
        ((v / 16777216) % 256) as u8,
    ]
}

/// Little-endian value of four bytes.
pub open spec fn le32_value(b: Seq<u8>) -> nat {
    (b[0] + 256 * b[1] + 65536 * b[2] + 16777216 * b[3]) as nat
}

/// The bytes of one framed entry, given the encoded name and JSON.
pub open spec fn frame_bytes(name: Seq<u8>, json: Seq<u8>) -> Seq<u8> {
    magic() + le32_bytes(name.len()) + le32_bytes(json.len()) + name + json
}

/// The bytes of a list of framed entries laid end to end.
pub open spec fn frames_bytes(entries: Seq<(Seq<char>, Seq<char>)>) -> Seq<u8>
    decreases entries.len(),
{
    if entries.len() == 0 {
        Seq::empty()
    } else {
        frame_bytes(encode_utf8(entries[0].0), encode_utf8(entries[0].1)) + frames_bytes(
            entries.drop_first(),
        )
    }
}

/// Whether `data` starts with a complete, valid entry.
pub open spec fn entry_at_start(data: Seq<u8>) -> bool {
    &&& data.len() >= header_len()
    &&& data.take(4) == magic()
    &&& header_len() + le32_value(data.subrange(4, 8)) + le32_value(data.subrange(8, 12))
        <= data.len()
    &&& valid_utf8(entry_name_bytes(data))
    &&& valid_utf8(entry_json_bytes(data))
}

pub open spec fn entry_end(data: Seq<u8>) -> int {
    header_len() + le32_value(data.subrange(4, 8)) + le32_value(data.subrange(8, 12))
}

pub open spec fn entry_name_bytes(data: Seq<u8>) -> Seq<u8> {
    data.subrange(header_len(), header_len() + le32_value(data.subrange(4, 8)))
}

pub open spec fn entry_json_bytes(data: Seq<u8>) -> Seq<u8> {
    data.subrange(header_len() + le32_value(data.subrange(4, 8)), entry_end(data))
}

/// The entries recovered by scanning `data` from its first byte.
pub open spec fn scan_entries(data: Seq<u8>) -> Seq<(Seq<char>, Seq<char>)>
    decreases data.len(),
{
    if data.len() < header_len() {
        Seq::empty()
    } else if entry_at_start(data) {
        seq![(decode_utf8(entry_name_bytes(data)), decode_utf8(entry_json_bytes(data)))]
            + scan_entries(data.skip(entry_end(data)))
    } else {
        scan_entries(data.skip(1))
    }
}

pub open spec fn pairs_view(v: Seq<(String, String)>) -> Seq<(Seq<char>, Seq<char>)> {
    v.map_values(|p: (String, String)| (p.0@, p.1@))
}

proof fn lemma_le32_roundtrip(v: nat)
    requires
        v < 0x1_0000_0000,
    ensures
        le32_value(le32_bytes(v)) == v,
{
}

fn le32_push(out: &mut Vec<u8>, v: usize)
    ensures
        final(out)@ == old(out)@ + le32_bytes(v as nat),
{
    let w: u64 = v as u64;
    out.push((w % 256) as u8);
    out.push(((w / 256) % 256) as u8);
    out.push(((w / 65536) % 256) as u8);
    out.push(((w / 16777216) % 256) as u8);
    assert(final(out)@ =~= old(out)@ + le32_bytes(v as nat));
}

/// Build a self-describing framed metadata entry.
///
/// Layout: `MAGIC | name_len (u32 LE) | json_len (u32 LE) | name | json`;
/// a length of `2^32` bytes or more is stored modulo `2^32`.
pub fn frame_metadata_entry(name: &str, json: &str) -> (out: Vec<u8>)
    ensures
        out@ == frame_bytes(encode_utf8(name@), encode_utf8(json@)),
{
    let nb = name.as_bytes();
    let jb = json.as_bytes();
    let mut out: Vec<u8> = Vec::new();
    out.push(0x4c);
    out.push(0x33);
    out.push(0x4d);
    out.push(0x4a);
    le32_push(&mut out, nb.len());
    le32_push(&mut out, jb.len());
    out.extend_from_slice(nb);
    out.extend_from_slice(jb);
    assert(out@ =~= frame_bytes(encode_utf8(name@), encode_utf8(json@)));
    out
}

proof fn lemma_skip_skip(data: Seq<u8>, i: int, k: int)
    requires
        0 <= i,
        0 <= k,
        i + k <= data.len(),
    ensures
        data.skip(i).skip(k) == data.skip(i + k),
{
    assert(data.skip(i).skip(k) =~= data.skip(i + k));
}

/// Scan a blob of section data for framed metadata entries, returning
/// `(name, json)` pairs in the order found.
pub fn parse_metadata_entries(data: &[u8]) -> (res: Vec<(String, String)>)
    ensures
        pairs_view(res@) == scan_entries(data@),
{
    let mut results: Vec<(String, String)> = Vec::new();
    let mut i: usize = 0;
    let n = data.len();
    assert(data@.skip(0) =~= data@);
    while n >= 12 && i <= n - 12
        invariant
            n == data@.len(),
            i <= n,
            pairs_view(results@) + scan_entries(data@.skip(i as int)) == scan_entries(data@),
        decreases n - i,
    {
        let ghost rest = data@.skip(i as int);
        assert(rest.take(4) =~= data@.subrange(i as int, i + 4));
        assert(rest.subrange(4, 8) =~= data@.subrange(i + 4, i + 8));
        assert(rest.subrange(8, 12) =~= data@.subrange(i + 8, i + 12));
        let is_magic = data[i] == 0x4c && data[i + 1] == 0x33 && data[i + 2] == 0x4d && data[
            i + 3] == 0x4a;
        if is_magic {
            assert(rest.take(4) =~= magic());
            let name_len: u64 = data[i + 4] as u64 + 256 * (data[i + 5] as u64) + 65536 * (
            data[i + 6] as u64) + 16777216 * (data[i + 7] as u64);
            let json_len: u64 = data[i + 8] as u64 + 256 * (data[i + 9] as u64) + 65536 * (
            data[i + 10] as u64) + 16777216 * (data[i + 11] as u64);
            assert(name_len == le32_value(rest.subrange(4, 8)));
            assert(json_len == le32_value(rest.subrange(8, 12)));
            let remaining: u64 = (n - i - 12) as u64;
            if name_len <= remaining && json_len <= remaining - name_len {
                let end: u64 = (i as u64) + 12 + name_len + json_len;
                let name_start: u64 = (i as u64) + 12;
                let json_start: u64 = name_start + name_len;
                let ns = name_start as usize;
                let js = json_start as usize;
                let e = end as usize;
                assert(rest.subrange(12, 12 + name_len) =~= data@.subrange(ns as int, js as int));
                assert(rest.subrange(12 + name_len, entry_end(rest)) =~= data@.subrange(
                    js as int,
                    e as int,
                ));
                let name = utf8_to_string(&data[ns..js]);
                let json = utf8_to_string(&data[js..e]);
                if name.is_ok() && json.is_ok() {
                    let name = name.unwrap();
                    let json = json.unwrap();
                    let ghost old_results = results@;
                    results.push((name, json));
                    proof {
                        lemma_skip_skip(data@, i as int, entry_end(rest));
                        assert(pairs_view(results@) =~= pairs_view(old_results) + seq![
                            (decode_utf8(entry_name_bytes(rest)), decode_utf8(
                                entry_json_bytes(rest),
                            )),
                        ]);
                    }
                    i = e;
                    continue;
                }
            }
        }
        proof {
            lemma_skip_skip(data@, i as int, 1);
        }
        i = i + 1;
    }
    assert(data@.skip(i as int).len() < 12);
    assert(pairs_view(results@) =~= scan_entries(data@));
    results
}

/// Law: a framed entry followed by any bytes scans as that entry followed by
/// whatever the rest scans as (names and JSON shorter than 2^32 bytes).
pub proof fn lemma_scan_frame_prefix(name: Seq<char>, json: Seq<char>, rest: Seq<u8>)
    requires
        encode_utf8(name).len() < 0x1_0000_0000,
        encode_utf8(json).len() < 0x1_0000_0000,
    ensures
        scan_entries(frame_bytes(encode_utf8(name), encode_utf8(json)) + rest) == seq![
            (name, json),
        ] + scan_entries(rest),
{
    let nb = encode_utf8(name);
    let jb = encode_utf8(json);
    let data = frame_bytes(nb, jb) + rest;
    lemma_le32_roundtrip(nb.len());
    lemma_le32_roundtrip(jb.len());
    assert(data.take(4) =~= magic());
    assert(data.subrange(4, 8) =~= le32_bytes(nb.len()));
    assert(data.subrange(8, 12) =~= le32_bytes(jb.len()));
    assert(entry_name_bytes(data) =~= nb);
    assert(entry_json_bytes(data) =~= jb);
    assert(data.skip(entry_end(data)) =~= rest);
}

/// Law: entries framed back to back are recovered exactly, in order
/// (each name and JSON shorter than 2^32 bytes).
pub proof fn lemma_scan_frames_roundtrip(entries: Seq<(Seq<char>, Seq<char>)>)
    requires
        forall|k: int|
            0 <= k < entries.len() ==> encode_utf8(#[trigger] entries[k].0).len() < 0x1_0000_0000
                && encode_utf8(entries[k].1).len() < 0x1_0000_0000,
    ensures
        scan_entries(frames_bytes(entries)) == entries,
    decreases entries.len(),
{
    if entries.len() > 0 {
        let e = entries[0];
        lemma_scan_frames_roundtrip(entries.drop_first());
        lemma_scan_frame_prefix(e.0, e.1, frames_bytes(entries.drop_first()));
        assert(seq![(e.0, e.1)] + entries.drop_first() =~= entries);
    } else {
        assert(frames_bytes(entries) =~= Seq::<u8>::empty());
    }
}

/// Law: zero bytes in front of the data (padding a linker may insert) are
/// skipped without producing or losing entries.
pub proof fn lemma_scan_skips_zero_padding(pad: nat, rest: Seq<u8>)
    ensures
        scan_entries(Seq::new(pad, |i: int| 0u8) + rest) == scan_entries(rest),
    decreases pad,
{
    let data = Seq::new(pad, |i: int| 0u8) + rest;
    if pad > 0 {
        lemma_scan_skips_zero_padding((pad - 1) as nat, rest);
        assert(data.skip(1) =~= Seq::new((pad - 1) as nat, |i: int| 0u8) + rest);
        if data.len() < header_len() {
            lemma_scan_short(rest);
        } else {
            assert(data[0] == 0u8);
            assert(data.take(4)[0] == 0u8);
            assert(data.take(4) != magic());
        }
    } else {
        assert(data =~= rest);
    }
}

proof fn lemma_scan_short(data: Seq<u8>)
    requires
        data.len() < header_len(),
    ensures
        scan_entries(data) == Seq::<(Seq<char>, Seq<char>)>::empty(),
{
}

} // verus!
