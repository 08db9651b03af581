use leo3_tooling::embed::frame_metadata_entry;
use leo3_tooling::metadata_scan::collect_metadata_from_bytes;

// ---- a minimal ELF64 relocatable object ----

fn push_u16(out: &mut Vec<u8>, v: u16) {
    out.extend_from_slice(&v.to_le_bytes());
}
fn push_u32(out: &mut Vec<u8>, v: u32) {
    out.extend_from_slice(&v.to_le_bytes());
}
fn push_u64(out: &mut Vec<u8>, v: u64) {
    out.extend_from_slice(&v.to_le_bytes());
}

const ELF64_IDENT: [u8; 16] = [0x7f, b'E', b'L', b'F', 2, 1, 1, 0, 0, 0, 0, 0, 0, 0, 0, 0];

struct FakeSection {
    name: Vec<u8>,
    ty: u32,
    /// `None` gives a header whose range lies beyond the file.
    data: Option<Vec<u8>>,
    align: u64,
    entsize: u64,
    link: u32,
    info: u32,
}

fn plain(name: &[u8], data: Option<Vec<u8>>) -> FakeSection {
    FakeSection { name: name.to_vec(), ty: 1, data, align: 1, entsize: 0, link: 0, info: 0 }
}

fn fake_elf(sections: &[FakeSection]) -> Vec<u8> {
    let mut shstr = vec![0u8];
    let mut name_offsets = Vec::new();
    for s in sections {
        name_offsets.push(shstr.len() as u32);
        shstr.extend_from_slice(&s.name);
        shstr.push(0);
    }
    let mut offset = 64u64;
    let shstr_offset = offset;
    offset += shstr.len() as u64;
    let mut sh_offsets = vec![0u64; sections.len()];
    let mut sh_sizes = vec![0u64; sections.len()];
    for (i, s) in sections.iter().enumerate() {
        let align = s.align.max(1);
        offset = offset.div_ceil(align) * align;
        sh_offsets[i] = offset;
        match &s.data {
            Some(d) => {
                sh_sizes[i] = d.len() as u64;
                offset += d.len() as u64;
            }
            None => sh_sizes[i] = 0x1000,
        }
    }
    let shoff = offset.div_ceil(8) * 8;
    let shnum = sections.len() as u16 + 2;
    let mut out = Vec::new();
    out.extend_from_slice(&ELF64_IDENT);
    push_u16(&mut out, 1);
    push_u16(&mut out, 0x3e);
    push_u32(&mut out, 1);
    push_u64(&mut out, 0);
    push_u64(&mut out, 0);
    push_u64(&mut out, shoff);
    push_u32(&mut out, 0);
    push_u16(&mut out, 64);
    push_u16(&mut out, 0);
    push_u16(&mut out, 0);
    push_u16(&mut out, 64);
    push_u16(&mut out, shnum);
    push_u16(&mut out, 1);
    out.extend_from_slice(&shstr);
    for (i, s) in sections.iter().enumerate() {
        let pad = sh_offsets[i] as usize - out.len();
        out.extend(std::iter::repeat(0u8).take(pad));
        if let Some(d) = &s.data {
            out.extend_from_slice(d);
        }
    }
    let pad = shoff as usize - out.len();
    out.extend(std::iter::repeat(0u8).take(pad));
    for _ in 0..64 {
        out.push(0);
    }
    push_u32(&mut out, 1);
    push_u32(&mut out, 3);
    push_u64(&mut out, 0);
    push_u64(&mut out, 0);
    push_u64(&mut out, shstr_offset);
    push_u64(&mut out, shstr.len() as u64);
    push_u32(&mut out, 0);
    push_u32(&mut out, 0);
    push_u64(&mut out, 1);
    push_u64(&mut out, 0);
    for (i, s) in sections.iter().enumerate() {
        push_u32(&mut out, name_offsets[i]);
        push_u32(&mut out, s.ty);
        push_u64(&mut out, 0);
        push_u64(&mut out, 0);
        push_u64(&mut out, sh_offsets[i]);
        push_u64(&mut out, sh_sizes[i]);
        push_u32(&mut out, s.link);
        push_u32(&mut out, s.info);
        push_u64(&mut out, s.align.max(1));
        push_u64(&mut out, s.entsize);
    }
    out
}

/// `.strtab`, `.symtab` (raw entries) and `leo3meta`.
fn fake_elf_with_raw_symbols(strtab: &[u8], entries: &[(u32, u64, u64)], meta: &[u8]) -> Vec<u8> {
    let mut symtab = vec![0u8; 24];
    for (name_off, addr, size) in entries {
        push_u32(&mut symtab, *name_off);
        symtab.push(0x11);
        symtab.push(0);
        push_u16(&mut symtab, 0);
        push_u64(&mut symtab, *addr);
        push_u64(&mut symtab, *size);
    }
    fake_elf(&[
        FakeSection { name: b".strtab".to_vec(), ty: 3, data: Some(strtab.to_vec()), align: 1, entsize: 0, link: 0, info: 0 },
        FakeSection { name: b".symtab".to_vec(), ty: 2, data: Some(symtab), align: 8, entsize: 24, link: 2, info: 1 },
        plain(b"leo3meta", Some(meta.to_vec())),
    ])
}

fn fake_elf_with_symbols(symbols: &[(&str, u64, u64)], meta: &[u8]) -> Vec<u8> {
    let mut strtab = vec![0u8];
    let mut entries = Vec::new();
    for (name, addr, size) in symbols {
        entries.push((strtab.len() as u32, *addr, *size));
        strtab.extend_from_slice(name.as_bytes());
        strtab.push(0);
    }
    fake_elf_with_raw_symbols(&strtab, &entries, meta)
}

const FOO_JSON: &str = r#"{"name":"Foo","exports":[],"submodules":[]}"#;

#[test]
fn bytes_that_are_no_object_are_a_parse_error() {
    let err = collect_metadata_from_bytes(b"hello world").unwrap_err();
    assert!(err.starts_with("failed to parse object file: "), "{err}");
}

#[test]
fn an_object_without_metadata_gives_nothing() {
    assert!(collect_metadata_from_bytes(&fake_elf(&[])).unwrap().is_empty());
}

#[test]
fn metadata_is_recoverable_from_dedicated_section() {
    let mut meta = frame_metadata_entry("__leo3_module_metadata_json_Foo", FOO_JSON);
    meta.extend_from_slice(&frame_metadata_entry("__leo3_class_metadata_json_Counter", "{}"));
    let found = collect_metadata_from_bytes(&fake_elf(&[plain(b"leo3meta", Some(meta))])).unwrap();
    assert_eq!(
        found,
        vec![
            ("__leo3_module_metadata_json_Foo".to_string(), FOO_JSON.to_string()),
            ("__leo3_class_metadata_json_Counter".to_string(), "{}".to_string()),
        ]
    );
}

#[test]
fn object_symbol_table_paths() {
    let meta = frame_metadata_entry("__leo3_module_metadata_json_Foo", FOO_JSON);
    // A symbol outside every section fails the whole read.
    let data = fake_elf_with_symbols(&[("__leo3_module_metadata_json_BadAddr", 0xdead_beef, 4)], &meta);
    let err = collect_metadata_from_bytes(&data).unwrap_err();
    assert!(err.contains("no section contains address"), "{err}");

    // A size-0 symbol reads NUL-terminated text from its section.
    let mut meta = frame_metadata_entry("__leo3_module_metadata_json_Foo", FOO_JSON);
    let json = r#"{"name":"Bar","exports":[],"submodules":[]}"#;
    let json_addr = meta.len() as u64;
    meta.extend_from_slice(json.as_bytes());
    meta.push(0);
    let data = fake_elf_with_symbols(&[("__leo3_module_metadata_json_Bar", json_addr, 0)], &meta);
    let found = collect_metadata_from_bytes(&data).unwrap();
    let names: Vec<&str> = found.iter().map(|(n, _)| n.as_str()).collect();
    assert_eq!(names, vec!["__leo3_module_metadata_json_Bar", "__leo3_module_metadata_json_Foo"]);
    assert_eq!(found[0].1, json);

    // A size-0 symbol outside every section is an error too.
    let data = fake_elf_with_raw_symbols(b"\0__leo3_module_metadata_json_NoAddr\0", &[(1, 0xdead_beef, 0)], &meta);
    let err = collect_metadata_from_bytes(&data).unwrap_err();
    assert!(err.contains("no section contains address"), "{err}");

    // A symbol whose name cannot be read is skipped.
    let data = fake_elf_with_raw_symbols(b"\0", &[(99, 0x1000, 4)], &meta);
    let found = collect_metadata_from_bytes(&data).unwrap();
    assert_eq!(found.len(), 1);
    assert_eq!(found[0].0, "__leo3_module_metadata_json_Foo");
}

#[test]
fn object_unreadable_sections_are_tolerated() {
    let good = frame_metadata_entry("__leo3_module_metadata_json_Good", r#"{"name":"Good","exports":[],"submodules":[]}"#);
    let data = fake_elf(&[
        plain(&[0xff, 0xfe, 0x80], Some(vec![1, 2, 3])),
        plain(b"leo3meta", None),
        plain(b"leo3meta2", Some(good)),
    ]);
    let found = collect_metadata_from_bytes(&data).unwrap();
    assert_eq!(found.len(), 1);
    assert_eq!(found[0].0, "__leo3_module_metadata_json_Good");
}
