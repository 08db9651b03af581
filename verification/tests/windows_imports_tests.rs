use leo3_tooling::windows_imports::{
    cache_key, dedupe_exports, def_file_for, dll_file_name, fnv1a_64, has_required_dll,
    import_dir_name, import_lib_names, lean_dll_stems, link_order, parse_forwarder,
    parse_pe_exports, rust_lld_exe, scan_pe_exports, Export,
};

fn put16(buf: &mut Vec<u8>, off: usize, x: u16) {
    buf[off..off + 2].copy_from_slice(&x.to_le_bytes());
}

fn put32(buf: &mut Vec<u8>, off: usize, x: u32) {
    buf[off..off + 4].copy_from_slice(&x.to_le_bytes());
}

fn put64(buf: &mut Vec<u8>, off: usize, x: u64) {
    buf[off..off + 8].copy_from_slice(&x.to_le_bytes());
}

/// A minimal PE32+ DLL image whose export table lists `names` (plain
/// exports, no forwarders).
fn minimal_pe(names: &[&str]) -> Vec<u8> {
    let mut v = vec![0u8; 64];
    v[0..2].copy_from_slice(b"MZ");
    put32(&mut v, 60, 64);
    v.extend_from_slice(b"PE\0\0");
    v.extend_from_slice(&[0u8; 20]);
    let fh = v.len() - 20;
    put16(&mut v, fh, 0x8664);
    put16(&mut v, fh + 2, 1);
    put16(&mut v, fh + 16, 240);
    let opt = v.len();
    v.extend_from_slice(&[0u8; 240]);
    put16(&mut v, opt, 0x20b);
    put32(&mut v, opt + 20, 0x200);
    put64(&mut v, opt + 24, 0x2000);
    put32(&mut v, opt + 32, 0x1000);
    put32(&mut v, opt + 36, 0x200);
    put32(&mut v, opt + 56, 0x4000);
    put32(&mut v, opt + 60, 0x200);
    put16(&mut v, opt + 68, 3);
    put32(&mut v, opt + 112, 0x200);
    put32(&mut v, opt + 116, 40);
    v.extend_from_slice(b".text\0\0\0");
    v.extend_from_slice(&[0u8; 32]);
    let sh = v.len() - 40;
    put32(&mut v, sh + 8, 0x1E00);
    put32(&mut v, sh + 12, 0x200);
    put32(&mut v, sh + 16, 0x200);
    put32(&mut v, sh + 20, 0x200);
    v.extend_from_slice(&[0u8; 12]);
    while v.len() < 0x1010 {
        v.push(0);
    }
    let exp = 0x200;
    let n = names.len() as u32;
    put32(&mut v, exp + 20, n);
    put32(&mut v, exp + 24, n);
    put32(&mut v, exp + 28, 0x300);
    put32(&mut v, exp + 32, 0x320);
    put32(&mut v, exp + 36, 0x340);
    let mut off = 0x400usize;
    let mut name_rvas = Vec::new();
    for name in names {
        name_rvas.push(off);
        let p = off;
        if v.len() < p + name.len() + 8 {
            v.resize(p + name.len() + 8, 0);
        }
        v[p..p + name.len()].copy_from_slice(name.as_bytes());
        off += name.len() + 8;
    }
    for (i, rva) in name_rvas.iter().enumerate() {
        put32(&mut v, 0x320 + i * 4, *rva as u32);
    }
    for i in 0..names.len() {
        put16(&mut v, 0x340 + i * 2, i as u16);
    }
    for i in 0..names.len() {
        put32(&mut v, 0x300 + i * 4, 0x1000);
    }
    let p = 0x1000;
    if v.len() < p + 16 {
        v.resize(p + 16, 0);
    }
    for (b, slot) in v[p..p + 16].iter_mut().enumerate() {
        *slot = 0xc3 + (b % 10) as u8;
    }
    v
}

#[test]
fn test_parse_pe_exports_plain() {
    let pe = minimal_pe(&["l_A", "l_B"]);
    let exports = parse_pe_exports(&pe).unwrap();
    let names: Vec<_> = exports.iter().map(|e| e.name.as_str()).collect();
    assert_eq!(names, vec!["l_A", "l_B"]);
    assert!(exports.iter().all(|e| e.forwarder.is_none()));
}

#[test]
fn test_parse_pe_exports_forwarder() {
    let mut pe = minimal_pe(&["l_Fwd"]);
    let s = b"libleanshared_1.dll:l_Fwd\0";
    pe[0x800..0x800 + s.len()].copy_from_slice(s);
    pe[0x300..0x304].copy_from_slice(&0x800u32.to_le_bytes());
    let exports = parse_pe_exports(&pe).unwrap();
    assert_eq!(exports.len(), 1);
    assert_eq!(exports[0].name, "l_Fwd");
    assert_eq!(
        exports[0].forwarder.as_ref(),
        Some(&("libleanshared_1.dll".to_string(), "l_Fwd".to_string()))
    );
}

#[test]
fn test_parse_pe_exports_rejects_code_forwarder() {
    let mut pe = minimal_pe(&["l_Code"]);
    let code = [0x48, 0x3a, 0x2e, 0x8b, 0x03, 0x3a, 0x00];
    let p = 0x1000;
    pe[p..p + code.len()].copy_from_slice(&code);
    let exports = parse_pe_exports(&pe).unwrap();
    assert_eq!(exports.len(), 1);
    assert_eq!(exports[0].name, "l_Code");
    assert!(exports[0].forwarder.is_none());
}

#[test]
fn test_parse_pe_exports_rejects_non_pe() {
    assert!(parse_pe_exports(b"nope").is_err());
}

#[test]
fn scan_reports_out_of_range_name_as_none() {
    let mut pe = minimal_pe(&["l_A"]);
    // The name's RVA lies inside the section but past the end of the image.
    let len = pe.len() as u32;
    put32(&mut pe, 0x320, len + 0x10);
    assert!(scan_pe_exports(&pe).is_none());
}

#[test]
fn unmapped_name_rva_ends_the_export_list() {
    let mut pe = minimal_pe(&["l_A", "l_B"]);
    put32(&mut pe, 0x320, 0x0fff_0000);
    assert!(parse_pe_exports(&pe).unwrap().is_empty());
}

#[test]
fn scan_agrees_with_parse_on_valid_images() {
    let pe = minimal_pe(&["x"]);
    let scanned = scan_pe_exports(&pe).unwrap().unwrap();
    assert_eq!(scanned.len(), 1);
    assert_eq!(scanned[0].name, "x");
}

#[test]
fn forwarder_strings_need_a_dll_and_a_symbol() {
    assert_eq!(
        parse_forwarder("a.dll:sym"),
        Some(("a.dll".to_string(), "sym".to_string()))
    );
    assert_eq!(parse_forwarder("nocolon"), None);
    assert_eq!(parse_forwarder("a.dll:"), None);
    assert_eq!(parse_forwarder(":sym"), None);
}

#[test]
fn fnv1a_matches_known_values() {
    assert_eq!(fnv1a_64(b""), 0xcbf2_9ce4_8422_2325);
    assert_eq!(fnv1a_64(b"a"), 0xaf63_dc4c_8601_ec8c);
}

#[test]
fn def_file_lists_exports() {
    let exports = vec![
        Export { name: "l_A".to_string(), forwarder: None },
        Export { name: "l_B".to_string(), forwarder: None },
    ];
    assert_eq!(
        def_file_for("libleanshared.dll", &exports),
        "LIBRARY libleanshared.dll\nEXPORTS\nl_A\nl_B\n"
    );
    let fwd = vec![Export {
        name: "l_F".to_string(),
        forwarder: Some(("x.dll".to_string(), "l_G".to_string())),
    }];
    assert_eq!(def_file_for("y.dll", &fwd), "LIBRARY y.dll\nEXPORTS\nl_F = \"x.dll:l_G\"\n");
}

#[test]
fn file_names_follow_the_stem() {
    assert_eq!(dll_file_name("libleanshared"), "libleanshared.dll");
    assert_eq!(
        import_lib_names("libleanshared.dll"),
        ("libleanshared.dll.def".to_string(), "libleanshared.dll.lib".to_string())
    );
    assert_eq!(rust_lld_exe("x86_64-pc-windows-msvc"), "rust-lld.exe");
    assert_eq!(rust_lld_exe("x86_64-unknown-linux-gnu"), "rust-lld");
    assert_eq!(
        lean_dll_stems(),
        vec!["libInit_shared", "libleanshared_2", "libleanshared_1", "libleanshared"]
    );
}

#[test]
fn required_dll_is_libleanshared() {
    assert!(has_required_dll(&["libInit_shared.dll".to_string(), "libleanshared.dll".to_string()]));
    assert!(!has_required_dll(&["libleanshared_1.dll".to_string()]));
}

#[test]
fn import_dir_name_is_sixteen_hex_digits() {
    assert_eq!(import_dir_name(0xab), "win-imports-00000000000000ab");
    assert_eq!(import_dir_name(u64::MAX), "win-imports-ffffffffffffffff");
}

#[test]
fn cache_key_lists_every_entry() {
    let key = cache_key(&[("a.dll".to_string(), 10, 20), ("b.dll".to_string(), 1, 2)]);
    assert_eq!(key, "a.dll:10:20;b.dll:1:2;");
    assert_ne!(key, cache_key(&[("a.dll".to_string(), 10, 21)]));
}

#[test]
fn first_dll_to_export_a_name_keeps_it() {
    let e = |n: &str| Export { name: n.to_string(), forwarder: None };
    let dlls = vec![
        ("first.dll".to_string(), vec![e("x"), e("y")]),
        ("second.dll".to_string(), vec![e("y"), e("z")]),
    ];
    let out = dedupe_exports(&dlls);
    assert_eq!(out.len(), 2);
    let names = |i: usize| out[i].1.iter().map(|x| x.name.clone()).collect::<Vec<_>>();
    assert_eq!(names(0), vec!["x", "y"]);
    assert_eq!(names(1), vec!["z"]);
}

#[test]
fn link_order_follows_stem_order() {
    let libs = vec![
        ("libleanshared".to_string(), "c.lib".to_string()),
        ("libInit_shared".to_string(), "a.lib".to_string()),
        ("libleanshared_1".to_string(), "b.lib".to_string()),
    ];
    let ordered = link_order(libs);
    let stems: Vec<_> = ordered.iter().map(|(s, _)| s.as_str()).collect();
    assert_eq!(stems, vec!["libInit_shared", "libleanshared_1", "libleanshared"]);
}
