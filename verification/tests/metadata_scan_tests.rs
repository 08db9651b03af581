use leo3_tooling::embed::frame_metadata_entry;
use leo3_tooling::metadata_scan::{
    collect_metadata, extract_metadata_from_exports, extract_metadata_from_sections,
    extract_metadata_symbols, read_bytes_at, read_null_terminated_at, ExportInfo, ObjectImage,
    SectionInfo, SymbolInfo,
};

fn section(name: &str, address: u64, data: Vec<u8>) -> SectionInfo {
    SectionInfo { name: Ok(name.to_string()), address, size: data.len() as u64, data: Ok(data) }
}

fn symbol(name: &str, address: u64, size: u64) -> SymbolInfo {
    SymbolInfo { name: Ok(name.to_string()), address, size }
}

fn image(sections: Vec<SectionInfo>, symbols: Vec<SymbolInfo>, exports: Vec<ExportInfo>) -> ObjectImage {
    ObjectImage { sections, symbols, pe_exports: Some(Ok(Some(Ok(exports)))) }
}

fn rodata() -> SectionInfo {
    let mut data = b"{\"m\":1}".to_vec();
    data.extend_from_slice(b"\0{\"c\":2}\0xx");
    section(".rodata", 0x1000, data)
}

#[test]
fn symbol_with_size_reads_that_many_bytes() {
    let obj = image(vec![rodata()], vec![symbol("__leo3_module_metadata_json_Foo", 0x1000, 7)], vec![]);
    assert_eq!(
        extract_metadata_symbols(&obj).unwrap(),
        vec![("__leo3_module_metadata_json_Foo".to_string(), "{\"m\":1}".to_string())]
    );
}

#[test]
fn symbol_without_size_reads_to_the_nul() {
    let obj = image(vec![rodata()], vec![symbol("__leo3_class_metadata_json_Bar", 0x1008, 0)], vec![]);
    assert_eq!(
        extract_metadata_symbols(&obj).unwrap(),
        vec![("__leo3_class_metadata_json_Bar".to_string(), "{\"c\":2}".to_string())]
    );
}

#[test]
fn other_symbols_are_ignored() {
    let obj = image(vec![rodata()], vec![symbol("main", 0x1000, 4)], vec![]);
    assert!(extract_metadata_symbols(&obj).unwrap().is_empty());
}

#[test]
fn symbol_outside_every_section_is_an_error() {
    let obj = image(vec![rodata()], vec![symbol("__leo3_module_metadata_json_X", 0x9000, 4)], vec![]);
    assert_eq!(
        extract_metadata_symbols(&obj).unwrap_err(),
        "no section contains address 0x9000 (size 4)"
    );
    assert_eq!(
        read_null_terminated_at(&obj, 0x10).unwrap_err(),
        "no section contains address 0x10"
    );
}

#[test]
fn unreadable_section_data_is_reported() {
    let bad = SectionInfo { name: Ok(".data".to_string()), address: 0, size: 16, data: Err("gone".to_string()) };
    let obj = image(vec![bad], vec![], vec![]);
    assert_eq!(read_bytes_at(&obj, 4, 4).unwrap_err(), "failed to read section data: gone");
}

#[test]
fn metadata_section_entries_are_scanned() {
    let mut blob = vec![0u8; 3];
    blob.extend_from_slice(&frame_metadata_entry("__leo3_module_metadata_json_M", "{}"));
    let obj = image(vec![rodata(), section(".leo3meta", 0x4000, blob)], vec![], vec![]);
    assert_eq!(
        extract_metadata_from_sections(&obj),
        vec![("__leo3_module_metadata_json_M".to_string(), "{}".to_string())]
    );
}

#[test]
fn exports_read_null_terminated_metadata() {
    let exports = vec![
        ExportInfo { name: Some(b"__leo3_class_metadata_json_Bar".to_vec()), address: Some(0x1008) },
        ExportInfo { name: Some(b"unrelated".to_vec()), address: Some(0x1000) },
        ExportInfo { name: None, address: Some(0x1000) },
        ExportInfo { name: Some(b"__leo3_class_metadata_json_Fwd".to_vec()), address: None },
    ];
    let obj = image(vec![rodata()], vec![], exports);
    assert_eq!(
        extract_metadata_from_exports(&obj),
        vec![("__leo3_class_metadata_json_Bar".to_string(), "{\"c\":2}".to_string())]
    );
}

#[test]
fn collect_keeps_the_first_entry_per_name() {
    let mut blob = frame_metadata_entry("__leo3_module_metadata_json_Foo", "{\"late\":0}");
    blob.extend_from_slice(&frame_metadata_entry("__leo3_module_metadata_json_Other", "{}"));
    let obj = image(
        vec![rodata(), section("leo3meta", 0x4000, blob)],
        vec![symbol("__leo3_module_metadata_json_Foo", 0x1000, 7)],
        vec![],
    );
    assert_eq!(
        collect_metadata(&obj).unwrap(),
        vec![
            ("__leo3_module_metadata_json_Foo".to_string(), "{\"m\":1}".to_string()),
            ("__leo3_module_metadata_json_Other".to_string(), "{}".to_string()),
        ]
    );
}

#[test]
fn reads_past_the_section_data_are_errors() {
    // A `.bss`-like section declares more bytes than its file data holds.
    let bss = SectionInfo { name: Ok(".bss".to_string()), address: 0x2000, size: 0x100, data: Ok(vec![]) };
    let obj = image(vec![bss], vec![symbol("__leo3_module_metadata_json_Z", 0x2000, 8)], vec![]);
    assert_eq!(
        extract_metadata_symbols(&obj).unwrap_err(),
        "failed to read section data: section data is shorter than its declared size"
    );
    let bss = SectionInfo { name: Ok(".bss".to_string()), address: 0x2000, size: 0x100, data: Ok(vec![]) };
    let obj = image(vec![bss], vec![], vec![]);
    assert_eq!(read_null_terminated_at(&obj, 0x2000).unwrap(), "");
    assert!(read_null_terminated_at(&obj, 0x2001).unwrap_err().contains("shorter than its declared size"));
}

#[test]
fn unreadable_export_tables_give_nothing() {
    let exports = vec![ExportInfo { name: Some(b"__leo3_class_metadata_json_Bar".to_vec()), address: Some(0x1008) }];
    let listed = ObjectImage { sections: vec![rodata()], symbols: vec![], pe_exports: Some(Ok(Some(Ok(exports)))) };
    assert_eq!(extract_metadata_from_exports(&listed).len(), 1);
    let failed = ObjectImage { sections: vec![rodata()], symbols: vec![], pe_exports: Some(Ok(Some(Err("bad".to_string())))) };
    assert!(extract_metadata_from_exports(&failed).is_empty());
    let absent = ObjectImage { sections: vec![rodata()], symbols: vec![], pe_exports: Some(Ok(None)) };
    assert!(extract_metadata_from_exports(&absent).is_empty());
    let not_pe = ObjectImage { sections: vec![rodata()], symbols: vec![], pe_exports: None };
    assert!(extract_metadata_from_exports(&not_pe).is_empty());
}
