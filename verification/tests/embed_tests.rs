use leo3_tooling::embed::{frame_metadata_entry, parse_metadata_entries, METADATA_ENTRY_MAGIC};

#[test]
fn round_trip_single_entry() {
    let framed = frame_metadata_entry("__leo3_module_metadata_json_Foo", "{\"a\":1}");
    let parsed = parse_metadata_entries(&framed);
    assert_eq!(
        parsed,
        vec![(
            "__leo3_module_metadata_json_Foo".to_string(),
            "{\"a\":1}".to_string()
        )]
    );
}

#[test]
fn round_trip_multiple_with_padding() {
    let mut blob = Vec::new();
    blob.extend_from_slice(&[0u8; 3]); // leading padding
    blob.extend_from_slice(&frame_metadata_entry(
        "__leo3_module_metadata_json_A",
        "{\"m\":1}",
    ));
    blob.extend_from_slice(&[0u8; 5]); // inter-entry padding
    blob.extend_from_slice(&frame_metadata_entry(
        "__leo3_class_metadata_json_B",
        "{\"c\":2}",
    ));
    blob.extend_from_slice(&[0u8; 2]); // trailing padding

    let parsed = parse_metadata_entries(&blob);
    assert_eq!(parsed.len(), 2);
    assert_eq!(parsed[0].0, "__leo3_module_metadata_json_A");
    assert_eq!(parsed[0].1, "{\"m\":1}");
    assert_eq!(parsed[1].0, "__leo3_class_metadata_json_B");
    assert_eq!(parsed[1].1, "{\"c\":2}");
}

#[test]
fn ignores_garbage() {
    let blob = [0u8, 1, 2, 3, b'L', b'3', 0, 0, 9, 9];
    assert!(parse_metadata_entries(&blob).is_empty());
}

#[test]
fn frame_layout_is_magic_lengths_name_json() {
    let framed = frame_metadata_entry("ab", "xyz");
    assert_eq!(&framed[0..4], b"L3MJ");
    assert_eq!(&framed[4..8], &2u32.to_le_bytes());
    assert_eq!(&framed[8..12], &3u32.to_le_bytes());
    assert_eq!(&framed[12..], b"abxyz");
}

#[test]
fn truncated_entry_stops_the_scan() {
    let mut framed = frame_metadata_entry("name", "json");
    framed.pop();
    assert!(parse_metadata_entries(&framed).is_empty());
}

#[test]
fn entries_after_garbage_are_found() {
    let mut blob = vec![7u8, b'L', b'3'];
    blob.extend_from_slice(&frame_metadata_entry("n", "j"));
    assert_eq!(parse_metadata_entries(&blob), vec![("n".to_string(), "j".to_string())]);
}

#[test]
fn magic_constant_starts_each_frame() {
    let framed = frame_metadata_entry("k", "v");
    assert_eq!(&framed[0..4], &METADATA_ENTRY_MAGIC);
}
