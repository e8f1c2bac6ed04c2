use m3u8dl::headers::header_entries;

#[test]
fn header_entries_reads_flat_object() {
    let doc = "{\"Authorization\":\"Bearer X\"}";
    let hs = header_entries(doc).unwrap();
    assert_eq!(hs, vec![("Authorization".to_string(), "Bearer X".to_string())]);
}

#[test]
fn header_entries_keeps_entry_order() {
    let doc = "{\"Accept\":\"*/*\",\"User-Agent\":\"soo\"}";
    let hs = header_entries(doc).unwrap();
    assert_eq!(
        hs,
        vec![
            ("Accept".to_string(), "*/*".to_string()),
            ("User-Agent".to_string(), "soo".to_string()),
        ]
    );
}

#[test]
fn header_entries_skips_non_string_values() {
    let doc = "{\"Accept\":\"*/*\",\"Retries\":3}";
    let hs = header_entries(doc).unwrap();
    assert_eq!(hs, vec![("Accept".to_string(), "*/*".to_string())]);
}

#[test]
fn header_entries_rejects_malformed_document() {
    let r = header_entries("{\"Accept\":");
    assert!(r.is_err());
    assert_eq!(r.unwrap_err().message(), "header file is invalid");
}

#[test]
fn header_entries_non_object_yields_nothing() {
    let hs = header_entries("[1, 2]").unwrap();
    assert!(hs.is_empty());
}

#[test]
fn header_entries_empty_object_yields_nothing() {
    let hs = header_entries("{}").unwrap();
    assert!(hs.is_empty());
}
