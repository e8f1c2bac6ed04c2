use m3u8dl::extract::extract;

#[test]
fn extract_keeps_playlist_order() {
    let playlist = "#EXTM3U\nseg1.ts\nseg2.ts\nseg3.ts\n";
    let list = extract(playlist).unwrap();
    assert_eq!(list, vec!["seg1.ts", "seg2.ts", "seg3.ts"]);
}

#[test]
fn extract_takes_first_token_of_each_line() {
    let playlist = "a1.ts junk b2.ts\nc3.ts\n";
    let list = extract(playlist).unwrap();
    assert_eq!(list, vec!["a1.ts", "c3.ts"]);
}

#[test]
fn extract_finds_token_after_leading_junk() {
    let playlist = "#EXTINF:4, seg7.ts\nnothing here\n";
    let list = extract(playlist).unwrap();
    assert_eq!(list, vec!["seg7.ts"]);
}

#[test]
fn extract_ignores_tag_only_lines() {
    let playlist = "#EXTM3U\n#EXT-X-VERSION:3\nseg1.ts\n#EXT-X-ENDLIST\n";
    let list = extract(playlist).unwrap();
    assert_eq!(list, vec!["seg1.ts"]);
}

#[test]
fn extract_empty_list_is_fatal() {
    let playlist = "#EXTM3U\n#EXT-X-ENDLIST\n";
    let r = extract(playlist);
    assert!(r.is_err());
    assert_eq!(r.unwrap_err().message(), "m3u8 format is invalid");
}

#[test]
fn extract_empty_document_is_fatal() {
    assert!(extract("").is_err());
}

#[test]
fn extract_token_keeps_extension_only() {
    let playlist = "abc.tsx\n";
    let list = extract(playlist).unwrap();
    assert_eq!(list, vec!["abc.ts"]);
}

#[test]
fn extract_leftmost_match_wins() {
    let playlist = "x.ts.ts\n";
    let list = extract(playlist).unwrap();
    assert_eq!(list, vec!["x.ts"]);
}

#[test]
fn extract_handles_crlf_line_endings() {
    let playlist = "seg1.ts\r\nseg2.ts\r\n";
    let list = extract(playlist).unwrap();
    assert_eq!(list, vec!["seg1.ts", "seg2.ts"]);
}

#[test]
fn extract_keeps_duplicates() {
    let playlist = "seg1.ts\nseg1.ts\n";
    let list = extract(playlist).unwrap();
    assert_eq!(list, vec!["seg1.ts", "seg1.ts"]);
}

#[test]
fn extract_without_final_newline() {
    let playlist = "seg1.ts\nseg2.ts";
    let list = extract(playlist).unwrap();
    assert_eq!(list, vec!["seg1.ts", "seg2.ts"]);
}
