use rust_asar::archive::{content_position, is_plain};
use rust_asar::path::join_path;
use rust_asar::{parse_header, AsarEntry, AsarError, AsarFile, AsarFileEntry};

fn archive(json: &str, content: &[u8]) -> Vec<u8> {
    let json_size = json.len() as u32;
    let header_size = json_size + 8;
    let mut bytes = Vec::new();
    bytes.extend_from_slice(&4u32.to_le_bytes());
    bytes.extend_from_slice(&header_size.to_le_bytes());
    bytes.extend_from_slice(&(json_size + 4).to_le_bytes());
    bytes.extend_from_slice(&json_size.to_le_bytes());
    bytes.extend_from_slice(json.as_bytes());
    bytes.extend_from_slice(content);
    bytes
}

fn file(path: &str, offset: u64, size: u64) -> AsarEntry {
    AsarEntry::File(AsarFileEntry { filename: path.to_string(), offset, size })
}

fn dir(path: &str) -> AsarEntry {
    AsarEntry::Dir(path.to_string())
}

fn listing_of(json: &str) -> Result<Vec<AsarEntry>, AsarError> {
    AsarFile::new(&archive(json, b"")).and_then(|opened| opened.list_files())
}

const SAMPLE: &str =
    r#"{"files": {"a.txt": {"size": 5, "offset": "0"}, "sub": {"files": {"b.txt": {"size": 3, "offset": "5"}}}}}"#;

#[test]
fn parse_header_reads_little_endian_fields() {
    let bytes = [
        0x04, 0, 0, 0, 0x78, 0x56, 0x34, 0x12, 0xff, 0xff, 0xff, 0xff, 0x01, 0x02, 0x00, 0x80,
    ];
    assert_eq!(parse_header(&bytes), Ok((0x1234_5678, 0x8000_0201)));
}

#[test]
fn parse_header_takes_the_largest_values() {
    assert_eq!(parse_header(&[0xff; 16]), Ok((u32::MAX, u32::MAX)));
    assert_eq!(parse_header(&[0; 16]), Ok((0, 0)));
}

#[test]
fn parse_header_ignores_what_follows_the_prefix() {
    let mut bytes = vec![0u8; 40];
    bytes[4] = 7;
    bytes[12] = 9;
    bytes[16] = 0xaa;
    assert_eq!(parse_header(&bytes), Ok((7, 9)));
}

#[test]
fn parse_header_refuses_a_short_prefix() {
    assert_eq!(parse_header(&[0u8; 15]), Err(AsarError::FormatError));
    assert_eq!(parse_header(&[]), Err(AsarError::FormatError));
}

#[test]
fn new_keeps_both_sizes() {
    let bytes = archive(SAMPLE, b"helloXYZ");
    let opened = AsarFile::new(&bytes).unwrap();
    assert_eq!(opened.json_size(), SAMPLE.len() as u64);
    assert_eq!(opened.header_size(), SAMPLE.len() as u64 + 8);
}

#[test]
fn new_refuses_a_short_prefix() {
    assert!(matches!(AsarFile::new(&[1, 2, 3]), Err(AsarError::FormatError)));
}

#[test]
fn new_refuses_a_truncated_index() {
    let mut bytes = archive(SAMPLE, b"");
    bytes.pop();
    assert!(matches!(AsarFile::new(&bytes), Err(AsarError::IO(_))));
    bytes.truncate(16);
    assert!(matches!(AsarFile::new(&bytes), Err(AsarError::IO(_))));
    bytes.truncate(15);
    assert!(matches!(AsarFile::new(&bytes), Err(AsarError::FormatError)));
}

#[test]
fn new_refuses_malformed_json() {
    let bytes = archive(r#"{"files": {"#, b"");
    assert!(matches!(AsarFile::new(&bytes), Err(AsarError::JsonHeaderError)));
}

#[test]
fn new_refuses_an_empty_index() {
    let bytes = archive("", b"");
    assert!(matches!(AsarFile::new(&bytes), Err(AsarError::JsonHeaderError)));
}

#[test]
fn new_reads_only_the_announced_index() {
    let bytes = archive(r#"{"files": {}}"#, b"{not json");
    let opened = AsarFile::new(&bytes).unwrap();
    assert_eq!(opened.list_files(), Ok(vec![]));
}

#[test]
fn list_files_of_the_sample() {
    assert_eq!(
        listing_of(SAMPLE),
        Ok(vec![file("a.txt", 0, 5), dir("sub"), file("sub/b.txt", 5, 3)])
    );
}

#[test]
fn list_files_of_an_empty_tree_is_empty() {
    assert_eq!(listing_of(r#"{"files": {}}"#), Ok(vec![]));
}

#[test]
fn list_files_keeps_the_order_of_the_document() {
    let json = r#"{"files": {"z": {"size": 1, "offset": "0"}, "m": {"files": {}}, "a": {"size": 2, "offset": "1"}}}"#;
    assert_eq!(listing_of(json), Ok(vec![file("z", 0, 1), dir("m"), file("a", 1, 2)]));
}

#[test]
fn list_files_puts_a_directory_before_what_is_in_it() {
    let json = r#"{"files": {"a": {"files": {"b": {"files": {"c": {"size": 1, "offset": "2"}}}, "d": {"size": 3, "offset": "4"}}}}}"#;
    assert_eq!(
        listing_of(json),
        Ok(vec![dir("a"), dir("a/b"), file("a/b/c", 2, 1), file("a/d", 4, 3)])
    );
}

#[test]
fn list_files_counts_one_entry_for_each_node() {
    let json = r#"{"files": {"a": {"files": {"b": {"files": {}}, "c": {"size": 0, "offset": "0"}}}, "d": {"size": 0, "offset": "0"}}}"#;
    let entries = listing_of(json).unwrap();
    let dirs = entries.iter().filter(|e| matches!(e, AsarEntry::Dir(_))).count();
    let files = entries.iter().filter(|e| matches!(e, AsarEntry::File(_))).count();
    assert_eq!((dirs, files), (2, 2));
}

#[test]
fn list_files_ignores_other_members_of_a_node() {
    let json = r#"{"files": {"a": {"size": 1, "offset": "2", "executable": true}}, "extra": 1}"#;
    assert_eq!(listing_of(json), Ok(vec![file("a", 2, 1)]));
}

#[test]
fn list_files_needs_a_root_object_with_files() {
    assert_eq!(listing_of(r#"{"other": {}}"#), Err(AsarError::JsonHeaderError));
    assert_eq!(listing_of(r#"[1, 2]"#), Err(AsarError::JsonHeaderError));
    assert_eq!(listing_of(r#"{"files": 3}"#), Err(AsarError::JsonHeaderError));
}

#[test]
fn list_files_refuses_a_node_that_is_no_object() {
    assert_eq!(listing_of(r#"{"files": {"a": 1}}"#), Err(AsarError::JsonHeaderError));
    assert_eq!(listing_of(r#"{"files": {"a": {"files": "x"}}}"#), Err(AsarError::JsonHeaderError));
}

#[test]
fn list_files_refuses_a_file_without_size_or_offset() {
    assert_eq!(listing_of(r#"{"files": {"a": {"offset": "0"}}}"#), Err(AsarError::JsonHeaderError));
    assert_eq!(listing_of(r#"{"files": {"a": {"size": 1}}}"#), Err(AsarError::JsonHeaderError));
}

#[test]
fn list_files_refuses_a_size_that_is_no_unsigned_integer() {
    for size in ["-1", "1.5", "\"1\"", "null", "18446744073709551616"] {
        let json = format!(r#"{{"files": {{"a": {{"size": {}, "offset": "0"}}}}}}"#, size);
        assert_eq!(listing_of(&json), Err(AsarError::JsonHeaderError));
    }
}

#[test]
fn list_files_refuses_a_non_numeric_offset() {
    for offset in ["\"abc\"", "\"\"", "\"+\"", "\"-1\"", "\" 1\"", "\"1_0\"", "\"0x10\"", "7",
        "\"18446744073709551616\""]
    {
        let json = format!(r#"{{"files": {{"a": {{"size": 1, "offset": {}}}}}}}"#, offset);
        assert_eq!(listing_of(&json), Err(AsarError::JsonHeaderError));
    }
}

#[test]
fn list_files_reads_decimal_offsets() {
    let json = r#"{"files": {"a": {"size": 18446744073709551615, "offset": "18446744073709551615"}, "b": {"size": 0, "offset": "+0042"}}}"#;
    assert_eq!(listing_of(json), Ok(vec![file("a", u64::MAX, u64::MAX), file("b", 42, 0)]));
}

#[test]
fn read_header_appends_to_what_is_there() {
    let value: serde_json::Value =
        serde_json::from_str(r#"{"x": {"size": 2, "offset": "3"}}"#).unwrap();
    let mut result = vec![dir("kept")];
    let outcome = AsarFile::read_header(&value, &mut result, "root/dir".to_string());
    assert_eq!(outcome, Ok(()));
    assert_eq!(result, vec![dir("kept"), file("root/dir/x", 3, 2)]);
}

#[test]
fn read_header_stops_at_the_first_malformed_node() {
    let value: serde_json::Value = serde_json::from_str(
        r#"{"a": {"size": 1, "offset": "0"}, "d": {"files": {"b": {"size": 1, "offset": "1"}, "bad": {"size": 1, "offset": "x"}, "c": {"size": 1, "offset": "2"}}}, "e": {"size": 1, "offset": "3"}}"#,
    )
    .unwrap();
    let mut result = vec![];
    let outcome = AsarFile::read_header(&value, &mut result, String::new());
    assert_eq!(outcome, Err(AsarError::JsonHeaderError));
    assert_eq!(result, vec![]);
    let mut result = vec![dir("kept"), file("kept/too", 1, 2)];
    let outcome = AsarFile::read_header(&value, &mut result, String::new());
    assert_eq!(outcome, Err(AsarError::JsonHeaderError));
    assert_eq!(result, vec![dir("kept"), file("kept/too", 1, 2)]);
}

#[test]
fn read_header_leaves_nothing_behind_when_a_later_file_is_malformed() {
    let value: serde_json::Value =
        serde_json::from_str(r#"{"a": {"size": 1, "offset": "0"}, "b": {"size": 1}}"#).unwrap();
    let mut result = vec![];
    let outcome = AsarFile::read_header(&value, &mut result, String::new());
    assert_eq!(outcome, Err(AsarError::JsonHeaderError));
    assert_eq!(result, vec![]);
}

#[test]
fn read_header_refuses_a_value_that_is_no_object() {
    let value: serde_json::Value = serde_json::from_str("[]").unwrap();
    let mut result = vec![dir("kept")];
    let outcome = AsarFile::read_header(&value, &mut result, String::new());
    assert_eq!(outcome, Err(AsarError::JsonHeaderError));
    assert_eq!(result, vec![dir("kept")]);
}

#[test]
fn read_content_of_the_sample() {
    let bytes = archive(SAMPLE, b"helloXYZ");
    let opened = AsarFile::new(&bytes).unwrap();
    let entries = opened.list_files().unwrap();
    assert_eq!(opened.read_content(&entries[0], &bytes), Ok(b"hello".to_vec()));
    assert_eq!(opened.read_content(&entries[1], &bytes), Ok(vec![]));
    assert_eq!(opened.read_content(&entries[2], &bytes), Ok(b"XYZ".to_vec()));
}

#[test]
fn read_content_starts_eight_bytes_after_the_header_size() {
    let mut bytes = vec![0u8; 16];
    bytes[4] = 20;
    bytes[12] = 2;
    bytes.extend_from_slice(b"{}");
    bytes.extend_from_slice(b"0123456789abcdefghij");
    let opened = AsarFile::new(&bytes).unwrap();
    assert_eq!(opened.read_content(&file("f", 1, 4), &bytes), Ok(b"bcde".to_vec()));
    assert_eq!(opened.read_content(&file("f", 10, 0), &bytes), Ok(vec![]));
}

#[test]
fn read_content_refuses_a_range_past_the_end() {
    let bytes = archive(SAMPLE, b"helloXYZ");
    let opened = AsarFile::new(&bytes).unwrap();
    assert_eq!(opened.read_content(&file("f", 0, 8), &bytes), Ok(b"helloXYZ".to_vec()));
    assert!(matches!(opened.read_content(&file("f", 0, 9), &bytes), Err(AsarError::IO(_))));
    assert!(matches!(opened.read_content(&file("f", 9, 0), &bytes), Err(AsarError::IO(_))));
    assert!(matches!(
        opened.read_content(&file("f", u64::MAX, u64::MAX), &bytes),
        Err(AsarError::IO(_))
    ));
}

#[test]
fn read_string_replaces_invalid_sequences() {
    let bytes = archive(SAMPLE, b"h\xffllo\xc3\xa9!");
    let opened = AsarFile::new(&bytes).unwrap();
    assert_eq!(opened.read_string(&file("f", 0, 5), &bytes), Ok("h\u{fffd}llo".to_string()));
    assert_eq!(opened.read_string(&file("f", 5, 3), &bytes), Ok("\u{e9}!".to_string()));
    assert_eq!(opened.read_string(&dir("d"), &bytes), Ok(String::new()));
    assert!(matches!(opened.read_string(&file("f", 0, 99), &bytes), Err(AsarError::IO(_))));
}

#[test]
fn content_position_adds_the_header_and_the_gap() {
    assert_eq!(content_position(0, 0), Some(8));
    assert_eq!(content_position(100, 23), Some(131));
    assert_eq!(content_position(u64::MAX - 8, 0), Some(u64::MAX));
    assert_eq!(content_position(u64::MAX - 8, 1), None);
    assert_eq!(content_position(u64::MAX, 0), None);
    assert_eq!(content_position(0, u64::MAX - 7), None);
}

#[test]
fn join_path_separates_with_a_slash() {
    assert_eq!(join_path("", "a.txt"), "a.txt");
    assert_eq!(join_path("sub", "b.txt"), "sub/b.txt");
    assert_eq!(join_path("a/b", "c"), "a/b/c");
    assert_eq!(join_path("", ""), "");
}

#[test]
fn list_files_lists_no_path_twice() {
    let json = r#"{"files": {"a": {"files": {"a": {"files": {"a": {"size": 1, "offset": "0"}}}, "b": {"size": 1, "offset": "1"}}}, "b": {"size": 1, "offset": "2"}}}"#;
    let entries = listing_of(json).unwrap();
    let paths: Vec<String> = entries
        .iter()
        .map(|entry| match entry {
            AsarEntry::File(file) => file.filename.clone(),
            AsarEntry::Dir(path) => path.clone(),
        })
        .collect();
    assert_eq!(paths, vec!["a", "a/a", "a/a/a", "a/b", "b"]);
}

#[test]
fn list_files_takes_names_as_they_stand() {
    let json = r#"{"files": {"a/b": {"size": 1, "offset": "0"}, "a": {"files": {}}}}"#;
    assert_eq!(listing_of(json), Ok(vec![file("a/b", 0, 1), dir("a")]));
}

#[test]
fn is_plain_wants_a_name_without_separator() {
    assert!(is_plain("a.txt"));
    assert!(is_plain("\u{e9}t\u{e9}"));
    assert!(!is_plain(""));
    assert!(!is_plain("a/b"));
    assert!(!is_plain("/"));
    assert!(!is_plain("dir/"));
}

#[test]
fn has_plain_names_looks_at_directories_and_files_only() {
    let plain = |json: &str| AsarFile::new(&archive(json, b"")).unwrap().has_plain_names();
    assert!(plain(SAMPLE));
    assert!(plain(r#"{"files": {}}"#));
    assert!(plain(r#"{"no/files": 1, "": 2}"#));
    assert!(plain(r#"{"files": {"a": {"size": 1, "offset": "0", "x/y": true, "": 1}}, "/": 0}"#));
    assert!(!plain(r#"{"files": {"a/b": {"size": 1, "offset": "0"}}}"#));
    assert!(!plain(r#"{"files": {"": {"files": {}}}}"#));
    assert!(!plain(r#"{"files": {"a": {"files": {"b": {"files": {"c/": {"size": 1, "offset": "0"}}}}}}}"#));
    assert!(plain(r#"{"files": {"a": {"size": {"b/c": 1}, "offset": "0"}}}"#));
}
