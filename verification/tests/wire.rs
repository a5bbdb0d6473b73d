use tus_sessions::file_info::FileInfo;
use tus_sessions::metadata::Metadata;

fn entries_of(metadata: &Metadata) -> Vec<(String, String)> {
    metadata.entries.clone()
}

fn pair(key: &str, value: &str) -> (String, String) {
    (key.to_string(), value.to_string())
}

#[test]
fn from_wire_empty_text_is_empty_metadata() {
    let metadata = Metadata::from_wire("").unwrap();
    assert!(metadata.is_empty());
}

#[test]
fn from_wire_single_entry() {
    let metadata = Metadata::from_wire("filename dGVzdC50eHQ=").unwrap();
    assert_eq!(entries_of(&metadata), vec![pair("filename", "test.txt")]);
}

#[test]
fn from_wire_several_entries_in_order() {
    let metadata =
        Metadata::from_wire("filename dGVzdC50eHQ=,type dGV4dC9wbGFpbg==,empty ,bare").unwrap();
    assert_eq!(
        entries_of(&metadata),
        vec![
            pair("filename", "test.txt"),
            pair("type", "text/plain"),
            pair("empty", ""),
            pair("bare", ""),
        ]
    );
}

#[test]
fn from_wire_cuts_at_first_space_only() {
    assert!(Metadata::from_wire("key dmFs dWU=").is_none());
    let metadata = Metadata::from_wire(" dmFs").unwrap();
    assert_eq!(entries_of(&metadata), vec![pair("", "val")]);
}

#[test]
fn from_wire_later_value_replaces_earlier() {
    let metadata = Metadata::from_wire("a MQ==,b Mg==,a Mw==").unwrap();
    assert_eq!(entries_of(&metadata), vec![pair("a", "3"), pair("b", "2")]);
}

#[test]
fn from_wire_refuses_bad_base64() {
    assert!(Metadata::from_wire("key !!!").is_none());
    assert!(Metadata::from_wire("key dGVzdA").is_none());
    assert!(Metadata::from_wire("a MQ==,key **").is_none());
}

#[test]
fn from_wire_refuses_bytes_that_are_no_text() {
    assert!(Metadata::from_wire("key /w==").is_none());
    assert!(Metadata::from_wire("key wyg=").is_none());
}

#[test]
fn from_wire_keeps_non_ascii_keys_and_values() {
    let metadata = Metadata::from_wire("n\u{e4}me aMOpbGxvIOS4lueVjA==").unwrap();
    assert_eq!(entries_of(&metadata), vec![pair("n\u{e4}me", "h\u{e9}llo \u{4e16}\u{754c}")]);
}

#[test]
fn wire_form_reads_back() {
    let cases: Vec<Vec<(String, String)>> = vec![
        vec![pair("filename", "test.txt")],
        vec![pair("filename", "my file, final (2).txt"), pair("note", "a b  c,,d")],
        vec![pair("a", ""), pair("b", " "), pair("c", ","), pair("d", "=")],
        vec![pair("k\u{fc}", "h\u{e9}llo \u{4e16}\u{754c}"), pair("emoji", "\u{1f600}")],
        vec![pair("", "empty key")],
    ];
    for entries in cases {
        let mut metadata = Metadata::new();
        for (k, v) in &entries {
            metadata.insert(k.clone(), v.clone());
        }
        let wire = metadata.to_wire().unwrap();
        let back = Metadata::from_wire(&wire).unwrap();
        assert_eq!(entries_of(&back), entries);
    }
}

#[test]
fn record_metadata_string_reads_back() {
    let mut info = FileInfo::new("abc", Some(1), None, "disk".to_string(), None);
    info.metadata.insert("filename".to_string(), "a, b and c.txt".to_string());
    info.metadata.insert("owner".to_string(), "someone else".to_string());
    let wire = info.get_metadata_string().unwrap();
    let back = Metadata::from_wire(&wire).unwrap();
    assert_eq!(entries_of(&back), entries_of(&info.metadata));
    assert_eq!(back.get("filename"), Some(&"a, b and c.txt".to_string()));
}
