use base64::Engine;
use tus_sessions::errors::UploadError;
use tus_sessions::file_info::FileInfo;
use tus_sessions::hashing::to_hex;
use tus_sessions::metadata::Metadata;
use tus_sessions::session::{Appended, Progress};
use tus_sessions::text::same_text;

const SHA256_EMPTY: &str = "e3b0c44298fc1c149afbf4c8996fb92427ae41e4649b934ca495991b7852b855";
const SHA256_ABC: &str = "ba7816bf8f01cfea414140de5dae2223b00361a396177a9cb410ff61f20015ad";
const SHA256_HELLO_WORLD: &str = "b94d27b9934d3e08a52e52d7da7dabfac484efe37a5380ee9088f7ace2efcde9";

fn record(id: &str, length: Option<usize>) -> FileInfo {
    FileInfo::new(id, length, None, "disk".to_string(), None)
}

fn decode_wire(wire: &str) -> Vec<(String, String)> {
    let mut out = Vec::new();
    for entry in wire.split(',') {
        let (key, value) = entry.split_once(' ').unwrap();
        let bytes = base64::engine::general_purpose::STANDARD.decode(value).unwrap();
        out.push((key.to_string(), String::from_utf8(bytes).unwrap()));
    }
    out
}

#[test]
fn new_record_with_length() {
    let info = FileInfo::new("abc", Some(10), Some("/data/abc".to_string()), "disk".to_string(), None);
    assert_eq!(info.id, "abc");
    assert_eq!(info.offset, 0);
    assert_eq!(info.length, Some(10));
    assert_eq!(info.path, Some("/data/abc".to_string()));
    assert_eq!(info.storage, "disk");
    assert!(!info.deferred_size);
    assert!(!info.is_partial);
    assert!(!info.is_final);
    assert_eq!(info.parts, None);
    assert_eq!(info.finalized_sha256, None);
    assert!(info.metadata.is_empty());
    assert!(info.created_at > 1_500_000_000);
}

#[test]
fn new_record_without_length_is_deferred() {
    let info = record("abc", None);
    assert!(info.deferred_size);
    assert_eq!(info.length, None);
    assert!(!info.is_complete());
}

#[test]
fn new_record_keeps_initial_metadata() {
    let mut meta = Metadata::new();
    meta.insert("filename".to_string(), "a.bin".to_string());
    let info = FileInfo::new("abc", None, None, "disk".to_string(), Some(meta));
    assert_eq!(info.metadata.len(), 1);
    assert_eq!(info.metadata.get("filename"), Some(&"a.bin".to_string()));
}

#[test]
fn new_test_record() {
    let a = FileInfo::new_test();
    let b = FileInfo::new_test();
    assert_eq!(a.length, Some(10));
    assert_eq!(a.offset, 0);
    assert_eq!(a.path, Some("random_path".to_string()));
    assert_eq!(a.storage, "random_storage");
    assert!(a.metadata.is_empty());
    assert_eq!(a.id.len(), 36);
    assert_ne!(a.id, b.id);
}

#[test]
fn metadata_string_of_empty_map_is_absent() {
    let info = record("abc", Some(1));
    assert_eq!(info.get_metadata_string(), None);
}

#[test]
fn metadata_string_single_entry() {
    let mut info = record("abc", Some(1));
    info.metadata.insert("filename".to_string(), "test.txt".to_string());
    assert_eq!(info.get_metadata_string(), Some("filename dGVzdC50eHQ=".to_string()));
}

#[test]
fn metadata_string_joins_entries_with_commas() {
    let mut info = record("abc", Some(1));
    info.metadata.insert("filename".to_string(), "test.txt".to_string());
    info.metadata.insert("type".to_string(), "text/plain".to_string());
    info.metadata.insert("empty".to_string(), String::new());
    assert_eq!(
        info.get_metadata_string(),
        Some("filename dGVzdC50eHQ=,type dGV4dC9wbGFpbg==,empty ".to_string())
    );
}

#[test]
fn metadata_string_decodes_back() {
    let mut info = record("abc", Some(1));
    let entries = vec![
        ("filename".to_string(), "my file, final (2).txt".to_string()),
        ("note".to_string(), "a b  c,,d".to_string()),
        ("unicode".to_string(), "h\u{e9}llo \u{4e16}\u{754c}".to_string()),
        ("blank".to_string(), String::new()),
    ];
    for (k, v) in &entries {
        info.metadata.insert(k.clone(), v.clone());
    }
    let wire = info.get_metadata_string().unwrap();
    assert_eq!(decode_wire(&wire), entries);
}

#[test]
fn metadata_insert_replaces_in_place() {
    let mut meta = Metadata::new();
    meta.insert("a".to_string(), "1".to_string());
    meta.insert("b".to_string(), "2".to_string());
    meta.insert("a".to_string(), "3".to_string());
    assert_eq!(meta.len(), 2);
    assert_eq!(meta.get("a"), Some(&"3".to_string()));
    assert_eq!(meta.get("b"), Some(&"2".to_string()));
    assert_eq!(meta.get("c"), None);
    assert_eq!(meta.to_wire(), Some("a Mw==,b Mg==".to_string()));
}

#[test]
fn filename_from_metadata_or_id() {
    let mut info = record("abc", Some(1));
    assert_eq!(info.get_filename(), "abc");
    info.metadata.insert("other".to_string(), "x".to_string());
    assert_eq!(info.get_filename(), "abc");
    info.metadata.insert("filename".to_string(), "report.pdf".to_string());
    assert_eq!(info.get_filename(), "report.pdf");
}

#[test]
fn hex_of_bytes() {
    assert_eq!(to_hex(&[]), "");
    assert_eq!(to_hex(&[0x00, 0xff, 0x1a, 0xa1, 0x09, 0x90]), "00ff1aa10990");
    assert_eq!(to_hex(&[0xde, 0xad, 0xbe, 0xef]), "deadbeef");
}

#[test]
fn same_text_compares_content() {
    assert!(same_text("abc", "abc"));
    assert!(same_text("", ""));
    assert!(!same_text("abc", "abd"));
    assert!(!same_text("abc", "ab"));
    assert!(same_text("h\u{e9}", "h\u{e9}"));
}

#[test]
fn hash_of_nothing() {
    let mut info = record("abc", Some(0));
    assert_eq!(info.finalize_sha256(), SHA256_EMPTY);
    assert_eq!(info.finalized_sha256, Some(SHA256_EMPTY.to_string()));
}

#[test]
fn hash_of_accepted_chunks() {
    let mut info = record("abc", Some(11));
    info.accept_bytes(b"hello");
    info.accept_bytes(b" ");
    info.accept_bytes(b"world");
    assert_eq!(info.offset, 0);
    assert_eq!(info.finalize_sha256(), SHA256_HELLO_WORLD);
}

#[test]
fn finalize_is_idempotent() {
    let mut info = record("abc", Some(3));
    info.accept_bytes(b"abc");
    assert_eq!(info.finalize_sha256(), SHA256_ABC);
    info.accept_bytes(b"more");
    assert_eq!(info.finalize_sha256(), SHA256_ABC);
    assert_eq!(info.finalized_sha256, Some(SHA256_ABC.to_string()));
}

#[test]
fn cloned_record_hashes_on_from_the_same_state() {
    let mut info = record("abc", Some(11));
    info.accept_bytes(b"hello ");
    let mut copy = info.clone();
    info.accept_bytes(b"world");
    copy.accept_bytes(b"world");
    assert_eq!(info.finalize_sha256(), SHA256_HELLO_WORLD);
    assert_eq!(copy.finalize_sha256(), SHA256_HELLO_WORLD);
}

#[test]
fn appends_in_order_reach_completion() {
    let mut info = record("abc", Some(11));
    assert_eq!(info.append(0, b"hello"), Ok(Appended { offset: 5, completed: false }));
    assert_eq!(info.finalized_sha256, None);
    assert_eq!(info.append(5, b" "), Ok(Appended { offset: 6, completed: false }));
    assert_eq!(info.append(6, b"world"), Ok(Appended { offset: 11, completed: true }));
    assert!(info.is_complete());
    assert_eq!(info.offset, 11);
    assert_eq!(info.finalized_sha256, Some(SHA256_HELLO_WORLD.to_string()));
}

#[test]
fn offset_is_sum_of_accepted_chunks() {
    let mut info = record("abc", Some(10));
    let calls: Vec<(usize, &[u8])> = vec![
        (0, b"abc"),
        (0, b"zzz"),
        (3, b"defghijk"),
        (3, b""),
        (5, b"x"),
        (3, b"defg"),
        (7, b"hij"),
        (10, b""),
    ];
    let mut accepted = 0;
    for (claimed, payload) in calls {
        let before = info.offset;
        match info.append(claimed, payload) {
            Ok(done) => {
                accepted += payload.len();
                assert_eq!(done.offset, accepted);
                assert_eq!(done.completed, accepted == 10);
            }
            Err(_) => assert_eq!(info.offset, before),
        }
        assert_eq!(info.offset, accepted);
        assert_eq!(info.is_complete(), accepted == 10);
    }
    assert_eq!(accepted, 10);
}

#[test]
fn append_at_wrong_offset_changes_nothing() {
    let mut info = record("abc", Some(10));
    info.append(0, b"abc").unwrap();
    assert_eq!(info.append(0, b"abc"), Err(UploadError::OffsetMismatch));
    assert_eq!(info.append(4, b"abc"), Err(UploadError::OffsetMismatch));
    assert_eq!(info.append(2, b""), Err(UploadError::OffsetMismatch));
    assert_eq!(info.offset, 3);
    assert_eq!(info.finalized_sha256, None);
    info.append(3, b"defghij").unwrap();
    assert_eq!(info.finalized_sha256, Some(to_hex_of_sha256(b"abcdefghij")));
}

fn to_hex_of_sha256(content: &[u8]) -> String {
    let mut probe = FileInfo::new("probe", None, None, "disk".to_string(), None);
    probe.accept_bytes(content);
    probe.finalize_sha256()
}

#[test]
fn wrong_offset_wins_over_other_refusals() {
    let mut info = record("abc", Some(3));
    info.append(0, b"abc").unwrap();
    assert_eq!(info.append(1, b"x"), Err(UploadError::OffsetMismatch));
    assert_eq!(info.append(3, b"x"), Err(UploadError::AlreadyComplete));
}

#[test]
fn append_past_length_is_too_large() {
    let mut info = record("abc", Some(4));
    assert_eq!(info.append(0, b"abcde"), Err(UploadError::PayloadTooLarge));
    assert_eq!(info.offset, 0);
    assert_eq!(info.append(0, b"abcd"), Ok(Appended { offset: 4, completed: true }));
}

#[test]
fn append_to_complete_session_is_refused() {
    let mut info = record("abc", Some(0));
    assert_eq!(info.append(0, b""), Err(UploadError::AlreadyComplete));
    assert_eq!(info.append(0, b"x"), Err(UploadError::AlreadyComplete));
}

#[test]
fn append_to_partial_session_is_accepted() {
    let mut info = record("abc", Some(2));
    info.is_partial = true;
    assert_eq!(info.append(0, b"ab"), Ok(Appended { offset: 2, completed: true }));
}

#[test]
fn append_to_deferred_session_never_completes() {
    let mut info = record("abc", None);
    assert_eq!(info.append(0, b"abc"), Ok(Appended { offset: 3, completed: false }));
    assert_eq!(info.append(3, b""), Ok(Appended { offset: 3, completed: false }));
    assert_eq!(info.finalized_sha256, None);
}

#[test]
fn second_of_two_racing_appends_is_refused() {
    let mut info = record("abc", Some(10));
    let first = info.append(0, b"aaaa");
    let second = info.append(0, b"bbbb");
    assert_eq!(first, Ok(Appended { offset: 4, completed: false }));
    assert_eq!(second, Err(UploadError::OffsetMismatch));
    assert_eq!(info.offset, 4);
}

#[test]
fn status_reports_progress_uncached() {
    let mut info = record("abc", Some(10));
    info.append(0, b"abc").unwrap();
    assert_eq!(info.status(), Progress { offset: 3, length: Some(10), cacheable: false });
    let deferred = record("def", None);
    assert_eq!(deferred.status(), Progress { offset: 0, length: None, cacheable: false });
}

#[test]
fn declare_length_once() {
    let mut info = record("abc", None);
    info.append(0, b"abc").unwrap();
    assert_eq!(info.declare_length(10), Ok(false));
    assert_eq!(info.length, Some(10));
    assert!(!info.deferred_size);
    assert_eq!(info.declare_length(10), Err(UploadError::LengthAlreadySet));
    assert_eq!(info.declare_length(12), Err(UploadError::LengthAlreadySet));
    assert_eq!(info.length, Some(10));
}

#[test]
fn declare_length_on_sized_session_is_refused() {
    let mut info = record("abc", Some(10));
    assert_eq!(info.declare_length(10), Err(UploadError::LengthAlreadySet));
}

#[test]
fn declare_length_equal_to_offset_completes() {
    let mut info = record("abc", None);
    info.append(0, b"abc").unwrap();
    assert_eq!(info.declare_length(3), Ok(true));
    assert!(info.is_complete());
    assert_eq!(info.finalized_sha256, Some(SHA256_ABC.to_string()));
    assert_eq!(info.append(3, b"x"), Err(UploadError::AlreadyComplete));
}

#[test]
fn declare_length_below_offset_is_invalid() {
    let mut info = record("abc", None);
    info.append(0, b"abc").unwrap();
    assert_eq!(info.declare_length(2), Err(UploadError::InvalidLength));
    assert_eq!(info.length, None);
    assert!(info.deferred_size);
}

#[test]
fn retrieve_complete_session() {
    let mut info = FileInfo::new("abc", Some(3), Some("/data/abc".to_string()), "disk".to_string(), None);
    info.metadata.insert("filename".to_string(), "a.txt".to_string());
    info.append(0, b"abc").unwrap();
    let download = info.retrieve().unwrap();
    assert_eq!(download.id, "abc");
    assert_eq!(download.path, Some("/data/abc".to_string()));
    assert_eq!(download.storage, "disk");
    assert_eq!(download.filename, "a.txt");
    assert_eq!(download.length, 3);
    assert_eq!(download.content_hash, Some(SHA256_ABC.to_string()));
}

#[test]
fn retrieve_refuses_incomplete_and_partial() {
    let mut info = record("abc", Some(3));
    assert!(matches!(info.retrieve(), Err(UploadError::NotReadyForDownload)));
    info.append(0, b"ab").unwrap();
    assert!(matches!(info.retrieve(), Err(UploadError::NotReadyForDownload)));
    info.is_partial = true;
    info.append(2, b"c").unwrap();
    assert!(matches!(info.retrieve(), Err(UploadError::NotReadyForDownload)));
    let deferred = record("def", None);
    assert!(matches!(deferred.retrieve(), Err(UploadError::NotReadyForDownload)));
}

#[test]
fn create_checks_length() {
    let made = FileInfo::create_with_id("abc", Some(7), false, true, "disk".to_string(), None).unwrap();
    assert_eq!(made.id, "abc");
    assert_eq!(made.length, Some(7));
    assert!(made.is_partial);
    assert!(!made.deferred_size);
    assert_eq!(made.path, None);
    let deferred = FileInfo::create_with_id("abc", None, true, false, "disk".to_string(), None).unwrap();
    assert!(deferred.deferred_size);
    assert!(matches!(
        FileInfo::create_with_id("abc", Some(-1), false, false, "disk".to_string(), None),
        Err(UploadError::InvalidLength)
    ));
    assert!(matches!(
        FileInfo::create_with_id("abc", Some(5), true, false, "disk".to_string(), None),
        Err(UploadError::InvalidLength)
    ));
    let random = FileInfo::create(Some(0), false, false, "disk".to_string(), None).unwrap();
    assert_eq!(random.id.len(), 36);
    assert!(random.is_complete());
}

#[test]
fn concatenate_records() {
    let mut a = record("a", Some(3));
    let mut b = record("b", Some(5));
    let mut c = record("c", Some(2));
    a.append(0, b"hel").unwrap();
    b.append(0, b"lo wo").unwrap();
    c.append(0, b"rl").unwrap();
    let parts = vec![&a, &b, &c];
    let made = FileInfo::concatenate("f", &parts, "disk".to_string(), None, b"hello worl").unwrap();
    assert_eq!(made.id, "f");
    assert_eq!(made.length, Some(10));
    assert_eq!(made.offset, 10);
    assert!(made.is_final);
    assert!(!made.is_partial);
    assert!(!made.deferred_size);
    assert_eq!(made.parts, Some(vec!["a".to_string(), "b".to_string(), "c".to_string()]));
    assert_eq!(made.finalized_sha256, Some(to_hex_of_sha256(b"hello worl")));
    assert!(made.is_complete());
}

#[test]
fn concatenate_refuses_bad_parts() {
    let mut a = record("a", Some(3));
    let b = record("b", Some(5));
    a.append(0, b"abc").unwrap();
    let none: Vec<&FileInfo> = Vec::new();
    assert!(matches!(
        FileInfo::concatenate("f", &none, "disk".to_string(), None, b""),
        Err(UploadError::InvalidConcatenation)
    ));
    assert!(matches!(
        FileInfo::concatenate("f", &vec![&a, &b], "disk".to_string(), None, b"abc"),
        Err(UploadError::InvalidConcatenation)
    ));
    assert!(matches!(
        FileInfo::concatenate("f", &vec![&a, &a], "disk".to_string(), None, b"abcabc"),
        Err(UploadError::InvalidConcatenation)
    ));
    let made = FileInfo::concatenate("f", &vec![&a], "disk".to_string(), None, b"abc").unwrap();
    assert!(matches!(
        FileInfo::concatenate("g", &vec![&a, &made], "disk".to_string(), None, b"abcabc"),
        Err(UploadError::InvalidConcatenation)
    ));
    let mut big = record("big", Some(usize::MAX));
    big.offset = usize::MAX;
    assert!(matches!(
        FileInfo::concatenate("g", &vec![&a, &big], "disk".to_string(), None, b""),
        Err(UploadError::InvalidConcatenation)
    ));
}

#[test]
fn final_session_takes_no_bytes_and_no_length() {
    let mut a = record("a", Some(1));
    a.append(0, b"x").unwrap();
    let mut made = FileInfo::concatenate("f", &vec![&a], "disk".to_string(), None, b"x").unwrap();
    assert_eq!(made.append(1, b"y"), Err(UploadError::AlreadyComplete));
    assert_eq!(made.declare_length(5), Err(UploadError::LengthAlreadySet));
}

#[test]
fn storage_error_carries_the_store_text() {
    let e = UploadError::StorageError("disk full".to_string());
    assert_eq!(e, UploadError::StorageError("disk full".to_string()));
    assert_ne!(e, UploadError::StorageError("other".to_string()));
    assert_ne!(e, UploadError::SessionNotFound);
}
