use tus_sessions::errors::UploadError;
use tus_sessions::extensions::{Dispatcher, Extensions, Operation};
use tus_sessions::file_info::FileInfo;
use tus_sessions::metadata::Metadata;
use tus_sessions::server::UploadServer;
use tus_sessions::session::{Appended, Progress};
use tus_sessions::table::SessionTable;

const SHA256_HELLO_WORLD: &str = "b94d27b9934d3e08a52e52d7da7dabfac484efe37a5380ee9088f7ace2efcde9";

fn all_extensions() -> Vec<Extensions> {
    vec![
        Extensions::Creation,
        Extensions::CreationWithUpload,
        Extensions::DeferredLength,
        Extensions::Concatenation,
        Extensions::Termination,
        Extensions::Getting,
    ]
}

fn full_server() -> UploadServer {
    UploadServer::new(Dispatcher::new(all_extensions()), "disk".to_string())
}

fn server_with(extensions: Vec<Extensions>) -> UploadServer {
    UploadServer::new(Dispatcher::new(extensions), "disk".to_string())
}

fn complete_part(server: &mut UploadServer, id: &str, content: &[u8]) {
    server
        .create_with_id(id, Some(content.len() as i64), false, true, None, Some(content))
        .unwrap();
}

#[test]
fn dispatcher_core_is_always_enabled() {
    let none = Dispatcher::new(Vec::new());
    assert!(none.is_enabled(Extensions::Core));
    assert!(!none.is_enabled(Extensions::Creation));
    assert_eq!(none.authorize(Operation::Head), Ok(()));
    assert_eq!(none.authorize(Operation::Patch), Ok(()));
    assert_eq!(none.capabilities(), vec![Extensions::Core]);
}

#[test]
fn dispatcher_refuses_disabled_operations() {
    let d = Dispatcher::new(vec![Extensions::Creation, Extensions::Getting]);
    let plain = Operation::Create { with_upload: false, deferred: false };
    let with_upload = Operation::Create { with_upload: true, deferred: false };
    let deferred = Operation::Create { with_upload: false, deferred: true };
    assert_eq!(d.authorize(plain), Ok(()));
    assert_eq!(d.authorize(with_upload), Err(UploadError::ExtensionDisabled));
    assert_eq!(d.authorize(deferred), Err(UploadError::ExtensionDisabled));
    assert_eq!(d.authorize(Operation::Get), Ok(()));
    assert_eq!(d.authorize(Operation::Delete), Err(UploadError::ExtensionDisabled));
    assert_eq!(d.authorize(Operation::Concatenate), Err(UploadError::ExtensionDisabled));
    assert_eq!(d.authorize(Operation::DeclareLength), Err(UploadError::ExtensionDisabled));
}

#[test]
fn dispatcher_capabilities_in_fixed_order_without_repeats() {
    let d = Dispatcher::new(vec![
        Extensions::Getting,
        Extensions::Creation,
        Extensions::Getting,
        Extensions::Core,
        Extensions::Termination,
    ]);
    assert_eq!(
        d.capabilities(),
        vec![Extensions::Core, Extensions::Creation, Extensions::Termination, Extensions::Getting]
    );
    let all = Dispatcher::new(all_extensions());
    assert_eq!(all.capabilities().len(), 7);
}

#[test]
fn table_put_get_take() {
    let mut table = SessionTable::new();
    assert!(!table.contains("a"));
    table.put(FileInfo::new("a", Some(1), None, "disk".to_string(), None));
    table.put(FileInfo::new("b", Some(2), None, "disk".to_string(), None));
    table.put(FileInfo::new("a", Some(3), None, "disk".to_string(), None));
    assert!(table.contains("a"));
    assert_eq!(table.get("a").unwrap().length, Some(3));
    assert_eq!(table.get("b").unwrap().length, Some(2));
    assert!(table.get("c").is_none());
    let taken = table.take("a").unwrap();
    assert_eq!(taken.id, "a");
    assert!(!table.contains("a"));
    assert!(table.take("a").is_none());
    assert!(table.contains("b"));
}

#[test]
fn create_returns_id_and_offset() {
    let mut server = full_server();
    let (id, offset) = server.create(Some(10), false, false, None, None).unwrap();
    assert_eq!(id.len(), 36);
    assert_eq!(offset, 0);
    assert_eq!(server.query(&id), Ok(Progress { offset: 0, length: Some(10), cacheable: false }));
    let stored = server.sessions.get(&id).unwrap();
    assert_eq!(stored.storage, "disk");
    assert_eq!(stored.path, None);
}

#[test]
fn create_with_upload_appends_first_bytes() {
    let mut server = full_server();
    let mut meta = Metadata::new();
    meta.insert("filename".to_string(), "a.txt".to_string());
    let (id, offset) =
        server.create_with_id("s1", Some(11), false, false, Some(meta), Some(b"hello")).unwrap();
    assert_eq!(id, "s1");
    assert_eq!(offset, 5);
    assert_eq!(server.append("s1", 5, b" world"), Ok(Appended { offset: 11, completed: true }));
    let download = server.retrieve("s1").unwrap();
    assert_eq!(download.filename, "a.txt");
    assert_eq!(download.length, 11);
    assert_eq!(download.content_hash, Some(SHA256_HELLO_WORLD.to_string()));
}

#[test]
fn create_refusals_leave_no_session() {
    let mut server = full_server();
    assert_eq!(
        server.create_with_id("s1", Some(-5), false, false, None, None),
        Err(UploadError::InvalidLength)
    );
    assert_eq!(
        server.create_with_id("s1", Some(5), true, false, None, None),
        Err(UploadError::InvalidLength)
    );
    assert_eq!(
        server.create_with_id("s1", Some(2), false, false, None, Some(b"abc")),
        Err(UploadError::PayloadTooLarge)
    );
    assert!(!server.sessions.contains("s1"));
    assert_eq!(server.query("s1"), Err(UploadError::SessionNotFound));
}

#[test]
fn create_needs_its_extensions() {
    let mut bare = server_with(Vec::new());
    assert_eq!(
        bare.create_with_id("s1", Some(5), false, false, None, None),
        Err(UploadError::ExtensionDisabled)
    );
    let mut plain = server_with(vec![Extensions::Creation]);
    assert_eq!(
        plain.create_with_id("s1", None, true, false, None, None),
        Err(UploadError::ExtensionDisabled)
    );
    assert_eq!(
        plain.create_with_id("s1", Some(5), false, false, None, Some(b"ab")),
        Err(UploadError::ExtensionDisabled)
    );
    assert_eq!(
        plain.create_with_id("s1", Some(-5), false, false, None, Some(b"ab")),
        Err(UploadError::ExtensionDisabled)
    );
    assert!(plain.create_with_id("s1", Some(5), false, false, None, None).is_ok());
}

#[test]
fn append_and_query_unknown_session() {
    let mut server = full_server();
    assert_eq!(server.append("nope", 0, b"abc"), Err(UploadError::SessionNotFound));
    assert_eq!(server.query("nope"), Err(UploadError::SessionNotFound));
    assert!(!server.sessions.contains("nope"));
}

#[test]
fn append_refusals_keep_the_session() {
    let mut server = full_server();
    server.create_with_id("s1", Some(4), false, false, None, None).unwrap();
    assert_eq!(server.append("s1", 1, b"ab"), Err(UploadError::OffsetMismatch));
    assert_eq!(server.append("s1", 0, b"abcde"), Err(UploadError::PayloadTooLarge));
    assert_eq!(server.query("s1"), Ok(Progress { offset: 0, length: Some(4), cacheable: false }));
    assert_eq!(server.append("s1", 0, b"abcd"), Ok(Appended { offset: 4, completed: true }));
    assert_eq!(server.append("s1", 4, b"e"), Err(UploadError::AlreadyComplete));
    assert_eq!(server.query("s1"), Ok(Progress { offset: 4, length: Some(4), cacheable: false }));
}

#[test]
fn racing_appends_one_wins() {
    let mut server = full_server();
    server.create_with_id("s1", Some(8), false, false, None, None).unwrap();
    let first = server.append("s1", 0, b"aaaa");
    let second = server.append("s1", 0, b"bbbb");
    assert_eq!(first, Ok(Appended { offset: 4, completed: false }));
    assert_eq!(second, Err(UploadError::OffsetMismatch));
    assert_eq!(server.append("s1", 4, b"bbbb"), Ok(Appended { offset: 8, completed: true }));
}

#[test]
fn declare_length_through_server() {
    let mut server = full_server();
    server.create_with_id("s1", None, true, false, None, Some(b"abc")).unwrap();
    assert_eq!(server.query("s1"), Ok(Progress { offset: 3, length: None, cacheable: false }));
    assert_eq!(server.declare_length("nope", 3), Err(UploadError::SessionNotFound));
    assert_eq!(server.declare_length("s1", 2), Err(UploadError::InvalidLength));
    assert_eq!(server.declare_length("s1", 3), Ok(true));
    assert_eq!(server.declare_length("s1", 3), Err(UploadError::LengthAlreadySet));
    assert!(server.sessions.get("s1").unwrap().finalized_sha256.is_some());
    let mut limited = server_with(vec![Extensions::Creation]);
    limited.create_with_id("s2", Some(3), false, false, None, None).unwrap();
    assert_eq!(limited.declare_length("s2", 3), Err(UploadError::ExtensionDisabled));
}

#[test]
fn terminated_session_is_gone() {
    let mut server = full_server();
    server.create_with_id("s1", Some(4), false, false, None, Some(b"ab")).unwrap();
    server.create_with_id("s2", Some(4), false, false, None, None).unwrap();
    let removed = server.terminate("s1").unwrap();
    assert_eq!(removed.id, "s1");
    assert_eq!(removed.offset, 2);
    assert_eq!(server.query("s1"), Err(UploadError::SessionNotFound));
    assert_eq!(server.append("s1", 2, b"cd"), Err(UploadError::SessionNotFound));
    assert_eq!(server.query("s1"), Err(UploadError::SessionNotFound));
    assert!(matches!(server.terminate("s1"), Err(UploadError::SessionNotFound)));
    assert!(matches!(server.retrieve("s1"), Err(UploadError::SessionNotFound)));
    assert_eq!(server.query("s2"), Ok(Progress { offset: 0, length: Some(4), cacheable: false }));
}

#[test]
fn terminate_needs_its_extension() {
    let mut server = server_with(vec![Extensions::Creation]);
    server.create_with_id("s1", Some(4), false, false, None, None).unwrap();
    assert!(matches!(server.terminate("s1"), Err(UploadError::ExtensionDisabled)));
    assert!(matches!(server.terminate("nope"), Err(UploadError::ExtensionDisabled)));
    assert!(server.sessions.contains("s1"));
}

#[test]
fn retrieve_through_server() {
    let mut server = full_server();
    server.create_with_id("s1", Some(11), false, false, None, Some(b"hello")).unwrap();
    assert!(matches!(server.retrieve("s1"), Err(UploadError::NotReadyForDownload)));
    assert!(matches!(server.retrieve("nope"), Err(UploadError::SessionNotFound)));
    server.append("s1", 5, b" world").unwrap();
    let download = server.retrieve("s1").unwrap();
    assert_eq!(download.id, "s1");
    assert_eq!(download.filename, "s1");
    assert_eq!(download.length, 11);
    assert_eq!(download.content_hash, Some(SHA256_HELLO_WORLD.to_string()));
    complete_part(&mut server, "part", b"abc");
    assert!(matches!(server.retrieve("part"), Err(UploadError::NotReadyForDownload)));
    let mut limited = server_with(vec![Extensions::Creation, Extensions::CreationWithUpload]);
    limited.create_with_id("s1", Some(1), false, false, None, Some(b"a")).unwrap();
    assert!(matches!(limited.retrieve("s1"), Err(UploadError::ExtensionDisabled)));
}

#[test]
fn concatenate_three_parts() {
    let mut server = full_server();
    complete_part(&mut server, "A", b"hel");
    complete_part(&mut server, "B", b"lo wo");
    complete_part(&mut server, "C", b"rl");
    let ids = vec!["A".to_string(), "B".to_string(), "C".to_string()];
    let content = b"hello worl";
    let (id, offset, length) = server.concatenate_with_id("F", &ids, None, content).unwrap();
    assert_eq!(id, "F");
    assert_eq!(offset, 10);
    assert_eq!(length, 10);
    let made = server.sessions.get("F").unwrap();
    assert!(made.is_final);
    assert!(!made.is_partial);
    assert_eq!(made.length, Some(10));
    assert_eq!(made.offset, 10);
    assert_eq!(made.parts, Some(ids.clone()));
    let mut whole = FileInfo::new("w", Some(10), None, "disk".to_string(), None);
    whole.append(0, b"hello worl").unwrap();
    assert_eq!(made.finalized_sha256, whole.finalized_sha256);
    assert!(server.sessions.contains("A"));
    assert!(server.sessions.contains("B"));
    assert!(server.sessions.contains("C"));
    let download = server.retrieve("F").unwrap();
    assert_eq!(download.length, 10);
    assert_eq!(download.content_hash, whole.finalized_sha256);
    assert_eq!(server.append("F", 10, b"x"), Err(UploadError::AlreadyComplete));
}

#[test]
fn concatenate_with_random_id() {
    let mut server = full_server();
    complete_part(&mut server, "A", b"abc");
    let (id, offset, length) =
        server.concatenate(&vec!["A".to_string()], None, b"abc").unwrap();
    assert_eq!(id.len(), 36);
    assert_eq!((offset, length), (3, 3));
    assert!(server.sessions.get(&id).unwrap().is_final);
}

#[test]
fn concatenate_refusals_create_nothing() {
    let mut server = full_server();
    complete_part(&mut server, "A", b"abc");
    server.create_with_id("B", Some(5), false, true, None, Some(b"ab")).unwrap();
    let empty: Vec<String> = Vec::new();
    assert_eq!(
        server.concatenate_with_id("F", &empty, None, b""),
        Err(UploadError::InvalidConcatenation)
    );
    assert_eq!(
        server.concatenate_with_id("F", &vec!["A".to_string(), "B".to_string()], None, b"abcab"),
        Err(UploadError::InvalidConcatenation)
    );
    assert_eq!(
        server.concatenate_with_id("F", &vec!["A".to_string(), "A".to_string()], None, b"abcabc"),
        Err(UploadError::InvalidConcatenation)
    );
    assert_eq!(
        server.concatenate_with_id("F", &vec!["A".to_string(), "Z".to_string()], None, b"abc"),
        Err(UploadError::InvalidConcatenation)
    );
    assert!(!server.sessions.contains("F"));
    server.concatenate_with_id("G", &vec!["A".to_string()], None, b"abc").unwrap();
    assert_eq!(
        server.concatenate_with_id("F", &vec!["A".to_string(), "G".to_string()], None, b"abcabc"),
        Err(UploadError::InvalidConcatenation)
    );
    assert!(!server.sessions.contains("F"));
    assert_eq!(server.query("B"), Ok(Progress { offset: 2, length: Some(5), cacheable: false }));
    let mut limited = server_with(vec![Extensions::Creation, Extensions::CreationWithUpload]);
    complete_part(&mut limited, "A", b"abc");
    assert_eq!(
        limited.concatenate_with_id("F", &vec!["A".to_string()], None, b"abc"),
        Err(UploadError::ExtensionDisabled)
    );
}
