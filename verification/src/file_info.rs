//! The record that describes one upload session.

use crate::hashing::{hasher_digest, hasher_new, hasher_update, hex_text, sha256_digest, to_hex};
use crate::hashing::ContentHasher;
use crate::metadata::{clean_values, distinct_keys, lookup, metadata_text, EntryView, Metadata};
use vstd::prelude::*;

verus! {

/// Everything that is known of one upload session.
#[derive(Debug)]
pub struct FileInfo {
    /// The session's identity.
    pub id: String,
    /// How many bytes have been accepted so far.
    pub offset: usize,
    /// The total size, once it is known.
    pub length: Option<usize>,
    /// Where the byte store keeps the content, once it has said so.
    pub path: Option<String>,
    /// When the session was created, in seconds since the Unix epoch.
    pub created_at: i64,
    /// Whether the total size is still to be declared.
    pub deferred_size: bool,
    /// Whether the session is a fragment that a later concatenation consumes.
    pub is_partial: bool,
    /// Whether the session was assembled from parts.
    pub is_final: bool,
    /// The ids of the parts of a final session, in content order.
    pub parts: Option<Vec<String>>,
    /// The byte store that owns the content.
    pub storage: String,
    /// What the client said of the upload.
    pub metadata: Metadata,
    /// The hexadecimal SHA-256 of the content, once the session is complete.
    pub finalized_sha256: Option<String>,
    /// The hash of the bytes accepted so far; it lives in memory only.
    pub sha256: ContentHasher,
}

/// The mathematical content of a [`FileInfo`].
pub struct FileInfoView {
    pub id: Seq<char>,
    pub offset: nat,
    pub length: Option<nat>,
    pub path: Option<Seq<char>>,
    pub created_at: int,
    pub deferred_size: bool,
    pub is_partial: bool,
    pub is_final: bool,
    pub parts: Option<Seq<Seq<char>>>,
    pub storage: Seq<char>,
    pub metadata: Seq<EntryView>,
    pub finalized_sha256: Option<Seq<char>>,
    /// The bytes that the content hash has taken in, in order.
    pub hashed: Seq<u8>,
}

/// The texts of a sequence of strings.
pub open spec fn texts(strings: Seq<String>) -> Seq<Seq<char>> {
    strings.map_values(|s: String| s@)
}

/// The text of an optional string.
pub open spec fn opt_text(s: Option<String>) -> Option<Seq<char>> {
    match s {
        Some(s) => Some(s@),
        None => None,
    }
}

/// An optional size as a natural number.
pub open spec fn opt_nat(n: Option<usize>) -> Option<nat> {
    match n {
        Some(n) => Some(n as nat),
        None => None,
    }
}

/// No text occurs twice in the sequence.
pub open spec fn no_repeats(ids: Seq<Seq<char>>) -> bool {
    forall|i: int, j: int| 0 <= i < j < ids.len() ==> #[trigger] ids[i] != #[trigger] ids[j]
}

impl View for FileInfo {
    type V = FileInfoView;

    open spec fn view(&self) -> FileInfoView {
        FileInfoView {
            id: self.id@,
            offset: self.offset as nat,
            length: opt_nat(self.length),
            path: opt_text(self.path),
            created_at: self.created_at as int,
            deferred_size: self.deferred_size,
            is_partial: self.is_partial,
            is_final: self.is_final,
            parts: match self.parts {
                Some(parts) => Some(texts(parts@)),
                None => None,
            },
            storage: self.storage@,
            metadata: self.metadata@,
            finalized_sha256: opt_text(self.finalized_sha256),
            hashed: self.sha256@,
        }
    }
}

impl Clone for FileInfo {
    /// A second record with the same content, whose content hash goes on
    /// from the same state.
    fn clone(&self) -> (copy: Self)
        ensures
            copy@ == self@,
    {
        let parts = match &self.parts {
            Some(ids) => {
                let mut copies: Vec<String> = Vec::new();
                let mut i: usize = 0;
                while i < ids.len()
                    invariant
                        i <= ids.len(),
                        copies@.len() == i,
                        forall|k: int| 0 <= k < i ==> (#[trigger] copies@[k])@ == ids@[k]@,
                    decreases ids.len() - i,
                {
                    copies.push(ids[i].clone());
                    i = i + 1;
                }
                assert(texts(copies@) =~= texts(ids@));
                Some(copies)
            },
            None => None,
        };
        FileInfo {
            id: self.id.clone(),
            offset: self.offset,
            length: self.length,
            path: self.path.clone(),
            created_at: self.created_at,
            deferred_size: self.deferred_size,
            is_partial: self.is_partial,
            is_final: self.is_final,
            parts,
            storage: self.storage.clone(),
            metadata: self.metadata.clone(),
            finalized_sha256: self.finalized_sha256.clone(),
            sha256: self.sha256.clone(),
        }
    }
}

impl FileInfoView {
    /// All expected bytes have been accepted.
    pub open spec fn is_complete(self) -> bool {
        self.length == Some(self.offset)
    }

    /// The hexadecimal SHA-256 of the bytes hashed so far.
    pub open spec fn content_hash(self) -> Seq<char> {
        hex_text(sha256_digest(self.hashed))
    }

    /// The invariants of a session record.
    pub open spec fn wf(self) -> bool {
        &&& self.length matches Some(l) ==> self.offset <= l
        &&& self.deferred_size == (self.length is None)
        &&& self.is_final == (self.parts is Some)
        &&& self.parts matches Some(p) ==> p.len() > 0 && no_repeats(p)
        &&& !(self.is_partial && self.is_final)
        &&& self.is_final ==> self.is_complete()
        &&& distinct_keys(self.metadata)
        &&& self.finalized_sha256 matches Some(h) ==> self.is_complete() && h
            == self.content_hash()
    }

    /// The record after `chunk` has gone into the content hash.
    pub open spec fn hashing(self, chunk: Seq<u8>) -> FileInfoView {
        FileInfoView { hashed: self.hashed + chunk, ..self }
    }

    /// The record once its content hash is final: a hash that is already
    /// there stays, otherwise the hash of the bytes hashed so far is stored.
    pub open spec fn sealed(self) -> FileInfoView {
        match self.finalized_sha256 {
            Some(_) => self,
            None => FileInfoView { finalized_sha256: Some(self.content_hash()), ..self },
        }
    }

    /// The name under which the content is offered: the metadata value of
    /// `filename`, or the id where there is none.
    pub open spec fn display_name(self) -> Seq<char> {
        match lookup(self.metadata, "filename"@) {
            Some(name) => name,
            None => self.id,
        }
    }
}

/// The record of a session that has just been created.
pub open spec fn fresh_record(
    id: Seq<char>,
    length: Option<nat>,
    path: Option<Seq<char>>,
    storage: Seq<char>,
    metadata: Seq<EntryView>,
    created_at: int,
) -> FileInfoView {
    FileInfoView {
        id,
        offset: 0,
        length,
        path,
        created_at,
        deferred_size: length is None,
        is_partial: false,
        is_final: false,
        parts: None,
        storage,
        metadata,
        finalized_sha256: None,
        hashed: Seq::empty(),
    }
}

/// The current time in whole seconds since the Unix epoch.
///
/// Trusted: stands for `chrono::Utc::now` followed by `DateTime::timestamp`.
/// The value depends on the clock, so nothing is claimed of it. `chrono`
/// gives up where the system clock stands before the epoch.
#[verifier::external_body]
pub(crate) fn unix_now() -> i64 {
    chrono::Utc::now().timestamp()
}

/// A new random identifier in hyphenated form.
///
/// Trusted: stands for `uuid::Uuid::new_v4` and the `Display` impl of `Uuid`.
/// The value is random, so nothing is claimed of it. `uuid` gives up where
/// the operating system hands out no random bytes.
#[verifier::external_body]
pub(crate) fn random_id() -> String {
    uuid::Uuid::new_v4().to_string()
}

impl FileInfo {
    /// The invariants of a session record hold.
    pub open spec fn wf(&self) -> bool {
        self@.wf()
    }

    /// The record of a new session: nothing accepted, nothing hashed,
    /// neither partial nor final, created now. The size is deferred exactly
    /// when no length is given.
    pub fn new(
        file_id: &str,
        length: Option<usize>,
        path: Option<String>,
        storage: String,
        initial_metadata: Option<Metadata>,
    ) -> (info: FileInfo)
        ensures
            info@ == fresh_record(
                file_id@,
                opt_nat(length),
                opt_text(path),
                storage@,
                match initial_metadata {
                    Some(m) => m@,
                    None => Seq::empty(),
                },
                info@.created_at,
            ),
            (initial_metadata matches Some(m) ==> m.wf()) ==> info.wf(),
    {
        let deferred_size = length.is_none();
        let metadata = match initial_metadata {
            Some(meta) => meta,
            None => Metadata::new(),
        };
        FileInfo {
            id: file_id.to_owned(),
            path,
            length,
            storage,
            metadata,
            deferred_size,
            offset: 0,
            is_final: false,
            is_partial: false,
            parts: None,
            created_at: unix_now(),
            finalized_sha256: None,
            sha256: hasher_new(),
        }
    }

    /// The metadata in its wire form: each entry as the key, a space and the
    /// value in base64, the entries joined by commas; nothing when there is
    /// no entry.
    pub fn get_metadata_string(&self) -> (wire: Option<String>)
        ensures
            self@.metadata.len() == 0 <==> wire is None,
            wire matches Some(text) ==> text@ == metadata_text(self@.metadata),
            clean_values(self@.metadata),
    {
        self.metadata.to_wire()
    }

    /// The name under which the content is offered.
    pub fn get_filename(&self) -> (name: &str)
        ensures
            name@ == self@.display_name(),
    {
        match self.metadata.get("filename") {
            Some(name) => name.as_str(),
            None => self.id.as_str(),
        }
    }

    /// Whether all expected bytes have been accepted.
    pub fn is_complete(&self) -> (complete: bool)
        ensures
            complete == self@.is_complete(),
    {
        match self.length {
            Some(length) => length == self.offset,
            None => false,
        }
    }

    /// Folds a chunk into the content hash. Nothing else changes: the
    /// offset is the caller's to advance.
    pub fn accept_bytes(&mut self, chunk: &[u8])
        ensures
            final(self)@ == old(self)@.hashing(chunk@),
    {
        hasher_update(&mut self.sha256, chunk);
    }

    /// Fixes the content hash and returns it in hexadecimal. The first call
    /// stores the hash of the bytes hashed so far; later calls return the
    /// stored text and compute nothing.
    pub fn finalize_sha256(&mut self) -> (hex: String)
        ensures
            final(self)@ == old(self)@.sealed(),
            Some(hex@) == final(self)@.finalized_sha256,
            old(self).wf() && old(self)@.is_complete() ==> final(self).wf(),
    {
        match &self.finalized_sha256 {
            Some(stored) => stored.clone(),
            None => {
                let digest = hasher_digest(&self.sha256);
                let hex = to_hex(digest.as_slice());
                self.finalized_sha256 = Some(hex.clone());
                hex
            },
        }
    }

    /// A record for trying things out: a random id, ten bytes expected, no
    /// metadata.
    pub fn new_test() -> (info: FileInfo)
        ensures
            info@ == fresh_record(
                info@.id,
                Some(10nat),
                Some("random_path"@),
                "random_storage"@,
                Seq::empty(),
                info@.created_at,
            ),
            info.wf(),
    {
        let id = random_id();
        FileInfo::new(
            id.as_str(),
            Some(10),
            Some("random_path".to_owned()),
            "random_storage".to_owned(),
            None,
        )
    }
}

} // verus!
