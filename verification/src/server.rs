//! The protocol operations of a server: each is first held against the
//! enabled extensions, then against the session it names, and then applied.

use crate::errors::UploadError;
use crate::extensions::{permitted, Dispatcher, Extensions, Operation};
use crate::file_info::{random_id, texts, FileInfo, FileInfoView};
use crate::metadata::{EntryView, Metadata};
use crate::session::{append_fault, appended, concat_fault, concatenated, created, declare_fault};
use crate::session::{declared, downloadable, length_fault, serves, views};
use crate::session::{Appended, Download, Progress};
use crate::table::{keyed_by_id, SessionTable};
use vstd::prelude::*;

verus! {

/// A server's sessions together with what the deployment allows.
#[derive(Debug)]
pub struct UploadServer {
    /// The enabled extensions.
    pub extensions: Dispatcher,
    /// The live sessions.
    pub sessions: SessionTable,
    /// The byte store that owns the content of new sessions.
    pub storage: String,
}

/// The mathematical content of an [`UploadServer`].
pub struct ServerView {
    pub enabled: Set<Extensions>,
    pub sessions: Map<Seq<char>, FileInfoView>,
    pub storage: Seq<char>,
}

impl View for UploadServer {
    type V = ServerView;

    open spec fn view(&self) -> ServerView {
        ServerView {
            enabled: self.extensions@,
            sessions: self.sessions@,
            storage: self.storage@,
        }
    }
}

impl ServerView {
    /// The server with the record stored under the id.
    pub open spec fn with_session(self, id: Seq<char>, v: FileInfoView) -> ServerView {
        ServerView { sessions: self.sessions.insert(id, v), ..self }
    }

    /// Every record meets the invariants of a session record.
    pub open spec fn well_formed(self) -> bool {
        forall|id: Seq<char>|
            self.sessions.contains_key(id) ==> (#[trigger] self.sessions[id]).wf()
    }

    /// The server without the session.
    pub open spec fn without_session(self, id: Seq<char>) -> ServerView {
        ServerView { sessions: self.sessions.remove(id), ..self }
    }
}

/// The operation that a creation request amounts to.
pub open spec fn create_operation(length: Option<i64>, defer_length: bool, with_upload: bool)
    -> Operation {
    Operation::Create { with_upload, deferred: defer_length || length is None }
}

/// The record that a creation request yields, first bytes included.
pub open spec fn created_with(
    id: Seq<char>,
    length: Option<i64>,
    is_partial: bool,
    storage: Seq<char>,
    metadata: Seq<EntryView>,
    payload: Option<Seq<u8>>,
    created_at: int,
) -> FileInfoView {
    let record = created(id, length, is_partial, storage, metadata, created_at);
    match payload {
        Some(bytes) => appended(record, bytes),
        None => record,
    }
}

/// Why a creation request is refused, if it is: the deployment does not
/// offer it, its length is stated badly, or its first bytes are refused as
/// an append to the new session would be.
pub open spec fn create_fault(
    s: ServerView,
    length: Option<i64>,
    defer_length: bool,
    payload: Option<Seq<u8>>,
) -> Option<UploadError> {
    if !permitted(s.enabled, create_operation(length, defer_length, payload is Some)) {
        Some(UploadError::ExtensionDisabled)
    } else if length_fault(length, defer_length) {
        Some(UploadError::InvalidLength)
    } else if payload is Some {
        append_fault(
            created(Seq::empty(), length, false, Seq::empty(), Seq::empty(), 0),
            0,
            payload->0.len(),
        )
    } else {
        None
    }
}

/// Why an append is refused, if it is.
pub open spec fn patch_fault(s: ServerView, id: Seq<char>, claimed: nat, len: nat) -> Option<
    UploadError,
> {
    if !s.sessions.contains_key(id) {
        Some(UploadError::SessionNotFound)
    } else {
        append_fault(s.sessions[id], claimed, len)
    }
}

/// Why a status query is refused, if it is.
pub open spec fn head_fault(s: ServerView, id: Seq<char>) -> Option<UploadError> {
    if !s.sessions.contains_key(id) {
        Some(UploadError::SessionNotFound)
    } else {
        None
    }
}

/// Why a declaration of the length is refused, if it is.
pub open spec fn declare_length_fault(s: ServerView, id: Seq<char>, length: nat) -> Option<
    UploadError,
> {
    if !permitted(s.enabled, Operation::DeclareLength) {
        Some(UploadError::ExtensionDisabled)
    } else if !s.sessions.contains_key(id) {
        Some(UploadError::SessionNotFound)
    } else {
        declare_fault(s.sessions[id], length)
    }
}

/// Why a termination is refused, if it is.
pub open spec fn delete_fault(s: ServerView, id: Seq<char>) -> Option<UploadError> {
    if !permitted(s.enabled, Operation::Delete) {
        Some(UploadError::ExtensionDisabled)
    } else if !s.sessions.contains_key(id) {
        Some(UploadError::SessionNotFound)
    } else {
        None
    }
}

/// Why a download is refused, if it is.
pub open spec fn get_fault(s: ServerView, id: Seq<char>) -> Option<UploadError> {
    if !permitted(s.enabled, Operation::Get) {
        Some(UploadError::ExtensionDisabled)
    } else if !s.sessions.contains_key(id) {
        Some(UploadError::SessionNotFound)
    } else if !downloadable(s.sessions[id]) {
        Some(UploadError::NotReadyForDownload)
    } else {
        None
    }
}

/// Every id names a session.
pub open spec fn all_known(s: ServerView, ids: Seq<Seq<char>>) -> bool {
    forall|i: int| 0 <= i < ids.len() ==> s.sessions.contains_key(#[trigger] ids[i])
}

/// The records that the ids name, in the order of the ids.
pub open spec fn named_parts(s: ServerView, ids: Seq<Seq<char>>) -> Seq<FileInfoView> {
    ids.map_values(|id: Seq<char>| s.sessions[id])
}

/// Why a concatenation is refused, if it is.
pub open spec fn concatenate_fault(s: ServerView, ids: Seq<Seq<char>>) -> Option<UploadError> {
    if !permitted(s.enabled, Operation::Concatenate) {
        Some(UploadError::ExtensionDisabled)
    } else if !all_known(s, ids) || concat_fault(named_parts(s, ids)) {
        Some(UploadError::InvalidConcatenation)
    } else {
        None
    }
}

impl UploadServer {
    /// A server without sessions.
    pub fn new(extensions: Dispatcher, storage: String) -> (server: UploadServer)
        ensures
            server@ == (ServerView {
                enabled: extensions@,
                sessions: Map::empty(),
                storage: storage@,
            }),
    {
        UploadServer { extensions, sessions: SessionTable::new(), storage }
    }

    /// Creates a session under the given id and returns the id with the
    /// session's offset. A refusal leaves the server as it was. The new
    /// record takes the place of any record that had the id.
    pub fn create_with_id(
        &mut self,
        id: &str,
        length: Option<i64>,
        defer_length: bool,
        is_partial: bool,
        metadata: Option<Metadata>,
        payload: Option<&[u8]>,
    ) -> (outcome: Result<(String, usize), UploadError>)
        ensures
            match create_fault(
                old(self)@,
                length,
                defer_length,
                match payload {
                    Some(p) => Some(p@),
                    None => None,
                },
            ) {
                Some(fault) => outcome == Err::<(String, usize), UploadError>(fault) && final(self)@ == old(self)@,
                None => outcome is Ok && outcome->Ok_0.0@ == id@ && final(self)@.sessions.contains_key(
                    id@,
                ) && final(self)@ == old(self)@.with_session(
                    id@,
                    created_with(
                        id@,
                        length,
                        is_partial,
                        old(self)@.storage,
                        match metadata {
                            Some(m) => m@,
                            None => Seq::empty(),
                        },
                        match payload {
                            Some(p) => Some(p@),
                            None => None,
                        },
                        final(self)@.sessions[id@].created_at,
                    ),
                ) && outcome->Ok_0.1 == final(self)@.sessions[id@].offset,
            },
    {
        let op = Operation::Create {
            with_upload: payload.is_some(),
            deferred: defer_length || length.is_none(),
        };
        match self.extensions.authorize(op) {
            Err(e) => {
                return Err(e);
            },
            Ok(_) => {},
        }
        let made = FileInfo::create_with_id(
            id,
            length,
            defer_length,
            is_partial,
            self.storage.clone(),
            metadata,
        );
        match made {
            Err(e) => Err(e),
            Ok(mut info) => {
                match payload {
                    Some(bytes) => {
                        assert(bytes@.len() <= usize::MAX) by {
                            vstd::slice::axiom_spec_len(bytes);
                        }
                        match info.append(0, bytes) {
                            Err(e) => {
                                return Err(e);
                            },
                            Ok(_) => {},
                        }
                    },
                    None => {},
                }
                let offset = info.offset;
                let name = info.id.clone();
                self.sessions.put(info);
                Ok((name, offset))
            },
        }
    }

    /// Creates a session under a new random id. What holds of
    /// [`UploadServer::create_with_id`] holds here for the id that is
    /// returned.
    pub fn create(
        &mut self,
        length: Option<i64>,
        defer_length: bool,
        is_partial: bool,
        metadata: Option<Metadata>,
        payload: Option<&[u8]>,
    ) -> (outcome: Result<(String, usize), UploadError>)
        ensures
            match create_fault(
                old(self)@,
                length,
                defer_length,
                match payload {
                    Some(p) => Some(p@),
                    None => None,
                },
            ) {
                Some(fault) => outcome == Err::<(String, usize), UploadError>(fault) && final(self)@ == old(self)@,
                None => outcome is Ok && final(self)@.sessions.contains_key(outcome->Ok_0.0@)
                    && final(self)@ == old(self)@.with_session(
                    outcome->Ok_0.0@,
                    created_with(
                        outcome->Ok_0.0@,
                        length,
                        is_partial,
                        old(self)@.storage,
                        match metadata {
                            Some(m) => m@,
                            None => Seq::empty(),
                        },
                        match payload {
                            Some(p) => Some(p@),
                            None => None,
                        },
                        final(self)@.sessions[outcome->Ok_0.0@].created_at,
                    ),
                ) && outcome->Ok_0.1 == final(self)@.sessions[outcome->Ok_0.0@].offset,
            },
    {
        let id = random_id();
        self.create_with_id(id.as_str(), length, defer_length, is_partial, metadata, payload)
    }

    /// Appends a payload to a session at the claimed offset. A refusal
    /// leaves the server as it was; an unknown id is never made a session.
    pub fn append(&mut self, id: &str, claimed_offset: usize, payload: &[u8]) -> (outcome: Result<
        Appended,
        UploadError,
    >)
        requires
            old(self)@.sessions.contains_key(id@) && old(self)@.sessions[id@].length is None
                ==> old(self)@.sessions[id@].offset + payload@.len() <= usize::MAX,
        ensures
            match patch_fault(old(self)@, id@, claimed_offset as nat, payload@.len()) {
                Some(fault) => outcome == Err::<Appended, UploadError>(fault) && final(self)@
                    == old(self)@,
                None => final(self)@ == old(self)@.with_session(
                    id@,
                    appended(old(self)@.sessions[id@], payload@),
                ) && outcome == Ok::<Appended, UploadError>(
                    (Appended {
                        offset: final(self)@.sessions[id@].offset as usize,
                        completed: final(self)@.sessions[id@].is_complete(),
                    }),
                ),
            },
    {
        let ghost before = self.sessions@;
        match self.sessions.take(id) {
            None => Err(UploadError::SessionNotFound),
            Some(mut info) => {
                let outcome = info.append(claimed_offset, payload);
                self.sessions.put(info);
                proof {
                    assert(self.sessions@ =~= before.insert(id@, info@));
                    if outcome is Err {
                        assert(before.insert(id@, before[id@]) =~= before);
                    }
                }
                outcome
            },
        }
    }

    /// The progress of a session. The server is not touched.
    pub fn query(&self, id: &str) -> (outcome: Result<Progress, UploadError>)
        ensures
            match head_fault(self@, id@) {
                Some(fault) => outcome == Err::<Progress, UploadError>(fault),
                None => outcome matches Ok(p) && p.offset == self@.sessions[id@].offset
                    && crate::file_info::opt_nat(p.length) == self@.sessions[id@].length
                    && !p.cacheable,
            },
    {
        match self.sessions.get(id) {
            None => Err(UploadError::SessionNotFound),
            Some(info) => Ok(info.status()),
        }
    }

    /// Declares the length of a session whose size was deferred, and says
    /// whether the session is thereby complete. A refusal leaves the server
    /// as it was.
    pub fn declare_length(&mut self, id: &str, length: usize) -> (outcome: Result<
        bool,
        UploadError,
    >)
        ensures
            match declare_length_fault(old(self)@, id@, length as nat) {
                Some(fault) => outcome == Err::<bool, UploadError>(fault) && final(self)@ == old(self)@,
                None => final(self)@ == old(self)@.with_session(
                    id@,
                    declared(old(self)@.sessions[id@], length as nat),
                ) && outcome == Ok::<bool, UploadError>(final(self)@.sessions[id@].is_complete()),
            },
    {
        match self.extensions.authorize(Operation::DeclareLength) {
            Err(e) => {
                return Err(e);
            },
            Ok(_) => {},
        }
        let ghost before = self.sessions@;
        match self.sessions.take(id) {
            None => Err(UploadError::SessionNotFound),
            Some(mut info) => {
                let outcome = info.declare_length(length);
                self.sessions.put(info);
                proof {
                    assert(self.sessions@ =~= before.insert(id@, info@));
                    if outcome is Err {
                        assert(before.insert(id@, before[id@]) =~= before);
                    }
                }
                outcome
            },
        }
    }

    /// Removes a session and hands out its record, so that its bytes can be
    /// removed too. A refusal leaves the server as it was.
    pub fn terminate(&mut self, id: &str) -> (outcome: Result<FileInfo, UploadError>)
        ensures
            match delete_fault(old(self)@, id@) {
                Some(fault) => outcome == Err::<FileInfo, UploadError>(fault) && final(self)@
                    == old(self)@,
                None => outcome is Ok && outcome->Ok_0@ == old(self)@.sessions[id@] && final(self)@
                    == old(self)@.without_session(id@),
            },
    {
        match self.extensions.authorize(Operation::Delete) {
            Err(e) => {
                return Err(e);
            },
            Ok(_) => {},
        }
        match self.sessions.take(id) {
            None => Err(UploadError::SessionNotFound),
            Some(info) => Ok(info),
        }
    }

    /// What is needed to serve the content of a session. The server is not
    /// touched.
    pub fn retrieve(&self, id: &str) -> (outcome: Result<Download, UploadError>)
        ensures
            match get_fault(self@, id@) {
                Some(fault) => outcome == Err::<Download, UploadError>(fault),
                None => outcome is Ok && serves(outcome->Ok_0, self@.sessions[id@]),
            },
    {
        match self.extensions.authorize(Operation::Get) {
            Err(e) => {
                return Err(e);
            },
            Ok(_) => {},
        }
        match self.sessions.get(id) {
            None => Err(UploadError::SessionNotFound),
            Some(info) => info.retrieve(),
        }
    }

    /// Assembles a final session under the given id from the named parts,
    /// in the order of the list, and returns the id with the session's
    /// offset and length. `content` is the assembled content, over which
    /// the hash is computed. A refusal leaves the server as it was; the
    /// parts stay as they are either way.
    pub fn concatenate_with_id(
        &mut self,
        id: &str,
        part_ids: &Vec<String>,
        metadata: Option<Metadata>,
        content: &[u8],
    ) -> (outcome: Result<(String, usize, usize), UploadError>)
        ensures
            match concatenate_fault(old(self)@, texts(part_ids@)) {
                Some(fault) => outcome == Err::<(String, usize, usize), UploadError>(fault)
                    && final(self)@ == old(self)@,
                None => outcome is Ok && outcome->Ok_0.0@ == id@ && final(self)@.sessions.contains_key(
                    id@,
                ) && final(self)@ == old(self)@.with_session(
                    id@,
                    concatenated(
                        id@,
                        named_parts(old(self)@, texts(part_ids@)),
                        old(self)@.storage,
                        match metadata {
                            Some(m) => m@,
                            None => Seq::empty(),
                        },
                        content@,
                        final(self)@.sessions[id@].created_at,
                    ),
                ) && outcome->Ok_0.1 == final(self)@.sessions[id@].offset && Some(
                    outcome->Ok_0.2 as nat,
                ) == final(self)@.sessions[id@].length,
            },
    {
        match self.extensions.authorize(Operation::Concatenate) {
            Err(e) => {
                return Err(e);
            },
            Ok(_) => {},
        }
        let ghost s = self@;
        let ghost ids = texts(part_ids@);
        let mut parts: Vec<&FileInfo> = Vec::new();
        let mut i: usize = 0;
        while i < part_ids.len()
            invariant
                i <= part_ids.len(),
                s == self@,
                s == old(self)@,
                permitted(s.enabled, Operation::Concatenate),
                ids == texts(part_ids@),
                all_known(s, ids.take(i as int)),
                views(parts@) == named_parts(s, ids.take(i as int)),
            decreases part_ids.len() - i,
        {
            match self.sessions.get(part_ids[i].as_str()) {
                None => {
                    proof {
                        assert(ids[i as int] == part_ids@[i as int]@);
                        assert(!all_known(s, ids));
                    }
                    return Err(UploadError::InvalidConcatenation);
                },
                Some(info) => {
                    let ghost earlier = parts@;
                    parts.push(info);
                    proof {
                        let next = ids.take(i + 1);
                        assert(ids[i as int] == part_ids@[i as int]@);
                        assert(views(earlier).len() == earlier.len());
                        assert(named_parts(s, ids.take(i as int)).len() == i);
                        assert forall|k: int| 0 <= k < next.len() implies s.sessions.contains_key(
                            #[trigger] next[k],
                        ) by {
                            if k < i {
                                assert(ids.take(i as int)[k] == next[k]);
                            }
                        }
                        assert forall|k: int| 0 <= k < next.len() implies views(parts@)[k]
                            == named_parts(s, next)[k] by {
                            if k < i {
                                assert(views(earlier)[k] == named_parts(s, ids.take(i as int))[k]);
                                assert(parts@[k] == earlier[k]);
                                assert(ids.take(i as int)[k] == next[k]);
                            }
                        }
                        assert(views(parts@) =~= named_parts(s, next));
                    }
                },
            }
            i = i + 1;
        }
        proof {
            assert(ids.take(part_ids@.len() as int) =~= ids);
        }
        let made = FileInfo::concatenate(id, &parts, self.storage.clone(), metadata, content);
        match made {
            Err(e) => Err(e),
            Ok(info) => {
                let offset = info.offset;
                let length = info.offset;
                let name = info.id.clone();
                self.sessions.put(info);
                Ok((name, offset, length))
            },
        }
    }

    /// Assembles a final session under a new random id. What holds of
    /// [`UploadServer::concatenate_with_id`] holds here for the id that is
    /// returned.
    pub fn concatenate(
        &mut self,
        part_ids: &Vec<String>,
        metadata: Option<Metadata>,
        content: &[u8],
    ) -> (outcome: Result<(String, usize, usize), UploadError>)
        ensures
            match concatenate_fault(old(self)@, texts(part_ids@)) {
                Some(fault) => outcome == Err::<(String, usize, usize), UploadError>(fault)
                    && final(self)@ == old(self)@,
                None => outcome is Ok && final(self)@.sessions.contains_key(outcome->Ok_0.0@)
                    && final(self)@ == old(self)@.with_session(
                    outcome->Ok_0.0@,
                    concatenated(
                        outcome->Ok_0.0@,
                        named_parts(old(self)@, texts(part_ids@)),
                        old(self)@.storage,
                        match metadata {
                            Some(m) => m@,
                            None => Seq::empty(),
                        },
                        content@,
                        final(self)@.sessions[outcome->Ok_0.0@].created_at,
                    ),
                ) && outcome->Ok_0.1 == final(self)@.sessions[outcome->Ok_0.0@].offset && Some(
                    outcome->Ok_0.2 as nat,
                ) == final(self)@.sessions[outcome->Ok_0.0@].length,
            },
    {
        let id = random_id();
        self.concatenate_with_id(id.as_str(), part_ids, metadata, content)
    }
}

/// After a termination the session is gone: a status query, an append, a
/// download and a second termination of the same id all find no session,
/// and the append does not bring the session back. Every other session is
/// as it was.
pub proof fn law_terminated_session_is_gone(s: ServerView, id: Seq<char>, claimed: nat, len: nat)
    requires
        delete_fault(s, id) is None,
    ensures
        ({
            let after = s.without_session(id);
            &&& !after.sessions.contains_key(id)
            &&& head_fault(after, id) == Some(UploadError::SessionNotFound)
            &&& patch_fault(after, id, claimed, len) == Some(UploadError::SessionNotFound)
            &&& delete_fault(after, id) == Some(UploadError::SessionNotFound)
            &&& permitted(after.enabled, Operation::Get) ==> get_fault(after, id) == Some(
                UploadError::SessionNotFound,
            )
            &&& forall|other: Seq<char>|
                other != id ==> after.sessions.contains_key(other) == s.sessions.contains_key(other)
                    && (s.sessions.contains_key(other) ==> after.sessions[other]
                    == s.sessions[other])
        }),
{
}

/// Of two appends to one session that claim the same offset, the one that
/// is applied second is refused with `OffsetMismatch` once the first has
/// been accepted with a payload that is not empty.
pub proof fn law_one_of_two_appends_wins(
    s: ServerView,
    id: Seq<char>,
    claimed: nat,
    first: Seq<u8>,
    second: Seq<u8>,
)
    requires
        patch_fault(s, id, claimed, first.len()) is None,
        first.len() > 0,
    ensures
        patch_fault(
            s.with_session(id, appended(s.sessions[id], first)),
            id,
            claimed,
            second.len(),
        ) == Some(UploadError::OffsetMismatch),
{
}

/// A concatenation is refused with `InvalidConcatenation` where the list of
/// parts is empty, names an id twice, or names a session that is unknown,
/// final or incomplete.
pub proof fn law_bad_part_list_is_refused(s: ServerView, ids: Seq<Seq<char>>, i: int, j: int)
    requires
        keyed_by_id(s.sessions),
        permitted(s.enabled, Operation::Concatenate),
        ({
            ||| ids.len() == 0
            ||| 0 <= i < j < ids.len() && ids[i] == ids[j]
            ||| 0 <= i < ids.len() && !s.sessions.contains_key(ids[i])
            ||| 0 <= i < ids.len() && s.sessions[ids[i]].is_final
            ||| 0 <= i < ids.len() && !s.sessions[ids[i]].is_complete()
        }),
    ensures
        concatenate_fault(s, ids) == Some(UploadError::InvalidConcatenation),
{
    if all_known(s, ids) && ids.len() > 0 {
        let parts = named_parts(s, ids);
        if 0 <= i < j < ids.len() && ids[i] == ids[j] {
            assert(parts[i].id == parts[j].id);
            crate::session::law_unusable_parts_are_refused(parts, i, j);
        } else {
            assert(0 <= i < ids.len());
            assert(parts[i] == s.sessions[ids[i]]);
            crate::session::law_unusable_parts_are_refused(parts, i, j);
        }
    }
}

/// Every operation keeps the invariants of the records: where all records
/// of a server are well-formed, they still are after an accepted creation,
/// append, declaration of the length, concatenation or termination. The
/// metadata handed to a creation or concatenation must hold each key once.
pub proof fn law_operations_keep_invariants(
    s: ServerView,
    id: Seq<char>,
    payload: Seq<u8>,
    length: nat,
    request: Option<i64>,
    defer_length: bool,
    is_partial: bool,
    first_bytes: Option<Seq<u8>>,
    metadata: Seq<EntryView>,
    part_ids: Seq<Seq<char>>,
    created_at: int,
)
    requires
        s.well_formed(),
        crate::metadata::distinct_keys(metadata),
    ensures
        create_fault(s, request, defer_length, first_bytes) is None ==> s.with_session(
            id,
            created_with(id, request, is_partial, s.storage, metadata, first_bytes, created_at),
        ).well_formed(),
        patch_fault(s, id, s.sessions[id].offset, payload.len()) is None ==> s.with_session(
            id,
            appended(s.sessions[id], payload),
        ).well_formed(),
        declare_length_fault(s, id, length) is None ==> s.with_session(
            id,
            declared(s.sessions[id], length),
        ).well_formed(),
        concatenate_fault(s, part_ids) is None ==> s.with_session(
            id,
            concatenated(
                id,
                named_parts(s, part_ids),
                s.storage,
                metadata,
                payload,
                created_at,
            ),
        ).well_formed(),
        s.without_session(id).well_formed(),
{
    let v = s.sessions[id];
    if create_fault(s, request, defer_length, first_bytes) is None {
        let fresh = created(id, request, is_partial, s.storage, metadata, created_at);
        assert(fresh.wf());
        if first_bytes is Some {
            crate::session::law_transitions_keep_invariants(
                fresh,
                first_bytes->0,
                0,
                None,
                false,
            );
        }
    }
    if patch_fault(s, id, v.offset, payload.len()) is None {
        crate::session::law_transitions_keep_invariants(v, payload, length, None, false);
    }
    if declare_length_fault(s, id, length) is None {
        crate::session::law_transitions_keep_invariants(v, payload, length, None, false);
    }
    if concatenate_fault(s, part_ids) is None {
        crate::session::law_concatenation_is_complete(
            id,
            named_parts(s, part_ids),
            s.storage,
            metadata,
            payload,
            created_at,
        );
    }
}

impl UploadServer {
    /// A server stores every record under the record's own id.
    pub proof fn lemma_keyed_by_id(self)
        ensures
            keyed_by_id(self@.sessions),
    {
        self.sessions.lemma_keyed_by_id();
    }
}

} // verus!
