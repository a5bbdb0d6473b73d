//! The transitions of one upload session: creation, append, status,
//! the late declaration of the length, retrieval and concatenation.

use crate::errors::UploadError;
use crate::file_info::{fresh_record, no_repeats, opt_nat, opt_text, random_id, texts};
use crate::file_info::{FileInfo, FileInfoView};
use crate::hashing::hasher_update;
use crate::metadata::{EntryView, Metadata};
use crate::text::same_text;
use vstd::prelude::*;

verus! {

/// What a successful append reports.
#[derive(Clone, Copy, Debug, PartialEq, Eq)]
pub struct Appended {
    /// The session's offset after the append.
    pub offset: usize,
    /// Whether this append brought the session to completion.
    pub completed: bool,
}

/// The answer to a status query.
#[derive(Clone, Copy, Debug, PartialEq, Eq)]
pub struct Progress {
    pub offset: usize,
    pub length: Option<usize>,
    /// Always `false`: a stale offset would misplace the next append, so no
    /// intermediary may keep the answer.
    pub cacheable: bool,
}

/// What the transport needs to serve the content of a session.
#[derive(Clone, Debug)]
pub struct Download {
    pub id: String,
    pub path: Option<String>,
    pub storage: String,
    pub filename: String,
    pub length: usize,
    /// The hexadecimal SHA-256 of the content, where it has been fixed.
    pub content_hash: Option<String>,
}

/// Why an append of `len` bytes at the claimed offset is refused, if it is.
pub open spec fn append_fault(v: FileInfoView, claimed: nat, len: nat) -> Option<UploadError> {
    if claimed != v.offset {
        Some(UploadError::OffsetMismatch)
    } else if v.is_final || v.is_complete() {
        Some(UploadError::AlreadyComplete)
    } else if v.length is Some && v.offset + len > v.length->0 {
        Some(UploadError::PayloadTooLarge)
    } else {
        None
    }
}

/// The record after the payload has been accepted: the offset moves on by
/// its size, the content hash takes it in, and a session that is thereby
/// complete has its hash fixed.
pub open spec fn appended(v: FileInfoView, payload: Seq<u8>) -> FileInfoView {
    let grown = FileInfoView {
        offset: v.offset + payload.len(),
        hashed: v.hashed + payload,
        ..v
    };
    if grown.is_complete() {
        grown.sealed()
    } else {
        grown
    }
}

/// Why a declaration of the length is refused, if it is.
pub open spec fn declare_fault(v: FileInfoView, length: nat) -> Option<UploadError> {
    if !v.deferred_size || v.is_final {
        Some(UploadError::LengthAlreadySet)
    } else if length < v.offset {
        Some(UploadError::InvalidLength)
    } else {
        None
    }
}

/// The record after its length has been declared; a session that is thereby
/// complete has its hash fixed.
pub open spec fn declared(v: FileInfoView, length: nat) -> FileInfoView {
    let sized = FileInfoView { length: Some(length), deferred_size: false, ..v };
    if sized.is_complete() {
        sized.sealed()
    } else {
        sized
    }
}

/// Whether the content of the session may be served.
pub open spec fn downloadable(v: FileInfoView) -> bool {
    v.is_complete() && !v.is_partial
}

/// The download names the session, its place, its offered name, its size
/// and its fixed content hash.
pub open spec fn serves(d: Download, v: FileInfoView) -> bool {
    &&& d.id@ == v.id
    &&& opt_text(d.path) == v.path
    &&& d.storage@ == v.storage
    &&& d.filename@ == v.display_name()
    &&& Some(d.length as nat) == v.length
    &&& opt_text(d.content_hash) == v.finalized_sha256
}

/// Whether a creation request states its length badly: a negative or
/// unrepresentable length, or a length together with the wish to defer it.
pub open spec fn length_fault(length: Option<i64>, defer_length: bool) -> bool {
    length matches Some(l) && (l < 0 || l > usize::MAX || defer_length)
}

/// The requested length as a size.
pub open spec fn requested_length(length: Option<i64>) -> Option<nat> {
    match length {
        Some(l) => Some(l as nat),
        None => None,
    }
}

/// Checks the length of a creation request.
pub fn checked_length(length: Option<i64>, defer_length: bool) -> (checked: Result<
    Option<usize>,
    UploadError,
>)
    ensures
        length_fault(length, defer_length) ==> checked == Err::<Option<usize>, UploadError>(
            UploadError::InvalidLength,
        ),
        !length_fault(length, defer_length) ==> checked is Ok && opt_nat(checked->Ok_0)
            == requested_length(length),
{
    match length {
        None => Ok(None),
        Some(l) => {
            if l < 0 || defer_length {
                return Err(UploadError::InvalidLength);
            }
            if l as u64 > usize::MAX as u64 {
                return Err(UploadError::InvalidLength);
            }
            Ok(Some(l as usize))
        },
    }
}

/// The record that a creation request yields under the given id.
pub open spec fn created(
    id: Seq<char>,
    length: Option<i64>,
    is_partial: bool,
    storage: Seq<char>,
    metadata: Seq<EntryView>,
    created_at: int,
) -> FileInfoView {
    FileInfoView {
        is_partial,
        ..fresh_record(id, requested_length(length), None, storage, metadata, created_at)
    }
}

/// The sizes of the parts, added up.
pub open spec fn total_length(parts: Seq<FileInfoView>) -> nat
    decreases parts.len(),
{
    if parts.len() == 0 {
        0
    } else {
        total_length(parts.drop_last()) + parts.last().offset
    }
}

/// The ids of the records, in order.
pub open spec fn ids_of(parts: Seq<FileInfoView>) -> Seq<Seq<char>> {
    parts.map_values(|p: FileInfoView| p.id)
}

/// Every record is complete and none is itself assembled from parts.
pub open spec fn all_usable_parts(parts: Seq<FileInfoView>) -> bool {
    forall|i: int| 0 <= i < parts.len() ==> !(#[trigger] parts[i]).is_final && parts[i].is_complete()
}

/// Whether the records cannot be concatenated: there is none, an id
/// repeats, one of them is final or incomplete, or their total size cannot
/// be represented.
pub open spec fn concat_fault(parts: Seq<FileInfoView>) -> bool {
    ||| parts.len() == 0
    ||| !no_repeats(ids_of(parts))
    ||| !all_usable_parts(parts)
    ||| total_length(parts) > usize::MAX
}

/// The record of the final session assembled from the parts.
pub open spec fn concatenated(
    id: Seq<char>,
    parts: Seq<FileInfoView>,
    storage: Seq<char>,
    metadata: Seq<EntryView>,
    content: Seq<u8>,
    created_at: int,
) -> FileInfoView {
    FileInfoView {
        offset: total_length(parts),
        is_final: true,
        parts: Some(ids_of(parts)),
        hashed: content,
        ..fresh_record(id, Some(total_length(parts)), None, storage, metadata, created_at)
    }.sealed()
}

/// The views of the borrowed records, in order.
pub open spec fn views(parts: Seq<&FileInfo>) -> Seq<FileInfoView> {
    parts.map_values(|p: &FileInfo| p@)
}

/// The total size grows with the list.
pub proof fn lemma_total_length_monotone(parts: Seq<FileInfoView>, n: int)
    requires
        0 <= n <= parts.len(),
    ensures
        total_length(parts.take(n)) <= total_length(parts),
    decreases parts.len() - n,
{
    if n < parts.len() {
        lemma_total_length_monotone(parts, n + 1);
        assert(parts.take(n + 1).drop_last() =~= parts.take(n));
    } else {
        assert(parts.take(n) =~= parts);
    }
}

impl FileInfo {
    /// Creates a session under the given id. The request is refused with
    /// `InvalidLength` exactly when its length is stated badly; otherwise
    /// the record is new, carries the partial flag and has no path yet.
    pub fn create_with_id(
        id: &str,
        length: Option<i64>,
        defer_length: bool,
        is_partial: bool,
        storage: String,
        metadata: Option<Metadata>,
    ) -> (outcome: Result<FileInfo, UploadError>)
        ensures
            length_fault(length, defer_length) ==> outcome == Err::<FileInfo, UploadError>(
                UploadError::InvalidLength,
            ),
            !length_fault(length, defer_length) ==> outcome is Ok && outcome->Ok_0@ == created(
                id@,
                length,
                is_partial,
                storage@,
                match metadata {
                    Some(m) => m@,
                    None => Seq::empty(),
                },
                outcome->Ok_0@.created_at,
            ),
            outcome is Ok && (metadata matches Some(m) ==> m.wf()) ==> outcome->Ok_0.wf(),
    {
        match checked_length(length, defer_length) {
            Err(e) => Err(e),
            Ok(size) => {
                let mut info = FileInfo::new(id, size, None, storage, metadata);
                info.is_partial = is_partial;
                Ok(info)
            },
        }
    }

    /// Creates a session under a new random id. What holds of
    /// [`FileInfo::create_with_id`] holds here for whichever id was drawn.
    pub fn create(
        length: Option<i64>,
        defer_length: bool,
        is_partial: bool,
        storage: String,
        metadata: Option<Metadata>,
    ) -> (outcome: Result<FileInfo, UploadError>)
        ensures
            length_fault(length, defer_length) ==> outcome == Err::<FileInfo, UploadError>(
                UploadError::InvalidLength,
            ),
            !length_fault(length, defer_length) ==> outcome is Ok && outcome->Ok_0@ == created(
                outcome->Ok_0@.id,
                length,
                is_partial,
                storage@,
                match metadata {
                    Some(m) => m@,
                    None => Seq::empty(),
                },
                outcome->Ok_0@.created_at,
            ),
            outcome is Ok && (metadata matches Some(m) ==> m.wf()) ==> outcome->Ok_0.wf(),
    {
        let id = random_id();
        FileInfo::create_with_id(id.as_str(), length, defer_length, is_partial, storage, metadata)
    }

    /// Accepts a payload at the claimed offset. A refusal leaves the record
    /// untouched; the refusals are, in this order of precedence, a claimed
    /// offset that is not the current one, a session that takes no more
    /// bytes, and a payload that overshoots the declared length.
    pub fn append(&mut self, claimed_offset: usize, payload: &[u8]) -> (outcome: Result<
        Appended,
        UploadError,
    >)
        requires
            old(self)@.length is None ==> old(self)@.offset + payload@.len() <= usize::MAX,
        ensures
            match append_fault(old(self)@, claimed_offset as nat, payload@.len()) {
                Some(fault) => outcome == Err::<Appended, UploadError>(fault) && *final(self)
                    == *old(self),
                None => final(self)@ == appended(old(self)@, payload@) && outcome == Ok::<
                    Appended,
                    UploadError,
                >(
                    (Appended {
                        offset: final(self).offset,
                        completed: final(self)@.is_complete(),
                    }),
                ),
            },
            old(self).wf() ==> final(self).wf(),
    {
        if claimed_offset != self.offset {
            return Err(UploadError::OffsetMismatch);
        }
        if self.is_final || self.is_complete() {
            return Err(UploadError::AlreadyComplete);
        }
        match self.length {
            Some(length) => {
                if length < self.offset || payload.len() > length - self.offset {
                    return Err(UploadError::PayloadTooLarge);
                }
            },
            None => {},
        }
        hasher_update(&mut self.sha256, payload);
        self.offset = self.offset + payload.len();
        let completed = self.is_complete();
        if completed {
            let _ = self.finalize_sha256();
        }
        Ok(Appended { offset: self.offset, completed })
    }

    /// The session's progress, never to be cached. The record is not touched.
    pub fn status(&self) -> (progress: Progress)
        ensures
            progress == (Progress { offset: self.offset, length: self.length, cacheable: false }),
    {
        Progress { offset: self.offset, length: self.length, cacheable: false }
    }

    /// Declares the length of a session whose size was deferred, and says
    /// whether the session is thereby complete. A refusal leaves the record
    /// untouched: `LengthAlreadySet` where the size is not deferred or the
    /// session is final, `InvalidLength` where more bytes than the declared
    /// length have already been accepted.
    pub fn declare_length(&mut self, length: usize) -> (outcome: Result<bool, UploadError>)
        ensures
            match declare_fault(old(self)@, length as nat) {
                Some(fault) => outcome == Err::<bool, UploadError>(fault) && *final(self) == *old(self),
                None => final(self)@ == declared(old(self)@, length as nat) && outcome == Ok::<
                    bool,
                    UploadError,
                >(final(self)@.is_complete()),
            },
            old(self).wf() ==> final(self).wf(),
    {
        if !self.deferred_size || self.is_final {
            return Err(UploadError::LengthAlreadySet);
        }
        if length < self.offset {
            return Err(UploadError::InvalidLength);
        }
        self.length = Some(length);
        self.deferred_size = false;
        let completed = self.is_complete();
        if completed {
            let _ = self.finalize_sha256();
        }
        Ok(completed)
    }

    /// What is needed to serve the content: refused with
    /// `NotReadyForDownload` exactly when the session is incomplete or is a
    /// partial one.
    pub fn retrieve(&self) -> (outcome: Result<Download, UploadError>)
        ensures
            !downloadable(self@) ==> outcome == Err::<Download, UploadError>(
                UploadError::NotReadyForDownload,
            ),
            downloadable(self@) ==> outcome is Ok && serves(outcome->Ok_0, self@),
    {
        if self.is_partial {
            return Err(UploadError::NotReadyForDownload);
        }
        match self.length {
            Some(length) => {
                if length != self.offset {
                    return Err(UploadError::NotReadyForDownload);
                }
                Ok(
                    Download {
                        id: self.id.clone(),
                        path: self.path.clone(),
                        storage: self.storage.clone(),
                        filename: self.get_filename().to_owned(),
                        length,
                        content_hash: self.finalized_sha256.clone(),
                    },
                )
            },
            None => Err(UploadError::NotReadyForDownload),
        }
    }

    /// Assembles a final session from complete parts, given in content
    /// order, and the bytes of the assembled content, over which the hash
    /// is computed and fixed. Refused with `InvalidConcatenation` exactly
    /// when the parts cannot be concatenated.
    pub fn concatenate(
        id: &str,
        parts: &Vec<&FileInfo>,
        storage: String,
        metadata: Option<Metadata>,
        content: &[u8],
    ) -> (outcome: Result<FileInfo, UploadError>)
        ensures
            concat_fault(views(parts@)) ==> outcome == Err::<FileInfo, UploadError>(
                UploadError::InvalidConcatenation,
            ),
            !concat_fault(views(parts@)) ==> outcome is Ok && outcome->Ok_0@ == concatenated(
                id@,
                views(parts@),
                storage@,
                match metadata {
                    Some(m) => m@,
                    None => Seq::empty(),
                },
                content@,
                outcome->Ok_0@.created_at,
            ),
            outcome is Ok && (metadata matches Some(m) ==> m.wf()) ==> outcome->Ok_0.wf(),
    {
        let ghost pv = views(parts@);
        if parts.len() == 0 {
            return Err(UploadError::InvalidConcatenation);
        }
        let mut total: usize = 0;
        let mut ids: Vec<String> = Vec::new();
        let mut i: usize = 0;
        while i < parts.len()
            invariant
                i <= parts.len(),
                pv == views(parts@),
                total == total_length(pv.take(i as int)),
                texts(ids@) == ids_of(pv.take(i as int)),
                no_repeats(ids_of(pv.take(i as int))),
                all_usable_parts(pv.take(i as int)),
            decreases parts.len() - i,
        {
            let part: &FileInfo = parts[i];
            proof {
                assert(pv.take(i + 1).drop_last() =~= pv.take(i as int));
                assert(pv.take(i + 1).last() == part@);
                assert(pv[i as int] == part@);
            }
            if part.is_final || !part.is_complete() {
                proof {
                    assert(!all_usable_parts(pv));
                }
                return Err(UploadError::InvalidConcatenation);
            }
            let mut j: usize = 0;
            while j < i
                invariant
                    j <= i,
                    i < parts.len(),
                    pv == views(parts@),
                    part@ == pv[i as int],
                    forall|k: int| 0 <= k < j ==> pv[k].id != part@.id,
                decreases i - j,
            {
                if same_text(parts[j].id.as_str(), part.id.as_str()) {
                    proof {
                        assert(ids_of(pv)[j as int] == ids_of(pv)[i as int]);
                    }
                    return Err(UploadError::InvalidConcatenation);
                }
                j = j + 1;
            }
            if part.offset > usize::MAX - total {
                proof {
                    lemma_total_length_monotone(pv, i + 1);
                }
                return Err(UploadError::InvalidConcatenation);
            }
            total = total + part.offset;
            let ghost earlier = ids@;
            ids.push(part.id.clone());
            proof {
                let next = pv.take(i + 1);
                assert(texts(earlier).len() == earlier.len());
                assert(ids_of(pv.take(i as int)).len() == i);
                assert forall|k: int| 0 <= k < next.len() implies texts(ids@)[k] == ids_of(
                    next,
                )[k] by {
                    if k < i {
                        assert(texts(earlier)[k] == ids_of(pv.take(i as int))[k]);
                        assert(ids@[k] == earlier[k]);
                    }
                }
                assert(texts(ids@) =~= ids_of(next));
                assert forall|a: int, b: int| 0 <= a < b < next.len() implies #[trigger] ids_of(
                    next,
                )[a] != #[trigger] ids_of(next)[b] by {
                    if b < i {
                        assert(ids_of(pv.take(i as int))[a] != ids_of(pv.take(i as int))[b]);
                    } else {
                        assert(pv[a].id != part@.id);
                    }
                }
                assert forall|k: int| 0 <= k < next.len() implies !(#[trigger] next[k]).is_final
                    && next[k].is_complete() by {
                    if k < i {
                        assert(pv.take(i as int)[k] == next[k]);
                    }
                }
            }
            i = i + 1;
        }
        proof {
            assert(pv.take(parts@.len() as int) =~= pv);
        }
        let mut info = FileInfo::new(id, Some(total), None, storage, metadata);
        info.offset = total;
        info.is_final = true;
        info.parts = Some(ids);
        hasher_update(&mut info.sha256, content);
        let _ = info.finalize_sha256();
        proof {
            assert(info@.hashed =~= content@);
        }
        Ok(info)
    }
}

/// One append as a caller makes it: the offset it claims and its payload.
pub struct AppendCall {
    pub claimed: nat,
    pub payload: Seq<u8>,
}

/// The record after one call: an accepted payload is applied, a refused
/// call changes nothing.
pub open spec fn append_step(v: FileInfoView, call: AppendCall) -> FileInfoView {
    if append_fault(v, call.claimed, call.payload.len()) is None {
        appended(v, call.payload)
    } else {
        v
    }
}

/// The record after the calls have been made one after the other.
pub open spec fn after_appends(v: FileInfoView, calls: Seq<AppendCall>) -> FileInfoView
    decreases calls.len(),
{
    if calls.len() == 0 {
        v
    } else {
        append_step(after_appends(v, calls.drop_last()), calls.last())
    }
}

/// The payloads of the calls that were accepted, one after the other.
pub open spec fn accepted_bytes(v: FileInfoView, calls: Seq<AppendCall>) -> Seq<u8>
    decreases calls.len(),
{
    if calls.len() == 0 {
        Seq::empty()
    } else {
        let before = after_appends(v, calls.drop_last());
        let earlier = accepted_bytes(v, calls.drop_last());
        if append_fault(before, calls.last().claimed, calls.last().payload.len()) is None {
            earlier + calls.last().payload
        } else {
            earlier
        }
    }
}

/// Whatever appends are tried on a new session of known length, in whatever
/// order and with whatever claimed offsets: the offset is the number of
/// bytes that were accepted, the content hash has taken in exactly those
/// bytes in the order of their acceptance, and the session is complete
/// exactly when as many bytes were accepted as its length says. Nothing
/// else of the record moves.
pub proof fn law_offset_counts_accepted_bytes(v: FileInfoView, calls: Seq<AppendCall>)
    requires
        v.offset == 0,
        v.length is Some,
    ensures
        after_appends(v, calls).offset == accepted_bytes(v, calls).len(),
        after_appends(v, calls).hashed == v.hashed + accepted_bytes(v, calls),
        after_appends(v, calls).is_complete() <==> accepted_bytes(v, calls).len() == v.length->0,
        after_appends(v, calls).offset <= v.length->0,
        after_appends(v, calls) == (FileInfoView {
            offset: after_appends(v, calls).offset,
            hashed: after_appends(v, calls).hashed,
            finalized_sha256: after_appends(v, calls).finalized_sha256,
            ..v
        }),
    decreases calls.len(),
{
    if calls.len() > 0 {
        law_offset_counts_accepted_bytes(v, calls.drop_last());
        let before = after_appends(v, calls.drop_last());
        let earlier = accepted_bytes(v, calls.drop_last());
        if append_fault(before, calls.last().claimed, calls.last().payload.len()) is None {
            assert(v.hashed + (earlier + calls.last().payload) =~= (v.hashed + earlier)
                + calls.last().payload);
        }
    } else {
        assert(v.hashed + Seq::<u8>::empty() =~= v.hashed);
    }
}

/// A new session of known, non-zero length that appends have completed
/// carries the hash of exactly the bytes that were accepted.
pub proof fn law_completed_hash_is_of_accepted_bytes(v: FileInfoView, calls: Seq<AppendCall>)
    requires
        v.offset == 0,
        v.length is Some,
        v.length != Some(0nat),
        v.hashed == Seq::<u8>::empty(),
        v.finalized_sha256 is None,
    ensures
        after_appends(v, calls).is_complete() <==> after_appends(v, calls).finalized_sha256
            is Some,
        after_appends(v, calls).is_complete() ==> after_appends(v, calls).finalized_sha256
            == Some(crate::hashing::hex_text(crate::hashing::sha256_digest(accepted_bytes(v, calls)))),
    decreases calls.len(),
{
    law_offset_counts_accepted_bytes(v, calls);
    assert(v.hashed + accepted_bytes(v, calls) =~= accepted_bytes(v, calls));
    if calls.len() > 0 {
        law_completed_hash_is_of_accepted_bytes(v, calls.drop_last());
        law_offset_counts_accepted_bytes(v, calls.drop_last());
    }
}

/// An append that claims another offset than the current one is refused
/// with `OffsetMismatch`, whatever else holds of the session.
pub proof fn law_wrong_offset_is_refused(v: FileInfoView, claimed: nat, len: nat)
    requires
        claimed != v.offset,
    ensures
        append_fault(v, claimed, len) == Some(UploadError::OffsetMismatch),
        append_step(v, (AppendCall { claimed, payload: Seq::new(len, |i: int| 0u8) })) == v,
{
}

/// Of two appends that claim the same offset, the one that is applied
/// second is refused with `OffsetMismatch` once the first has been accepted
/// with a payload that is not empty; the hash then holds the first payload
/// directly after what it held before.
pub proof fn law_same_offset_twice(
    v: FileInfoView,
    claimed: nat,
    first: Seq<u8>,
    second: Seq<u8>,
)
    requires
        append_fault(v, claimed, first.len()) is None,
        first.len() > 0,
    ensures
        append_fault(appended(v, first), claimed, second.len()) == Some(
            UploadError::OffsetMismatch,
        ),
        appended(v, first).hashed == v.hashed + first,
        appended(v, first).offset == v.offset + first.len(),
{
}

/// Once a length has been declared, a second declaration is refused with
/// `LengthAlreadySet`, whatever length it names.
pub proof fn law_length_is_declared_once(v: FileInfoView, first: nat, second: nat)
    requires
        declare_fault(v, first) is None,
    ensures
        declare_fault(declared(v, first), second) == Some(UploadError::LengthAlreadySet),
{
}

/// Declaring as length the number of bytes already accepted completes the
/// session at once and fixes its hash: the hash of the bytes hashed so far,
/// unless one was already stored.
pub proof fn law_declaring_the_offset_completes(v: FileInfoView)
    requires
        declare_fault(v, v.offset) is None,
    ensures
        declared(v, v.offset).is_complete(),
        declared(v, v.offset).finalized_sha256 is Some,
        v.finalized_sha256 is None ==> declared(v, v.offset).finalized_sha256 == Some(
            v.content_hash(),
        ),
{
}

/// A well-formed session that may be served and has a fixed hash has the
/// hash of exactly the bytes that its content hash took in; a session that
/// is incomplete or partial is never served.
pub proof fn law_served_hash_is_content_hash(v: FileInfoView)
    requires
        v.wf(),
    ensures
        downloadable(v) && v.finalized_sha256 is Some ==> v.finalized_sha256 == Some(
            crate::hashing::hex_text(crate::hashing::sha256_digest(v.hashed)),
        ),
        !v.is_complete() || v.is_partial ==> !downloadable(v),
{
}

/// What concatenation yields from usable parts: a complete final session
/// whose length and offset are the sum of the parts' sizes, which lists the
/// parts' ids in the order given, and whose hash is that of the assembled
/// content. It is neither partial nor of deferred size, and it is
/// well-formed where its metadata is.
pub proof fn law_concatenation_is_complete(
    id: Seq<char>,
    parts: Seq<FileInfoView>,
    storage: Seq<char>,
    metadata: Seq<EntryView>,
    content: Seq<u8>,
    created_at: int,
)
    requires
        !concat_fault(parts),
    ensures
        ({
            let made = concatenated(id, parts, storage, metadata, content, created_at);
            &&& made.is_final
            &&& !made.is_partial
            &&& !made.deferred_size
            &&& made.offset == total_length(parts)
            &&& made.length == Some(total_length(parts))
            &&& made.is_complete()
            &&& made.parts == Some(ids_of(parts))
            &&& made.finalized_sha256 == Some(
                crate::hashing::hex_text(crate::hashing::sha256_digest(content)),
            )
            &&& crate::metadata::distinct_keys(metadata) ==> made.wf()
        }),
{
}

/// Parts that cannot be concatenated are refused: an empty list, a list in
/// which an id repeats, and a list with a part that is final or incomplete.
pub proof fn law_unusable_parts_are_refused(parts: Seq<FileInfoView>, i: int, j: int)
    requires
        ({
            ||| parts.len() == 0
            ||| 0 <= i < j < parts.len() && parts[i].id == parts[j].id
            ||| 0 <= i < parts.len() && (parts[i].is_final || !parts[i].is_complete())
        }),
    ensures
        concat_fault(parts),
{
    if parts.len() > 0 {
        if 0 <= i < j < parts.len() && parts[i].id == parts[j].id {
            assert(ids_of(parts)[i] == ids_of(parts)[j]);
        }
    }
}

/// Every transition keeps the invariants of a record: an accepted append
/// and an accepted declaration of the length lead from a well-formed record
/// to a well-formed one and leave its id, its store, its metadata and its
/// flags alone; a record that creation yields is well-formed where its
/// metadata is.
pub proof fn law_transitions_keep_invariants(
    v: FileInfoView,
    payload: Seq<u8>,
    length: nat,
    request: Option<i64>,
    defer_length: bool,
)
    requires
        v.wf(),
    ensures
        append_fault(v, v.offset, payload.len()) is None ==> appended(v, payload).wf()
            && appended(v, payload) == (FileInfoView {
            offset: appended(v, payload).offset,
            hashed: appended(v, payload).hashed,
            finalized_sha256: appended(v, payload).finalized_sha256,
            ..v
        }),
        declare_fault(v, length) is None ==> declared(v, length).wf() && declared(v, length) == (
        FileInfoView {
            length: Some(length),
            deferred_size: false,
            finalized_sha256: declared(v, length).finalized_sha256,
            ..v
        }),
        !length_fault(request, defer_length) ==> created(
            v.id,
            request,
            v.is_partial,
            v.storage,
            v.metadata,
            v.created_at,
        ).wf(),
{
}

} // verus!
