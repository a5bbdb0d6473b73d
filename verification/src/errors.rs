//! The failures that a protocol operation can report.

use vstd::prelude::*;

verus! {

/// Why an operation on an upload session was refused.
///
/// Every failure is scoped to one operation on one session; none of them
/// leaves a session changed.
#[derive(Clone, Debug, PartialEq, Eq)]
pub enum UploadError {
    /// No record exists for the session id.
    SessionNotFound,
    /// The offset claimed by the caller is not the session's current offset.
    OffsetMismatch,
    /// The session takes no more bytes: it is complete, or it is a final
    /// session assembled from parts.
    AlreadyComplete,
    /// The payload would carry the session past its declared length.
    PayloadTooLarge,
    /// The declared length is negative, not representable, or given
    /// together with a request to defer it.
    InvalidLength,
    /// The session already has a length, or can never be given one.
    LengthAlreadySet,
    /// The list of parts is empty, repeats an id, or names a session that
    /// is missing, final or not yet complete.
    InvalidConcatenation,
    /// The session is incomplete, or is a part that is never served alone.
    NotReadyForDownload,
    /// The operation needs an extension that this deployment has not enabled.
    ExtensionDisabled,
    /// A metadata or byte store reported a failure; the text is the store's.
    StorageError(String),
}

} // verus!
