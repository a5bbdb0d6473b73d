//! Session bookkeeping for a resumable-upload server.
//!
//! The crate holds the upload record with its running content hash, the
//! wire form of client metadata and its reading back, the transitions of a
//! single upload session, a table of sessions by id, and the operations of
//! a server as a deployment's enabled extensions allow them.
//!
//! Every function states what it returns and changes over the view of its
//! data, and each failure with the inputs on which it comes. What rests on
//! the `sha2`, `base64`, `chrono` and `uuid` crates is marked as trusted in
//! the doc comment of the function that makes the call.

pub mod errors;
pub mod extensions;
pub mod file_info;
pub mod hashing;
pub mod metadata;
pub mod server;
pub mod session;
pub mod table;
pub mod text;
pub mod wire;
