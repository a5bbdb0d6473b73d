//! The running content hash of an upload, and its hexadecimal rendering.

use crate::text::push_char;
use sha2::Digest;
use vstd::prelude::*;

verus! {

/// A SHA-256 computation in progress.
///
/// The state is that of the `sha2` crate's hasher and is opaque here; what
/// matters of it is the sequence of bytes it has taken in so far, which is
/// its view.
#[verifier::external_body]
#[derive(Debug)]
pub struct ContentHasher {
    inner: sha2::Sha256,
}

/// The bytes that a hasher has taken in since it was made, in order.
pub uninterp spec fn absorbed_bytes(hasher: ContentHasher) -> Seq<u8>;

/// The SHA-256 digest of a byte sequence.
pub uninterp spec fn sha256_digest(data: Seq<u8>) -> Seq<u8>;

impl View for ContentHasher {
    type V = Seq<u8>;

    open spec fn view(&self) -> Seq<u8> {
        absorbed_bytes(*self)
    }
}

impl Clone for ContentHasher {
    /// A second hasher in the same state.
    ///
    /// Trusted: stands for the `Clone` impl of `sha2::Sha256`, which copies
    /// the state, so the copy has taken in the same bytes.
    #[verifier::external_body]
    fn clone(&self) -> (copy: Self)
        ensures
            absorbed_bytes(copy) == absorbed_bytes(*self),
    {
        ContentHasher { inner: self.inner.clone() }
    }
}

/// A hasher that has taken in nothing.
///
/// Trusted: stands for `sha2::Sha256::new`, which returns the initial state.
#[verifier::external_body]
pub(crate) fn hasher_new() -> (hasher: ContentHasher)
    ensures
        absorbed_bytes(hasher) == Seq::<u8>::empty(),
{
    ContentHasher { inner: sha2::Sha256::new() }
}

/// Feeds a chunk to the hasher.
///
/// Trusted: stands for `sha2::Digest::update`, after which the hasher has
/// taken in what it had before followed by the chunk.
#[verifier::external_body]
pub(crate) fn hasher_update(hasher: &mut ContentHasher, chunk: &[u8])
    ensures
        absorbed_bytes(*final(hasher)) == absorbed_bytes(*old(hasher)) + chunk@,
{
    hasher.inner.update(chunk);
}

/// The digest of what the hasher has taken in; the hasher is left as it is.
///
/// Trusted: stands for `sha2::Digest::finalize` on a copy of the state,
/// which returns the SHA-256 digest of all the bytes fed so far.
#[verifier::external_body]
pub(crate) fn hasher_digest(hasher: &ContentHasher) -> (digest: Vec<u8>)
    ensures
        digest@ == sha256_digest(absorbed_bytes(*hasher)),
{
    hasher.inner.clone().finalize().to_vec()
}

/// The lower-case hexadecimal digit for a value below sixteen.
pub open spec fn hex_digit(n: int) -> char {
    if n == 0 {
        '0'
    } else if n == 1 {
        '1'
    } else if n == 2 {
        '2'
    } else if n == 3 {
        '3'
    } else if n == 4 {
        '4'
    } else if n == 5 {
        '5'
    } else if n == 6 {
        '6'
    } else if n == 7 {
        '7'
    } else if n == 8 {
        '8'
    } else if n == 9 {
        '9'
    } else if n == 10 {
        'a'
    } else if n == 11 {
        'b'
    } else if n == 12 {
        'c'
    } else if n == 13 {
        'd'
    } else if n == 14 {
        'e'
    } else {
        'f'
    }
}

/// Two lower-case hexadecimal digits per byte, high digit first.
pub open spec fn hex_text(bytes: Seq<u8>) -> Seq<char>
    decreases bytes.len(),
{
    if bytes.len() == 0 {
        Seq::empty()
    } else {
        hex_text(bytes.drop_last()).push(hex_digit(bytes.last() as int / 16)).push(
            hex_digit(bytes.last() as int % 16),
        )
    }
}

fn hex_digit_of(n: u8) -> (c: char)
    requires
        n < 16,
    ensures
        c == hex_digit(n as int),
{
    if n == 0 {
        '0'
    } else if n == 1 {
        '1'
    } else if n == 2 {
        '2'
    } else if n == 3 {
        '3'
    } else if n == 4 {
        '4'
    } else if n == 5 {
        '5'
    } else if n == 6 {
        '6'
    } else if n == 7 {
        '7'
    } else if n == 8 {
        '8'
    } else if n == 9 {
        '9'
    } else if n == 10 {
        'a'
    } else if n == 11 {
        'b'
    } else if n == 12 {
        'c'
    } else if n == 13 {
        'd'
    } else if n == 14 {
        'e'
    } else {
        'f'
    }
}

/// Renders bytes as lower-case hexadecimal text.
pub fn to_hex(bytes: &[u8]) -> (text: String)
    ensures
        text@ == hex_text(bytes@),
{
    let mut text = String::new();
    let mut i: usize = 0;
    while i < bytes.len()
        invariant
            i <= bytes.len(),
            text@ == hex_text(bytes@.take(i as int)),
        decreases bytes.len() - i,
    {
        let b: u8 = bytes[i];
        proof {
            let next = bytes@.take(i + 1);
            assert(next.drop_last() =~= bytes@.take(i as int));
            assert(next.last() == b);
        }
        push_char(&mut text, hex_digit_of(b / 16));
        push_char(&mut text, hex_digit_of(b % 16));
        i = i + 1;
    }
    proof {
        assert(bytes@.take(bytes@.len() as int) =~= bytes@);
    }
    text
}

} // verus!
