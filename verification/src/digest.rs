//! One-way hashing and lower-case hexadecimal naming.
//!
//! Hashing and hexadecimal encoding are done by the `sha2` and `base16ct`
//! crates. Their results are described here and trusted, not proved.

use sha2::{Digest, Sha256};
use vstd::prelude::*;

verus! {

/// Length in bytes of a SHA-256 digest.
pub const DIGEST_BYTES: usize = 32;

/// The SHA-256 digest of a byte string, as `sha2` computes it.
pub uninterp spec fn sha256(data: Seq<u8>) -> Seq<u8>;

/// The sixteen lower-case hexadecimal digits, in order of value.
pub open spec fn hex_digits() -> Seq<char> {
    seq!['0', '1', '2', '3', '4', '5', '6', '7', '8', '9', 'a', 'b', 'c', 'd', 'e', 'f']
}

/// The lower-case hexadecimal form of a byte string: two digits per byte,
/// the high nibble first.
pub open spec fn hex_lower(bytes: Seq<u8>) -> Seq<char> {
    Seq::new(
        2 * bytes.len(),
        |i: int|
            if i % 2 == 0 {
                hex_digits()[bytes[i / 2] as int / 16]
            } else {
                hex_digits()[bytes[i / 2] as int % 16]
            },
    )
}

/// The name derived from a byte string: the hexadecimal form of its digest.
pub open spec fn hashed_name(data: Seq<u8>) -> Seq<char> {
    hex_lower(sha256(data))
}

/// Calls `sha2::Sha256::digest`. Trusted: the result is the SHA-256 digest of
/// `data`, a function of the bytes alone, and is 32 bytes long.
#[verifier::external_body]
fn sha256_digest(data: &[u8]) -> (out: Vec<u8>)
    ensures
        out@ == sha256(data@),
        out@.len() == DIGEST_BYTES,
{
    Sha256::digest(data).to_vec()
}

/// Calls `base16ct::lower::encode_string`. Trusted: the result holds two
/// lower-case hexadecimal digits for each input byte, high nibble first. The
/// outside function panics on inputs longer than half of `usize::MAX`, which
/// the precondition leaves out.
#[verifier::external_body]
fn hex_encode(bytes: &[u8]) -> (out: String)
    requires
        bytes@.len() <= usize::MAX / 2,
    ensures
        out@ == hex_lower(bytes@),
{
    base16ct::lower::encode_string(bytes)
}

/// Hashes `data` and returns the digest in lower-case hexadecimal.
pub fn sha256_hex(data: &[u8]) -> (name: String)
    ensures
        name@ == hashed_name(data@),
        name@.len() == 2 * DIGEST_BYTES,
{
    let digest = sha256_digest(data);
    hex_encode(digest.as_slice())
}

/// The hexadecimal form of a byte string has two characters for each byte,
/// all of them hexadecimal digits, so it never holds a path separator.
pub proof fn lemma_hex_lower_shape(bytes: Seq<u8>)
    ensures
        hex_lower(bytes).len() == 2 * bytes.len(),
        forall|i: int|
            0 <= i < hex_lower(bytes).len() ==> hex_digits().contains(#[trigger] hex_lower(bytes)[i]),
        !hex_lower(bytes).contains('/'),
{
    let text = hex_lower(bytes);
    assert forall|i: int| 0 <= i < text.len() implies hex_digits().contains(#[trigger] text[i]) by {
        let b = bytes[i / 2] as int;
        if i % 2 == 0 {
            assert(0 <= b / 16 < 16);
            assert(text[i] == hex_digits()[b / 16]);
        } else {
            assert(0 <= b % 16 < 16);
            assert(text[i] == hex_digits()[b % 16]);
        }
    }
    if text.contains('/') {
        let i = choose|i: int| 0 <= i < text.len() && text[i] == '/';
        assert(hex_digits().contains(text[i]));
        let j = choose|j: int| 0 <= j < hex_digits().len() && hex_digits()[j] == '/';
        assert(hex_digits()[j] != '/');
    }
}

} // verus!
