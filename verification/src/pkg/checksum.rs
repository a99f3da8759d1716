//! `sha256:` checksums of downloaded files.
use vstd::prelude::*;
use sha2::Digest;
use crate::text::{strip_prefix, concat, str_eq};

verus! {

/// The SHA-256 digest of a byte string (what `sha2::Sha256` computes).
pub uninterp spec fn sha256(data: Seq<u8>) -> Seq<u8>;

/// `sha2::Sha256::digest`: the digest of `data`, named `sha256`; its output
/// type holds 32 bytes.
#[verifier::external_body]
fn sha256_digest(data: &[u8]) -> (r: Vec<u8>)
    ensures
        r@ == sha256(data@),
        r@.len() == 32,
{
    sha2::Sha256::digest(data).to_vec()
}

/// The lowercase hex digit of a value below 16.
pub open spec fn hex_digit(n: int) -> char {
    if n < 10 {
        (n + 48) as char
    } else {
        (n + 87) as char
    }
}

/// Two lowercase hex digits per byte, high nibble first.
pub open spec fn hex_lower(data: Seq<u8>) -> Seq<char>
    decreases data.len(),
{
    if data.len() == 0 {
        Seq::empty()
    } else {
        hex_lower(data.drop_last()) + seq![hex_digit(data.last() as int / 16), hex_digit(data.last() as int % 16)]
    }
}

/// `hex::encode`: each byte as two lowercase hex digits, high nibble first
/// (its table is `0123456789abcdef`).
#[verifier::external_body]
fn hex_encode(data: &[u8]) -> (r: String)
    ensures
        r@ == hex_lower(data@),
{
    hex::encode(data)
}

/// The hex digest a checksum of `data` is compared with.
pub open spec fn digest_hex(data: Seq<u8>) -> Seq<char> {
    hex_lower(sha256(data))
}

pub open spec fn checksum_prefix() -> Seq<char> {
    "sha256:"@
}

/// Why a checksum does not hold.
pub enum ChecksumError {
    /// The expected checksum does not start with `sha256:`.
    MissingPrefix,
    /// The digests differ.
    Mismatch { expected: String, actual: String },
}

/// The hex digest that a checksum string expects, when it starts with
/// `sha256:`.
pub fn expected_digest(expected: &str) -> (r: Option<String>)
    ensures
        match r {
            Some(h) => checksum_prefix().is_prefix_of(expected@) && h@ == expected@.skip(7),
            None => !checksum_prefix().is_prefix_of(expected@),
        },
{
    proof {
        reveal_strlit("sha256:");
    }
    strip_prefix(expected, "sha256:")
}

/// The checksum of `data`, as a recipe writes it: `sha256:` and the
/// lowercase hex digest.
pub fn compute(data: &[u8]) -> (r: String)
    ensures
        r@ == checksum_prefix() + digest_hex(data@),
{
    let d = sha256_digest(data);
    let h = hex_encode(d.as_slice());
    concat("sha256:", h.as_str())
}

/// Checks `data` against a recipe's checksum: it holds exactly when the
/// checksum is `sha256:` followed by the lowercase hex digest of `data`.
pub fn verify(data: &[u8], expected: &str) -> (r: Result<(), ChecksumError>)
    ensures
        r is Ok <==> (checksum_prefix().is_prefix_of(expected@) && expected@.skip(7) == digest_hex(data@)),
        r matches Err(ChecksumError::MissingPrefix) <==> !checksum_prefix().is_prefix_of(expected@),
        r matches Err(ChecksumError::Mismatch { expected: e, actual: a }) ==> e@ == expected@.skip(7)
            && a@ == digest_hex(data@),
{
    match expected_digest(expected) {
        None => Err(ChecksumError::MissingPrefix),
        Some(h) => {
            let d = sha256_digest(data);
            let actual = hex_encode(d.as_slice());
            if str_eq(actual.as_str(), h.as_str()) {
                Ok(())
            } else {
                Err(ChecksumError::Mismatch { expected: h, actual })
            }
        },
    }
}

/// A checksum computed from some bytes verifies those bytes.
pub proof fn lemma_compute_then_verify(data: Seq<u8>)
    ensures
        checksum_prefix().is_prefix_of(checksum_prefix() + digest_hex(data)),
        (checksum_prefix() + digest_hex(data)).skip(7) == digest_hex(data),
{
    reveal_strlit("sha256:");
    assert((checksum_prefix() + digest_hex(data)).skip(7) =~= digest_hex(data));
    assert(checksum_prefix() =~= (checksum_prefix() + digest_hex(data)).subrange(0, 7));
}

} // verus!
