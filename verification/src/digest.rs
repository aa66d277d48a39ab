//! SHA-256 digests of downloaded packages, in the lowercase hex form the
//! repositories publish, and what a digest decides about a cached file.

use vstd::prelude::*;

use sha2::Digest;

use crate::text::{chars_of, chars_eq, chars_to_string, extend_str};

verus! {

/// The SHA-256 digest of `data`, as `sha2` computes it.
pub uninterp spec fn sha256_of(data: Seq<u8>) -> Seq<u8>;

/// `sha2::Sha256::digest`: claims the result is the digest of exactly
/// `data`, 32 bytes long; the bytes themselves are not described.
#[verifier::external_body]
fn sha256(data: &[u8]) -> (r: Vec<u8>)
    ensures
        r@ == sha256_of(data@),
        r@.len() == 32,
{
    sha2::Sha256::digest(data).to_vec()
}

/// `sha2::Sha256`, the incremental hasher. The crate's type is an alias of
/// a generic wrapper whose declaration Verus refuses, so it is held in a
/// private field here; what it has been fed is [`fed`].
#[verifier::external_body]
pub struct Sha256Stream {
    inner: sha2::Sha256,
}

/// The bytes a hasher has been fed so far, in order.
pub uninterp spec fn fed(h: Sha256Stream) -> Seq<u8>;

/// `sha2::Sha256::new`: claims a fresh hasher has been fed nothing.
#[verifier::external_body]
fn sha256_new() -> (h: Sha256Stream)
    ensures
        fed(h) == Seq::<u8>::empty(),
{
    Sha256Stream { inner: sha2::Sha256::new() }
}

/// `Digest::update`: claims the hasher has then been fed `chunk` after
/// what it had been fed before.
#[verifier::external_body]
fn sha256_update(h: &mut Sha256Stream, chunk: &[u8])
    ensures
        fed(*final(h)) == fed(*old(h)) + chunk@,
{
    h.inner.update(chunk)
}

/// `Digest::finalize`: claims the result is the digest of everything the
/// hasher was fed, as one-shot hashing of those bytes gives it.
#[verifier::external_body]
fn sha256_finalize(h: Sha256Stream) -> (r: Vec<u8>)
    ensures
        r@ == sha256_of(fed(h)),
        r@.len() == 32,
{
    h.inner.finalize().to_vec()
}

/// A digest computed piece by piece, for data too large to hold whole: a
/// hasher that has been fed nothing yet.
pub fn digest_start() -> (h: Sha256Stream)
    ensures
        fed(h) == Seq::<u8>::empty(),
{
    sha256_new()
}

/// Feed the next piece of the data.
pub fn digest_feed(h: &mut Sha256Stream, chunk: &[u8])
    ensures
        fed(*final(h)) == fed(*old(h)) + chunk@,
{
    sha256_update(h, chunk)
}

/// The digest of everything fed, as lowercase hex: the same as
/// [`sha256_hex`] of those bytes at once.
pub fn digest_finish_hex(h: Sha256Stream) -> (r: String)
    ensures
        r@ == hex_lower(sha256_of(fed(h))),
{
    let d = sha256_finalize(h);
    hex_encode(d.as_slice())
}

/// The lowercase hex digit of a nibble.
pub open spec fn hex_digit(n: u8) -> char {
    if n < 10 {
        (48 + n) as char
    } else {
        (87 + n) as char
    }
}

/// Each byte as two lowercase hex digits, high nibble first.
pub open spec fn hex_lower(bytes: Seq<u8>) -> Seq<char>
    decreases bytes.len(),
{
    if bytes.len() == 0 {
        seq![]
    } else {
        hex_lower(bytes.drop_last()) + seq![
            hex_digit(bytes.last() / 16),
            hex_digit(bytes.last() % 16),
        ]
    }
}

/// `hex::encode`: claims what its source shows, two lowercase hex digits
/// per byte, high nibble first, from the table `0123456789abcdef`.
#[verifier::external_body]
fn hex_encode(bytes: &[u8]) -> (r: String)
    ensures
        r@ == hex_lower(bytes@),
{
    hex::encode(bytes)
}

/// The digest of `data` as lowercase hex.
pub fn sha256_hex(data: &[u8]) -> (r: String)
    ensures
        r@ == hex_lower(sha256_of(data@)),
{
    let d = sha256(data);
    hex_encode(d.as_slice())
}

/// Whether a cached package may be used without downloading it again: it
/// is there, and it matches its digest when the task has one (without one
/// the file is trusted, as libalpm trusts it). `actual` is the digest read
/// from the file, `None` when reading failed.
pub fn cached_file_valid(exists: bool, expected: Option<&str>, actual: Option<&str>) -> (r: bool)
    ensures
        r == (exists && match expected {
            None => true,
            Some(e) => match actual {
                Some(a) => a@ == e@,
                None => false,
            },
        }),
{
    if !exists {
        return false;
    }
    match expected {
        None => true,
        Some(e) => match actual {
            Some(a) => chars_eq(&chars_of(a), &chars_of(e)),
            None => false,
        },
    }
}

/// The refusal of a download whose digest differs.
pub open spec fn mismatch_message(dest: Seq<char>, expected: Seq<char>, actual: Seq<char>) -> Seq<
    char,
> {
    "SHA256 mismatch for "@ + dest + ": expected "@ + expected + ", got "@ + actual
}

/// Check a finished download's digest against the expected one.
pub fn verify_digest(dest: &str, expected: &str, actual: &str) -> (r: Result<(), String>)
    ensures
        r is Ok <==> actual@ == expected@,
        r matches Err(m) ==> m@ == mismatch_message(dest@, expected@, actual@),
{
    if chars_eq(&chars_of(actual), &chars_of(expected)) {
        return Ok(());
    }
    let mut m: Vec<char> = Vec::new();
    extend_str(&mut m, "SHA256 mismatch for ");
    extend_str(&mut m, dest);
    extend_str(&mut m, ": expected ");
    extend_str(&mut m, expected);
    extend_str(&mut m, ", got ");
    extend_str(&mut m, actual);
    Err(chars_to_string(&m))
}

} // verus!
