//! Digest computation and the prefix/suffix split: a candidate password is
//! hashed with SHA-1 and rendered as forty upper-case hex characters; the
//! first five characters are the public query prefix and the remaining
//! thirty-five the private suffix that never leaves the process.

use vstd::prelude::*;

verus! {

/// The upper-case character for one hex nibble.
pub open spec fn hex_digit(v: int) -> char {
    seq!['0', '1', '2', '3', '4', '5', '6', '7', '8', '9', 'A', 'B', 'C', 'D', 'E', 'F'][v]
}

/// The upper-case hex rendering of a byte string, high nibble first.
pub open spec fn upper_hex_of(bytes: Seq<u8>) -> Seq<char> {
    Seq::new(
        (bytes.len() * 2) as nat,
        |i: int|
            if i % 2 == 0 {
                hex_digit(bytes[i / 2] as int / 16)
            } else {
                hex_digit(bytes[i / 2] as int % 16)
            },
    )
}

/// The SHA-1 digest of the UTF-8 encoding of a character sequence.
pub uninterp spec fn sha1_of(s: Seq<char>) -> Seq<u8>;

/// Relies on the sha1 crate's `Sha1` (`new`, `update`, `digest`, `bytes`):
/// the 20-byte SHA-1 digest of the input's bytes, a function of the input
/// alone.
#[verifier::external_body]
fn sha1_digest_bytes(password: &str) -> (r: Vec<u8>)
    ensures
        r@ == sha1_of(password@),
        r@.len() == 20,
{
    let mut hasher = sha1::Sha1::new();
    hasher.update(password.as_bytes());
    hasher.digest().bytes().to_vec()
}

/// Relies on `hex::encode_upper`: each byte becomes two upper-case hex
/// digits from `0123456789ABCDEF`, high nibble first.
#[verifier::external_body]
fn hex_encode_upper(bytes: &Vec<u8>) -> (r: String)
    ensures
        r@ == upper_hex_of(bytes@),
{
    hex::encode_upper(bytes.as_slice())
}

/// The digest a plaintext password gets: its SHA-1 in upper-case hex.
pub open spec fn digest_chars_of(password: Seq<char>) -> Seq<char> {
    upper_hex_of(sha1_of(password))
}

/// Hashes a plaintext password into its forty-character digest.
pub fn compute_digest(password: &str) -> (r: String)
    ensures
        r@ == digest_chars_of(password@),
        r@.len() == 40,
{
    let h = sha1_digest_bytes(password);
    hex_encode_upper(&h)
}

/// The digest a candidate stands for: itself when it was supplied as a
/// digest already, otherwise the digest of its text.
pub open spec fn candidate_digest(candidate: Seq<char>, hash_passed: bool) -> Seq<char> {
    if hash_passed {
        candidate
    } else {
        digest_chars_of(candidate)
    }
}

/// Produces the digest to query for: the candidate itself in pre-hashed
/// mode, its SHA-1 hex rendering otherwise.
pub fn digest_of_candidate(candidate: &str, hash_passed: bool) -> (r: String)
    ensures
        r@ == candidate_digest(candidate@, hash_passed),
        !hash_passed ==> r@.len() == 40,
{
    if hash_passed {
        candidate.to_owned()
    } else {
        compute_digest(candidate)
    }
}

/// The public part of a digest: its first five characters.
pub open spec fn prefix_of(digest: Seq<char>) -> Seq<char> {
    digest.subrange(0, 5)
}

/// The private part of a digest: everything after the first five characters.
pub open spec fn suffix_of(digest: Seq<char>) -> Seq<char> {
    digest.subrange(5, digest.len() as int)
}

/// Splits a digest into its query prefix and its locally matched suffix.
pub fn split_digest(digest: &str) -> (r: (String, String))
    requires
        digest@.len() >= 5,
    ensures
        r.0@ == prefix_of(digest@),
        r.0@.len() == 5,
        r.1@ == suffix_of(digest@),
        r.1@.len() == digest@.len() - 5,
{
    let n = digest.unicode_len();
    let prefix = digest.substring_char(0, 5).to_owned();
    let suffix = digest.substring_char(5, n).to_owned();
    (prefix, suffix)
}

/// Hashing is deterministic: equal plaintexts always take equal digests.
pub proof fn lemma_digest_deterministic(a: Seq<char>, b: Seq<char>)
    requires
        a == b,
    ensures
        digest_chars_of(a) == digest_chars_of(b),
{
}

/// A forty-character digest splits into a five-character prefix and a
/// thirty-five-character suffix, and their concatenation restores the digest
/// exactly, case preserved.
pub proof fn lemma_split_reconstructs(digest: Seq<char>)
    requires
        digest.len() == 40,
    ensures
        prefix_of(digest).len() == 5,
        suffix_of(digest).len() == 35,
        prefix_of(digest) + suffix_of(digest) == digest,
{
    assert(prefix_of(digest) + suffix_of(digest) =~= digest);
}

/// Pre-hashed mode bypasses hashing: a candidate equal to a plaintext's
/// digest stands for the very digest the plaintext hashes to, so every later
/// stage, which is a function of the digest alone, treats them alike.
pub proof fn lemma_prehashed_bypasses_hashing(plaintext: Seq<char>, digest: Seq<char>)
    requires
        digest == candidate_digest(plaintext, false),
    ensures
        candidate_digest(digest, true) == candidate_digest(plaintext, false),
{
}

} // verus!
