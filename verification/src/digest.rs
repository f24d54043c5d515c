//! Content digests and their comparison.

use crate::text::{
    ascii_lowercase, chars_of, same_chars, to_ascii_lowercase, trim, trimmed,
};
use vstd::prelude::*;

verus! {

/// The SHA-256 digest of `bytes` as the `sha256` crate writes it: in
/// hexadecimal digits.
pub uninterp spec fn sha256_hex(bytes: Seq<u8>) -> Seq<char>;

/// `sha256::digest` on a byte vector: the digest of `bytes` in hexadecimal.
#[verifier::external_body]
fn sha256_of(bytes: &Vec<u8>) -> (r: String)
    ensures
        r@ == sha256_hex(bytes@),
{
    sha256::digest(bytes)
}

/// What of a digest counts in a comparison: the text without the white
/// space around it, with its ASCII letters in lower case.
pub open spec fn digest_core(digest: Seq<char>) -> Seq<char> {
    ascii_lowercase(trim(digest))
}

/// Whether two digests are the same but for case and surrounding white space.
pub open spec fn same_digest(a: Seq<char>, b: Seq<char>) -> bool {
    digest_core(a) == digest_core(b)
}

/// Whether `bytes` are what the digest `expected` was published for.
pub open spec fn has_digest(bytes: Seq<u8>, expected: Seq<char>) -> bool {
    same_digest(sha256_hex(bytes), expected)
}

/// Computes the digest of a file's content.
pub fn getsha256(content: &Vec<u8>) -> (digest: String)
    ensures
        digest@ == sha256_hex(content@),
{
    sha256_of(content)
}

/// Compares two digests without regard to case or to the white space around them.
pub fn digests_agree(a: &str, b: &str) -> (r: bool)
    ensures
        r == same_digest(a@, b@),
{
    let left = to_ascii_lowercase(&trimmed(&chars_of(a)));
    let right = to_ascii_lowercase(&trimmed(&chars_of(b)));
    same_chars(&left, &right)
}

/// Tests whether `content` is what the digest `expected` was published for.
pub fn matches_digest(content: &Vec<u8>, expected: &str) -> (r: bool)
    ensures
        r == has_digest(content@, expected@),
{
    let actual = getsha256(content);
    digests_agree(actual.as_str(), expected)
}

/// Comparing digests is reflexive, symmetric and transitive.
pub proof fn lemma_same_digest_is_equivalence(a: Seq<char>, b: Seq<char>, c: Seq<char>)
    ensures
        same_digest(a, a),
        same_digest(a, b) ==> same_digest(b, a),
        same_digest(a, b) && same_digest(b, c) ==> same_digest(a, c),
{
}

} // verus!
