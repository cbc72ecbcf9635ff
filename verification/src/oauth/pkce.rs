//! Proof key for code exchange, with SHA-256.
use vstd::prelude::*;
use vstd::utf8::encode_utf8;

use crate::crypto::{base64_url_encode, base64_url_of, is_base64_url_char, sha256, sha256_of};
use crate::oauth::client::same_secret;
use crate::text::{byte_len, bytes_of, digit, lower, text_bytes_len, upper};

verus! {

/// Whether a text can be a challenge: 43 characters of URL-safe base64.
pub open spec fn is_code_challenge(value: Seq<char>) -> bool {
    byte_len(value) == 43 && forall|i: int|
        0 <= i < value.len() ==> is_base64_url_char(#[trigger] value[i])
}

pub fn valid_code_challenge(value: &str) -> (r: bool)
    ensures
        r == is_code_challenge(value@),
{
    if text_bytes_len(value) != 43 {
        return false;
    }
    for c in it: value.chars()
        invariant
            it.seq() == value@,
            forall|j: int| 0 <= j < it.index() ==> is_base64_url_char(#[trigger] value@[j]),
    {
        if !(digit(c) || lower(c) || upper(c) || c == '-' || c == '_') {
            proof {
                assert(!is_base64_url_char(value@[it.index()]));
            }
            return false;
        }
    }
    true
}

/// The characters of a verifier.
pub open spec fn is_verifier_char(c: char) -> bool {
    is_base64_url_char(c) || c == '.' || c == '~'
}

/// Whether a text can be a verifier: 43 to 128 unreserved characters.
pub open spec fn is_code_verifier(value: Seq<char>) -> bool {
    43 <= byte_len(value) <= 128 && forall|i: int|
        0 <= i < value.len() ==> is_verifier_char(#[trigger] value[i])
}

pub fn valid_code_verifier(value: &str) -> (r: bool)
    ensures
        r == is_code_verifier(value@),
{
    let len: usize = text_bytes_len(value);
    if len < 43 || len > 128 {
        return false;
    }
    for c in it: value.chars()
        invariant
            it.seq() == value@,
            forall|j: int| 0 <= j < it.index() ==> is_verifier_char(#[trigger] value@[j]),
    {
        if !(digit(c) || lower(c) || upper(c) || c == '-' || c == '_' || c == '.' || c == '~') {
            proof {
                assert(!is_verifier_char(value@[it.index()]));
            }
            return false;
        }
    }
    true
}

/// The challenge of a verifier: its SHA-256 digest in base64.
pub open spec fn challenge_of(verifier: Seq<char>) -> Seq<char> {
    base64_url_of(sha256_of(encode_utf8(verifier)))
}

/// Whether a verifier answers a challenge.
pub open spec fn answers_challenge(verifier: Seq<char>, challenge: Seq<char>) -> bool {
    is_code_verifier(verifier) && challenge_of(verifier) == challenge
}

pub fn verify_pkce(verifier: &str, challenge: &str) -> (r: bool)
    ensures
        r == answers_challenge(verifier@, challenge@),
{
    if !valid_code_verifier(verifier) {
        return false;
    }
    let digest = sha256(bytes_of(verifier).as_slice());
    let calculated = base64_url_encode(digest.as_slice());
    same_secret(calculated.as_str(), challenge)
}

} // verus!
