//! Message authentication, digests, base64 and random bytes.
use base64::Engine as _;
use hmac::Mac as _;
use sha2::Digest as _;
use subtle::ConstantTimeEq as _;
use vstd::prelude::*;

verus! {

/// The HMAC-SHA256 code of a message under a key.
pub uninterp spec fn hmac_sha256_of(key: Seq<u8>, message: Seq<u8>) -> Seq<u8>;

/// `Hmac::<Sha256>`: `new_from_slice`, which takes keys of every length, then
/// `update` and `finalize`. The code is a function of key and message alone.
#[verifier::external_body]
pub(crate) fn hmac_sha256(key: &[u8], message: &[u8]) -> (r: [u8; 32])
    ensures
        r@ == hmac_sha256_of(key@, message@),
{
    let mut mac = hmac::Hmac::<sha2::Sha256>::new_from_slice(key)
        .expect("HMAC accepts arbitrary key lengths");
    mac.update(message);
    mac.finalize().into_bytes().into()
}

/// The SHA-256 digest of some bytes.
pub uninterp spec fn sha256_of(data: Seq<u8>) -> Seq<u8>;

/// `Sha256::digest`: the digest of the bytes, a function of them alone.
#[verifier::external_body]
pub(crate) fn sha256(data: &[u8]) -> (r: [u8; 32])
    ensures
        r@ == sha256_of(data@),
{
    sha2::Sha256::digest(data).into()
}

/// The characters of the URL-safe base64 alphabet.
pub open spec fn is_base64_url_char(c: char) -> bool {
    crate::text::is_alphanumeric(c) || c == '-' || c == '_'
}

/// Bytes in URL-safe base64 without padding.
pub uninterp spec fn base64_url_of(bytes: Seq<u8>) -> Seq<char>;

/// The bytes that a text in URL-safe base64 without padding stands for.
pub uninterp spec fn base64_url_decoded(text: Seq<char>) -> Option<Seq<u8>>;

/// The bytes whose URL-safe base64 a text is.
pub open spec fn base64_url_bytes(text: Seq<char>) -> Option<Seq<u8>> {
    match base64_url_decoded(text) {
        Some(bytes) => if text == base64_url_of(bytes) {
            Some(bytes)
        } else {
            None
        },
        None => None,
    }
}

/// `URL_SAFE_NO_PAD.encode`: four characters of the URL-safe alphabet for three
/// bytes, two or three for a rest of one or two bytes, and no padding. Decoding
/// gives the bytes back. The length cannot overflow, since a slice holds at most
/// half as many bytes as there are addresses.
#[verifier::external_body]
pub(crate) fn base64_url_encode(bytes: &[u8]) -> (r: String)
    ensures
        r@ == base64_url_of(bytes@),
        r@.len() == (bytes@.len() * 4 + 2) / 3,
        forall|i: int| 0 <= i < r@.len() ==> is_base64_url_char(#[trigger] r@[i]),
        base64_url_decoded(r@) == Some(bytes@),
{
    base64::engine::general_purpose::URL_SAFE_NO_PAD.encode(bytes)
}

/// `URL_SAFE_NO_PAD.decode`: the bytes, or nothing where the text is not base64
/// of this kind. It takes no padding, no other characters and no bits behind the
/// last byte, so that the text is the one that the bytes are encoded to.
#[verifier::external_body]
pub(crate) fn base64_url_decode(text: &str) -> (r: Option<Vec<u8>>)
    ensures
        match r {
            Some(bytes) => base64_url_decoded(text@) == Some(bytes@) && text@ == base64_url_of(
                bytes@,
            ),
            None => base64_url_decoded(text@) is None,
        },
{
    base64::engine::general_purpose::URL_SAFE_NO_PAD.decode(text).ok()
}

/// The bytes that a text in standard base64 with padding stands for.
pub uninterp spec fn base64_standard_decoded(text: Seq<char>) -> Option<Seq<u8>>;

/// `STANDARD.decode`: the bytes, or nothing where the text is not padded base64
/// of the standard alphabet.
#[verifier::external_body]
pub(crate) fn base64_standard_decode(text: &str) -> (r: Option<Vec<u8>>)
    ensures
        match r {
            Some(bytes) => base64_standard_decoded(text@) == Some(bytes@),
            None => base64_standard_decoded(text@) is None,
        },
{
    base64::engine::general_purpose::STANDARD.decode(text).ok()
}

/// `ct_eq` on byte slices: whether they have the same length and bytes. That it
/// takes the same time for every content of a length is not part of this
/// contract.
#[verifier::external_body]
fn ct_eq(left: &[u8], right: &[u8]) -> (r: bool)
    ensures
        r == (left@ == right@),
{
    bool::from(left.ct_eq(right))
}

/// Whether two byte strings are the same, compared in constant time.
pub fn constant_time_equal(left: &[u8], right: &[u8]) -> (r: bool)
    ensures
        r == (left@ == right@),
{
    left.len() == right.len() && ct_eq(left, right)
}

/// `getrandom::fill`: 32 bytes from the system's generator, or nothing where it
/// fails. Nothing is claimed of the bytes.
#[verifier::external_body]
pub(crate) fn random_bytes() -> (r: Option<[u8; 32]>) {
    let mut bytes = [0_u8; 32];
    getrandom::fill(&mut bytes).ok().map(|_| bytes)
}

} // verus!
