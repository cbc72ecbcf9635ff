//! Values signed with the server's key, and what is derived from it.
use vstd::prelude::*;
use vstd::utf8::{encode_utf8, is_ascii_chars, is_ascii_chars_encode_utf8};

use crate::crypto::{
    base64_url_bytes, base64_url_decode, base64_url_decoded, base64_url_encode, base64_url_of,
    constant_time_equal, hmac_sha256, hmac_sha256_of, is_base64_url_char,
};
use crate::json::{
    json_bytes, json_depth, json_parsed, json_read, json_tree, json_write, ordinary, plain,
    JsonTree,
};
use crate::oauth::OAuthError;
use crate::scan::{
    cut_at, lemma_cut_at, lemma_cut_at_appended, lemma_position_unique, lemma_prefix_of_appended,
    split_text_once, strip_text_prefix, without_prefix,
};
use crate::text::{byte_len, bytes_of, joined};

verus! {

/// The label of access tokens.
pub const ACCESS_TOKEN_LABEL: &'static str = "engram-mcp/oauth/access-token/v1";

/// The label of refresh tokens.
pub const REFRESH_TOKEN_LABEL: &'static str = "engram-mcp/oauth/refresh-token/v1";

/// The label of requests for consent.
pub const APPROVAL_LABEL: &'static str = "engram-mcp/oauth/approval-request/v1";

/// The label of client identifiers.
pub const CLIENT_LABEL: &'static str = "engram-mcp/oauth/dynamic-client/v1";

/// The label of client secrets.
pub const CLIENT_SECRET_LABEL: &'static str = "engram-mcp/oauth/dynamic-client-secret/v1";

/// The label of the hashes under which tokens and codes are known.
pub const TOKEN_HASH_LABEL: &'static str = "engram-mcp/oauth/token-hash/v1";

/// The label of the hashes of refresh token identifiers.
pub const REFRESH_ID_LABEL: &'static str = "engram-mcp/oauth/refresh-token-id-hash/v1";

/// The label of what binds a refresh token to its client.
pub const CLIENT_BINDING_LABEL: &'static str = "engram-mcp/oauth/refresh-client-binding/v1";

/// The label of audit fingerprints.
pub const FINGERPRINT_LABEL: &'static str = "engram-mcp/oauth/audit-fingerprint/v1";

/// The authentication code of a value under a label: label and value, with a
/// zero byte between them.
pub open spec fn mac_of(key: Seq<u8>, label: Seq<char>, value: Seq<u8>) -> Seq<u8> {
    hmac_sha256_of(key, encode_utf8(label) + seq![0u8] + value)
}

/// A signed value: its JSON text and the code of that text, both in base64.
pub open spec fn signed(key: Seq<u8>, label: Seq<char>, tree: JsonTree) -> Seq<char> {
    base64_url_of(json_bytes(tree)) + seq!['.'] + base64_url_of(
        mac_of(key, label, json_bytes(tree)),
    )
}

/// What a signed value says; nothing where it is malformed or its code is not
/// that of its text.
pub open spec fn opened(key: Seq<u8>, label: Seq<char>, text: Seq<char>) -> Option<JsonTree> {
    match cut_at(text, '.') {
        Some((payload, code)) => match (base64_url_bytes(payload), base64_url_bytes(code)) {
            (Some(payload), Some(code)) => if code == mac_of(key, label, payload) {
                json_parsed(payload)
            } else {
                None
            },
            _ => None,
        },
        None => None,
    }
}

/// What a signed value behind a prefix says.
pub open spec fn opened_token(
    key: Seq<u8>,
    prefix: Seq<char>,
    label: Seq<char>,
    token: Seq<char>,
) -> Option<JsonTree> {
    match without_prefix(token, prefix) {
        Some(text) => opened(key, label, text),
        None => None,
    }
}

/// Whether two keys give a signed value different codes.
pub open spec fn told_apart(
    key: Seq<u8>,
    other: Seq<u8>,
    label: Seq<char>,
    text: Seq<char>,
) -> bool {
    match cut_at(text, '.') {
        Some((payload, _)) => match base64_url_bytes(payload) {
            Some(payload) => mac_of(key, label, payload) != mac_of(other, label, payload),
            None => true,
        },
        None => true,
    }
}

/// What was signed under one key says nothing under another that gives it another
/// code.
pub proof fn lemma_another_key_opens_nothing(
    key: Seq<u8>,
    other: Seq<u8>,
    prefix: Seq<char>,
    label: Seq<char>,
    token: Seq<char>,
)
    requires
        opened_token(key, prefix, label, token) is Some,
        told_apart(key, other, label, without_prefix(token, prefix)->Some_0),
    ensures
        opened_token(other, prefix, label, token) is None,
{
}

/// A text that is opened is what signing makes of its payload, character by
/// character.
pub proof fn lemma_opened_is_signed(key: Seq<u8>, label: Seq<char>, text: Seq<char>)
    requires
        opened(key, label, text) is Some,
    ensures
        ({
            let payload = base64_url_decoded(cut_at(text, '.')->Some_0.0)->Some_0;
            &&& text == base64_url_of(payload) + seq!['.'] + base64_url_of(
                mac_of(key, label, payload),
            )
            &&& opened(key, label, text) == json_parsed(payload)
        }),
{
    lemma_cut_at(text, '.');
}

/// Whether a text is a signed value that was altered: in its code, or in its
/// payload where the altered payload has another code.
pub open spec fn tampered(
    key: Seq<u8>,
    label: Seq<char>,
    text: Seq<char>,
    altered: Seq<char>,
) -> bool {
    altered != text && match (cut_at(text, '.'), cut_at(altered, '.')) {
        (Some((payload, code)), Some((new_payload, new_code))) => payload == new_payload || (code
            == new_code && match (base64_url_bytes(payload), base64_url_bytes(new_payload)) {
            (Some(payload), Some(new_payload)) => mac_of(key, label, payload) != mac_of(
                key,
                label,
                new_payload,
            ),
            _ => true,
        }),
        _ => true,
    }
}

/// A signed value that was altered says nothing.
pub proof fn lemma_tampered_opens_nothing(
    key: Seq<u8>,
    label: Seq<char>,
    text: Seq<char>,
    altered: Seq<char>,
)
    requires
        opened(key, label, text) is Some,
        tampered(key, label, text, altered),
    ensures
        opened(key, label, altered) is None,
{
    lemma_cut_at(text, '.');
    if cut_at(altered, '.') is Some {
        lemma_cut_at(altered, '.');
    }
}

/// To append something is to alter.
pub proof fn lemma_appended_is_tampered(
    key: Seq<u8>,
    label: Seq<char>,
    text: Seq<char>,
    tail: Seq<char>,
)
    requires
        opened(key, label, text) is Some,
        tail.len() > 0,
    ensures
        tampered(key, label, text, text + tail),
{
    lemma_cut_at_appended(text, '.', tail);
    assert((text + tail).len() != text.len());
}

/// A signed value behind a prefix says nothing once it is altered, or once
/// something is appended to it.
pub proof fn lemma_tampered_token_opens_nothing(
    key: Seq<u8>,
    prefix: Seq<char>,
    label: Seq<char>,
    token: Seq<char>,
    altered: Seq<char>,
    tail: Seq<char>,
)
    requires
        opened_token(key, prefix, label, token) is Some,
        without_prefix(altered, prefix) matches Some(text) ==> tampered(
            key,
            label,
            without_prefix(token, prefix)->Some_0,
            text,
        ),
        tail.len() > 0,
    ensures
        opened_token(key, prefix, label, altered) is None,
        opened_token(key, prefix, label, token + tail) is None,
{
    let text = without_prefix(token, prefix)->Some_0;
    if without_prefix(altered, prefix) is Some {
        lemma_tampered_opens_nothing(key, label, text, without_prefix(altered, prefix)->Some_0);
    }
    lemma_prefix_of_appended(token, prefix, tail);
    lemma_appended_is_tampered(key, label, text, tail);
    lemma_tampered_opens_nothing(key, label, text, text + tail);
}

/// A code of a value as text.
pub open spec fn coded(key: Seq<u8>, label: Seq<char>, value: Seq<char>) -> Seq<char> {
    base64_url_of(mac_of(key, label, encode_utf8(value)))
}

/// A prefix with random bytes behind it as text.
pub open spec fn random_text(prefix: Seq<char>, bytes: Seq<u8>) -> Seq<char> {
    prefix + base64_url_of(bytes)
}

/// The server's key.
pub struct SigningKey {
    bytes: Vec<u8>,
}

impl View for SigningKey {
    type V = Seq<u8>;

    closed spec fn view(&self) -> Seq<u8> {
        self.bytes@
    }
}

impl SigningKey {
    pub fn new(bytes: Vec<u8>) -> (r: SigningKey)
        ensures
            r@ == bytes@,
    {
        SigningKey { bytes }
    }

    pub fn mac(&self, label: &str, value: &[u8]) -> (r: [u8; 32])
        ensures
            r@ == mac_of(self@, label@, value@),
    {
        let mut message = bytes_of(label);
        message.push(0);
        message.extend_from_slice(value);
        proof {
            assert(message@ =~= encode_utf8(label@) + seq![0u8] + value@);
        }
        hmac_sha256(self.bytes.as_slice(), message.as_slice())
    }

    /// Signs a value. What was signed is read back by `verify`, unless an object in
    /// it begins with a reserved name.
    pub fn sign(&self, label: &str, value: &serde_json::Value) -> (r: Result<String, OAuthError>)
        requires
            plain(json_tree(*value), json_depth()),
        ensures
            r matches Ok(text) && text@ == signed(self@, label@, json_tree(*value)) && (ordinary(
                json_tree(*value),
            ) ==> opened(self@, label@, text@) == Some(json_tree(*value))),
    {
        let payload = match json_write(value) {
            Some(payload) => payload,
            None => {
                return Err(OAuthError::Internal);
            },
        };
        let code = self.mac(label, payload.as_slice());
        let encoded_payload = base64_url_encode(payload.as_slice());
        let encoded_code = base64_url_encode(code.as_slice());
        let mut text = encoded_payload.clone();
        text.push('.');
        text.append(encoded_code.as_str());
        proof {
            assert(text@ =~= signed(self@, label@, json_tree(*value)));
            let at = encoded_payload@.len() as int;
            assert forall|i: int| 0 <= i < at implies text@[i] != '.' by {
                assert(is_base64_url_char(encoded_payload@[i]));
            }
            lemma_position_unique(text@, '.', at);
            assert(text@.take(at) =~= encoded_payload@);
            assert(text@.skip(at + 1) =~= encoded_code@);
        }
        Ok(text)
    }

    pub fn verify(&self, label: &str, value: &str) -> (r: Result<serde_json::Value, OAuthError>)
        ensures
            match r {
                Ok(said) => opened(self@, label@, value@) == Some(json_tree(said)),
                Err(error) => error is InvalidRequest && opened(self@, label@, value@) is None,
            },
    {
        let (encoded_payload, encoded_code) = match split_text_once(value, '.') {
            Some(parts) => parts,
            None => {
                return Err(OAuthError::InvalidRequest);
            },
        };
        let payload = match base64_url_decode(encoded_payload.as_str()) {
            Some(payload) => payload,
            None => {
                return Err(OAuthError::InvalidRequest);
            },
        };
        let code = match base64_url_decode(encoded_code.as_str()) {
            Some(code) => code,
            None => {
                return Err(OAuthError::InvalidRequest);
            },
        };
        let expected = self.mac(label, payload.as_slice());
        if !constant_time_equal(code.as_slice(), expected.as_slice()) {
            return Err(OAuthError::InvalidRequest);
        }
        match json_read(payload.as_slice()) {
            Some(said) => Ok(said),
            None => Err(OAuthError::InvalidRequest),
        }
    }

    pub fn verify_token(&self, prefix: &str, label: &str, token: &str) -> (r: Result<
        serde_json::Value,
        OAuthError,
    >)
        ensures
            match r {
                Ok(said) => opened_token(self@, prefix@, label@, token@) == Some(json_tree(said)),
                Err(error) => error is InvalidRequest && opened_token(
                    self@,
                    prefix@,
                    label@,
                    token@,
                ) is None,
            },
    {
        match strip_text_prefix(token, prefix) {
            Some(text) => self.verify(label, text.as_str()),
            None => Err(OAuthError::InvalidRequest),
        }
    }

    /// The hash under which a token or code is known.
    pub fn token_hash(&self, token: &str) -> (r: [u8; 32])
        ensures
            r@ == mac_of(self@, TOKEN_HASH_LABEL@, encode_utf8(token@)),
    {
        self.mac(TOKEN_HASH_LABEL, bytes_of(token).as_slice())
    }

    pub fn refresh_token_id_hash(&self, token_id: &str) -> (r: String)
        ensures
            r@ == coded(self@, REFRESH_ID_LABEL@, token_id@),
    {
        base64_url_encode(self.mac(REFRESH_ID_LABEL, bytes_of(token_id).as_slice()).as_slice())
    }

    pub fn client_binding(&self, client_id: &str) -> (r: String)
        ensures
            r@ == coded(self@, CLIENT_BINDING_LABEL@, client_id@),
    {
        base64_url_encode(self.mac(CLIENT_BINDING_LABEL, bytes_of(client_id).as_slice()).as_slice())
    }

    pub fn audit_fingerprint(&self, token_hash: &[u8; 32]) -> (r: [u8; 8])
        ensures
            r@ == mac_of(self@, FINGERPRINT_LABEL@, token_hash@).take(8),
    {
        let digest = self.mac(FINGERPRINT_LABEL, token_hash.as_slice());
        let r: [u8; 8] = [
            digest[0],
            digest[1],
            digest[2],
            digest[3],
            digest[4],
            digest[5],
            digest[6],
            digest[7],
        ];
        proof {
            assert(r@ =~= digest@.take(8));
        }
        r
    }
}

/// A prefix with the bytes behind it as text, where there are bytes.
pub fn random_value(prefix: &str, bytes: &Option<[u8; 32]>) -> (r: Result<String, OAuthError>)
    ensures
        match r {
            Ok(text) => *bytes matches Some(drawn) && text@ == random_text(prefix@, drawn@)
                && base64_url_bytes(base64_url_of(drawn@)) == Some(drawn@) && (is_ascii_chars(
                prefix@,
            ) ==> byte_len(text@) == prefix@.len() + 43),
            Err(error) => error is Entropy && *bytes is None,
        },
{
    match bytes {
        Some(drawn) => {
            let encoded = base64_url_encode(drawn.as_slice());
            let text = joined(prefix, encoded.as_str());
            proof {
                if is_ascii_chars(prefix@) {
                    assert forall|i: int| 0 <= i < text@.len() implies text@[i] as nat <= 127 by {
                        if i < prefix@.len() {
                            assert(prefix@[i] as nat <= 127);
                        } else {
                            assert(is_base64_url_char(encoded@[i - prefix@.len()]));
                        }
                    }
                    assert(is_ascii_chars(text@));
                    is_ascii_chars_encode_utf8(text@);
                }
            }
            Ok(text)
        },
        None => Err(OAuthError::Entropy),
    }
}

} // verus!
