//! Who is asking, and how often they may.
pub use crate::limits::{RateLimitError, RateLimiter, WriteRateLimiter};

use vstd::prelude::*;
use vstd::utf8::encode_utf8;

use crate::calendar::{read_clock, seconds_of};
use crate::crypto::{constant_time_equal, hmac_sha256, hmac_sha256_of};
use crate::format::{hex, hex_prefix};
use crate::oauth::flows::{bearer_access, fingerprint_of, OAuthModel};
use crate::oauth::service::OAuthBearerAuthenticator;
use crate::scan::{cut_at, split_text_once};
use crate::table::TableKey;
use crate::text::{
    ascii_lower_text, bytes_of, is_white_space, same_ignoring_ascii_case, white_space,
};

verus! {

#[derive(Debug, Clone, Copy, PartialEq, Eq, Hash, Structural)]
pub enum AccessScope {
    Tech,
    Private,
}

impl AccessScope {
    pub fn allows_private(self) -> (r: bool)
        ensures
            r == (self is Private),
    {
        match self {
            AccessScope::Private => true,
            AccessScope::Tech => false,
        }
    }
}

#[derive(Debug, Clone, Copy, PartialEq, Eq, Hash)]
pub enum CredentialId {
    KeyA,
    KeyB,
    /// A non-secret, server-derived identifier for one issued OAuth token.
    OAuth([u8; 8]),
}

/// A credential as a mathematical value.
pub enum CredentialModel {
    KeyA,
    KeyB,
    OAuth(Seq<u8>),
}

impl View for CredentialId {
    type V = CredentialModel;

    open spec fn view(&self) -> CredentialModel {
        match *self {
            CredentialId::KeyA => CredentialModel::KeyA,
            CredentialId::KeyB => CredentialModel::KeyB,
            CredentialId::OAuth(fingerprint) => CredentialModel::OAuth(fingerprint@),
        }
    }
}

#[derive(Debug, Clone, Copy, PartialEq, Eq)]
pub struct AuthSubject {
    pub credential_id: CredentialId,
    pub scope: AccessScope,
}

/// The OAuth-specific part of an authenticated identity. It holds no bearer
/// token or client data that could be logged as a secret.
#[derive(Debug, Clone, Copy, PartialEq, Eq)]
pub struct OAuthIdentity {
    pub scope: AccessScope,
    pub credential_fingerprint: [u8; 8],
}

#[derive(Debug, Clone, Copy, PartialEq, Eq, Structural)]
pub enum AuthError {
    Missing,
    Invalid,
}

impl AuthError {
    pub fn message(&self) -> (r: &'static str)
        ensures
            r@ == (match *self {
                AuthError::Missing => "missing API key"@,
                AuthError::Invalid => "invalid API key"@,
            }),
    {
        match self {
            AuthError::Missing => "missing API key",
            AuthError::Invalid => "invalid API key",
        }
    }
}

/// The value of a request header.
pub enum HeaderValue {
    Absent,
    /// It is there, but is not text.
    Unreadable,
    Text(String),
}

/// The headers that say who is asking.
pub struct RequestHeaders {
    pub authorization: HeaderValue,
    pub api_key: HeaderValue,
}

/// What the two keys are, and who knows of bearers.
pub struct AuthModel {
    pub key_a: Seq<u8>,
    pub key_b: Seq<u8>,
    pub oauth: Option<OAuthModel>,
}

struct ApiKeyAuthenticator {
    key_a: Vec<u8>,
    key_b: Vec<u8>,
    fingerprint_a: String,
    fingerprint_b: String,
}

/// Tells by the headers of a request who is asking.
pub struct Authenticator<'a> {
    api_keys: ApiKeyAuthenticator,
    oauth: Option<&'a OAuthBearerAuthenticator>,
}

impl<'a> View for Authenticator<'a> {
    type V = AuthModel;

    closed spec fn view(&self) -> AuthModel {
        AuthModel {
            key_a: self.api_keys.key_a@,
            key_b: self.api_keys.key_b@,
            oauth: match self.oauth {
                Some(bearer) => Some(bearer@),
                None => None,
            },
        }
    }
}

/// The salt of audit fingerprints, which only the holder of the first key can
/// derive.
pub open spec fn audit_salt(key_a: Seq<u8>) -> Seq<u8> {
    hmac_sha256_of(key_a, encode_utf8("engram-mcp/audit-salt/v1"@))
}

/// The audit fingerprint of a key.
pub open spec fn key_fingerprint(key_a: Seq<u8>, key: Seq<u8>) -> Seq<char> {
    hex(hmac_sha256_of(audit_salt(key_a), key).take(8))
}

/// The audit fingerprint of a credential.
pub open spec fn credential_fingerprint(m: AuthModel, credential: CredentialModel) -> Seq<char> {
    match credential {
        CredentialModel::KeyA => key_fingerprint(m.key_a, m.key_a),
        CredentialModel::KeyB => key_fingerprint(m.key_a, m.key_b),
        CredentialModel::OAuth(fingerprint) => hex(fingerprint),
    }
}

/// The token of a bearer header.
pub open spec fn bearer_token(header: Seq<char>) -> Option<Seq<char>> {
    match cut_at(header, ' ') {
        Some((scheme, token)) => if ascii_lower_text(scheme) == ascii_lower_text("Bearer"@)
            && token.len() > 0 && forall|i: int|
            0 <= i < token.len() ==> !is_white_space(#[trigger] token[i]) {
            Some(token)
        } else {
            None
        },
        None => None,
    }
}

/// Who the holder of a key is.
pub open spec fn key_subject(m: AuthModel, candidate: Seq<char>) -> Result<AuthSubject, AuthError> {
    if encode_utf8(candidate) == m.key_a {
        Ok(AuthSubject { credential_id: CredentialId::KeyA, scope: AccessScope::Tech })
    } else if encode_utf8(candidate) == m.key_b {
        Ok(AuthSubject { credential_id: CredentialId::KeyB, scope: AccessScope::Private })
    } else {
        Err(AuthError::Invalid)
    }
}

/// Whether a subject is the bearer of a token that is honoured at `now`.
pub open spec fn is_bearer(m: OAuthModel, token: Seq<char>, now: u64, subject: AuthSubject) -> bool {
    bearer_access(m, token, now) == Some(subject.scope) && subject.credential_id@
        == CredentialModel::OAuth(fingerprint_of(m.key, token))
}

/// Whether an answer is the right one to these headers at `now`. A request that
/// carries an authorization header is judged by it alone.
pub open spec fn judged(
    m: AuthModel,
    headers: RequestHeaders,
    now: u64,
    answer: Result<AuthSubject, AuthError>,
) -> bool {
    match headers.authorization {
        HeaderValue::Unreadable => answer == Err::<AuthSubject, _>(AuthError::Invalid),
        HeaderValue::Text(header) => match (bearer_token(header@), m.oauth) {
            (Some(token), Some(oauth)) => match answer {
                Ok(subject) => is_bearer(oauth, token, now, subject),
                Err(error) => error is Invalid && bearer_access(oauth, token, now) is None,
            },
            _ => answer == Err::<AuthSubject, _>(AuthError::Invalid),
        },
        HeaderValue::Absent => match headers.api_key {
            HeaderValue::Absent => answer == Err::<AuthSubject, _>(AuthError::Missing),
            HeaderValue::Unreadable => answer == Err::<AuthSubject, _>(AuthError::Invalid),
            HeaderValue::Text(key) => answer == key_subject(m, key@),
        },
    }
}

/// An authorization header that is refused is not made up for by a key.
pub proof fn lemma_no_fallback_to_a_key(
    m: AuthModel,
    headers: RequestHeaders,
    now: u64,
    answer: Result<AuthSubject, AuthError>,
)
    requires
        judged(m, headers, now, answer),
        !(headers.authorization is Absent),
    ensures
        match answer {
            Ok(subject) => subject.credential_id is OAuth,
            Err(error) => error is Invalid,
        },
{
}

fn derive_audit_salt(key_a: &[u8]) -> (r: [u8; 32])
    ensures
        r@ == audit_salt(key_a@),
{
    hmac_sha256(key_a, bytes_of("engram-mcp/audit-salt/v1").as_slice())
}

fn fingerprint(audit_salt: &[u8; 32], credential: &[u8]) -> (r: String)
    ensures
        r@ == hex(hmac_sha256_of(audit_salt@, credential@).take(8)),
{
    let digest = hmac_sha256(audit_salt.as_slice(), credential);
    let first: [u8; 8] = [
        digest[0],
        digest[1],
        digest[2],
        digest[3],
        digest[4],
        digest[5],
        digest[6],
        digest[7],
    ];
    proof {
        assert(first@ =~= digest@.take(8));
    }
    hex_prefix(first.as_slice())
}

fn has_white_space(text: &str) -> (r: bool)
    ensures
        r == !(forall|i: int| 0 <= i < text@.len() ==> !is_white_space(#[trigger] text@[i])),
{
    for c in it: text.chars()
        invariant
            it.seq() == text@,
            forall|j: int| 0 <= j < it.index() ==> !is_white_space(#[trigger] text@[j]),
    {
        if white_space(c) {
            proof {
                assert(is_white_space(text@[it.index()]));
            }
            return true;
        }
    }
    false
}

fn owned(bytes: &[u8]) -> (r: Vec<u8>)
    ensures
        r@ == bytes@,
{
    let mut out: Vec<u8> = Vec::new();
    out.extend_from_slice(bytes);
    proof {
        assert(out@ =~= bytes@);
    }
    out
}

impl<'a> Authenticator<'a> {
    #[verifier::type_invariant]
    closed spec fn knows_fingerprints(&self) -> bool {
        &&& self.api_keys.fingerprint_a@ == key_fingerprint(
            self.api_keys.key_a@,
            self.api_keys.key_a@,
        )
        &&& self.api_keys.fingerprint_b@ == key_fingerprint(
            self.api_keys.key_a@,
            self.api_keys.key_b@,
        )
    }

    pub fn new(key_a: &[u8], key_b: &[u8]) -> (r: Authenticator<'a>)
        ensures
            r@ == (AuthModel { key_a: key_a@, key_b: key_b@, oauth: None }),
    {
        let key_a = owned(key_a);
        let key_b = owned(key_b);
        let salt = derive_audit_salt(key_a.as_slice());
        let fingerprint_a = fingerprint(&salt, key_a.as_slice());
        let fingerprint_b = fingerprint(&salt, key_b.as_slice());
        Authenticator {
            api_keys: ApiKeyAuthenticator { key_a, key_b, fingerprint_a, fingerprint_b },
            oauth: None,
        }
    }

    /// Knows of bearers too. The keys go on as they are, for migration and local
    /// use.
    pub fn with_oauth(key_a: &[u8], key_b: &[u8], oauth: &'a OAuthBearerAuthenticator) -> (r:
        Authenticator<'a>)
        ensures
            r@ == (AuthModel { key_a: key_a@, key_b: key_b@, oauth: Some(oauth@) }),
    {
        let keys = Authenticator::new(key_a, key_b);
        proof {
            use_type_invariant(&keys);
        }
        Authenticator { api_keys: keys.api_keys, oauth: Some(oauth) }
    }

    /// An HMAC-derived, non-secret identifier for audit records.
    pub fn fingerprint(&self, credential_id: CredentialId) -> (r: String)
        ensures
            r@ == credential_fingerprint(self@, credential_id@),
    {
        proof {
            use_type_invariant(self);
        }
        match credential_id {
            CredentialId::KeyA => self.api_keys.fingerprint_a.clone(),
            CredentialId::KeyB => self.api_keys.fingerprint_b.clone(),
            CredentialId::OAuth(fingerprint) => hex_prefix(fingerprint.as_slice()),
        }
    }

    /// Who is asking, by the clock.
    pub fn authenticate_headers(&self, headers: &RequestHeaders) -> (r: Result<
        AuthSubject,
        AuthError,
    >)
        ensures
            exists|now: u64| #[trigger] judged(self@, *headers, now, r),
    {
        self.authenticate_headers_at(headers, seconds_of(read_clock()))
    }

    /// Who is asking at `now`.
    pub fn authenticate_headers_at(&self, headers: &RequestHeaders, now: u64) -> (r: Result<
        AuthSubject,
        AuthError,
    >)
        ensures
            judged(self@, *headers, now, r),
    {
        match &headers.authorization {
            HeaderValue::Unreadable => Err(AuthError::Invalid),
            HeaderValue::Text(header) => {
                let (scheme, token) = match split_text_once(header.as_str(), ' ') {
                    Some(parts) => parts,
                    None => {
                        return Err(AuthError::Invalid);
                    },
                };
                if !same_ignoring_ascii_case(scheme.as_str(), "Bearer") || token.as_str().is_empty()
                    || has_white_space(token.as_str()) {
                    return Err(AuthError::Invalid);
                }
                let bearer = match self.oauth {
                    Some(bearer) => bearer,
                    None => {
                        return Err(AuthError::Invalid);
                    },
                };
                match bearer.authenticate_bearer_at(token.as_str(), now) {
                    Ok(identity) => Ok(
                        AuthSubject {
                            credential_id: CredentialId::OAuth(identity.credential_fingerprint),
                            scope: identity.scope,
                        },
                    ),
                    Err(_) => Err(AuthError::Invalid),
                }
            },
            HeaderValue::Absent => self.authenticate_api_key_headers(headers),
        }
    }

    fn authenticate_api_key_headers(&self, headers: &RequestHeaders) -> (r: Result<
        AuthSubject,
        AuthError,
    >)
        ensures
            r == (match headers.api_key {
                HeaderValue::Absent => Err(AuthError::Missing),
                HeaderValue::Unreadable => Err(AuthError::Invalid),
                HeaderValue::Text(key) => key_subject(self@, key@),
            }),
    {
        match &headers.api_key {
            HeaderValue::Absent => Err(AuthError::Missing),
            HeaderValue::Unreadable => Err(AuthError::Invalid),
            HeaderValue::Text(key) => self.authenticate_key(key.as_str()),
        }
    }

    pub fn authenticate_key(&self, candidate: &str) -> (r: Result<AuthSubject, AuthError>)
        ensures
            r == key_subject(self@, candidate@),
    {
        let candidate = bytes_of(candidate);
        if constant_time_equal(candidate.as_slice(), self.api_keys.key_a.as_slice()) {
            return Ok(
                AuthSubject { credential_id: CredentialId::KeyA, scope: AccessScope::Tech },
            );
        }
        if constant_time_equal(candidate.as_slice(), self.api_keys.key_b.as_slice()) {
            return Ok(
                AuthSubject { credential_id: CredentialId::KeyB, scope: AccessScope::Private },
            );
        }
        Err(AuthError::Invalid)
    }
}

impl TableKey for CredentialId {
    fn same_key(&self, other: &CredentialId) -> (r: bool) {
        match (self, other) {
            (CredentialId::KeyA, CredentialId::KeyA) => true,
            (CredentialId::KeyB, CredentialId::KeyB) => true,
            (CredentialId::OAuth(a), CredentialId::OAuth(b)) => {
                let mut i: usize = 0;
                while i < 8
                    invariant
                        i <= 8,
                        self@ == CredentialModel::OAuth(a@),
                        other@ == CredentialModel::OAuth(b@),
                        forall|j: int| 0 <= j < i ==> a@[j] == b@[j],
                    decreases 8 - i,
                {
                    if a[i] != b[i] {
                        return false;
                    }
                    i = i + 1;
                }
                proof {
                    assert(a@ =~= b@);
                }
                true
            },
            _ => false,
        }
    }

    fn copy_key(&self) -> (r: CredentialId) {
        *self
    }
}

} // verus!
