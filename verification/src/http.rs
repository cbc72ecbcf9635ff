//! The rules at the edge of the server: which requests are let through, and what
//! the others are told.
use vstd::prelude::*;

use crate::audit::AuditContext;
use crate::auth::{
    credential_fingerprint, judged, AuthError, AuthModel, AuthSubject, Authenticator,
    RequestHeaders,
};
use crate::document::StoreError;
use crate::format::{parse_number, parsed_number};
use crate::limits::{admits, after_request, bucket_of, LimiterModel, RateLimiter};
use crate::oauth::scope::{SCOPE_PRIVATE, SCOPE_TECH};
use crate::oauth::OAuthError;
use crate::text::{joined, str_option};

verus! {

/// The longest body of a request, in bytes.
pub const MAX_REQUEST_BODY_BYTES: usize = 32 * 1_024;

/// The most requests that are served at once.
pub const MAX_CONCURRENT_REQUESTS: usize = 16;

/// The headers that every answer carries.
pub const CACHE_CONTROL: &'static str = "no-store";

pub const CONTENT_TYPE_OPTIONS: &'static str = "nosniff";

/// Why the server does not start.
#[derive(Debug, Clone, Copy, PartialEq, Eq)]
pub enum RouterError {
    Store(StoreError),
    OAuth(OAuthError),
}

impl RouterError {
    pub fn message(&self) -> (r: &'static str)
        ensures
            r@ == (match *self {
                RouterError::Store(_) => "knowledge-base initialization failed"@,
                RouterError::OAuth(_) => "OAuth initialization failed"@,
            }),
    {
        match self {
            RouterError::Store(_) => "knowledge-base initialization failed",
            RouterError::OAuth(_) => "OAuth initialization failed",
        }
    }
}

/// The status that a refused client is answered with.
pub open spec fn error_status(error: OAuthError) -> u16 {
    match error {
        OAuthError::InvalidClient => 401,
        OAuthError::InvalidConfiguration => 500,
        OAuthError::Entropy => 500,
        OAuthError::Internal => 500,
        _ => 400,
    }
}

pub fn oauth_error_status(error: &OAuthError) -> (r: u16)
    ensures
        r == error_status(*error),
{
    match error {
        OAuthError::InvalidClient => 401,
        OAuthError::InvalidConfiguration | OAuthError::Entropy | OAuthError::Internal => 500,
        _ => 400,
    }
}

/// The challenge that tells a client where to get authorized.
pub open spec fn challenge_text(metadata_url: Seq<char>) -> Seq<char> {
    "Bearer resource_metadata=\""@ + metadata_url + "\", scope=\""@ + SCOPE_TECH@ + " "@
        + SCOPE_PRIVATE@ + "\""@
}

pub fn unauthorized_challenge(metadata_url: &str) -> (r: String)
    ensures
        r@ == challenge_text(metadata_url@),
{
    let text = joined("Bearer resource_metadata=\"", metadata_url);
    let text = joined(text.as_str(), "\", scope=\"");
    let text = joined(text.as_str(), SCOPE_TECH);
    let text = joined(text.as_str(), " ");
    let text = joined(text.as_str(), SCOPE_PRIVATE);
    joined(text.as_str(), "\"")
}

/// The bytes that an answer says it has: none where it does not say.
pub open spec fn declared_length(content_length: Option<Seq<char>>) -> nat {
    match content_length {
        Some(text) => match parsed_number(text, u64::MAX as nat) {
            Some(n) => n,
            None => 0,
        },
        None => 0,
    }
}

pub fn declared_bytes(content_length: Option<&str>) -> (r: u64)
    ensures
        r == declared_length(str_option(content_length)),
{
    match content_length {
        Some(text) => match parse_number(text, u64::MAX) {
            Some(n) => n,
            None => 0,
        },
        None => 0,
    }
}

/// What becomes of a request before it is looked at.
pub enum Admission {
    Admitted(AuditContext),
    Rejected {
        status: u16,
        outcome: &'static str,
        /// Where to get authorized, for one who is not known.
        challenge: Option<String>,
    },
}

/// Whether what becomes of a request, and of the limiter, is right, given who is
/// asking.
pub open spec fn is_admission(
    auth: AuthModel,
    before: LimiterModel,
    after: LimiterModel,
    metadata_url: Seq<char>,
    request_id: u64,
    answer: Result<AuthSubject, AuthError>,
    now: u64,
    admission: Admission,
) -> bool {
    match answer {
        Err(_) => {
            &&& after == before
            &&& admission matches Admission::Rejected { status, outcome, challenge }
            &&& status == 401
            &&& outcome@ == "unauthorized"@
            &&& challenge matches Some(text)
            &&& text@ == challenge_text(metadata_url)
        },
        Ok(subject) => {
            let credential = subject.credential_id@;
            let bucket = bucket_of(before, credential, now);
            &&& after.limit == before.limit
            &&& after.buckets == before.buckets.insert(
                credential,
                after_request(before.limit, bucket, now),
            )
            &&& if admits(before.limit, bucket, now) {
                &&& admission matches Admission::Admitted(context)
                &&& context.request_id == request_id
                &&& context.credential_fingerprint@ == credential_fingerprint(auth, credential)
                &&& context.scope == subject.scope
            } else {
                &&& admission matches Admission::Rejected { status, outcome, challenge }
                &&& status == 429
                &&& outcome@ == "rate_limited"@
                &&& challenge is None
            }
        },
    }
}

/// Decides on a request, given who is asking.
pub fn decide_admission<'a>(
    authenticator: &Authenticator<'a>,
    limiter: &mut RateLimiter,
    metadata_url: &str,
    request_id: u64,
    answer: Result<AuthSubject, AuthError>,
    now: u64,
) -> (r: Admission)
    ensures
        is_admission(
            authenticator@,
            old(limiter)@,
            final(limiter)@,
            metadata_url@,
            request_id,
            answer,
            now,
            r,
        ),
{
    let subject = match answer {
        Ok(subject) => subject,
        Err(_) => {
            return Admission::Rejected {
                status: 401,
                outcome: "unauthorized",
                challenge: Some(unauthorized_challenge(metadata_url)),
            };
        },
    };
    let context = AuditContext {
        request_id,
        credential_fingerprint: authenticator.fingerprint(subject.credential_id),
        scope: subject.scope,
    };
    if limiter.check(subject, now).is_err() {
        return Admission::Rejected { status: 429, outcome: "rate_limited", challenge: None };
    }
    Admission::Admitted(context)
}

/// Decides on a request by its headers: `seconds` since the start of 1970 for
/// tokens, `now` in nanoseconds of a clock that does not go back for limits.
pub fn admit_request<'a>(
    authenticator: &Authenticator<'a>,
    limiter: &mut RateLimiter,
    metadata_url: &str,
    request_id: u64,
    headers: &RequestHeaders,
    seconds: u64,
    now: u64,
) -> (r: Admission)
    ensures
        exists|answer: Result<AuthSubject, AuthError>| #[trigger]
            judged(authenticator@, *headers, seconds, answer) && is_admission(
                authenticator@,
                old(limiter)@,
                final(limiter)@,
                metadata_url@,
                request_id,
                answer,
                now,
                r,
            ),
{
    let answer = authenticator.authenticate_headers_at(headers, seconds);
    decide_admission(authenticator, limiter, metadata_url, request_id, answer, now)
}

/// Only one whom the headers make known is let through, with the scope that they
/// give, and never one who asks too often.
pub proof fn lemma_admission_is_earned(
    auth: AuthModel,
    headers: RequestHeaders,
    seconds: u64,
    before: LimiterModel,
    after: LimiterModel,
    metadata_url: Seq<char>,
    request_id: u64,
    answer: Result<AuthSubject, AuthError>,
    now: u64,
    admission: Admission,
)
    requires
        judged(auth, headers, seconds, answer),
        is_admission(auth, before, after, metadata_url, request_id, answer, now, admission),
        admission is Admitted,
    ensures
        answer matches Ok(subject) && admission->Admitted_0.scope == subject.scope && admits(
            before.limit,
            bucket_of(before, subject.credential_id@, now),
            now,
        ),
{
}

} // verus!
