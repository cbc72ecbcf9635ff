use engram_mcp::audit::{completed, rejected, tool, tool_write, AuditContext};
use engram_mcp::auth::{
    AccessScope, AuthError, AuthSubject, Authenticator, CredentialId, HeaderValue, RateLimitError,
    RateLimiter, RequestHeaders, WriteRateLimiter,
};

const SECOND: u64 = 1_000_000_000;

fn headers(authorization: Option<&str>, api_key: Option<&str>) -> RequestHeaders {
    let value = |text: Option<&str>| match text {
        Some(text) => HeaderValue::Text(text.to_owned()),
        None => HeaderValue::Absent,
    };
    RequestHeaders { authorization: value(authorization), api_key: value(api_key) }
}

#[test]
fn maps_keys_to_their_scopes() {
    let auth = Authenticator::new(b"tech-secret", b"private-secret");
    assert_eq!(auth.authenticate_key("tech-secret").unwrap().scope, AccessScope::Tech);
    assert_eq!(auth.authenticate_key("private-secret").unwrap().scope, AccessScope::Private);
}

#[test]
fn rejects_missing_or_invalid_keys() {
    let auth = Authenticator::new(b"tech-secret", b"private-secret");
    assert_eq!(auth.authenticate_headers(&headers(None, None)), Err(AuthError::Missing));
    assert_eq!(auth.authenticate_key("wrong"), Err(AuthError::Invalid));
}

#[test]
fn accepts_api_key_header() {
    let auth = Authenticator::new(b"tech-secret", b"private-secret");
    assert_eq!(
        auth.authenticate_headers(&headers(None, Some("private-secret"))).unwrap().credential_id,
        CredentialId::KeyB
    );
}

#[test]
fn bearer_header_does_not_fall_back_to_an_api_key() {
    let auth = Authenticator::new(b"tech-secret", b"private-secret");
    assert_eq!(
        auth.authenticate_headers(&headers(Some("Bearer no-token"), Some("private-secret"))),
        Err(AuthError::Invalid)
    );
}

#[test]
fn headers_that_are_not_text_are_invalid() {
    let auth = Authenticator::new(b"tech-secret", b"private-secret");
    let unreadable_bearer = RequestHeaders {
        authorization: HeaderValue::Unreadable,
        api_key: HeaderValue::Text("private-secret".to_owned()),
    };
    let unreadable_key =
        RequestHeaders { authorization: HeaderValue::Absent, api_key: HeaderValue::Unreadable };
    assert_eq!(auth.authenticate_headers_at(&unreadable_bearer, 0), Err(AuthError::Invalid));
    assert_eq!(auth.authenticate_headers_at(&unreadable_key, 0), Err(AuthError::Invalid));
    assert_eq!(AuthError::Missing.message(), "missing API key");
    assert_eq!(AuthError::Invalid.message(), "invalid API key");
}

#[test]
fn a_prefix_or_an_extension_of_a_key_is_no_key() {
    let auth = Authenticator::new(b"tech-secret", b"private-secret");
    for wrong in ["", "tech-secre", "tech-secret ", "tech-secrets", "Tech-secret"] {
        assert_eq!(auth.authenticate_key(wrong), Err(AuthError::Invalid));
    }
}

#[test]
fn audit_fingerprints_are_stable_and_do_not_equal_the_keys() {
    let auth = Authenticator::new(b"tech-secret", b"private-secret");
    assert_eq!(auth.fingerprint(CredentialId::KeyA).len(), 16);
    assert_ne!(auth.fingerprint(CredentialId::KeyA), "tech-secret");
    assert_ne!(auth.fingerprint(CredentialId::KeyA), auth.fingerprint(CredentialId::KeyB));
}

#[test]
fn audit_fingerprints_are_salted_with_the_first_key() {
    let auth = Authenticator::new(b"tech-secret", b"private-secret");
    assert_eq!(auth.fingerprint(CredentialId::KeyA), "45ad376acf43cdbc");
    assert_eq!(auth.fingerprint(CredentialId::KeyB), "9c9daeb933a91bfd");
    assert_eq!(
        auth.fingerprint(CredentialId::OAuth([0, 1, 15, 16, 127, 128, 254, 255])),
        "00010f107f80feff"
    );
}

#[test]
fn rate_limiter_enforces_burst_per_credential() {
    let mut limiter = RateLimiter::new(1, 2);
    let subject = AuthSubject { credential_id: CredentialId::KeyA, scope: AccessScope::Tech };
    assert!(limiter.check(subject, 0).is_ok());
    assert!(limiter.check(subject, 0).is_ok());
    assert_eq!(limiter.check(subject, 0), Err(RateLimitError));
}

#[test]
fn rate_limits_are_kept_apart_by_credential() {
    let mut limiter = RateLimiter::new(1, 1);
    let a = AuthSubject { credential_id: CredentialId::KeyA, scope: AccessScope::Tech };
    let b = AuthSubject { credential_id: CredentialId::KeyB, scope: AccessScope::Private };
    let c = AuthSubject { credential_id: CredentialId::OAuth([1; 8]), scope: AccessScope::Tech };
    let d = AuthSubject { credential_id: CredentialId::OAuth([2; 8]), scope: AccessScope::Tech };
    for subject in [a, b, c, d] {
        assert!(limiter.check(subject, 0).is_ok());
        assert!(limiter.check(subject, 0).is_err());
    }
}

#[test]
fn tokens_come_back_at_the_rate_that_was_set() {
    let mut limiter = RateLimiter::new(6, 1);
    let subject = AuthSubject { credential_id: CredentialId::KeyA, scope: AccessScope::Tech };
    assert!(limiter.check(subject, 0).is_ok());
    assert!(limiter.check(subject, 10 * SECOND - 1).is_err());
    assert!(limiter.check(subject, 10 * SECOND).is_ok());
    // A clock that stands before the last reading adds nothing.
    assert!(limiter.check(subject, 0).is_err());
}

#[test]
fn a_bucket_never_holds_more_than_its_burst() {
    let mut limiter = RateLimiter::new(600, 3);
    let subject = AuthSubject { credential_id: CredentialId::KeyA, scope: AccessScope::Tech };
    assert!(limiter.check(subject, 0).is_ok());
    let later = 3_600 * SECOND;
    for _ in 0..3 {
        assert!(limiter.check(subject, later).is_ok());
    }
    assert!(limiter.check(subject, later).is_err());
    assert_eq!(RateLimitError.message(), "rate limit exceeded");
}

#[test]
fn writes_are_limited_by_the_hour() {
    let mut limiter = WriteRateLimiter::new(2);
    assert!(limiter.check(0).is_ok());
    assert!(limiter.check(0).is_ok());
    assert_eq!(limiter.check(0), Err(RateLimitError));
    assert!(limiter.check(1_799 * SECOND).is_err());
    assert!(limiter.check(1_800 * SECOND).is_ok());
    assert!(WriteRateLimiter::new(0).check(7).is_err());
}

#[test]
fn audit_records_hold_what_was_done_and_by_whom() {
    let context = AuditContext {
        request_id: 7,
        credential_fingerprint: "45ad376acf43cdbc".to_owned(),
        scope: AccessScope::Private,
    };
    assert_eq!(context.scope_label(), "private");
    let turned_away = rejected(3, "POST", "/mcp", 401, "unauthorized", 12);
    assert_eq!(turned_away.event, "mcp_request_rejected");
    assert_eq!(turned_away.status, 401);
    assert_eq!(turned_away.duration_ms, 12);
    let answered = completed(&context, "POST", "/mcp", 200, 345, 6);
    assert_eq!(answered.event, "mcp_request");
    assert_eq!(answered.operation, "http");
    assert_eq!(answered.client_type, "api_key");
    assert_eq!(answered.scope, "private");
    assert_eq!(answered.bytes, 345);
    let read = tool(&context, "search", "ok", None);
    assert_eq!(read.event, "mcp_tool");
    assert_eq!(read.document_id, "");
    assert_eq!(read.bytes, None);
    let written = tool_write(&context, "append_note", "ok", Some("99_inbox/x.md"), 11);
    assert_eq!(written.document_id, "99_inbox/x.md");
    assert_eq!(written.bytes, Some(11));
    assert_eq!(written.request_id, 7);
    assert_eq!(written.credential_fingerprint, "45ad376acf43cdbc");
}

#[test]
fn keys_are_bytes() {
    let auth = Authenticator::new(&[0xff, 0xfe], b"private-secret");
    let keyed = Authenticator::new(&[0xff], b"private-secret");
    assert_ne!(auth.fingerprint(CredentialId::KeyA), keyed.fingerprint(CredentialId::KeyA));
}
