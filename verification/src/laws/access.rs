//! Who is let in, as whom, and how often.
use vstd::prelude::*;
use vstd::utf8::encode_utf8;

use crate::auth::{
    bearer_token, credential_fingerprint, judged, AccessScope, AuthError, AuthModel, AuthSubject,
    CredentialModel, HeaderValue, RequestHeaders,
};
use crate::crypto::hmac_sha256_of;
use crate::format::{decimal, hex};
use crate::http::{declared_length, error_status, is_admission, Admission};
use crate::laws::texts::lemma_parsed_number;
use crate::limits::{
    admits, admitted, bucket_of, capacity, elapsed, full_bucket, lemma_burst, lemma_rate_is_bounded,
    new_limiter, new_write_limiter, ordered, refilled, BucketModel, Limit, LimiterModel,
};
use crate::oauth::{error_code_of, OAuthError};
use crate::oauth::flows::{bearer_access, fingerprint_of, OAuthModel};
use crate::scan::{lemma_position, position_of};
use crate::server::{append_visible, offered_tools, search_budget_of, write_bucket, ServerModel};
use crate::text::{ascii_lower_text, is_white_space};

verus! {

/// Each key opens what it is for: the first the public part, the second all of it.
/// Nothing else is a key.
pub proof fn lemma_what_a_key_opens(
    m: AuthModel,
    headers: RequestHeaders,
    key: Seq<char>,
    now: u64,
    answer: Result<AuthSubject, AuthError>,
)
    requires
        judged(m, headers, now, answer),
        headers.authorization is Absent,
        headers.api_key matches HeaderValue::Text(text) && text@ == key,
        m.key_a != m.key_b,
    ensures
        encode_utf8(key) == m.key_a ==> (answer matches Ok(subject) && subject.scope is Tech
            && subject.credential_id is KeyA),
        encode_utf8(key) == m.key_b ==> (answer matches Ok(subject) && subject.scope is Private
            && subject.credential_id is KeyB),
        encode_utf8(key) != m.key_a && encode_utf8(key) != m.key_b ==> (answer matches Err(error)
            && error is Invalid),
{
}

/// A request without credentials is told that they are missing, and one whose
/// credentials cannot be read that they are wrong.
pub proof fn lemma_missing_is_not_invalid(
    m: AuthModel,
    headers: RequestHeaders,
    now: u64,
    answer: Result<AuthSubject, AuthError>,
)
    requires
        judged(m, headers, now, answer),
    ensures
        answer matches Err(AuthError::Missing) <==> (headers.authorization is Absent
            && headers.api_key is Absent),
        headers.authorization is Unreadable ==> (answer matches Err(error) && error is Invalid),
        headers.authorization is Absent && headers.api_key is Unreadable ==> (answer matches Err(
            error,
        ) && error is Invalid),
        headers.authorization is Text && m.oauth is None ==> (answer matches Err(error)
            && error is Invalid),
{
}

/// The token of a header stands behind the word Bearer, in any case, and a space; it
/// has no white space in it.
pub proof fn lemma_bearer_header(scheme: Seq<char>, token: Seq<char>)
    requires
        !scheme.contains(' '),
    ensures
        ascii_lower_text(scheme) == "bearer"@ && token.len() > 0 && (forall|i: int|
            0 <= i < token.len() ==> !is_white_space(#[trigger] token[i])) ==> bearer_token(
            scheme + seq![' '] + token,
        ) == Some(token),
        ascii_lower_text(scheme) != "bearer"@ || token.len() == 0 ==> bearer_token(
            scheme + seq![' '] + token,
        ) is None,
        bearer_token(scheme) is None,
{
    reveal_strlit("Bearer");
    reveal_strlit("bearer");
    assert(ascii_lower_text("Bearer"@) =~= "bearer"@);
    let header = scheme + seq![' '] + token;
    let p = scheme.len() as int;
    lemma_position(header, ' ');
    lemma_position(scheme, ' ');
    assert(header[p] == ' ');
    assert forall|i: int| 0 <= i < p implies header[i] != ' ' by {
        assert(scheme.contains(scheme[i]));
    }
    assert(position_of(header, ' ') == p);
    assert(header.take(p) =~= scheme);
    assert(header.skip(p + 1) =~= token);
    if position_of(scheme, ' ') < scheme.len() {
        assert(scheme.contains(scheme[position_of(scheme, ' ')]));
    }
}

/// How a credential is known in the records: a key by the first eight bytes of a
/// code over it, under a salt that the first key gives; a token by its fingerprint.
/// Each is written in hexadecimal.
pub proof fn lemma_fingerprints(m: AuthModel, token: Seq<u8>)
    ensures
        ({
            let salt = hmac_sha256_of(m.key_a, encode_utf8("engram-mcp/audit-salt/v1"@));
            &&& credential_fingerprint(m, CredentialModel::KeyA) == hex(
                hmac_sha256_of(salt, m.key_a).take(8),
            )
            &&& credential_fingerprint(m, CredentialModel::KeyB) == hex(
                hmac_sha256_of(salt, m.key_b).take(8),
            )
            &&& credential_fingerprint(m, CredentialModel::OAuth(token)) == hex(token)
        }),
{
}

/// What becomes of a request. One that does not prove who is asking is answered with
/// status 401 and a challenge that says where the knowledge base is described and
/// which scopes there are; it costs nobody anything. One that comes too soon is
/// answered with status 429 and no challenge. Any other is let in as who is asking,
/// with what they may see.
pub proof fn lemma_what_becomes_of_a_request(
    auth: AuthModel,
    before: LimiterModel,
    after: LimiterModel,
    metadata_url: Seq<char>,
    request_id: u64,
    answer: Result<AuthSubject, AuthError>,
    now: u64,
    admission: Admission,
)
    requires
        is_admission(auth, before, after, metadata_url, request_id, answer, now, admission),
    ensures
        answer is Err ==> {
            &&& after == before
            &&& admission matches Admission::Rejected { status, outcome, challenge } && status
                == 401 && outcome@ == "unauthorized"@ && (challenge matches Some(text) && text@
                == "Bearer resource_metadata=\""@ + metadata_url
                + "\", scope=\"kb:tech kb:private\""@)
        },
        admission matches Admission::Rejected { status, outcome, challenge } ==> (status == 401
            && answer is Err) || (status == 429 && outcome@ == "rate_limited"@ && challenge is None
            && answer is Ok),
        admission matches Admission::Admitted(context) ==> (answer matches Ok(subject)
            && context.scope == subject.scope && context.request_id == request_id
            && context.credential_fingerprint@ == credential_fingerprint(
            auth,
            subject.credential_id@,
        )),
        forall|other: CredentialModel, later: u64|
            (answer matches Ok(subject) ==> subject.credential_id@ != other) ==> #[trigger] bucket_of(
                after,
                other,
                later,
            ) == bucket_of(before, other, later),
{
    reveal_strlit("\", scope=\"");
    reveal_strlit("kb:tech");
    reveal_strlit(" ");
    reveal_strlit("kb:private");
    reveal_strlit("\"");
    reveal_strlit("\", scope=\"kb:tech kb:private\"");
    let front = "Bearer resource_metadata=\""@ + metadata_url;
    assert("\", scope=\""@ + "kb:tech"@ + " "@ + "kb:private"@ + "\""@
        =~= "\", scope=\"kb:tech kb:private\""@);
    assert(front + "\", scope=\""@ + "kb:tech"@ + " "@ + "kb:private"@ + "\""@ =~= front + (
    "\", scope=\""@ + "kb:tech"@ + " "@ + "kb:private"@ + "\""@));
}

/// The status of a refusal by the authorization server: 401 where the client did not
/// prove itself, 500 where the server failed, and 400 where the request was wrong.
pub proof fn lemma_refusal_status(error: OAuthError)
    ensures
        error is InvalidClient ==> error_status(error) == 401,
        error is InvalidConfiguration || error is Entropy || error is Internal ==> error_status(
            error,
        ) == 500,
        error is InvalidRequest || error is InvalidAuthorizationRequest || error is InvalidGrant
            || error is InvalidScope || error is InvalidTarget || error is InvalidOwner
            ==> error_status(error) == 400,
        error_code_of(error) == "server_error"@ <==> error_status(error) == 500,
        error_code_of(error) == "invalid_client"@ <==> error_status(error) == 401,
{
    reveal_strlit("server_error");
    reveal_strlit("invalid_client");
    reveal_strlit("invalid_request");
    reveal_strlit("invalid_grant");
    reveal_strlit("invalid_scope");
    reveal_strlit("invalid_target");
    reveal_strlit("access_denied");
    assert("server_error"@.len() == 12 && "invalid_client"@.len() == 14 && "invalid_request"@.len()
        == 15 && "invalid_grant"@.len() == 13 && "invalid_scope"@.len() == 13
        && "invalid_target"@.len() == 14 && "access_denied"@.len() == 13);
    assert("invalid_client"@[8] == 'c' && "invalid_target"@[8] == 't');
}

/// An empty bucket lets a request through again once the time for one has gone by,
/// and not before.
pub proof fn lemma_one_request_comes_back(limit: Limit, since: u64, now: u64)
    requires
        since <= now,
        limit.burst >= 1,
        limit.period_nanos > 0,
    ensures
        admits(limit, BucketModel { parts: 0, updated_at: since }, now) <==> (now - since)
            * limit.per_period >= limit.period_nanos,
{
    let bucket = BucketModel { parts: 0, updated_at: since };
    assert(capacity(limit) >= limit.period_nanos) by (nonlinear_arith)
        requires
            capacity(limit) == (limit.burst * limit.period_nanos) as nat,
            limit.burst >= 1,
            limit.period_nanos > 0,
    ;
    if now == since {
        assert((now - since) * limit.per_period == 0) by (nonlinear_arith)
            requires
                now == since,
        ;
        assert(elapsed(since, now) * limit.per_period as nat == 0) by (nonlinear_arith)
            requires
                elapsed(since, now) == 0,
        ;
    }
    assert(refilled(limit, bucket, now) >= limit.period_nanos <==> (now - since) * limit.per_period
        >= limit.period_nanos);
}

/// The tools that a caller is offered: searching and fetching, and writing a note for
/// the private scope where there is somewhere to write.
pub proof fn lemma_offered_tools(m: ServerModel, scope: Option<AccessScope>)
    ensures
        offered_tools(m, scope).contains("search"@),
        offered_tools(m, scope).contains("fetch"@),
        offered_tools(m, scope).contains("append_note"@) <==> (m.inbox is Some && scope == Some(
            AccessScope::Private,
        )),
        offered_tools(m, scope).len() <= 3,
        offered_tools(m, scope).no_duplicates(),
{
    reveal_strlit("search");
    reveal_strlit("fetch");
    reveal_strlit("append_note");
    assert("search"@.len() == 6 && "fetch"@.len() == 5 && "append_note"@.len() == 11);
    let tools = offered_tools(m, scope);
    assert(tools[0] == "search"@ && tools[1] == "fetch"@);
    assert(append_visible(m, scope) ==> tools[2] == "append_note"@);
}

/// A search answer leaves 1024 bytes of what a response may take to what is put
/// around it.
pub proof fn lemma_search_budget(m: ServerModel)
    ensures
        m.max_search_response_bytes >= 1_024 ==> search_budget_of(m) + 1_024
            == m.max_search_response_bytes,
        m.max_search_response_bytes < 1_024 ==> search_budget_of(m) == 0,
{
}

proof fn lemma_over_a_period(limit: Limit, start: u64, times: Seq<u64>)
    requires
        limit.period_nanos > 0,
        ordered(times),
        forall|i: int| 0 <= i < times.len() ==> start <= #[trigger] times[i] <= start
            + limit.period_nanos,
    ensures
        admitted(limit, full_bucket(limit, start), times) <= limit.burst + limit.per_period,
{
    lemma_rate_is_bounded(limit, start, times);
    let n = admitted(limit, full_bucket(limit, start), times);
    if times.len() > 0 {
        let last = times[times.len() - 1];
        let (burst, per, period) = (
            limit.burst as int,
            limit.per_period as int,
            limit.period_nanos as int,
        );
        assert(capacity(limit) == burst * period) by (nonlinear_arith)
            requires
                capacity(limit) == (limit.burst * limit.period_nanos) as nat,
                burst == limit.burst,
                period == limit.period_nanos,
        ;
        assert((last - start) * per <= period * per) by (nonlinear_arith)
            requires
                0 <= last - start <= period,
                per >= 0,
        ;
        assert(n <= burst + per) by (nonlinear_arith)
            requires
                n * period <= burst * period + period * per,
                period > 0,
                n >= 0,
                burst >= 0,
                per >= 0,
        ;
    }
}

/// How often a credential is let in by a new limiter: as often at once as the burst
/// says; in the course of a minute no more often than the burst and the requests per
/// minute together; and once it has been let in as often as it can, again when the
/// minute's share for one request has gone by.
pub proof fn lemma_requests_per_minute(
    requests_per_minute: u32,
    burst: u32,
    credential: CredentialModel,
    start: u64,
    now: u64,
    times: Seq<u64>,
    n: nat,
)
    requires
        burst >= 1,
        start <= now,
        ordered(times),
        forall|i: int| 0 <= i < times.len() ==> start <= #[trigger] times[i] <= start
            + 60_000_000_000,
    ensures
        ({
            let m = new_limiter(requests_per_minute, burst);
            let bucket = bucket_of(m, credential, start);
            &&& admitted(m.limit, bucket, Seq::new(n, |i: int| start)) == (if n <= burst {
                n
            } else {
                burst as nat
            })
            &&& admitted(m.limit, bucket, times) <= burst + requests_per_minute
            &&& admits(m.limit, BucketModel { parts: 0, updated_at: start }, now) <==> (now - start)
                * requests_per_minute >= 60_000_000_000
        }),
{
    let m = new_limiter(requests_per_minute, burst);
    lemma_burst(m.limit, start, n);
    lemma_over_a_period(m.limit, start, times);
    lemma_one_request_comes_back(m.limit, start, now);
}

/// How often a note can be written: as often at once, and from then on in an hour, as
/// is set for an hour.
pub proof fn lemma_writes_per_hour(
    writes_per_hour: u32,
    start: u64,
    now: u64,
    times: Seq<u64>,
    n: nat,
)
    requires
        writes_per_hour >= 1,
        start <= now,
        ordered(times),
        forall|i: int| 0 <= i < times.len() ==> start <= #[trigger] times[i] <= start
            + 3_600_000_000_000,
    ensures
        ({
            let m = new_write_limiter(writes_per_hour);
            let bucket = write_bucket(m, start);
            &&& admitted(m.limit, bucket, Seq::new(n, |i: int| start)) == (if n <= writes_per_hour {
                n
            } else {
                writes_per_hour as nat
            })
            &&& admitted(m.limit, bucket, times) <= 2 * writes_per_hour
            &&& admits(m.limit, BucketModel { parts: 0, updated_at: start }, now) <==> (now - start)
                * writes_per_hour >= 3_600_000_000_000
        }),
{
    let m = new_write_limiter(writes_per_hour);
    lemma_burst(m.limit, start, n);
    lemma_over_a_period(m.limit, start, times);
    lemma_one_request_comes_back(m.limit, start, now);
}

/// What an answer says it takes: the number that it declares, and nothing where it
/// declares none.
pub proof fn lemma_declared_length(n: nat)
    requires
        n <= u64::MAX,
    ensures
        declared_length(Some(decimal(n))) == n,
        declared_length(None) == 0,
{
    lemma_parsed_number(n, u64::MAX as nat);
}

/// The bearer of a token is let in with what the token gives at that time, under its
/// fingerprint; a token that gives nothing is invalid.
pub proof fn lemma_what_a_token_opens(
    m: AuthModel,
    headers: RequestHeaders,
    header: Seq<char>,
    token: Seq<char>,
    oauth: OAuthModel,
    now: u64,
    answer: Result<AuthSubject, AuthError>,
)
    requires
        judged(m, headers, now, answer),
        headers.authorization matches HeaderValue::Text(text) && text@ == header,
        bearer_token(header) == Some(token),
        m.oauth == Some(oauth),
    ensures
        match (answer, bearer_access(oauth, token, now)) {
            (Ok(subject), Some(scope)) => subject.scope == scope && subject.credential_id@
                == CredentialModel::OAuth(fingerprint_of(oauth.key, token)),
            (Err(error), None) => error is Invalid,
            _ => false,
        },
{
}

} // verus!
