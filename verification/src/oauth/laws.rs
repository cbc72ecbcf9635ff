//! What holds of the authorization server as a whole.
use vstd::prelude::*;
use vstd::utf8::encode_utf8;

use crate::auth::AccessScope;
use crate::config::{oauth_config_error, OAuthConfig};
use crate::crypto::base64_url_of;
use crate::json::lemma_not_reserved;
use crate::oauth::claims::RefreshModel;
use crate::oauth::client::{
    authenticated_client, lemma_registered_redirects, registered_client, CLIENT_ID_PREFIX,
};
use crate::oauth::families::{
    family_active, is_state_text, lemma_replay_revokes_the_family,
    lemma_rotation_replaces_the_token, living, ordinary_families, rotation_granted, StateDirectory,
    StateFile, MAX_REFRESH_STATE_BYTES,
};
use crate::oauth::flows::{
    access_token_claims, after, answered, bearer_access, carries_grant, code_exchange, consent,
    consent_request_claims, exchange, hash_of, refresh_exchange, refresh_id_hash,
    refresh_token_claims, refresh_usable, refused, settled, start, started, tokens_are_good,
    ApprovalForm, CodeModel, ExchangeModel, GrantModel, OAuthModel, RedirectModel, TokenDraws,
    TokenRequest, TokenResponse, ACCESS_TOKEN_PREFIX, MAX_FORM_VALUE_LENGTH, REFRESH_TOKEN_PREFIX,
};
use crate::oauth::pkce::answers_challenge;
use crate::oauth::scope::{
    access_of, grant_allows, grantable, lemma_allowed_access, lemma_scope_text_asks_for_the_grant,
    lemma_scopes_differ, requested_grant, scope_text, SCOPE_PRIVATE, SCOPE_TECH,
};
use crate::oauth::signing::{
    lemma_another_key_opens_nothing, lemma_appended_is_tampered, lemma_tampered_opens_nothing,
    lemma_tampered_token_opens_nothing, random_text, signed, tampered, told_apart,
    ACCESS_TOKEN_LABEL, CLIENT_LABEL, REFRESH_TOKEN_LABEL,
};
use crate::oauth::OAuthError;
use crate::scan::{lemma_prefix_of_appended, without_prefix};
use crate::text::{byte_len, text_option};

verus! {

/// Nothing is approved without the owner's secret, and never more than the
/// client asked for and is registered for.
pub proof fn lemma_approval_is_the_owners(
    m: OAuthModel,
    form: ApprovalForm,
    now: u64,
    drawn: Option<[u8; 32]>,
)
    requires
        consent(m, form, now, drawn).result matches Ok(RedirectModel::Approved(_)),
    ensures
        form.decision@ == "approve"@,
        encode_utf8(form.owner_secret@) == m.owner_secret,
        ({
            &&& consent_request_claims(m.key, form.request@) matches Some(request)
            &&& requested_grant(form.scope@) matches Some(scopes)
            &&& grantable(scopes)
            &&& scopes.subset_of(request.requested_scopes)
            &&& registered_client(m.key, request.client_id) matches Some(client)
            &&& grant_allows(client.scopes, scopes)
        }),
{
}

/// Without an approval no code comes into being.
pub proof fn lemma_codes_come_from_approvals(
    m: OAuthModel,
    form: ApprovalForm,
    now: u64,
    drawn: Option<[u8; 32]>,
)
    requires
        !(consent(m, form, now, drawn).result matches Ok(RedirectModel::Approved(_))),
    ensures
        consent(m, form, now, drawn).codes == m.codes,
{
}

/// Whether a request redeems the code that the owner's answer hands out: it names
/// the code, comes from the client that asked for it, and fits what was asked.
pub open spec fn redeems(
    m: OAuthModel,
    form: ApprovalForm,
    drawn: [u8; 32],
    request: TokenRequest,
    header: Option<Seq<char>>,
) -> bool {
    let asked = consent_request_claims(m.key, form.request@)->Some_0;
    &&& text_option(request.code) == Some(random_text("ac_"@, drawn@))
    &&& byte_len(random_text("ac_"@, drawn@)) <= MAX_FORM_VALUE_LENGTH
    &&& text_option(request.redirect_uri) == Some(asked.redirect_uri)
    &&& request.resource@ == m.resource
    &&& request.code_verifier matches Some(verifier)
    &&& answers_challenge(verifier@, asked.code_challenge)
    &&& authenticated_client(
        m.key,
        text_option(request.client_id),
        text_option(request.client_secret),
        header,
    ) matches Some(client)
    &&& client.client_id == asked.client_id
}

/// The request with another verifier.
pub open spec fn with_verifier(request: TokenRequest, verifier: String) -> TokenRequest {
    TokenRequest { code_verifier: Some(verifier), ..request }
}

/// A code that the owner approved is redeemed once. The request that fits it is
/// granted the scopes that the owner chose, and refused when it comes again.
/// Before that, one with a wrong verifier is refused and spends the code: the
/// request that fits it is refused from then on.
pub proof fn lemma_approved_code_is_good_for_one_try(
    m: OAuthModel,
    form: ApprovalForm,
    now: u64,
    drawn: [u8; 32],
    request: TokenRequest,
    header: Option<Seq<char>>,
    wrong: String,
    first_time: u64,
    first_draws: TokenDraws,
    second_time: u64,
    second_draws: TokenDraws,
)
    requires
        consent(m, form, now, Some(drawn)).result matches Ok(RedirectModel::Approved(_)),
        redeems(m, form, drawn, request, header),
        first_time < after(now, m.code_ttl),
        first_draws.family is Some,
        first_draws.access is Some,
        first_draws.refresh is Some,
        // The new family has a name that is not taken.
        !living(m.families, first_time).dom().contains(
            random_text("rf_"@, first_draws.family->Some_0@),
        ),
        byte_len(wrong@) <= 128,
        !answers_challenge(
            wrong@,
            consent_request_claims(m.key, form.request@)->Some_0.code_challenge,
        ),
    ensures
        ({
            let n = answered(m, consent(m, form, now, Some(drawn)));
            let first = code_exchange(n, request, header, first_time, first_draws);
            let again = code_exchange(
                settled(n, first),
                request,
                header,
                second_time,
                second_draws,
            );
            let guess = code_exchange(
                n,
                with_verifier(request, wrong),
                header,
                first_time,
                first_draws,
            );
            let after_guess = code_exchange(
                settled(n, guess),
                request,
                header,
                second_time,
                second_draws,
            );
            &&& first.result matches Ok(g)
            &&& Some(g.scopes) == requested_grant(form.scope@)
            &&& forall|response: TokenResponse| #[trigger]
                carries_grant(n, g, first_time, response) ==> response.token_type@ == "Bearer"@
                    && response.scope@ == scope_text(g.scopes)
            &&& again == refused(settled(n, first), OAuthError::InvalidGrant)
            &&& guess.result == Err::<GrantModel, _>(OAuthError::InvalidGrant)
            &&& guess.next is None
            &&& after_guess == refused(settled(n, guess), OAuthError::InvalidGrant)
        }),
{
    let asked = consent_request_claims(m.key, form.request@)->Some_0;
    lemma_registered_redirects(m.key, asked.client_id, asked.redirect_uri);
}

/// A code is redeemed at most once: after it has been, another request with it
/// is refused, for its grant or for its client, and changes nothing.
pub proof fn lemma_code_is_redeemed_once(
    m: OAuthModel,
    request: TokenRequest,
    header: Option<Seq<char>>,
    now: u64,
    draws: TokenDraws,
    again: TokenRequest,
    header_again: Option<Seq<char>>,
    now_again: u64,
    draws_again: TokenDraws,
)
    requires
        code_exchange(m, request, header, now, draws).result is Ok,
        text_option(again.code) == text_option(request.code),
    ensures
        ({
            let n = settled(m, code_exchange(m, request, header, now, draws));
            let e = code_exchange(n, again, header_again, now_again, draws_again);
            &&& e == refused(n, OAuthError::InvalidGrant) || (e == refused(
                n,
                OAuthError::InvalidClient,
            ) && authenticated_client(
                n.key,
                text_option(again.client_id),
                text_option(again.client_secret),
                header_again,
            ) is None)
        }),
{
}

/// A wrong verifier costs the code: it cannot be redeemed afterwards, with
/// whatever verifier.
pub proof fn lemma_wrong_verifier_spends_the_code(
    m: OAuthModel,
    request: TokenRequest,
    header: Option<Seq<char>>,
    now: u64,
    draws: TokenDraws,
    again: TokenRequest,
    header_again: Option<Seq<char>>,
    now_again: u64,
    draws_again: TokenDraws,
)
    requires
        request.code is Some && request.redirect_uri is Some && request.code_verifier is Some,
        byte_len(request.code->Some_0@) <= MAX_FORM_VALUE_LENGTH,
        byte_len(request.redirect_uri->Some_0@) <= MAX_FORM_VALUE_LENGTH,
        byte_len(request.code_verifier->Some_0@) <= 128,
        request.resource@ == m.resource,
        authenticated_client(
            m.key,
            text_option(request.client_id),
            text_option(request.client_secret),
            header,
        ) is Some,
        m.codes.dom().contains(hash_of(m.key, request.code->Some_0@)),
        !answers_challenge(
            request.code_verifier->Some_0@,
            m.codes[hash_of(m.key, request.code->Some_0@)].code_challenge,
        ),
        text_option(again.code) == text_option(request.code),
    ensures
        ({
            let first = code_exchange(m, request, header, now, draws);
            let n = settled(m, first);
            &&& first.result == Err::<GrantModel, _>(OAuthError::InvalidGrant)
            &&& code_exchange(n, again, header_again, now_again, draws_again) == refused(
                n,
                OAuthError::InvalidGrant,
            ) || (code_exchange(n, again, header_again, now_again, draws_again) == refused(
                n,
                OAuthError::InvalidClient,
            ) && authenticated_client(
                n.key,
                text_option(again.client_id),
                text_option(again.client_secret),
                header_again,
            ) is None)
        }),
{
}

/// Refreshing never widens what was granted: the new tokens are for scopes that
/// the old token covers, and see no more.
pub proof fn lemma_refreshing_never_widens(
    m: OAuthModel,
    request: TokenRequest,
    header: Option<Seq<char>>,
    now: u64,
    draws: TokenDraws,
)
    requires
        refresh_exchange(m, request, header, now, draws).result is Ok,
    ensures
        ({
            let g = refresh_exchange(m, request, header, now, draws).result->Ok_0;
            &&& request.refresh_token matches Some(token)
            &&& refresh_token_claims(m.key, token@) matches Some(claims)
            &&& grant_allows(claims.scopes, g.scopes)
            &&& access_of(g.scopes) is Private ==> access_of(claims.scopes) is Private
            &&& g.family_id == claims.family_id
        }),
{
    let g = refresh_exchange(m, request, header, now, draws).result->Ok_0;
    let claims = refresh_token_claims(m.key, request.refresh_token->Some_0@)->Some_0;
    lemma_allowed_access(claims.scopes, g.scopes);
}

/// An honoured access token was signed by this server for this resource, has
/// not lapsed, and is of a family that is not revoked.
pub proof fn lemma_honoured_tokens(m: OAuthModel, token: Seq<char>, now: u64)
    requires
        bearer_access(m, token, now) is Some,
    ensures
        ({
            &&& access_token_claims(m.key, token) matches Some(claims)
            &&& claims.audience == m.resource
            &&& claims.expires_at > now
            &&& grantable(claims.scopes)
            &&& bearer_access(m, token, now) == Some(access_of(claims.scopes))
            &&& family_active(m.families, claims.family_id, now)
        }),
{
}

/// Tokens are given to none but a client that has proved who it is, and are
/// bound to it.
pub proof fn lemma_tokens_go_to_proven_clients(
    m: OAuthModel,
    request: TokenRequest,
    header: Option<Seq<char>>,
    now: u64,
    draws: TokenDraws,
)
    requires
        exchange(m, request, header, now, draws).result is Ok,
    ensures
        ({
            &&& authenticated_client(
                m.key,
                text_option(request.client_id),
                text_option(request.client_secret),
                header,
            ) matches Some(client)
            &&& exchange(m, request, header, now, draws).result->Ok_0.client_id == client.client_id
        }),
{
}

/// A new key ends every access token that was honoured under the old one, unless
/// the two give it the same code.
pub proof fn lemma_a_new_key_ends_access_tokens(
    m: OAuthModel,
    n: OAuthModel,
    token: Seq<char>,
    now: u64,
    later: u64,
)
    requires
        bearer_access(m, token, now) is Some,
        told_apart(
            m.key,
            n.key,
            ACCESS_TOKEN_LABEL@,
            without_prefix(token, ACCESS_TOKEN_PREFIX@)->Some_0,
        ),
    ensures
        bearer_access(n, token, later) is None,
{
    lemma_another_key_opens_nothing(
        m.key,
        n.key,
        ACCESS_TOKEN_PREFIX@,
        ACCESS_TOKEN_LABEL@,
        token,
    );
}

/// A new key ends every refresh token that was signed under the old one, unless
/// the two give it the same code: no exchange grants anything for it.
pub proof fn lemma_a_new_key_ends_refresh_tokens(
    m: OAuthModel,
    n: OAuthModel,
    token: Seq<char>,
    request: TokenRequest,
    header: Option<Seq<char>>,
    now: u64,
    draws: TokenDraws,
)
    requires
        refresh_token_claims(m.key, token) is Some,
        told_apart(
            m.key,
            n.key,
            REFRESH_TOKEN_LABEL@,
            without_prefix(token, REFRESH_TOKEN_PREFIX@)->Some_0,
        ),
        text_option(request.refresh_token) == Some(token),
    ensures
        refresh_exchange(n, request, header, now, draws).result is Err,
        refresh_exchange(n, request, header, now, draws).next is None,
{
    lemma_another_key_opens_nothing(
        m.key,
        n.key,
        REFRESH_TOKEN_PREFIX@,
        REFRESH_TOKEN_LABEL@,
        token,
    );
}

/// A new key ends every client identifier that was signed under the old one,
/// unless the two give it the same code.
pub proof fn lemma_a_new_key_ends_client_identifiers(
    m: OAuthModel,
    n: OAuthModel,
    client_id: Seq<char>,
)
    requires
        registered_client(m.key, client_id) is Some,
        told_apart(
            m.key,
            n.key,
            CLIENT_LABEL@,
            without_prefix(client_id, CLIENT_ID_PREFIX@)->Some_0,
        ),
    ensures
        registered_client(n.key, client_id) is None,
{
    lemma_another_key_opens_nothing(m.key, n.key, CLIENT_ID_PREFIX@, CLIENT_LABEL@, client_id);
}

/// A server that starts has given out no codes: one that was given out before is
/// refused.
pub proof fn lemma_codes_do_not_outlive_the_server(
    config: OAuthConfig,
    directory: StateDirectory,
    request: TokenRequest,
    header: Option<Seq<char>>,
    now: u64,
    draws: TokenDraws,
)
    requires
        start(config, directory) is Ok,
    ensures
        code_exchange(start(config, directory)->Ok_0, request, header, now, draws).result is Err,
{
}

/// Families keep ordinary names: those that the server makes up are ordinary.
pub proof fn lemma_family_names_stay_ordinary(
    m: OAuthModel,
    request: TokenRequest,
    header: Option<Seq<char>>,
    now: u64,
    draws: TokenDraws,
)
    requires
        ordinary_families(m.families),
    ensures
        ordinary_families(settled(m, exchange(m, request, header, now, draws)).families),
{
    reveal_strlit("rf_");
    if draws.family is Some {
        let name = random_text("rf_"@, draws.family->Some_0@);
        assert(name[0] == 'r');
        lemma_not_reserved(name);
    }
}

/// Access tokens and active refresh tokens survive a restart with the same
/// settings and the state file that was written for the families, as long as those
/// have ordinary names; authorization codes do not.
pub proof fn lemma_tokens_survive_a_restart(
    m: OAuthModel,
    config: OAuthConfig,
    contents: Vec<u8>,
    len: u64,
    token: Seq<char>,
    request: TokenRequest,
    header: Option<Seq<char>>,
    now: u64,
    draws: TokenDraws,
)
    requires
        oauth_config_error(config) is None,
        m == (OAuthModel { codes: m.codes, ..started(config, m.families) }),
        is_state_text(contents@, m.families),
        ordinary_families(m.families),
        len <= MAX_REFRESH_STATE_BYTES,
    ensures
        ({
            let found = StateFile::Found { regular: true, len, contents: Some(contents) };
            &&& start(config, StateDirectory::Ready(found)) matches Ok(n)
            &&& n.codes == Map::<Seq<u8>, CodeModel>::empty()
            &&& bearer_access(n, token, now) == bearer_access(m, token, now)
            &&& refresh_exchange(n, request, header, now, draws).result == refresh_exchange(
                m,
                request,
                header,
                now,
                draws,
            ).result
            &&& refresh_exchange(n, request, header, now, draws).next == refresh_exchange(
                m,
                request,
                header,
                now,
                draws,
            ).next
        }),
{
}

/// Whether a refresh request is in order at `now`: it names a refresh token of
/// this server for this resource that has not lapsed, and comes from the client
/// that the token is bound to.
pub open spec fn presents(
    m: OAuthModel,
    request: TokenRequest,
    header: Option<Seq<char>>,
    now: u64,
) -> bool {
    &&& request.refresh_token matches Some(token)
    &&& byte_len(token@) <= MAX_FORM_VALUE_LENGTH
    &&& request.resource@ == m.resource
    &&& authenticated_client(
        m.key,
        text_option(request.client_id),
        text_option(request.client_secret),
        header,
    ) matches Some(client)
    &&& refresh_token_claims(m.key, token@) matches Some(claims)
    &&& refresh_usable(m, claims, client.client_id, now)
    &&& claims.family_id.len() > 0
}

/// What the refresh token of a request says.
pub open spec fn presented(m: OAuthModel, request: TokenRequest) -> RefreshModel {
    refresh_token_claims(m.key, request.refresh_token->Some_0@)->Some_0
}

/// Whether the refresh token of a request is the active one of its family.
pub open spec fn presents_active(m: OAuthModel, request: TokenRequest, now: u64) -> bool {
    let claims = presented(m, request);
    rotation_granted(
        m.families,
        claims.family_id,
        refresh_id_hash(m.key, claims.token_id),
        now,
    )
}

/// What the active refresh token is good for. Without a list of scopes the new
/// tokens are for those of the old one; with a list that those cover, for the
/// scopes that it lists. With any other list the request is refused, and the
/// server stays as it is, so that the token still works.
pub proof fn lemma_scopes_of_a_refresh(
    m: OAuthModel,
    request: TokenRequest,
    header: Option<Seq<char>>,
    now: u64,
    draws: TokenDraws,
)
    requires
        presents(m, request, header, now),
        presents_active(m, request, now),
        draws.access is Some,
        draws.refresh is Some,
    ensures
        ({
            let held = presented(m, request).scopes;
            let e = refresh_exchange(m, request, header, now, draws);
            let wanted = match text_option(request.scope) {
                Some(text) => requested_grant(text),
                None => Some(held),
            };
            if wanted is Some && grant_allows(held, wanted->Some_0) {
                &&& e.result matches Ok(g)
                &&& g.scopes == wanted->Some_0
                &&& g.family_id == presented(m, request).family_id
                &&& forall|response: TokenResponse| #[trigger]
                    carries_grant(m, g, now, response) ==> response.scope@ == scope_text(
                        wanted->Some_0,
                    )
            } else {
                &&& e == refused(m, OAuthError::InvalidScope)
                &&& settled(m, e) == m
                &&& presents_active(settled(m, e), request, now)
            }
        }),
        request.scope is None ==> refresh_exchange(m, request, header, now, draws).result is Ok,
{
}

/// A list of one scope asks for that scope. A grant of the private scope covers a
/// request for either; one of the public scope alone does not cover a request for
/// the private one.
pub proof fn lemma_narrowing(held: Set<Seq<char>>)
    requires
        grantable(held),
    ensures
        requested_grant(SCOPE_TECH@) == Some(Set::<Seq<char>>::empty().insert(SCOPE_TECH@)),
        requested_grant(SCOPE_PRIVATE@) == Some(Set::<Seq<char>>::empty().insert(SCOPE_PRIVATE@)),
        scope_text(Set::<Seq<char>>::empty().insert(SCOPE_TECH@)) == SCOPE_TECH@,
        grant_allows(held, requested_grant(SCOPE_TECH@)->Some_0),
        grant_allows(held, requested_grant(SCOPE_PRIVATE@)->Some_0) == held.contains(
            SCOPE_PRIVATE@,
        ),
{
    lemma_scopes_differ();
    let tech = Set::<Seq<char>>::empty().insert(SCOPE_TECH@);
    let private = Set::<Seq<char>>::empty().insert(SCOPE_PRIVATE@);
    assert(tech.contains(SCOPE_TECH@));
    assert(private.contains(SCOPE_PRIVATE@));
    lemma_scope_text_asks_for_the_grant(tech);
    lemma_scope_text_asks_for_the_grant(private);
    if !held.contains(SCOPE_TECH@) && !held.contains(SCOPE_PRIVATE@) {
        assert(held =~= Set::<Seq<char>>::empty());
    }
}

/// A refresh request that was taken.
pub struct Refresh {
    pub server: OAuthModel,
    pub request: TokenRequest,
    pub header: Option<Seq<char>>,
    pub now: u64,
    pub draws: TokenDraws,
}

/// Whether each grant but the first comes from refreshing with a token of the one
/// before it.
pub open spec fn is_refreshed(grants: Seq<GrantModel>, refreshes: Seq<Refresh>) -> bool {
    grants.len() == refreshes.len() + 1 && forall|i: int|
        0 <= i < refreshes.len() ==> {
            let r = #[trigger] refreshes[i];
            &&& presented(r.server, r.request).scopes == grants[i].scopes
            &&& refresh_exchange(r.server, r.request, r.header, r.now, r.draws).result == Ok::<
                _,
                OAuthError,
            >(grants[i + 1])
        }
}

/// What was narrowed stays narrowed: however often it is refreshed, tokens
/// without the private scope never lead to tokens with it.
pub proof fn lemma_narrowed_stays_narrowed(
    grants: Seq<GrantModel>,
    refreshes: Seq<Refresh>,
    i: int,
)
    requires
        is_refreshed(grants, refreshes),
        !grants[0].scopes.contains(SCOPE_PRIVATE@),
        0 <= i < grants.len(),
    ensures
        !grants[i].scopes.contains(SCOPE_PRIVATE@),
        access_of(grants[i].scopes) is Tech,
    decreases i,
{
    if i > 0 {
        lemma_narrowed_stays_narrowed(grants, refreshes, i - 1);
        let r = refreshes[i - 1];
        lemma_refreshing_never_widens(r.server, r.request, r.header, r.now, r.draws);
    }
}

/// A refresh token that has lapsed is refused, and nothing changes.
pub proof fn lemma_lapsed_refresh_token_is_refused(
    m: OAuthModel,
    request: TokenRequest,
    header: Option<Seq<char>>,
    now: u64,
    draws: TokenDraws,
)
    requires
        request.refresh_token matches Some(token) && (refresh_token_claims(
            m.key,
            token@,
        ) matches Some(claims) ==> claims.expires_at <= now),
        authenticated_client(
            m.key,
            text_option(request.client_id),
            text_option(request.client_secret),
            header,
        ) is Some,
    ensures
        refresh_exchange(m, request, header, now, draws) == refused(m, OAuthError::InvalidGrant),
        settled(m, refresh_exchange(m, request, header, now, draws)) == m,
{
}

/// Tokens of two grants differ where the bytes that were drawn for them do.
pub proof fn lemma_tokens_of_two_grants_differ(
    m: OAuthModel,
    e: ExchangeModel,
    g: GrantModel,
    now: u64,
    response: TokenResponse,
    n: OAuthModel,
    f: ExchangeModel,
    h: GrantModel,
    later: u64,
    other: TokenResponse,
)
    requires
        m.key == n.key,
        tokens_are_good(m, e, g, now, response),
        tokens_are_good(n, f, h, later, other),
    ensures
        g.access_id != h.access_id ==> response.access_token@ != other.access_token@,
        g.refresh_id != h.refresh_id ==> response.refresh_token@ != other.refresh_token@,
{
    let prefix = "ati_"@;
    let a = base64_url_of(g.access_id);
    let b = base64_url_of(h.access_id);
    assert((prefix + a).skip(prefix.len() as int) =~= a);
    assert((prefix + b).skip(prefix.len() as int) =~= b);
    let prefix = "rti_"@;
    let a = base64_url_of(g.refresh_id);
    let b = base64_url_of(h.refresh_id);
    assert((prefix + a).skip(prefix.len() as int) =~= a);
    assert((prefix + b).skip(prefix.len() as int) =~= b);
}

/// A refresh token that was used and is presented again is refused, and ends its
/// family: from then on no access token of the family is honoured, and the refresh
/// token that the first use gave is refused to its own client. Access tokens of
/// other families are honoured as before, and their refresh tokens are as active
/// as before.
pub proof fn lemma_reuse_ends_the_family_and_no_other(
    m: OAuthModel,
    request: TokenRequest,
    header: Option<Seq<char>>,
    now: u64,
    draws: TokenDraws,
    now_again: u64,
    draws_again: TokenDraws,
    next_request: TokenRequest,
    next_header: Option<Seq<char>>,
    later: u64,
    next_draws: TokenDraws,
    token: Seq<char>,
)
    requires
        refresh_exchange(m, request, header, now, draws).result is Ok,
        // The new token has another name than the old one.
        refresh_id_hash(m.key, presented(m, request).token_id) != refresh_id_hash(
            m.key,
            random_text("rti_"@, draws.refresh->Some_0@),
        ),
        // The old one is presented again before it lapses, and the generator
        // works.
        presented(m, request).expires_at > now_again,
        draws_again.access is Some,
        draws_again.refresh is Some,
    ensures
        ({
            let n = settled(m, refresh_exchange(m, request, header, now, draws));
            let e = refresh_exchange(n, request, header, now_again, draws_again);
            let k = settled(n, e);
            let family_id = presented(m, request).family_id;
            &&& e.result == Err::<GrantModel, _>(OAuthError::InvalidGrant)
            &&& !family_active(k.families, family_id, later)
            &&& presents(m, next_request, next_header, later) && presented(
                m,
                next_request,
            ).family_id == family_id && next_request.scope is None && next_draws.access is Some
                && next_draws.refresh is Some ==> refresh_exchange(
                k,
                next_request,
                next_header,
                later,
                next_draws,
            ).result == Err::<GrantModel, _>(OAuthError::InvalidGrant)
            &&& access_token_claims(m.key, token) matches Some(claims) ==> if claims.family_id
                == family_id {
                bearer_access(k, token, later) is None
            } else {
                now <= later && now_again <= later ==> bearer_access(k, token, later)
                    == bearer_access(m, token, later)
            }
            &&& now <= later && now_again <= later ==> forall|other: Seq<char>, hash: Seq<char>|
                other != family_id ==> #[trigger] rotation_granted(k.families, other, hash, later)
                    == rotation_granted(m.families, other, hash, later)
        }),
{
    let first = refresh_exchange(m, request, header, now, draws);
    let n = settled(m, first);
    let claims = presented(m, request);
    let shown = refresh_id_hash(m.key, claims.token_id);
    let next_hash = refresh_id_hash(m.key, random_text("rti_"@, draws.refresh->Some_0@));
    lemma_rotation_replaces_the_token(
        m.families,
        claims.family_id,
        shown,
        next_hash,
        after(now, m.refresh_ttl),
        now,
        now_again,
    );
    lemma_replay_revokes_the_family(
        n.families,
        claims.family_id,
        shown,
        refresh_id_hash(n.key, random_text("rti_"@, draws_again.refresh->Some_0@)),
        after(now_again, n.refresh_ttl),
        now_again,
        later,
    );
}

/// An access token is honoured exactly until it lapses, and as long as its family
/// is there, not revoked and not lapsed; in whatever state the server has come
/// to, as long as its key and resource are those of the time of issue. Its bearer
/// sees the private part where the private scope was granted, and only there.
pub proof fn lemma_issued_access_token(
    m: OAuthModel,
    e: ExchangeModel,
    g: GrantModel,
    issued: u64,
    response: TokenResponse,
    n: OAuthModel,
    now: u64,
)
    requires
        tokens_are_good(m, e, g, issued, response),
        byte_len(response.access_token@) <= MAX_FORM_VALUE_LENGTH,
        n.key == m.key,
        n.resource == m.resource,
    ensures
        bearer_access(n, response.access_token@, now) == (if now < after(issued, m.access_ttl)
            && n.families.dom().contains(g.family_id) && !n.families[g.family_id].revoked && now
            < n.families[g.family_id].expires_at {
            Some(
                if g.scopes.contains(SCOPE_PRIVATE@) {
                    AccessScope::Private
                } else {
                    AccessScope::Tech
                },
            )
        } else {
            None
        }),
{
}

/// An access token that was altered, or to which something was appended, is not
/// honoured.
pub proof fn lemma_tampered_access_token_is_refused(
    m: OAuthModel,
    token: Seq<char>,
    altered: Seq<char>,
    tail: Seq<char>,
    now: u64,
)
    requires
        access_token_claims(m.key, token) is Some,
        without_prefix(altered, ACCESS_TOKEN_PREFIX@) matches Some(text) ==> tampered(
            m.key,
            ACCESS_TOKEN_LABEL@,
            without_prefix(token, ACCESS_TOKEN_PREFIX@)->Some_0,
            text,
        ),
        tail.len() > 0,
    ensures
        bearer_access(m, altered, now) is None,
        bearer_access(m, token + tail, now) is None,
{
    lemma_tampered_token_opens_nothing(
        m.key,
        ACCESS_TOKEN_PREFIX@,
        ACCESS_TOKEN_LABEL@,
        token,
        altered,
        tail,
    );
}

/// A refresh token that was altered, or to which something was appended, is
/// refused, and nothing changes.
pub proof fn lemma_tampered_refresh_token_is_refused(
    m: OAuthModel,
    token: Seq<char>,
    tail: Seq<char>,
    request: TokenRequest,
    header: Option<Seq<char>>,
    now: u64,
    draws: TokenDraws,
)
    requires
        refresh_token_claims(m.key, token) is Some,
        request.refresh_token matches Some(shown) && (shown@ == token + tail && tail.len() > 0
            || (without_prefix(shown@, REFRESH_TOKEN_PREFIX@) matches Some(text) ==> tampered(
            m.key,
            REFRESH_TOKEN_LABEL@,
            without_prefix(token, REFRESH_TOKEN_PREFIX@)->Some_0,
            text,
        ))),
    ensures
        refresh_exchange(m, request, header, now, draws).result is Err,
        settled(m, refresh_exchange(m, request, header, now, draws)) == m,
{
    let shown = request.refresh_token->Some_0@;
    let text = without_prefix(token, REFRESH_TOKEN_PREFIX@)->Some_0;
    if shown == token + tail && tail.len() > 0 {
        lemma_prefix_of_appended(token, REFRESH_TOKEN_PREFIX@, tail);
        lemma_appended_is_tampered(m.key, REFRESH_TOKEN_LABEL@, text, tail);
    }
    if without_prefix(shown, REFRESH_TOKEN_PREFIX@) is Some {
        lemma_tampered_opens_nothing(
            m.key,
            REFRESH_TOKEN_LABEL@,
            text,
            without_prefix(shown, REFRESH_TOKEN_PREFIX@)->Some_0,
        );
    }
}

/// A refresh token is no access token.
pub proof fn lemma_refresh_token_is_no_bearer_token(m: OAuthModel, token: Seq<char>, now: u64)
    requires
        refresh_token_claims(m.key, token) is Some,
    ensures
        bearer_access(m, token, now) is None,
{
    reveal_strlit("at_");
    reveal_strlit("rt_");
    assert(REFRESH_TOKEN_PREFIX@.is_prefix_of(token));
    assert(token[0] == REFRESH_TOKEN_PREFIX@[0]);
    assert(ACCESS_TOKEN_PREFIX@[0] != REFRESH_TOKEN_PREFIX@[0]);
}

/// An access token for another resource is not honoured.
pub proof fn lemma_token_of_another_resource_is_refused(m: OAuthModel, token: Seq<char>, now: u64)
    requires
        access_token_claims(m.key, token) matches Some(claims) ==> claims.audience != m.resource,
    ensures
        bearer_access(m, token, now) is None,
{
}

/// A client identifier that was altered, or to which something was appended, is
/// no client's.
pub proof fn lemma_tampered_client_identifier_is_refused(
    key: Seq<u8>,
    client_id: Seq<char>,
    altered: Seq<char>,
    tail: Seq<char>,
)
    requires
        registered_client(key, client_id) is Some,
        without_prefix(altered, CLIENT_ID_PREFIX@) matches Some(text) ==> tampered(
            key,
            CLIENT_LABEL@,
            without_prefix(client_id, CLIENT_ID_PREFIX@)->Some_0,
            text,
        ),
        tail.len() > 0,
    ensures
        registered_client(key, altered) is None,
        registered_client(key, client_id + tail) is None,
{
    lemma_tampered_token_opens_nothing(
        key,
        CLIENT_ID_PREFIX@,
        CLIENT_LABEL@,
        client_id,
        altered,
        tail,
    );
}

} // verus!
