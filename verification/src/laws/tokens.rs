//! What is written into tokens, codes and the state of their families.
use vstd::prelude::*;
use vstd::utf8::encode_utf8;

use crate::auth::AccessScope;
use crate::crypto::{base64_url_of, hmac_sha256_of, is_base64_url_char, sha256_of};
use crate::json::{
    field_value, holds, json_bytes, lemma_holds, listed_texts, record_fields, text_list, JsonTree,
};
use crate::oauth::OAuthError;
use crate::oauth::claims::{
    access_fields, access_in, access_names, access_tree, approval_fields, approval_in,
    approval_names, approval_tree, client_id_fields, client_id_in, client_id_names, client_id_tree,
    lemma_access_names, lemma_approval_names, lemma_client_id_names, lemma_refresh_names,
    refresh_fields, refresh_in, refresh_names, refresh_tree, AccessModel, ApprovalModel,
    ClientAuthenticationMethod, ClientIdModel, RefreshModel,
};
use crate::oauth::client::{registered_client, secret_of, ClientModel};
use crate::oauth::families::{
    after_rotation, family_active, family_fields, family_in, lemma_family_names, living,
    named_families, opened_state, rotation_granted, state_fields, stored_families, with_family,
    FamilyModel, StateDirectory, StateFile,
};
use crate::oauth::flows::{
    access_token_claims, bearer_access, code_redeemable, consent_request, fingerprint_of,
    granted_access_claims, granted_access_token, granted_refresh_claims, granted_refresh_token,
    hash_of, query_acceptable, refresh_id_hash, refresh_token_claims, refresh_usable,
    AuthorizationQuery, CodeModel, GrantModel, OAuthModel,
};
use crate::oauth::pkce::{answers_challenge, is_verifier_char};
use crate::oauth::scope::grantable;
use crate::oauth::signing::{
    mac_of, signed, ACCESS_TOKEN_LABEL, APPROVAL_LABEL, CLIENT_BINDING_LABEL, CLIENT_LABEL,
    CLIENT_SECRET_LABEL, FINGERPRINT_LABEL, REFRESH_ID_LABEL, REFRESH_TOKEN_LABEL, TOKEN_HASH_LABEL,
};
use crate::order::{ascending, lemma_ascending};
use crate::scan::words;

verus! {

proof fn lemma_held_field(fields: Seq<(Seq<char>, JsonTree)>, name: Seq<char>, value: JsonTree)
    requires
        holds(JsonTree::Object(fields), name, value),
    ensures
        field_value(fields, name) == Some(value),
    decreases fields.len(),
{
    assert(fields.contains((name, value)));
    let i = choose|i: int| 0 <= i < fields.len() && fields[i] == (name, value);
    assert(fields[fields.len() - 1] == fields.last());
    if fields.last().0 != name {
        let rest = fields.drop_last();
        assert(rest[i] == (name, value));
        assert forall|j: int| 0 <= j < rest.len() && (#[trigger] rest[j]).0 == name implies rest[j].1
            == value by {
            assert(fields[j] == rest[j]);
        }
        lemma_held_field(rest, name, value);
    }
}

proof fn lemma_text_list_is_listed(list: Seq<Seq<char>>)
    ensures
        listed_texts(text_list(list)) == Some(list),
{
    let items = list.map_values(|s: Seq<char>| JsonTree::Text(s));
    assert(items.map_values(|t: JsonTree| t->Text_0) =~= list);
}

/// What the claims of a request for consent say under each name.
pub open spec fn tells_approval(tree: JsonTree, c: ApprovalModel) -> bool {
    &&& holds(tree, "client_id"@, JsonTree::Text(c.client_id))
    &&& holds(tree, "redirect_uri"@, JsonTree::Text(c.redirect_uri))
    &&& exists|list: Seq<Seq<char>>| #[trigger]
        holds(tree, "requested_scopes"@, text_list(list)) && list.to_set() == c.requested_scopes
    &&& match c.state {
        Some(text) => holds(tree, "state"@, JsonTree::Text(text)),
        None => holds(tree, "state"@, JsonTree::Null),
    }
    &&& holds(tree, "resource"@, JsonTree::Text(c.resource))
    &&& holds(tree, "code_challenge"@, JsonTree::Text(c.code_challenge))
    &&& holds(tree, "expires_at"@, JsonTree::Number(c.expires_at))
}

/// The claims of a request for consent are written each under its own name.
pub proof fn lemma_approval_is_written_by_name(c: ApprovalModel)
    requires
        c.requested_scopes.finite(),
    ensures
        tells_approval(approval_tree(c), c),
{
    lemma_approval_names(c);
    let f = approval_fields(c);
    lemma_ascending(c.requested_scopes);
    lemma_holds(f, 0);
    lemma_holds(f, 1);
    lemma_holds(f, 2);
    lemma_holds(f, 3);
    lemma_holds(f, 4);
    lemma_holds(f, 5);
    lemma_holds(f, 6);
    assert(holds(JsonTree::Object(f), "requested_scopes"@, text_list(ascending(c.requested_scopes))));
}

/// The claims of a request for consent are read each by its own name, wherever they stand.
pub proof fn lemma_approval_is_read_by_name(fields: Seq<(Seq<char>, JsonTree)>, c: ApprovalModel)
    requires
        tells_approval(JsonTree::Object(fields), c),
    ensures
        approval_in(JsonTree::Object(fields)) == Some(c),
{
    lemma_held_field(fields, "client_id"@, JsonTree::Text(c.client_id));
    lemma_held_field(fields, "redirect_uri"@, JsonTree::Text(c.redirect_uri));
    let list = choose|list: Seq<Seq<char>>| #[trigger]
        holds(JsonTree::Object(fields), "requested_scopes"@, text_list(list)) && list.to_set() == c.requested_scopes;
    lemma_held_field(fields, "requested_scopes"@, text_list(list));
    lemma_text_list_is_listed(list);
    match c.state {
        Some(text) => lemma_held_field(fields, "state"@, JsonTree::Text(text)),
        None => lemma_held_field(fields, "state"@, JsonTree::Null),
    }
    lemma_held_field(fields, "resource"@, JsonTree::Text(c.resource));
    lemma_held_field(fields, "code_challenge"@, JsonTree::Text(c.code_challenge));
    lemma_held_field(fields, "expires_at"@, JsonTree::Number(c.expires_at));
}

/// What the claims of a access token say under each name.
pub open spec fn tells_access(tree: JsonTree, c: AccessModel) -> bool {
    &&& holds(tree, "version"@, JsonTree::Number(c.version as u64))
    &&& holds(tree, "token_id"@, JsonTree::Text(c.token_id))
    &&& holds(tree, "family_id"@, JsonTree::Text(c.family_id))
    &&& exists|list: Seq<Seq<char>>| #[trigger]
        holds(tree, "scopes"@, text_list(list)) && list.to_set() == c.scopes
    &&& holds(tree, "audience"@, JsonTree::Text(c.audience))
    &&& holds(tree, "issued_at"@, JsonTree::Number(c.issued_at))
    &&& holds(tree, "expires_at"@, JsonTree::Number(c.expires_at))
}

/// The claims of a access token are written each under its own name.
pub proof fn lemma_access_is_written_by_name(c: AccessModel)
    requires
        c.scopes.finite(),
    ensures
        tells_access(access_tree(c), c),
{
    lemma_access_names(c);
    let f = access_fields(c);
    lemma_ascending(c.scopes);
    lemma_holds(f, 0);
    lemma_holds(f, 1);
    lemma_holds(f, 2);
    lemma_holds(f, 3);
    lemma_holds(f, 4);
    lemma_holds(f, 5);
    lemma_holds(f, 6);
    assert(holds(JsonTree::Object(f), "scopes"@, text_list(ascending(c.scopes))));
}

/// The claims of a access token are read each by its own name, wherever they stand.
pub proof fn lemma_access_is_read_by_name(fields: Seq<(Seq<char>, JsonTree)>, c: AccessModel)
    requires
        tells_access(JsonTree::Object(fields), c),
    ensures
        access_in(JsonTree::Object(fields)) == Some(c),
{
    lemma_held_field(fields, "version"@, JsonTree::Number(c.version as u64));
    lemma_held_field(fields, "token_id"@, JsonTree::Text(c.token_id));
    lemma_held_field(fields, "family_id"@, JsonTree::Text(c.family_id));
    let list = choose|list: Seq<Seq<char>>| #[trigger]
        holds(JsonTree::Object(fields), "scopes"@, text_list(list)) && list.to_set() == c.scopes;
    lemma_held_field(fields, "scopes"@, text_list(list));
    lemma_text_list_is_listed(list);
    lemma_held_field(fields, "audience"@, JsonTree::Text(c.audience));
    lemma_held_field(fields, "issued_at"@, JsonTree::Number(c.issued_at));
    lemma_held_field(fields, "expires_at"@, JsonTree::Number(c.expires_at));
}

/// What the claims of a refresh token say under each name.
pub open spec fn tells_refresh(tree: JsonTree, c: RefreshModel) -> bool {
    &&& holds(tree, "version"@, JsonTree::Number(c.version as u64))
    &&& holds(tree, "family_id"@, JsonTree::Text(c.family_id))
    &&& holds(tree, "token_id"@, JsonTree::Text(c.token_id))
    &&& holds(tree, "client_binding"@, JsonTree::Text(c.client_binding))
    &&& exists|list: Seq<Seq<char>>| #[trigger]
        holds(tree, "scopes"@, text_list(list)) && list.to_set() == c.scopes
    &&& holds(tree, "audience"@, JsonTree::Text(c.audience))
    &&& holds(tree, "issued_at"@, JsonTree::Number(c.issued_at))
    &&& holds(tree, "expires_at"@, JsonTree::Number(c.expires_at))
}

/// The claims of a refresh token are written each under its own name.
pub proof fn lemma_refresh_is_written_by_name(c: RefreshModel)
    requires
        c.scopes.finite(),
    ensures
        tells_refresh(refresh_tree(c), c),
{
    lemma_refresh_names(c);
    let f = refresh_fields(c);
    lemma_ascending(c.scopes);
    lemma_holds(f, 0);
    lemma_holds(f, 1);
    lemma_holds(f, 2);
    lemma_holds(f, 3);
    lemma_holds(f, 4);
    lemma_holds(f, 5);
    lemma_holds(f, 6);
    lemma_holds(f, 7);
    assert(holds(JsonTree::Object(f), "scopes"@, text_list(ascending(c.scopes))));
}

/// The claims of a refresh token are read each by its own name, wherever they stand.
pub proof fn lemma_refresh_is_read_by_name(fields: Seq<(Seq<char>, JsonTree)>, c: RefreshModel)
    requires
        tells_refresh(JsonTree::Object(fields), c),
    ensures
        refresh_in(JsonTree::Object(fields)) == Some(c),
{
    lemma_held_field(fields, "version"@, JsonTree::Number(c.version as u64));
    lemma_held_field(fields, "family_id"@, JsonTree::Text(c.family_id));
    lemma_held_field(fields, "token_id"@, JsonTree::Text(c.token_id));
    lemma_held_field(fields, "client_binding"@, JsonTree::Text(c.client_binding));
    let list = choose|list: Seq<Seq<char>>| #[trigger]
        holds(JsonTree::Object(fields), "scopes"@, text_list(list)) && list.to_set() == c.scopes;
    lemma_held_field(fields, "scopes"@, text_list(list));
    lemma_text_list_is_listed(list);
    lemma_held_field(fields, "audience"@, JsonTree::Text(c.audience));
    lemma_held_field(fields, "issued_at"@, JsonTree::Number(c.issued_at));
    lemma_held_field(fields, "expires_at"@, JsonTree::Number(c.expires_at));
}

/// What the claims of a client identifier say under each name.
pub open spec fn tells_client_id(tree: JsonTree, c: ClientIdModel) -> bool {
    &&& holds(tree, "version"@, JsonTree::Number(c.version as u64))
    &&& holds(tree, "redirect_uris"@, text_list(c.redirect_uris))
    &&& c.token_endpoint_auth_method is Public ==> holds(tree, "token_endpoint_auth_method"@, JsonTree::Text("none"@))
    &&& c.token_endpoint_auth_method is ClientSecretPost ==> holds(
        tree,
        "token_endpoint_auth_method"@,
        JsonTree::Text("client_secret_post"@),
    )
    &&& c.token_endpoint_auth_method is ClientSecretBasic ==> holds(
        tree,
        "token_endpoint_auth_method"@,
        JsonTree::Text("client_secret_basic"@),
    )
    &&& exists|list: Seq<Seq<char>>| #[trigger]
        holds(tree, "scopes"@, text_list(list)) && list.to_set() == c.scopes
    &&& holds(tree, "issued_at"@, JsonTree::Number(c.issued_at))
}

/// The claims of a client identifier are written each under its own name.
pub proof fn lemma_client_id_is_written_by_name(c: ClientIdModel)
    requires
        c.scopes.finite(),
    ensures
        tells_client_id(client_id_tree(c), c),
{
    lemma_client_id_names(c);
    let f = client_id_fields(c);
    lemma_ascending(c.scopes);
    lemma_holds(f, 0);
    lemma_holds(f, 1);
    lemma_holds(f, 2);
    lemma_holds(f, 3);
    lemma_holds(f, 4);
    assert(holds(JsonTree::Object(f), "scopes"@, text_list(ascending(c.scopes))));
}

/// The claims of a client identifier are read each by its own name, wherever they stand.
pub proof fn lemma_client_id_is_read_by_name(fields: Seq<(Seq<char>, JsonTree)>, c: ClientIdModel)
    requires
        tells_client_id(JsonTree::Object(fields), c),
    ensures
        client_id_in(JsonTree::Object(fields)) == Some(c),
{
    lemma_held_field(fields, "version"@, JsonTree::Number(c.version as u64));
    lemma_held_field(fields, "redirect_uris"@, text_list(c.redirect_uris));
    lemma_text_list_is_listed(c.redirect_uris);
    reveal_strlit("none");
    reveal_strlit("client_secret_post");
    reveal_strlit("client_secret_basic");
    assert("none"@.len() == 4 && "client_secret_post"@.len() == 18 && "client_secret_basic"@.len()
        == 19);
    match c.token_endpoint_auth_method {
        ClientAuthenticationMethod::Public => lemma_held_field(
            fields,
            "token_endpoint_auth_method"@,
            JsonTree::Text("none"@),
        ),
        ClientAuthenticationMethod::ClientSecretPost => lemma_held_field(
            fields,
            "token_endpoint_auth_method"@,
            JsonTree::Text("client_secret_post"@),
        ),
        ClientAuthenticationMethod::ClientSecretBasic => lemma_held_field(
            fields,
            "token_endpoint_auth_method"@,
            JsonTree::Text("client_secret_basic"@),
        ),
    }
    let list = choose|list: Seq<Seq<char>>| #[trigger]
        holds(JsonTree::Object(fields), "scopes"@, text_list(list)) && list.to_set() == c.scopes;
    lemma_held_field(fields, "scopes"@, text_list(list));
    lemma_text_list_is_listed(list);
    lemma_held_field(fields, "issued_at"@, JsonTree::Number(c.issued_at));
}

/// What is stored of a family under each name.
pub open spec fn tells_family(tree: JsonTree, f: FamilyModel) -> bool {
    &&& holds(tree, "active_token_hash"@, JsonTree::Text(f.active_token_hash))
    &&& holds(tree, "expires_at"@, JsonTree::Number(f.expires_at))
    &&& holds(tree, "revoked"@, JsonTree::Bool(f.revoked))
}

/// A family is stored and read with each of its parts under its own name.
pub proof fn lemma_family_is_stored_by_name(
    f: FamilyModel,
    fields: Seq<(Seq<char>, JsonTree)>,
)
    ensures
        tells_family(JsonTree::Object(family_fields(f)), f),
        tells_family(JsonTree::Object(fields), f) ==> family_in(JsonTree::Object(fields)) == Some(f),
{
    lemma_family_names(f);
    lemma_holds(family_fields(f), 0);
    lemma_holds(family_fields(f), 1);
    lemma_holds(family_fields(f), 2);
    if tells_family(JsonTree::Object(fields), f) {
        lemma_held_field(fields, "active_token_hash"@, JsonTree::Text(f.active_token_hash));
        lemma_held_field(fields, "expires_at"@, JsonTree::Number(f.expires_at));
        lemma_held_field(fields, "revoked"@, JsonTree::Bool(f.revoked));
    }
}

/// The state is stored as version 1, with each family under its name.
pub proof fn lemma_state_is_stored_by_name(entries: Seq<(Seq<char>, FamilyModel)>, k: int)
    requires
        0 <= k < entries.len(),
    ensures
        ({
            let tree = JsonTree::Object(state_fields(entries));
            &&& holds(tree, "version"@, JsonTree::Number(1))
            &&& exists|inner: Seq<(Seq<char>, JsonTree)>|
                {
                    &&& #[trigger] holds(tree, "families"@, JsonTree::Object(inner))
                    &&& inner.len() == entries.len()
                    &&& inner[k].0 == entries[k].0
                    &&& tells_family(inner[k].1, entries[k].1)
                }
        }),
{
    reveal_strlit("version");
    reveal_strlit("families");
    assert("version"@.len() == 7 && "families"@.len() == 8);
    let f = state_fields(entries);
    lemma_holds(f, 0);
    lemma_holds(f, 1);
    lemma_family_is_stored_by_name(entries[k].1, f);
    let inner = named_families(entries);
    assert(holds(JsonTree::Object(f), "families"@, JsonTree::Object(inner)));
}

/// The characters of a verifier: letters, digits, and four marks.
pub open spec fn is_unreserved(c: char) -> bool {
    ||| 'a' <= c <= 'z'
    ||| 'A' <= c <= 'Z'
    ||| '0' <= c <= '9'
    ||| c == '-' || c == '.' || c == '_' || c == '~'
}

/// A verifier answers a challenge where it has 43 to 128 characters of its kind and
/// the challenge is its SHA-256 digest in URL-safe base64; and never another.
pub proof fn lemma_who_answers_a_challenge(verifier: Seq<char>, challenge: Seq<char>)
    ensures
        answers_challenge(verifier, challenge) <==> {
            &&& 43 <= encode_utf8(verifier).len() <= 128
            &&& forall|i: int| 0 <= i < verifier.len() ==> is_unreserved(#[trigger] verifier[i])
            &&& challenge == base64_url_of(sha256_of(encode_utf8(verifier)))
        },
{
    if forall|i: int| 0 <= i < verifier.len() ==> is_unreserved(#[trigger] verifier[i]) {
        assert forall|i: int| 0 <= i < verifier.len() implies is_verifier_char(
            #[trigger] verifier[i],
        ) by {
            assert(is_unreserved(verifier[i]));
        }
    }
    if forall|i: int| 0 <= i < verifier.len() ==> is_verifier_char(#[trigger] verifier[i]) {
        assert forall|i: int| 0 <= i < verifier.len() implies is_unreserved(
            #[trigger] verifier[i],
        ) by {
            assert(is_verifier_char(verifier[i]));
        }
    }
}

/// A code is redeemed for what it was given out for: by its client, with the redirect
/// URI and the resource of the request, by who can answer its challenge, and before
/// it lapses.
pub proof fn lemma_who_redeems_a_code(
    record: CodeModel,
    client_id: Seq<char>,
    redirect_uri: Seq<char>,
    resource: Seq<char>,
    verifier: Seq<char>,
    now: u64,
)
    ensures
        code_redeemable(record, client_id, redirect_uri, resource, verifier, now) <==> {
            &&& now < record.expires_at
            &&& client_id == record.client_id
            &&& redirect_uri == record.redirect_uri
            &&& resource == record.resource
            &&& answers_challenge(verifier, record.code_challenge)
        },
{
}

/// What a request for consent holds: what the query said, for five minutes. Where the
/// query names no scopes it asks for all that the client is registered for; where it
/// names some, for those, as far as the client may have them.
pub proof fn lemma_what_consent_is_asked_for(
    m: OAuthModel,
    query: AuthorizationQuery,
    now: u64,
    client: ClientModel,
)
    requires
        registered_client(m.key, query.client_id@) == Some(client),
        now + 300 <= u64::MAX,
    ensures
        match consent_request(m, query, now) {
            Ok(request) => {
                &&& request.client_id == query.client_id@
                &&& request.redirect_uri == query.redirect_uri@
                &&& client.redirect_uris.contains(query.redirect_uri@)
                &&& request.resource == query.resource@
                &&& request.resource == m.resource
                &&& request.code_challenge == query.code_challenge@
                &&& request.expires_at == now + 300
                &&& query.state is Some ==> request.state == Some(query.state->Some_0@)
                &&& query.state is None ==> request.state is None
                &&& query.scope is None ==> request.requested_scopes == client.scopes
                &&& query.scope is Some ==> request.requested_scopes == words(
                    query.scope->Some_0@,
                ).to_set()
                &&& query.response_type@ == "code"@
                &&& query.code_challenge_method@ == "S256"@
                &&& forall|scope: Seq<char>| #[trigger]
                    request.requested_scopes.contains(scope) ==> client.scopes.contains(scope) || (
                    scope == "kb:tech"@ && client.scopes.contains("kb:private"@))
            },
            Err(error) => {
                ||| error is InvalidAuthorizationRequest
                ||| error is InvalidScope
            },
        },
{
}

/// An authorization query is taken up exactly where it asks for a code in the one way
/// there is, for this resource, with a challenge of 43 characters, and with nothing
/// in it that is too long.
pub proof fn lemma_which_queries_are_taken_up(m: OAuthModel, query: AuthorizationQuery)
    ensures
        query_acceptable(m, query) <==> {
            &&& query.response_type@ == "code"@
            &&& query.code_challenge_method@ == "S256"@
            &&& query.resource@ == m.resource
            &&& query.client_id@.len() >= 1
            &&& encode_utf8(query.client_id@).len() <= 8_192
            &&& encode_utf8(query.redirect_uri@).len() <= 8_192
            &&& encode_utf8(query.code_challenge@).len() == 43
            &&& forall|i: int|
                0 <= i < query.code_challenge@.len() ==> is_unreserved(
                    #[trigger] query.code_challenge@[i],
                ) && query.code_challenge@[i] != '.' && query.code_challenge@[i] != '~'
            &&& match query.state {
                Some(state) => encode_utf8(state@).len() <= 2_048,
                None => true,
            }
        },
{
    let c = query.code_challenge@;
    if forall|i: int| 0 <= i < c.len() ==> is_base64_url_char(#[trigger] c[i]) {
        assert forall|i: int| 0 <= i < c.len() implies is_unreserved(#[trigger] c[i]) && c[i] != '.'
            && c[i] != '~' by {
            assert(is_base64_url_char(c[i]));
        }
    }
    if forall|i: int|
        0 <= i < c.len() ==> is_unreserved(#[trigger] c[i]) && c[i] != '.' && c[i] != '~' {
        assert forall|i: int| 0 <= i < c.len() implies is_base64_url_char(#[trigger] c[i]) by {
            assert(is_unreserved(c[i]));
        }
    }
}

/// How tokens look: an access token begins with `at_`, a refresh token with `rt_`, and
/// neither can be taken for the other.
pub proof fn lemma_how_tokens_look(m: OAuthModel, g: GrantModel, now: u64)
    ensures
        "at_"@.is_prefix_of(granted_access_token(m, g, now)),
        "rt_"@.is_prefix_of(granted_refresh_token(m, g, now)),
        access_token_claims(m.key, granted_refresh_token(m, g, now)) is None,
        refresh_token_claims(m.key, granted_access_token(m, g, now)) is None,
{
    reveal_strlit("at_");
    reveal_strlit("rt_");
    let access = granted_access_token(m, g, now);
    let refresh = granted_refresh_token(m, g, now);
    assert("at_"@ =~= access.take(3));
    assert("rt_"@ =~= refresh.take(3));
    assert("at_"@[0] == 'a' && "rt_"@[0] == 'r');
    assert(refresh[0] == 'r' && access[0] == 'a');
}

/// What is granted on a code or a refresh token: tokens for the client that asked, for
/// the resource of the server, issued now, under names drawn for them.
pub proof fn lemma_what_tokens_are_granted(m: OAuthModel, g: GrantModel, now: u64)
    requires
        now + m.access_ttl <= u64::MAX,
        now + m.refresh_ttl <= u64::MAX,
    ensures
        ({
            let access = granted_access_claims(m, g, now);
            let refresh = granted_refresh_claims(m, g, now);
            &&& access.version == 1 && refresh.version == 1
            &&& access.audience == m.resource && refresh.audience == m.resource
            &&& access.scopes == g.scopes && refresh.scopes == g.scopes
            &&& access.family_id == g.family_id && refresh.family_id == g.family_id
            &&& access.issued_at == now && refresh.issued_at == now
            &&& access.expires_at == now + m.access_ttl
            &&& refresh.expires_at == now + m.refresh_ttl
            &&& access.token_id == "ati_"@ + base64_url_of(g.access_id)
            &&& refresh.token_id == "rti_"@ + base64_url_of(g.refresh_id)
            &&& refresh_usable(m, refresh, g.client_id, now) <==> grantable(g.scopes)
                && m.refresh_ttl > 0
        }),
{
}

/// A token lapses when its time has come, and not a second later; so does its family.
pub proof fn lemma_when_a_token_lapses(
    m: OAuthModel,
    token: Seq<char>,
    claims: AccessModel,
    now: u64,
)
    requires
        access_token_claims(m.key, token) == Some(claims),
        bearer_access(m, token, now) is Some,
    ensures
        now < claims.expires_at,
        m.families.dom().contains(claims.family_id),
        !m.families[claims.family_id].revoked,
        now < m.families[claims.family_id].expires_at,
        claims.audience == m.resource,
        claims.scopes.contains("kb:private"@) <==> bearer_access(m, token, now) == Some(
            AccessScope::Private,
        ),
        encode_utf8(token).len() <= 8_192,
{
}

/// The labels under which codes are made, each for a purpose of its own.
pub open spec fn labels() -> Seq<Seq<char>> {
    seq![
        ACCESS_TOKEN_LABEL@,
        REFRESH_TOKEN_LABEL@,
        APPROVAL_LABEL@,
        CLIENT_LABEL@,
        CLIENT_SECRET_LABEL@,
        TOKEN_HASH_LABEL@,
        REFRESH_ID_LABEL@,
        CLIENT_BINDING_LABEL@,
        FINGERPRINT_LABEL@,
    ]
}

/// No two purposes share a label, so that what was signed for one cannot be taken for
/// another.
pub proof fn lemma_labels_differ(i: int, j: int)
    requires
        0 <= i < j < labels().len(),
    ensures
        labels()[i] != labels()[j],
        labels().len() == 9,
{
    reveal_strlit("engram-mcp/oauth/access-token/v1");
    reveal_strlit("engram-mcp/oauth/refresh-token/v1");
    reveal_strlit("engram-mcp/oauth/approval-request/v1");
    reveal_strlit("engram-mcp/oauth/dynamic-client/v1");
    reveal_strlit("engram-mcp/oauth/dynamic-client-secret/v1");
    reveal_strlit("engram-mcp/oauth/token-hash/v1");
    reveal_strlit("engram-mcp/oauth/refresh-token-id-hash/v1");
    reveal_strlit("engram-mcp/oauth/refresh-client-binding/v1");
    reveal_strlit("engram-mcp/oauth/audit-fingerprint/v1");
    assert(ACCESS_TOKEN_LABEL@.len() == 32);
    assert(REFRESH_TOKEN_LABEL@.len() == 33);
    assert(APPROVAL_LABEL@.len() == 36);
    assert(CLIENT_LABEL@.len() == 34);
    assert(CLIENT_SECRET_LABEL@.len() == 41);
    assert(TOKEN_HASH_LABEL@.len() == 30);
    assert(REFRESH_ID_LABEL@.len() == 41);
    assert(CLIENT_BINDING_LABEL@.len() == 42);
    assert(FINGERPRINT_LABEL@.len() == 37);
    assert(CLIENT_SECRET_LABEL@[17] == 'd' && REFRESH_ID_LABEL@[17] == 'r');
}

/// What a code is made of: the label, a zero byte, and the value. Label and value can
/// be told from it: no value under one label gives what another gives under another.
pub proof fn lemma_codes_are_made_of_label_and_value(
    key: Seq<u8>,
    label: Seq<char>,
    value: Seq<u8>,
    other_label: Seq<char>,
    other: Seq<u8>,
)
    requires
        !encode_utf8(label).contains(0u8),
        !encode_utf8(other_label).contains(0u8),
    ensures
        mac_of(key, label, value) == hmac_sha256_of(key, encode_utf8(label) + seq![0u8] + value),
        encode_utf8(label) + seq![0u8] + value == encode_utf8(other_label) + seq![0u8] + other
            ==> label == other_label && value == other,
{
    let (a, b) = (encode_utf8(label), encode_utf8(other_label));
    let x = a + seq![0u8] + value;
    let y = b + seq![0u8] + other;
    if x == y {
        if a.len() < b.len() {
            assert(y[a.len() as int] == b[a.len() as int]);
            assert(x[a.len() as int] == 0u8);
            assert(b.contains(b[a.len() as int]));
        } else if b.len() < a.len() {
            assert(x[b.len() as int] == a[b.len() as int]);
            assert(y[b.len() as int] == 0u8);
            assert(a.contains(a[b.len() as int]));
        }
        assert(a =~= x.take(a.len() as int));
        assert(b =~= y.take(b.len() as int));
        assert(value =~= x.skip(a.len() as int + 1));
        assert(other =~= y.skip(b.len() as int + 1));
        vstd::utf8::encode_utf8_decode_utf8(label);
        vstd::utf8::encode_utf8_decode_utf8(other_label);
    }
}

/// How a signed value looks: its JSON text and the code of that text, both in URL-safe
/// base64, with a dot between them.
pub proof fn lemma_how_signed_values_look(key: Seq<u8>, label: Seq<char>, tree: JsonTree)
    ensures
        signed(key, label, tree) == base64_url_of(json_bytes(tree)) + seq!['.'] + base64_url_of(
            hmac_sha256_of(key, encode_utf8(label) + seq![0u8] + json_bytes(tree)),
        ),
{
}

/// The secret of a client begins with `dcs_` and is a code of its identifier; so is
/// what binds a refresh token to it, under another label.
pub proof fn lemma_secrets_of_clients(key: Seq<u8>, client_id: Seq<char>)
    ensures
        secret_of(key, client_id) == "dcs_"@ + base64_url_of(
            hmac_sha256_of(
                key,
                encode_utf8("engram-mcp/oauth/dynamic-client-secret/v1"@) + seq![0u8] + encode_utf8(
                    client_id,
                ),
            ),
        ),
        refresh_id_hash(key, client_id) == base64_url_of(
            hmac_sha256_of(
                key,
                encode_utf8("engram-mcp/oauth/refresh-token-id-hash/v1"@) + seq![0u8] + encode_utf8(
                    client_id,
                ),
            ),
        ),
        hash_of(key, client_id) == hmac_sha256_of(
            key,
            encode_utf8("engram-mcp/oauth/token-hash/v1"@) + seq![0u8] + encode_utf8(client_id),
        ),
        fingerprint_of(key, client_id) == hmac_sha256_of(
            key,
            encode_utf8("engram-mcp/oauth/audit-fingerprint/v1"@) + seq![0u8] + hash_of(
                key,
                client_id,
            ),
        ).take(8),
{
}

/// What of the families is kept: those that have not lapsed, as they are.
pub proof fn lemma_which_families_live(
    families: Map<Seq<char>, FamilyModel>,
    family_id: Seq<char>,
    now: u64,
)
    ensures
        living(families, now).dom().contains(family_id) <==> families.dom().contains(family_id)
            && now < families[family_id].expires_at,
        living(families, now).dom().contains(family_id) ==> living(families, now)[family_id]
            == families[family_id],
        family_active(families, family_id, now) <==> living(families, now).dom().contains(family_id)
            && !families[family_id].revoked,
{
}

/// What presenting a refresh token does to its family. The token that is active gives
/// way to the next, and the family lives on for the new time; any other token of the
/// family revokes it, and it lapses when it would have.
pub proof fn lemma_what_presenting_a_token_does(
    families: Map<Seq<char>, FamilyModel>,
    family_id: Seq<char>,
    presented: Seq<char>,
    next: Seq<char>,
    expires_at: u64,
    now: u64,
    other: Seq<char>,
)
    requires
        families.dom().contains(family_id),
        now < families[family_id].expires_at,
    ensures
        ({
            let family = families[family_id];
            let after = after_rotation(families, family_id, presented, next, expires_at, now);
            &&& rotation_granted(families, family_id, presented, now) <==> !family.revoked
                && presented == family.active_token_hash
            &&& after.dom().contains(family_id)
            &&& !family.revoked && presented == family.active_token_hash ==> {
                &&& after[family_id].active_token_hash == next
                &&& after[family_id].expires_at == expires_at
                &&& !after[family_id].revoked
            }
            &&& family.revoked || presented != family.active_token_hash ==> {
                &&& after[family_id].active_token_hash == family.active_token_hash
                &&& after[family_id].expires_at == family.expires_at
                &&& after[family_id].revoked
            }
            &&& other != family_id ==> (after.dom().contains(other) <==> families.dom().contains(
                other,
            ) && now < families[other].expires_at)
        }),
{
}

/// What the server starts with: nothing where no state was stored, what was stored
/// where it can be read, and not at all where it cannot: it is an error of the
/// configuration that the state is no regular file, larger than a mebibyte or
/// malformed.
pub proof fn lemma_what_the_server_starts_with(directory: StateDirectory)
    ensures
        directory is Unavailable ==> opened_state(directory) == Err::<
            Map<Seq<char>, FamilyModel>,
            _,
        >(OAuthError::Internal),
        directory is NotADirectory ==> opened_state(directory) == Err::<
            Map<Seq<char>, FamilyModel>,
            _,
        >(OAuthError::InvalidConfiguration),
        directory matches StateDirectory::Ready(file) ==> {
            &&& file is Missing ==> opened_state(directory) == Ok::<_, OAuthError>(
                Map::<Seq<char>, FamilyModel>::empty(),
            )
            &&& file is Unavailable ==> opened_state(directory) == Err::<
                Map<Seq<char>, FamilyModel>,
                _,
            >(OAuthError::Internal)
            &&& file matches StateFile::Found { regular, len, contents } ==> {
                &&& !regular || len > 1_048_576 ==> opened_state(directory) == Err::<
                    Map<Seq<char>, FamilyModel>,
                    _,
                >(OAuthError::InvalidConfiguration)
                &&& regular && len <= 1_048_576 && contents is None ==> opened_state(directory)
                    == Err::<Map<Seq<char>, FamilyModel>, _>(OAuthError::Internal)
                &&& regular && len <= 1_048_576 && contents is Some ==> opened_state(directory) == (
                match stored_families(contents->Some_0@) {
                    Some(families) => Ok::<_, OAuthError>(families),
                    None => Err(OAuthError::InvalidConfiguration),
                })
            }
        },
{
}

/// The claims of a request for consent can also be read from a list of their values, in the order
/// in which they are written.
pub proof fn lemma_approval_is_read_in_order(c: ApprovalModel)
    requires
        c.requested_scopes.finite(),
    ensures
        approval_in(
            JsonTree::List(approval_fields(c).map_values(|f: (Seq<char>, JsonTree)| f.1)),
        ) == Some(c),
{
    let items = approval_fields(c).map_values(|f: (Seq<char>, JsonTree)| f.1);
    let named = record_fields(JsonTree::List(items), approval_names())->Some_0;
    assert(named =~= approval_fields(c));
    lemma_approval_is_written_by_name(c);
    lemma_approval_is_read_by_name(approval_fields(c), c);
}

/// The claims of a access token can also be read from a list of their values, in the order
/// in which they are written.
pub proof fn lemma_access_is_read_in_order(c: AccessModel)
    requires
        c.scopes.finite(),
    ensures
        access_in(
            JsonTree::List(access_fields(c).map_values(|f: (Seq<char>, JsonTree)| f.1)),
        ) == Some(c),
{
    let items = access_fields(c).map_values(|f: (Seq<char>, JsonTree)| f.1);
    let named = record_fields(JsonTree::List(items), access_names())->Some_0;
    assert(named =~= access_fields(c));
    lemma_access_is_written_by_name(c);
    lemma_access_is_read_by_name(access_fields(c), c);
}

/// The claims of a refresh token can also be read from a list of their values, in the order
/// in which they are written.
pub proof fn lemma_refresh_is_read_in_order(c: RefreshModel)
    requires
        c.scopes.finite(),
    ensures
        refresh_in(
            JsonTree::List(refresh_fields(c).map_values(|f: (Seq<char>, JsonTree)| f.1)),
        ) == Some(c),
{
    let items = refresh_fields(c).map_values(|f: (Seq<char>, JsonTree)| f.1);
    let named = record_fields(JsonTree::List(items), refresh_names())->Some_0;
    assert(named =~= refresh_fields(c));
    lemma_refresh_is_written_by_name(c);
    lemma_refresh_is_read_by_name(refresh_fields(c), c);
}

/// The claims of a client identifier can also be read from a list of their values, in the order
/// in which they are written.
pub proof fn lemma_client_id_is_read_in_order(c: ClientIdModel)
    requires
        c.scopes.finite(),
    ensures
        client_id_in(
            JsonTree::List(client_id_fields(c).map_values(|f: (Seq<char>, JsonTree)| f.1)),
        ) == Some(c),
{
    let items = client_id_fields(c).map_values(|f: (Seq<char>, JsonTree)| f.1);
    let named = record_fields(JsonTree::List(items), client_id_names())->Some_0;
    assert(named =~= client_id_fields(c));
    lemma_client_id_is_written_by_name(c);
    lemma_client_id_is_read_by_name(client_id_fields(c), c);
}

/// A new family is added under a name that no living family has, with its token
/// active; under a name that is taken, none is.
pub proof fn lemma_how_families_are_added(
    families: Map<Seq<char>, FamilyModel>,
    family_id: Seq<char>,
    active_token_hash: Seq<char>,
    expires_at: u64,
    now: u64,
    other: Seq<char>,
)
    ensures
        match with_family(families, family_id, active_token_hash, expires_at, now) {
            Some(next) => {
                &&& !(families.dom().contains(family_id) && now < families[family_id].expires_at)
                &&& next.dom().contains(family_id)
                &&& next[family_id].active_token_hash == active_token_hash
                &&& next[family_id].expires_at == expires_at
                &&& !next[family_id].revoked
                &&& other != family_id ==> (next.dom().contains(other) <==> families.dom().contains(
                    other,
                ) && now < families[other].expires_at)
                &&& other != family_id && next.dom().contains(other) ==> next[other]
                    == families[other]
            },
            None => families.dom().contains(family_id) && now < families[family_id].expires_at,
        },
{
}

} // verus!
