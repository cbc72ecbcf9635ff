//! What clients of the authorization server read in its JSON.
use vstd::prelude::*;

use crate::auth::AccessScope;
use crate::json::{holds, lacks, lemma_held_once, lemma_holds, text_list, JsonTree};
use crate::oauth::OAuthError;
use crate::oauth::answers::{
    expiry_fields, lemma_registration_names, names, refusal_fields, registration_fields,
    secret_fields, token_fields,
};
use crate::oauth::claims::requested_method;
use crate::oauth::client::{
    authenticated_client, basic_credentials, client_of_registration, registered_client,
    registered_scopes, registration_allowed, registration_answer, registration_payload, ClientModel,
    RegistrationRequest, RegistrationResponse,
};
use crate::oauth::families::family_active;
use crate::oauth::flows::{
    access_token_claims, bearer_access, carries_grant, exchange, query_acceptable,
    refresh_token_claims, refused, settled, tokens_are_good, AuthorizationQuery, ExchangeModel,
    GrantModel, OAuthModel, TokenDraws, TokenRequest, TokenResponse,
};
use crate::oauth::metadata::{
    authorization_server_fields, lemma_authorization_server_names, lemma_protected_resource_names,
    protected_resource_fields,
};
use crate::oauth::scope::{
    is_known_scope, lemma_scope_text_asks_for_the_grant, requested_grant, scope_text,
};
use crate::order::{lemma_ascending, lemma_ascending_no_duplicates};
use crate::scan::words;
use crate::text::{byte_len, text_option, texts};

verus! {

/// What a token response says under each name.
pub open spec fn tells_tokens(tree: JsonTree, response: TokenResponse) -> bool {
    &&& holds(tree, "access_token"@, JsonTree::Text(response.access_token@))
    &&& holds(tree, "refresh_token"@, JsonTree::Text(response.refresh_token@))
    &&& holds(tree, "token_type"@, JsonTree::Text(response.token_type@))
    &&& holds(tree, "expires_in"@, JsonTree::Number(response.expires_in))
    &&& holds(tree, "scope"@, JsonTree::Text(response.scope@))
}

/// Every token response says each of its parts under its own name.
pub proof fn lemma_token_response(response: TokenResponse)
    ensures
        tells_tokens(JsonTree::Object(token_fields(response)), response),
{
    reveal_strlit("access_token");
    reveal_strlit("refresh_token");
    reveal_strlit("token_type");
    reveal_strlit("expires_in");
    reveal_strlit("scope");
    assert("access_token"@.len() == 12);
    assert("refresh_token"@.len() == 13);
    assert("token_type"@.len() == 10 && "token_type"@[0] == 't');
    assert("expires_in"@.len() == 10 && "expires_in"@[0] == 'e');
    assert("scope"@.len() == 5);
    let f = token_fields(response);
    lemma_holds(f, 0);
    lemma_holds(f, 1);
    lemma_holds(f, 2);
    lemma_holds(f, 3);
    lemma_holds(f, 4);
}

/// The JSON of a token response, looked up by its names, holds what was granted.
/// The text under `refresh_token` is the refresh token of the grant, and that under
/// `access_token` its access token: each is opened as what it is called, and says
/// the family, the scopes and the lifetime of the grant. The scopes that it lists
/// are those of the grant.
pub proof fn lemma_token_answer_carries_the_grant(
    m: OAuthModel,
    e: ExchangeModel,
    g: GrantModel,
    now: u64,
    response: TokenResponse,
    access: Seq<char>,
    refresh: Seq<char>,
)
    requires
        carries_grant(m, g, now, response),
        tokens_are_good(m, e, g, now, response),
        holds(JsonTree::Object(token_fields(response)), "access_token"@, JsonTree::Text(access)),
        holds(JsonTree::Object(token_fields(response)), "refresh_token"@, JsonTree::Text(refresh)),
    ensures
        match access_token_claims(m.key, access) {
            Some(claims) => {
                &&& claims.family_id == g.family_id
                &&& claims.scopes == g.scopes
                &&& claims.audience == m.resource
                &&& claims.issued_at == now
                &&& now + m.access_ttl <= u64::MAX ==> claims.expires_at == now + m.access_ttl
            },
            None => false,
        },
        match refresh_token_claims(m.key, refresh) {
            Some(claims) => {
                &&& claims.family_id == g.family_id
                &&& claims.scopes == g.scopes
                &&& claims.audience == m.resource
                &&& claims.issued_at == now
                &&& now + m.refresh_ttl <= u64::MAX ==> claims.expires_at == now + m.refresh_ttl
            },
            None => false,
        },
        holds(
            JsonTree::Object(token_fields(response)),
            "token_type"@,
            JsonTree::Text("Bearer"@),
        ),
        holds(
            JsonTree::Object(token_fields(response)),
            "expires_in"@,
            JsonTree::Number(m.access_ttl),
        ),
        exists|scope: Seq<char>|
            holds(JsonTree::Object(token_fields(response)), "scope"@, JsonTree::Text(scope))
                && #[trigger] requested_grant(scope) == Some(g.scopes),
{
    lemma_token_response(response);
    lemma_scope_text_asks_for_the_grant(g.scopes);
    let tree = JsonTree::Object(token_fields(response));
    lemma_held_once(
        tree,
        "access_token"@,
        JsonTree::Text(access),
        JsonTree::Text(response.access_token@),
    );
    lemma_held_once(
        tree,
        "refresh_token"@,
        JsonTree::Text(refresh),
        JsonTree::Text(response.refresh_token@),
    );
    assert(requested_grant(response.scope@) == Some(g.scopes));
}

/// What the JSON of a token response says under `refresh_token`, sent back by the
/// client it was granted to before the token lapses, is granted again, in the same
/// family and for the same scopes; what it says under `access_token` opens what
/// those scopes show.
pub proof fn lemma_answered_tokens_are_taken(
    m: OAuthModel,
    e: ExchangeModel,
    g: GrantModel,
    now: u64,
    response: TokenResponse,
    request: TokenRequest,
    header: Option<Seq<char>>,
    access: Seq<char>,
    later: u64,
    draws: TokenDraws,
)
    requires
        carries_grant(m, g, now, response),
        tokens_are_good(m, e, g, now, response),
        request.grant_type@ == "refresh_token"@,
        request.refresh_token is Some,
        holds(
            JsonTree::Object(token_fields(response)),
            "refresh_token"@,
            JsonTree::Text(request.refresh_token->Some_0@),
        ),
        byte_len(request.refresh_token->Some_0@) <= 8_192,
        request.resource@ == m.resource,
        request.scope is None,
        authenticated_client(
            m.key,
            text_option(request.client_id),
            text_option(request.client_secret),
            header,
        ) is Some,
        authenticated_client(
            m.key,
            text_option(request.client_id),
            text_option(request.client_secret),
            header,
        )->Some_0.client_id == g.client_id,
        holds(JsonTree::Object(token_fields(response)), "access_token"@, JsonTree::Text(access)),
        byte_len(access) <= 8_192,
        now + m.refresh_ttl <= u64::MAX,
        later < now + m.refresh_ttl,
        draws.access is Some,
        draws.refresh is Some,
    ensures
        exchange(settled(m, e), request, header, later, draws).result matches Ok(again)
            && again.client_id == g.client_id && again.family_id == g.family_id && again.scopes
            == g.scopes,
        later < now + m.access_ttl ==> bearer_access(settled(m, e), access, later) == Some(
            if g.scopes.contains("kb:private"@) {
                AccessScope::Private
            } else {
                AccessScope::Tech
            },
        ),
        later >= now + m.access_ttl ==> bearer_access(settled(m, e), access, later) is None,
{
    reveal_strlit("refresh_token");
    reveal_strlit("authorization_code");
    assert("refresh_token"@.len() == 13);
    assert("authorization_code"@.len() == 18);
    let refresh = request.refresh_token->Some_0@;
    lemma_token_answer_carries_the_grant(m, e, g, now, response, access, refresh);
    lemma_token_response(response);
    let tree = JsonTree::Object(token_fields(response));
    lemma_held_once(
        tree,
        "access_token"@,
        JsonTree::Text(access),
        JsonTree::Text(response.access_token@),
    );
    lemma_held_once(
        tree,
        "refresh_token"@,
        JsonTree::Text(refresh),
        JsonTree::Text(response.refresh_token@),
    );
    assert(bearer_access(settled(m, e), response.access_token@, later) == bearer_access(
        settled(m, e),
        access,
        later,
    ));
    assert(family_active(settled(m, e).families, g.family_id, later) == family_active(
        settled(m, e).families,
        g.family_id,
        later,
    ));
}

/// What a registered client is told under each name.
pub open spec fn tells_registration(tree: JsonTree, response: RegistrationResponse) -> bool {
    &&& holds(tree, "client_id"@, JsonTree::Text(response.client_id@))
    &&& holds(tree, "client_id_issued_at"@, JsonTree::Number(response.client_id_issued_at))
    &&& match response.client_secret {
        Some(secret) => holds(tree, "client_secret"@, JsonTree::Text(secret@)),
        None => lacks(tree, "client_secret"@),
    }
    &&& match response.client_secret_expires_at {
        Some(at) => holds(tree, "client_secret_expires_at"@, JsonTree::Number(at)),
        None => lacks(tree, "client_secret_expires_at"@),
    }
    &&& holds(tree, "redirect_uris"@, text_list(texts(response.redirect_uris@)))
    &&& holds(tree, "grant_types"@, text_list(names(response.grant_types@)))
    &&& holds(tree, "response_types"@, text_list(names(response.response_types@)))
    &&& holds(
        tree,
        "token_endpoint_auth_method"@,
        JsonTree::Text(response.token_endpoint_auth_method@),
    )
    &&& holds(tree, "scope"@, JsonTree::Text(response.scope@))
}

/// Every registration response says each of its parts under its own name.
pub proof fn lemma_registration_response(response: RegistrationResponse)
    ensures
        tells_registration(JsonTree::Object(registration_fields(response)), response),
{
    lemma_registration_names(response);
    let f = registration_fields(response);
    let secret = secret_fields(text_option(response.client_secret));
    let expiry = expiry_fields(response.client_secret_expires_at);
    let k: int = 2 + secret.len() as int + expiry.len() as int;
    lemma_holds(f, 0);
    lemma_holds(f, 1);
    lemma_holds(f, k);
    lemma_holds(f, k + 1);
    lemma_holds(f, k + 2);
    lemma_holds(f, k + 3);
    lemma_holds(f, k + 4);
    reveal_strlit("client_id");
    reveal_strlit("client_id_issued_at");
    reveal_strlit("client_secret");
    reveal_strlit("client_secret_expires_at");
    reveal_strlit("redirect_uris");
    reveal_strlit("grant_types");
    reveal_strlit("response_types");
    reveal_strlit("token_endpoint_auth_method");
    reveal_strlit("scope");
    assert("client_id"@.len() == 9);
    assert("client_id_issued_at"@.len() == 19);
    assert("client_secret"@.len() == 13 && "client_secret"@[0] == 'c');
    assert("client_secret_expires_at"@.len() == 24);
    assert("redirect_uris"@.len() == 13 && "redirect_uris"@[0] == 'r');
    assert("grant_types"@.len() == 11);
    assert("response_types"@.len() == 14);
    assert("token_endpoint_auth_method"@.len() == 26);
    assert("scope"@.len() == 5);
    if response.client_secret is Some {
        lemma_holds(f, 2);
        assert(f[2] == secret[0]);
    }
    if response.client_secret_expires_at is Some {
        lemma_holds(f, 2 + secret.len() as int);
        assert(f[2 + secret.len() as int] == expiry[0]);
    }
}

/// The way of proving itself that a registration asks for: none where it says
/// nothing.
pub open spec fn asked_method(request: RegistrationRequest) -> Seq<char> {
    match request.token_endpoint_auth_method {
        Some(name) => name@,
        None => "none"@,
    }
}

/// What a registered client is told leads back to what it asked for. The identifier
/// is that of a client with its redirect URIs and in the way of proving itself that
/// it named. Such a client has a secret exactly where that way takes one; the secret
/// never lapses, and it is the one that proves the client, in that way and in no
/// other.
pub proof fn lemma_registration_leads_back_to_the_client(
    key: Seq<u8>,
    request: RegistrationRequest,
    now: u64,
    response: RegistrationResponse,
    client: ClientModel,
    other: Seq<char>,
    header: Seq<char>,
)
    requires
        registration_allowed(request),
        registration_answer(key, request, now, response),
        client == client_of_registration(request, response.client_id@),
        registered_client(key, response.client_id@) == Some(client),
    ensures
        ({
            let tree = JsonTree::Object(registration_fields(response));
            let id = response.client_id@;
            let method = asked_method(request);
            &&& holds(tree, "client_id"@, JsonTree::Text(id))
            &&& client.client_id == id
            &&& forall|uri: Seq<char>|
                client.redirect_uris.contains(uri) <==> texts(request.redirect_uris@).contains(uri)
            &&& exists|list: Seq<Seq<char>>| #[trigger]
                holds(tree, "redirect_uris"@, text_list(list)) && list.to_set()
                    == client.redirect_uris && list.no_duplicates()
            &&& holds(tree, "client_id_issued_at"@, JsonTree::Number(now))
            &&& holds(tree, "token_endpoint_auth_method"@, JsonTree::Text(method))
            &&& exists|scope: Seq<char>|
                holds(tree, "scope"@, JsonTree::Text(scope)) && #[trigger] scope_text(
                    client.scopes,
                ) == scope
            &&& holds(
                tree,
                "grant_types"@,
                text_list(seq!["authorization_code"@, "refresh_token"@]),
            )
            &&& holds(tree, "response_types"@, text_list(seq!["code"@]))
            &&& method == "none"@ ==> {
                &&& lacks(tree, "client_secret"@)
                &&& lacks(tree, "client_secret_expires_at"@)
                &&& authenticated_client(key, Some(id), None, None) == Some(client)
                &&& authenticated_client(key, Some(id), Some(other), None) is None
            }
            &&& method != "none"@ ==> {
                &&& holds(tree, "client_secret_expires_at"@, JsonTree::Number(0))
                &&& authenticated_client(key, Some(id), None, None) is None
                &&& exists|secret: Seq<char>|
                    {
                        &&& #[trigger] holds(tree, "client_secret"@, JsonTree::Text(secret))
                        &&& method == "client_secret_post"@ ==> {
                            &&& authenticated_client(key, Some(id), Some(secret), None) == Some(
                                client,
                            )
                            &&& other != secret ==> authenticated_client(
                                key,
                                Some(id),
                                Some(other),
                                None,
                            ) is None
                            &&& basic_credentials(header) == Some((id, secret))
                                ==> authenticated_client(key, None, None, Some(header)) is None
                        }
                        &&& method == "client_secret_basic"@ ==> {
                            &&& basic_credentials(header) == Some((id, secret))
                                ==> authenticated_client(key, None, None, Some(header)) == Some(
                                client,
                            )
                            &&& basic_credentials(header) == Some((id, other)) && other != secret
                                ==> authenticated_client(key, None, None, Some(header)) is None
                            &&& authenticated_client(key, Some(id), Some(secret), None) is None
                        }
                    }
            }
        }),
        asked_method(request) == "none"@ || asked_method(request) == "client_secret_post"@
            || asked_method(request) == "client_secret_basic"@,
{
    reveal_strlit("none");
    reveal_strlit("client_secret_post");
    reveal_strlit("client_secret_basic");
    assert("none"@.len() == 4 && "client_secret_post"@.len() == 18 && "client_secret_basic"@.len()
        == 19);
    lemma_registration_response(response);
    let tree = JsonTree::Object(registration_fields(response));
    let payload = registration_payload(request, now);
    let uris = texts(request.redirect_uris@);
    assert(uris.to_set().finite()) by {
        vstd::seq_lib::seq_to_set_is_finite(uris);
    }
    lemma_ascending(uris.to_set());
    let list = texts(response.redirect_uris@);
    lemma_ascending_no_duplicates(list);
    assert(list.to_set() =~= client.redirect_uris);
    assert(holds(tree, "redirect_uris"@, text_list(list)));
    assert forall|uri: Seq<char>|
        client.redirect_uris.contains(uri) <==> texts(request.redirect_uris@).contains(uri) by {
        assert(uris.to_set().contains(uri) <==> uris.contains(uri));
    }
    assert(names(response.grant_types@) =~= seq!["authorization_code"@, "refresh_token"@]);
    assert(names(response.response_types@) =~= seq!["code"@]);
    assert(scope_text(client.scopes) == response.scope@);
    if asked_method(request) != "none"@ {
        let secret = response.client_secret->Some_0@;
        assert(text_option(response.client_secret) == Some(secret));
        assert(holds(tree, "client_secret"@, JsonTree::Text(secret)));
    }
}

/// What a refused client is told is one word, by which it knows what was wrong: with
/// the request, with itself, with what it presented, with the scope or the resource
/// that it asked for, that the owner did not consent, or that the server failed.
pub proof fn lemma_refusals_name_what_was_wrong(error: OAuthError)
    ensures
        ({
            let tree = JsonTree::Object(refusal_fields(error));
            &&& error is InvalidRequest || error is InvalidAuthorizationRequest ==> holds(
                tree,
                "error"@,
                JsonTree::Text("invalid_request"@),
            )
            &&& error is InvalidClient ==> holds(
                tree,
                "error"@,
                JsonTree::Text("invalid_client"@),
            )
            &&& error is InvalidGrant ==> holds(tree, "error"@, JsonTree::Text("invalid_grant"@))
            &&& error is InvalidScope ==> holds(tree, "error"@, JsonTree::Text("invalid_scope"@))
            &&& error is InvalidTarget ==> holds(
                tree,
                "error"@,
                JsonTree::Text("invalid_target"@),
            )
            &&& error is InvalidOwner ==> holds(tree, "error"@, JsonTree::Text("access_denied"@))
            &&& error is InvalidConfiguration || error is Entropy || error is Internal ==> holds(
                tree,
                "error"@,
                JsonTree::Text("server_error"@),
            )
            &&& tree->Object_0.len() == 1
        }),
{
    lemma_holds(refusal_fields(error), 0);
}

/// A new client may ask for the scopes that it lists, as far as there are such; for
/// both where it lists none of them or says nothing; and for nothing else.
pub proof fn lemma_scopes_of_a_new_client(text: Seq<char>, scope: Seq<char>)
    ensures
        registered_scopes(None).contains(scope) <==> (scope == "kb:tech"@ || scope
            == "kb:private"@),
        words(text).contains("kb:tech"@) || words(text).contains("kb:private"@) ==> (
        registered_scopes(Some(text)).contains(scope) <==> (words(text).contains(scope) && (scope
            == "kb:tech"@ || scope == "kb:private"@))),
        !words(text).contains("kb:tech"@) && !words(text).contains("kb:private"@)
            ==> registered_scopes(Some(text)) == registered_scopes(None),
{
    let listed = words(text).to_set();
    let known = listed.filter(|s: Seq<char>| is_known_scope(s));
    assert(forall|s: Seq<char>| listed.contains(s) <==> words(text).contains(s));
    if words(text).contains("kb:tech"@) {
        assert(known.contains("kb:tech"@));
    }
    if words(text).contains("kb:private"@) {
        assert(known.contains("kb:private"@));
    }
    if !words(text).contains("kb:tech"@) && !words(text).contains("kb:private"@) {
        assert(known =~= Set::<Seq<char>>::empty());
    }
}

/// What the server publishes of itself is what it does. Its endpoints lie below the
/// issuer. It lists the ways in which a client can prove itself that it registers,
/// the grants that it does not refuse out of hand, the one response and the one kind
/// of challenge that it takes, and the scopes that it grants.
pub proof fn lemma_published_metadata(
    m: OAuthModel,
    name: Seq<char>,
    query: AuthorizationQuery,
    request: TokenRequest,
    header: Option<Seq<char>>,
    now: u64,
    draws: TokenDraws,
)
    ensures
        ({
            let tree = JsonTree::Object(authorization_server_fields(m.issuer));
            &&& holds(tree, "issuer"@, JsonTree::Text(m.issuer))
            &&& holds(
                tree,
                "authorization_endpoint"@,
                JsonTree::Text(m.issuer + "/oauth/authorize"@),
            )
            &&& holds(tree, "token_endpoint"@, JsonTree::Text(m.issuer + "/oauth/token"@))
            &&& holds(
                tree,
                "registration_endpoint"@,
                JsonTree::Text(m.issuer + "/oauth/register"@),
            )
            &&& holds(
                tree,
                "authorization_response_iss_parameter_supported"@,
                JsonTree::Bool(true),
            )
            &&& exists|list: Seq<Seq<char>>| #[trigger]
                holds(tree, "token_endpoint_auth_methods_supported"@, text_list(list)) && (
                list.contains(name) <==> requested_method(Some(name)) is Some)
            &&& exists|list: Seq<Seq<char>>| #[trigger]
                holds(tree, "grant_types_supported"@, text_list(list)) && (!list.contains(
                    request.grant_type@,
                ) ==> exchange(m, request, header, now, draws) == refused(
                    m,
                    OAuthError::InvalidGrant,
                )) && list.contains("authorization_code"@) && list.contains("refresh_token"@)
            &&& exists|list: Seq<Seq<char>>| #[trigger]
                holds(tree, "response_types_supported"@, text_list(list)) && (query_acceptable(
                    m,
                    query,
                ) ==> list.contains(query.response_type@)) && list == seq!["code"@]
            &&& exists|list: Seq<Seq<char>>| #[trigger]
                holds(tree, "code_challenge_methods_supported"@, text_list(list)) && (
                query_acceptable(m, query) ==> list.contains(query.code_challenge_method@))
                    && list == seq!["S256"@]
            &&& exists|list: Seq<Seq<char>>| #[trigger]
                holds(tree, "scopes_supported"@, text_list(list)) && (list.contains(name)
                    <==> registered_scopes(None).contains(name))
        }),
{
    reveal_strlit("none");
    reveal_strlit("client_secret_post");
    reveal_strlit("client_secret_basic");
    let f = authorization_server_fields(m.issuer);
    lemma_authorization_server_names(m.issuer);
    lemma_holds(f, 0);
    lemma_holds(f, 1);
    lemma_holds(f, 2);
    lemma_holds(f, 3);
    lemma_holds(f, 4);
    lemma_holds(f, 5);
    lemma_holds(f, 6);
    lemma_holds(f, 7);
    lemma_holds(f, 8);
    lemma_holds(f, 9);
    let tree = JsonTree::Object(f);
    let methods = seq!["none"@, "client_secret_post"@, "client_secret_basic"@];
    assert(methods[0] == "none"@ && methods[1] == "client_secret_post"@ && methods[2]
        == "client_secret_basic"@);
    assert(holds(tree, "token_endpoint_auth_methods_supported"@, text_list(methods)));
    let grants = seq!["authorization_code"@, "refresh_token"@];
    assert(grants[0] == "authorization_code"@ && grants[1] == "refresh_token"@);
    assert(holds(tree, "grant_types_supported"@, text_list(grants)));
    let responses = seq!["code"@];
    assert(responses[0] == "code"@);
    assert(holds(tree, "response_types_supported"@, text_list(responses)));
    let challenges = seq!["S256"@];
    assert(challenges[0] == "S256"@);
    assert(holds(tree, "code_challenge_methods_supported"@, text_list(challenges)));
    let scopes = seq!["kb:tech"@, "kb:private"@];
    assert(scopes[0] == "kb:tech"@ && scopes[1] == "kb:private"@);
    assert(holds(tree, "scopes_supported"@, text_list(scopes)));
}

/// What is published of the knowledge base: its name, the server that gives access
/// to it, the scopes there are, and that tokens go into a header.
pub proof fn lemma_published_resource(issuer: Seq<char>, resource: Seq<char>)
    ensures
        ({
            let tree = JsonTree::Object(protected_resource_fields(issuer, resource));
            &&& holds(tree, "resource"@, JsonTree::Text(resource))
            &&& holds(tree, "authorization_servers"@, text_list(seq![issuer]))
            &&& holds(tree, "scopes_supported"@, text_list(seq!["kb:tech"@, "kb:private"@]))
            &&& holds(tree, "bearer_methods_supported"@, text_list(seq!["header"@]))
        }),
{
    let f = protected_resource_fields(issuer, resource);
    lemma_protected_resource_names(issuer, resource);
    lemma_holds(f, 0);
    lemma_holds(f, 1);
    lemma_holds(f, 2);
    lemma_holds(f, 3);
}

} // verus!
