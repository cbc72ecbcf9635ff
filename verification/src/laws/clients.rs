//! Which clients are registered, and what they can redeem.
use vstd::prelude::*;
use vstd::utf8::encode_utf8;

use crate::crypto::{base64_standard_decoded, base64_url_decoded, base64_url_of};
use crate::oauth::OAuthError;
use crate::oauth::claims::client_id_in;
use crate::oauth::client::{
    authenticated_client, basic_credentials, grant_types_allowed, redirect_allowed, redirect_target,
    registered_client, registration_allowed, response_types_allowed, ClientModel,
    RegistrationRequest,
};
use crate::oauth::flows::{
    exchange, hash_of, refresh_token_claims, settled, GrantModel, OAuthModel, TokenDraws,
    TokenRequest,
};
use crate::oauth::scope::{is_known_scope, requested_grant};
use crate::oauth::signing::{mac_of, opened};
use crate::scan::{lemma_position_unique, words};
use crate::text::{ascii_lower_text, text_option, texts};
use crate::web::{url_of, UrlModel};

verus! {

/// Where a browser can be sent back to: over HTTPS to a host; for a native
/// application also over HTTP to this machine, by one of its three names. Never with
/// a fragment, nor with a name or a password in it.
pub proof fn lemma_where_browsers_are_sent(url: UrlModel)
    ensures
        url.fragment is Some || url.username.len() > 0 || url.password is Some
            ==> !redirect_target(url, "web"@) && !redirect_target(url, "native"@),
        url.fragment is None && url.username.len() == 0 && url.password is None ==> {
            &&& redirect_target(url, "web"@) <==> (url.scheme == "https"@ && url.host is Some)
            &&& url.scheme == "https"@ ==> redirect_target(url, "native"@) == redirect_target(
                url,
                "web"@,
            )
            &&& url.scheme == "http"@ ==> (redirect_target(url, "native"@) <==> (url.host == Some(
                "localhost"@,
            ) || url.host == Some("127.0.0.1"@) || url.host == Some("::1"@)))
            &&& url.scheme != "http"@ && url.scheme != "https"@ ==> !redirect_target(
                url,
                "native"@,
            )
        },
{
    reveal_strlit("web");
    reveal_strlit("native");
    reveal_strlit("http");
    reveal_strlit("https");
    assert("web"@.len() == 3 && "native"@.len() == 6 && "http"@.len() == 4 && "https"@.len() == 5);
}

/// The type of application that a registration is for: one for the web where it does
/// not say.
pub open spec fn said_type(request: RegistrationRequest) -> Seq<char> {
    match request.application_type {
        Some(name) => name@,
        None => "web"@,
    }
}

/// Whether only codes are asked for, with or without refreshing.
pub open spec fn asks_for_codes(grants: Seq<String>) -> bool {
    &&& grants.len() > 0 ==> exists|i: int|
        0 <= i < grants.len() && (#[trigger] grants[i])@ == "authorization_code"@
    &&& forall|i: int|
        0 <= i < grants.len() ==> (#[trigger] grants[i])@ == "authorization_code"@ || grants[i]@
            == "refresh_token"@
}

/// Whether no two texts are the same.
pub open spec fn all_differ(list: Seq<String>) -> bool {
    forall|i: int, j: int|
        0 <= i < j < list.len() ==> (#[trigger] list[i])@ != (#[trigger] list[j])@
}

/// Whether browsers can be sent to each of some URIs.
pub open spec fn all_are_targets(uris: Seq<String>, kind: Seq<char>) -> bool {
    forall|i: int|
        0 <= i < uris.len() ==> encode_utf8((#[trigger] uris[i])@).len() <= 2_048 && url_of(
            uris[i]@,
        ) is Some && redirect_target(url_of(uris[i]@)->Some_0, kind)
}

proof fn lemma_grants(grants: Seq<String>)
    ensures
        grant_types_allowed(texts(grants)) <==> asks_for_codes(grants),
{
    let asked = texts(grants);
    assert(asked.len() == grants.len());
    assert forall|i: int| 0 <= i < grants.len() implies asked[i] == (#[trigger] grants[i])@ by {}
    if grant_types_allowed(asked) {
        if grants.len() > 0 {
            let i = choose|i: int| 0 <= i < asked.len() && asked[i] == "authorization_code"@;
            assert(grants[i]@ == "authorization_code"@);
        }
        assert forall|i: int| 0 <= i < grants.len() implies (#[trigger] grants[i])@
            == "authorization_code"@ || grants[i]@ == "refresh_token"@ by {
            assert(asked[i] == grants[i]@);
        }
    }
    if asks_for_codes(grants) && grants.len() > 0 {
        let i = choose|i: int|
            0 <= i < grants.len() && (#[trigger] grants[i])@ == "authorization_code"@;
        assert(asked[i] == "authorization_code"@);
        assert forall|i: int| 0 <= i < asked.len() implies (#[trigger] asked[i])
            == "authorization_code"@ || asked[i] == "refresh_token"@ by {
            assert(asked[i] == grants[i]@);
        }
    }
}

proof fn lemma_responses(responses: Seq<String>)
    ensures
        response_types_allowed(texts(responses)) <==> (responses.len() == 0 || (responses.len() == 1
            && responses[0]@ == "code"@)),
{
    let asked = texts(responses);
    assert(asked.len() == responses.len());
    assert(responses.len() > 0 ==> asked[0] == responses[0]@);
    if responses.len() == 1 && responses[0]@ == "code"@ {
        assert(asked =~= seq!["code"@]);
    }
    if asked =~= seq!["code"@] {
        assert(asked.len() == 1 && asked[0] == "code"@);
    }
}

proof fn lemma_uris(uris: Seq<String>, kind: Seq<char>)
    ensures
        texts(uris).no_duplicates() <==> all_differ(uris),
        (forall|i: int| 0 <= i < texts(uris).len() ==> redirect_allowed(#[trigger] texts(uris)[i], kind))
            <==> all_are_targets(uris, kind),
{
    let list = texts(uris);
    assert(list.len() == uris.len());
    assert forall|i: int| 0 <= i < uris.len() implies list[i] == (#[trigger] uris[i])@ by {}
    if list.no_duplicates() {
        assert forall|i: int, j: int| 0 <= i < j < uris.len() implies (#[trigger] uris[i])@ != (
        #[trigger] uris[j])@ by {
            assert(list[i] != list[j]);
        }
    }
    if all_differ(uris) {
        assert forall|i: int, j: int|
            0 <= i < list.len() && 0 <= j < list.len() && i != j implies list[i] != list[j] by {
            assert(i < j ==> uris[i]@ != uris[j]@);
            assert(j < i ==> uris[j]@ != uris[i]@);
        }
    }
    if all_are_targets(uris, kind) {
        assert forall|i: int| 0 <= i < list.len() implies redirect_allowed(
            #[trigger] list[i],
            kind,
        ) by {
            assert(list[i] == uris[i]@);
        }
    }
    if forall|i: int| 0 <= i < list.len() ==> redirect_allowed(#[trigger] list[i], kind) {
        assert forall|i: int| 0 <= i < uris.len() implies encode_utf8((#[trigger] uris[i])@).len()
            <= 2_048 && url_of(uris[i]@) is Some && redirect_target(
            url_of(uris[i]@)->Some_0,
            kind,
        ) by {
            assert(redirect_allowed(list[i], kind));
        }
    }
}

/// Which registrations are taken up: with one to eight redirect URIs, no two the same,
/// each of at most 2048 bytes and one that browsers can be sent to; for codes, with or
/// without refreshing; and with a known way for the client to prove itself.
pub proof fn lemma_which_clients_are_registered(request: RegistrationRequest)
    ensures
        registration_allowed(request) <==> {
            let uris = request.redirect_uris@;
            let responses = request.response_types@;
            &&& 1 <= uris.len() <= 8
            &&& all_differ(uris)
            &&& said_type(request) == "web"@ || said_type(request) == "native"@
            &&& all_are_targets(uris, said_type(request))
            &&& asks_for_codes(request.grant_types@)
            &&& responses.len() == 0 || (responses.len() == 1 && responses[0]@ == "code"@)
            &&& match request.token_endpoint_auth_method {
                Some(method) => method@ == "none"@ || method@ == "client_secret_post"@ || method@
                    == "client_secret_basic"@,
                None => true,
            }
        },
{
    lemma_grants(request.grant_types@);
    lemma_responses(request.response_types@);
    lemma_uris(request.redirect_uris@, said_type(request));
}

/// Basic credentials are the word Basic, in any case, a space, and a name and a
/// secret with a colon between them, in either kind of base64; neither is empty, and
/// the name has no colon.
pub proof fn lemma_basic_credentials(
    scheme: Seq<char>,
    encoded: Seq<char>,
    name: Seq<char>,
    secret: Seq<char>,
)
    requires
        ascii_lower_text(scheme) == "basic"@,
        encoded.len() > 0,
        base64_url_decoded(encoded) == Some(encode_utf8(name + seq![':'] + secret)) || (
        base64_url_decoded(encoded) is None && base64_standard_decoded(encoded) == Some(
            encode_utf8(name + seq![':'] + secret),
        )),
        name.len() > 0,
        secret.len() > 0,
        !name.contains(':'),
    ensures
        basic_credentials(scheme + seq![' '] + encoded) == Some((name, secret)),
{
    reveal_strlit("Basic");
    reveal_strlit("basic");
    assert(ascii_lower_text("Basic"@) =~= "basic"@);
    let header = scheme + seq![' '] + encoded;
    let p = scheme.len() as int;
    assert(scheme.len() == ascii_lower_text(scheme).len());
    assert forall|i: int| 0 <= i < p implies header[i] != ' ' by {
        assert(ascii_lower_text(scheme)[i] == "basic"@[i]);
        assert("basic"@[0] == 'b' && "basic"@[1] == 'a' && "basic"@[2] == 's' && "basic"@[3] == 'i'
            && "basic"@[4] == 'c');
    }
    assert(header[p] == ' ');
    lemma_position_unique(header, ' ', p);
    assert(header.take(p) =~= scheme);
    assert(header.skip(p + 1) =~= encoded);
    let text = name + seq![':'] + secret;
    vstd::utf8::encode_utf8_valid_utf8(text);
    vstd::utf8::encode_utf8_decode_utf8(text);
    let q = name.len() as int;
    assert forall|i: int| 0 <= i < q implies text[i] != ':' by {
        assert(name.contains(name[i]));
    }
    assert(text[q] == ':');
    lemma_position_unique(text, ':', q);
    assert(text.take(q) =~= name);
    assert(text.skip(q + 1) =~= secret);
}

/// What presenting a code comes to. Who does not prove to be a client is told so, and
/// the code stays. Else a code that is known is gone; it is exchanged for its own
/// scopes where it is redeemed as it was given out, and the client is told that the
/// grant is invalid where it is not.
pub proof fn lemma_what_a_code_is_exchanged_for(
    m: OAuthModel,
    request: TokenRequest,
    header: Option<Seq<char>>,
    now: u64,
    draws: TokenDraws,
)
    requires
        request.grant_type@ == "authorization_code"@,
        request.code is Some,
        request.redirect_uri is Some,
        request.code_verifier is Some,
        encode_utf8(request.code->Some_0@).len() <= 8_192,
        encode_utf8(request.redirect_uri->Some_0@).len() <= 8_192,
        encode_utf8(request.code_verifier->Some_0@).len() <= 128,
        request.resource@ == m.resource,
        draws.family is Some,
        draws.access is Some,
        draws.refresh is Some,
    ensures
        ({
            let e = exchange(m, request, header, now, draws);
            let hash = hash_of(m.key, request.code->Some_0@);
            let asked = authenticated_client(
                m.key,
                text_option(request.client_id),
                text_option(request.client_secret),
                header,
            );
            match asked {
                None => e.result == Err::<GrantModel, _>(OAuthError::InvalidClient) && e.codes
                    == m.codes && e.next is None,
                Some(client) => {
                    &&& !e.codes.dom().contains(hash)
                    &&& forall|other: Seq<u8>|
                        other != hash && m.codes.dom().contains(other)
                            ==> #[trigger] e.codes.dom().contains(other) && e.codes[other]
                            == m.codes[other]
                    &&& e.result matches Ok(g) ==> {
                        &&& m.codes.dom().contains(hash)
                        &&& now < m.codes[hash].expires_at
                        &&& g.client_id == client.client_id
                        &&& g.client_id == m.codes[hash].client_id
                        &&& g.scopes == m.codes[hash].scopes
                        &&& request.redirect_uri->Some_0@ == m.codes[hash].redirect_uri
                        &&& g.family_id == "rf_"@ + base64_url_of(draws.family->Some_0@)
                        &&& g.access_id == draws.access->Some_0@
                        &&& g.refresh_id == draws.refresh->Some_0@
                    }
                    &&& !m.codes.dom().contains(hash) ==> e.result == Err::<GrantModel, _>(
                        OAuthError::InvalidGrant,
                    )
                    &&& m.codes.dom().contains(hash) && now >= m.codes[hash].expires_at ==> e.result
                        == Err::<GrantModel, _>(OAuthError::InvalidGrant)
                    &&& m.codes.dom().contains(hash) && client.client_id != m.codes[hash].client_id
                        ==> e.result == Err::<GrantModel, _>(OAuthError::InvalidGrant)
                },
            }
        }),
{
    reveal_strlit("authorization_code");
    reveal_strlit("refresh_token");
}

/// What presenting a refresh token comes to, where it is refused: the client is told
/// that it did not prove itself, that the token is not valid, or that it asked for
/// more than the token has; and a token that is not this server's, another client's,
/// or lapsed changes nothing.
pub proof fn lemma_which_refresh_tokens_are_refused(
    m: OAuthModel,
    request: TokenRequest,
    header: Option<Seq<char>>,
    now: u64,
    draws: TokenDraws,
)
    requires
        request.grant_type@ == "refresh_token"@,
        request.refresh_token is Some,
        encode_utf8(request.refresh_token->Some_0@).len() <= 8_192,
        request.resource@ == m.resource,
    ensures
        ({
            let e = exchange(m, request, header, now, draws);
            let asked = authenticated_client(
                m.key,
                text_option(request.client_id),
                text_option(request.client_secret),
                header,
            );
            let said = refresh_token_claims(m.key, request.refresh_token->Some_0@);
            &&& e.codes == m.codes
            &&& asked is None ==> e.result == Err::<GrantModel, _>(OAuthError::InvalidClient)
                && e.next is None
            &&& asked is Some && (said is None || said->Some_0.expires_at <= now
                || said->Some_0.audience != m.resource || said->Some_0.version != 1
                || said->Some_0.client_binding != base64_url_of(
                mac_of(
                    m.key,
                    "engram-mcp/oauth/refresh-client-binding/v1"@,
                    encode_utf8(asked->Some_0.client_id),
                ),
            )) ==> e.result == Err::<GrantModel, _>(OAuthError::InvalidGrant) && e.next is None
            &&& e.result matches Ok(g) ==> {
                &&& asked is Some && said is Some
                &&& g.client_id == asked->Some_0.client_id
                &&& g.family_id == said->Some_0.family_id
                &&& request.scope is None ==> g.scopes == said->Some_0.scopes
                &&& request.scope is Some ==> g.scopes == words(
                    request.scope->Some_0@,
                ).to_set()
                &&& g.access_id == draws.access->Some_0@
                &&& g.refresh_id == draws.refresh->Some_0@
            }
        }),
{
    reveal_strlit("authorization_code");
    reveal_strlit("refresh_token");
    assert("authorization_code"@.len() == 18 && "refresh_token"@.len() == 13);
}

/// No other grant is exchanged for anything.
pub proof fn lemma_other_grants_are_refused(
    m: OAuthModel,
    request: TokenRequest,
    header: Option<Seq<char>>,
    now: u64,
    draws: TokenDraws,
)
    requires
        request.grant_type@ != "authorization_code"@,
        request.grant_type@ != "refresh_token"@,
    ensures
        exchange(m, request, header, now, draws).result == Err::<GrantModel, _>(
            OAuthError::InvalidGrant,
        ),
        settled(m, exchange(m, request, header, now, draws)) == m,
{
}

/// The scopes that a text asks for: those that it lists between white space, where
/// there is one and there are only the two, in at most 256 bytes.
pub proof fn lemma_which_scopes_are_asked_for(text: Seq<char>)
    ensures
        match requested_grant(text) {
            Some(scopes) => {
                &&& encode_utf8(text).len() <= 256
                &&& words(text).len() > 0
                &&& forall|i: int|
                    0 <= i < words(text).len() ==> #[trigger] words(text)[i] == "kb:tech"@ || words(
                        text,
                    )[i] == "kb:private"@
                &&& forall|scope: Seq<char>| #[trigger]
                    scopes.contains(scope) <==> words(text).contains(scope)
            },
            None => {
                ||| encode_utf8(text).len() > 256
                ||| words(text).len() == 0
                ||| exists|i: int|
                    0 <= i < words(text).len() && #[trigger] words(text)[i] != "kb:tech"@ && words(
                        text,
                    )[i] != "kb:private"@
            },
        },
{
    let list = words(text);
    let scopes = list.to_set();
    assert(forall|s: Seq<char>| #[trigger] scopes.contains(s) <==> list.contains(s));
    if requested_grant(text) is Some {
        assert(list.len() > 0) by {
            if list.len() == 0 {
                assert(scopes =~= Set::<Seq<char>>::empty());
            }
        }
        assert forall|i: int| 0 <= i < list.len() implies #[trigger] list[i] == "kb:tech"@ || list[i]
            == "kb:private"@ by {
            assert(scopes.contains(list[i]));
        }
    } else if encode_utf8(text).len() <= 256 && list.len() > 0 {
        assert(scopes.contains(list[0]));
        assert(exists|s: Seq<char>| #[trigger] scopes.contains(s) && !is_known_scope(s));
        let s = choose|s: Seq<char>| #[trigger] scopes.contains(s) && !is_known_scope(s);
        let i = choose|i: int| 0 <= i < list.len() && list[i] == s;
        assert(list[i] != "kb:tech"@ && list[i] != "kb:private"@);
    }
}

/// A client is known by an identifier of at most 8192 bytes that begins with `dcr.`
/// and that this server signed, for one to eight redirect URIs, no two the same.
pub proof fn lemma_which_clients_are_known(key: Seq<u8>, client_id: Seq<char>, client: ClientModel)
    requires
        registered_client(key, client_id) == Some(client),
    ensures
        encode_utf8(client_id).len() <= 8_192,
        "dcr."@.is_prefix_of(client_id),
        client.client_id == client_id,
        match opened(
            key,
            "engram-mcp/oauth/dynamic-client/v1"@,
            client_id.skip("dcr."@.len() as int),
        ) {
            Some(tree) => match client_id_in(tree) {
                Some(said) => {
                    &&& said.version == 1
                    &&& 1 <= said.redirect_uris.len() <= 8
                    &&& said.redirect_uris.no_duplicates()
                    &&& client.redirect_uris == said.redirect_uris.to_set()
                    &&& client.scopes == said.scopes
                    &&& client.token_endpoint_auth_method == said.token_endpoint_auth_method
                },
                None => false,
            },
            None => false,
        },
{
}

} // verus!
