//! Clients: their registration, the identifier that carries it, and how they
//! authenticate.
use vstd::prelude::*;
use vstd::utf8::{decode_utf8, valid_utf8};

use crate::crypto::{
    base64_standard_decode, base64_standard_decoded, base64_url_decode, base64_url_decoded,
    base64_url_encode, constant_time_equal,
};
use crate::oauth::claims::{
    client_id_in, client_id_tree, method_name, requested_method, ClientAuthenticationMethod,
    ClientIdModel, ClientIdPayload,
};
use crate::oauth::scope::{both_scopes, lenient_grant, scope_text, ScopeGrant};
use crate::oauth::signing::{coded, opened, signed, SigningKey, CLIENT_LABEL, CLIENT_SECRET_LABEL};
use crate::oauth::OAuthError;
use crate::order::{ascending, TextSet};
use crate::scan::{
    cut_at, lemma_prefix_falls_away, split_text_once, strip_text_prefix, without_prefix,
};
use crate::text::{
    ascii_lower_text, byte_len, bytes_of, clone_texts, joined, same_ignoring_ascii_case, same_text,
    str_option, text_bytes_len, text_from_utf8, text_option, texts,
};
use crate::web::{parse_url, url_of, UrlModel};

verus! {

/// The most redirect URIs that a client can register.
pub const MAX_REDIRECT_URIS: usize = 8;

/// The longest client identifier, in bytes.
pub const MAX_CLIENT_ID_LENGTH: usize = 8_192;

/// The longest redirect URI, in bytes.
pub const MAX_REDIRECT_URI_LENGTH: usize = 2_048;

/// What stands before a client identifier.
pub const CLIENT_ID_PREFIX: &'static str = "dcr.";

/// What stands before a client secret.
pub const CLIENT_SECRET_PREFIX: &'static str = "dcs_";

/// Whether a host is this machine.
pub open spec fn is_local_host(host: Option<Seq<char>>) -> bool {
    host == Some("localhost"@) || host == Some("127.0.0.1"@) || host == Some("::1"@)
}

/// Whether a URL can be redirected to: over HTTPS, or for a native application
/// over HTTP on this machine; without a fragment or credentials.
pub open spec fn redirect_target(url: UrlModel, application_type: Seq<char>) -> bool {
    &&& url.fragment is None
    &&& url.username.len() == 0
    &&& url.password is None
    &&& (url.scheme == "https"@ && url.host is Some) || (application_type == "native"@ && url.scheme
        == "http"@ && is_local_host(url.host))
}

/// Whether a client may register a redirect URI.
pub open spec fn redirect_allowed(uri: Seq<char>, application_type: Seq<char>) -> bool {
    byte_len(uri) <= MAX_REDIRECT_URI_LENGTH && (url_of(uri) matches Some(url) && redirect_target(
        url,
        application_type,
    ))
}

pub fn validate_redirect_uri(value: &str, application_type: &str) -> (r: Result<(), OAuthError>)
    ensures
        r is Ok <==> redirect_allowed(value@, application_type@),
        r matches Err(error) ==> error is InvalidClient,
{
    if text_bytes_len(value) > MAX_REDIRECT_URI_LENGTH {
        return Err(OAuthError::InvalidClient);
    }
    let url = match parse_url(value) {
        Some(url) => url,
        None => {
            return Err(OAuthError::InvalidClient);
        },
    };
    if url.fragment.is_some() || !url.username.as_str().is_empty() || url.password.is_some() {
        return Err(OAuthError::InvalidClient);
    }
    if same_text(url.scheme.as_str(), "https") && url.host.is_some() {
        return Ok(());
    }
    let local = match &url.host {
        Some(host) => same_text(host.as_str(), "localhost") || same_text(
            host.as_str(),
            "127.0.0.1",
        ) || same_text(host.as_str(), "::1"),
        None => false,
    };
    if same_text(application_type, "native") && same_text(url.scheme.as_str(), "http") && local {
        return Ok(());
    }
    Err(OAuthError::InvalidClient)
}

/// The bytes that basic credentials encode, in either kind of base64.
pub open spec fn credential_bytes(encoded: Seq<char>) -> Option<Seq<u8>> {
    match base64_url_decoded(encoded) {
        Some(bytes) => Some(bytes),
        None => base64_standard_decoded(encoded),
    }
}

/// Name and secret of basic credentials.
pub open spec fn basic_credentials(value: Seq<char>) -> Option<(Seq<char>, Seq<char>)> {
    match cut_at(value, ' ') {
        Some((scheme, encoded)) => if ascii_lower_text(scheme) == ascii_lower_text("Basic"@)
            && encoded.len() > 0 {
            match credential_bytes(encoded) {
                Some(bytes) => if valid_utf8(bytes) {
                    match cut_at(decode_utf8(bytes), ':') {
                        Some((name, secret)) => if name.len() > 0 && secret.len() > 0 {
                            Some((name, secret))
                        } else {
                            None
                        },
                        None => None,
                    }
                } else {
                    None
                },
                None => None,
            }
        } else {
            None
        },
        None => None,
    }
}

pub fn parse_basic_credentials(value: &str) -> (r: Result<(String, String), OAuthError>)
    ensures
        match r {
            Ok((name, secret)) => basic_credentials(value@) == Some((name@, secret@)),
            Err(error) => error is InvalidClient && basic_credentials(value@) is None,
        },
{
    let (scheme, encoded) = match split_text_once(value, ' ') {
        Some(parts) => parts,
        None => {
            return Err(OAuthError::InvalidClient);
        },
    };
    if !same_ignoring_ascii_case(scheme.as_str(), "Basic") || encoded.as_str().is_empty() {
        return Err(OAuthError::InvalidClient);
    }
    let bytes = match base64_url_decode(encoded.as_str()) {
        Some(bytes) => bytes,
        None => match base64_standard_decode(encoded.as_str()) {
            Some(bytes) => bytes,
            None => {
                return Err(OAuthError::InvalidClient);
            },
        },
    };
    let ghost decoded_bytes = bytes@;
    let decoded = match text_from_utf8(bytes) {
        Some(decoded) => decoded,
        None => {
            return Err(OAuthError::InvalidClient);
        },
    };
    proof {
        vstd::utf8::encode_utf8_decode_utf8(decoded@);
    }
    match split_text_once(decoded.as_str(), ':') {
        Some((name, secret)) => {
            if name.as_str().is_empty() || secret.as_str().is_empty() {
                return Err(OAuthError::InvalidClient);
            }
            Ok((name, secret))
        },
        None => Err(OAuthError::InvalidClient),
    }
}

/// A client as its identifier describes it.
pub struct RegisteredClient {
    pub client_id: String,
    pub redirect_uris: TextSet,
    pub token_endpoint_auth_method: ClientAuthenticationMethod,
    pub scopes: ScopeGrant,
}

/// A client as mathematical values.
pub struct ClientModel {
    pub client_id: Seq<char>,
    pub redirect_uris: Set<Seq<char>>,
    pub token_endpoint_auth_method: ClientAuthenticationMethod,
    pub scopes: Set<Seq<char>>,
}

impl View for RegisteredClient {
    type V = ClientModel;

    open spec fn view(&self) -> ClientModel {
        ClientModel {
            client_id: self.client_id@,
            redirect_uris: self.redirect_uris@,
            token_endpoint_auth_method: self.token_endpoint_auth_method,
            scopes: self.scopes@,
        }
    }
}

/// Whether a client may have registered a redirect URI under either type of
/// application.
pub open spec fn redirect_registrable(uri: Seq<char>) -> bool {
    redirect_allowed(uri, "native"@) || redirect_allowed(uri, "web"@)
}

/// Whether the redirect URIs of an identifier are such as are registered.
pub open spec fn redirects_registrable(uris: Seq<Seq<char>>) -> bool {
    &&& 1 <= uris.len() <= MAX_REDIRECT_URIS
    &&& uris.no_duplicates()
    &&& forall|i: int| 0 <= i < uris.len() ==> redirect_registrable(#[trigger] uris[i])
}

/// What an identifier says of its client; nothing where this server did not
/// sign it.
pub open spec fn client_payload(key: Seq<u8>, client_id: Seq<char>) -> Option<ClientIdModel> {
    match without_prefix(client_id, CLIENT_ID_PREFIX@) {
        Some(text) => match opened(key, CLIENT_LABEL@, text) {
            Some(tree) => client_id_in(tree),
            None => None,
        },
        None => None,
    }
}

/// The client of an identifier.
pub open spec fn registered_client(key: Seq<u8>, client_id: Seq<char>) -> Option<ClientModel> {
    if byte_len(client_id) > MAX_CLIENT_ID_LENGTH {
        None
    } else {
        match client_payload(key, client_id) {
            Some(payload) => if payload.version == 1 && redirects_registrable(
                payload.redirect_uris,
            ) {
                Some(
                    ClientModel {
                        client_id,
                        redirect_uris: payload.redirect_uris.to_set(),
                        token_endpoint_auth_method: payload.token_endpoint_auth_method,
                        scopes: payload.scopes,
                    },
                )
            } else {
                None
            },
            None => None,
        }
    }
}

/// Every redirect URI of a client is a URL of bounded length.
pub proof fn lemma_registered_redirects(key: Seq<u8>, client_id: Seq<char>, uri: Seq<char>)
    requires
        registered_client(key, client_id) matches Some(client) && client.redirect_uris.contains(
            uri,
        ),
    ensures
        redirect_registrable(uri),
        byte_len(uri) <= MAX_REDIRECT_URI_LENGTH,
        url_of(uri) is Some,
{
    let uris = client_payload(key, client_id)->Some_0.redirect_uris;
    assert(uris.contains(uri));
    let i = choose|i: int| 0 <= i < uris.len() && uris[i] == uri;
    assert(redirect_registrable(uris[i]));
}

/// Whether texts are all different, told by the size of the set of them.
fn all_different(list: &Vec<String>) -> (r: bool)
    ensures
        r == texts(list@).no_duplicates(),
{
    let set = TextSet::from_texts(list);
    let n: usize = set.len();
    proof {
        let all = texts(list@);
        if n == all.len() {
            all.lemma_no_dup_set_cardinality();
        } else if all.no_duplicates() {
            all.unique_seq_to_set();
        }
    }
    n == list.len()
}

pub fn client_from_id(key: &SigningKey, client_id: &str) -> (r: Result<
    RegisteredClient,
    OAuthError,
>)
    ensures
        match r {
            Ok(client) => registered_client(key@, client_id@) == Some(client@),
            Err(error) => error is InvalidClient && registered_client(key@, client_id@) is None,
        },
{
    if text_bytes_len(client_id) > MAX_CLIENT_ID_LENGTH {
        return Err(OAuthError::InvalidClient);
    }
    let text = match strip_text_prefix(client_id, CLIENT_ID_PREFIX) {
        Some(text) => text,
        None => {
            return Err(OAuthError::InvalidClient);
        },
    };
    let said = match key.verify(CLIENT_LABEL, text.as_str()) {
        Ok(said) => said,
        Err(_) => {
            return Err(OAuthError::InvalidClient);
        },
    };
    let payload = match ClientIdPayload::from_json(&said) {
        Some(payload) => payload,
        None => {
            return Err(OAuthError::InvalidClient);
        },
    };
    if payload.version != 1 || payload.redirect_uris.is_empty() || payload.redirect_uris.len()
        > MAX_REDIRECT_URIS {
        return Err(OAuthError::InvalidClient);
    }
    let ghost uris = texts(payload.redirect_uris@);
    let mut i: usize = 0;
    while i < payload.redirect_uris.len()
        invariant
            i <= payload.redirect_uris@.len(),
            uris == texts(payload.redirect_uris@),
            byte_len(client_id@) <= MAX_CLIENT_ID_LENGTH,
            client_payload(key@, client_id@) == Some(payload@),
            forall|j: int| 0 <= j < i ==> redirect_registrable(#[trigger] uris[j]),
        decreases payload.redirect_uris@.len() - i,
    {
        let uri = payload.redirect_uris[i].as_str();
        proof {
            assert(uris[i as int] == uri@);
        }
        if validate_redirect_uri(uri, "native").is_err() && validate_redirect_uri(
            uri,
            "web",
        ).is_err() {
            return Err(OAuthError::InvalidClient);
        }
        i = i + 1;
    }
    if !all_different(&payload.redirect_uris) {
        return Err(OAuthError::InvalidClient);
    }
    Ok(
        RegisteredClient {
            client_id: client_id.to_owned(),
            redirect_uris: TextSet::from_texts(&payload.redirect_uris),
            token_endpoint_auth_method: payload.token_endpoint_auth_method,
            scopes: payload.scopes,
        },
    )
}

/// The secret of the client of an identifier.
pub open spec fn secret_of(key: Seq<u8>, client_id: Seq<char>) -> Seq<char> {
    CLIENT_SECRET_PREFIX@ + coded(key, CLIENT_SECRET_LABEL@, client_id)
}

pub fn client_secret(key: &SigningKey, client_id: &str) -> (r: String)
    ensures
        r@ == secret_of(key@, client_id@),
{
    let digest = key.mac(CLIENT_SECRET_LABEL, bytes_of(client_id).as_slice());
    joined(CLIENT_SECRET_PREFIX, base64_url_encode(digest.as_slice()).as_str())
}

/// Whether texts are the same, compared in constant time.
pub fn same_secret(a: &str, b: &str) -> (r: bool)
    ensures
        r == (a@ == b@),
{
    proof {
        crate::text::lemma_bytes_tell_texts_apart(a@, b@);
    }
    constant_time_equal(bytes_of(a).as_slice(), bytes_of(b).as_slice())
}

/// Whether a client that sends these credentials has proved who it is in the
/// way it is registered for.
pub open spec fn proves_itself(
    key: Seq<u8>,
    client: ClientModel,
    client_secret: Option<Seq<char>>,
    basic: Option<(Seq<char>, Seq<char>)>,
) -> bool {
    match client.token_endpoint_auth_method {
        ClientAuthenticationMethod::Public => basic is None && client_secret is None,
        ClientAuthenticationMethod::ClientSecretPost => basic is None && client_secret == Some(
            secret_of(key, client.client_id),
        ),
        ClientAuthenticationMethod::ClientSecretBasic => basic matches Some((_, secret)) && secret
            == secret_of(key, client.client_id),
    }
}

/// The client of a token request: the one that its authorization header names,
/// else the one that its form names, never both; nothing where it is unknown or
/// has not proved who it is.
pub open spec fn authenticated_client(
    key: Seq<u8>,
    client_id: Option<Seq<char>>,
    client_secret: Option<Seq<char>>,
    header: Option<Seq<char>>,
) -> Option<ClientModel> {
    match header {
        Some(header) => match basic_credentials(header) {
            Some((name, secret)) => if client_id is None && client_secret is None {
                match registered_client(key, name) {
                    Some(client) => if proves_itself(key, client, None, Some((name, secret))) {
                        Some(client)
                    } else {
                        None
                    },
                    None => None,
                }
            } else {
                None
            },
            None => None,
        },
        None => match client_id {
            Some(name) => match registered_client(key, name) {
                Some(client) => if proves_itself(key, client, client_secret, None) {
                    Some(client)
                } else {
                    None
                },
                None => None,
            },
            None => None,
        },
    }
}

pub fn authenticate_client(
    key: &SigningKey,
    request_client_id: Option<&str>,
    request_client_secret: Option<&str>,
    authorization_header: Option<&str>,
) -> (r: Result<RegisteredClient, OAuthError>)
    ensures
        match r {
            Ok(client) => authenticated_client(
                key@,
                str_option(request_client_id),
                str_option(request_client_secret),
                str_option(authorization_header),
            ) == Some(client@),
            Err(error) => error is InvalidClient && authenticated_client(
                key@,
                str_option(request_client_id),
                str_option(request_client_secret),
                str_option(authorization_header),
            ) is None,
        },
{
    let basic = match authorization_header {
        Some(header) => match parse_basic_credentials(header) {
            Ok(credentials) => Some(credentials),
            Err(error) => {
                return Err(error);
            },
        },
        None => None,
    };
    if basic.is_some() && (request_client_id.is_some() || request_client_secret.is_some()) {
        return Err(OAuthError::InvalidClient);
    }
    let client_id: String = match &basic {
        Some((name, _)) => name.clone(),
        None => match request_client_id {
            Some(name) => name.to_owned(),
            None => {
                return Err(OAuthError::InvalidClient);
            },
        },
    };
    let client = client_from_id(key, client_id.as_str())?;
    let proved = match client.token_endpoint_auth_method {
        ClientAuthenticationMethod::Public => basic.is_none() && request_client_secret.is_none(),
        ClientAuthenticationMethod::ClientSecretPost => basic.is_none()
            && match request_client_secret {
            Some(secret) => same_secret(secret, client_secret(key, client_id.as_str()).as_str()),
            None => false,
        },
        ClientAuthenticationMethod::ClientSecretBasic => match &basic {
            Some((_, secret)) => same_secret(
                secret.as_str(),
                client_secret(key, client_id.as_str()).as_str(),
            ),
            None => false,
        },
    };
    if proved {
        Ok(client)
    } else {
        Err(OAuthError::InvalidClient)
    }
}

/// A request to register a client.
pub struct RegistrationRequest {
    pub redirect_uris: Vec<String>,
    pub grant_types: Vec<String>,
    pub response_types: Vec<String>,
    pub token_endpoint_auth_method: Option<String>,
    pub scope: Option<String>,
    pub application_type: Option<String>,
}

/// What a registered client is told.
pub struct RegistrationResponse {
    pub client_id: String,
    pub client_id_issued_at: u64,
    pub client_secret: Option<String>,
    pub client_secret_expires_at: Option<u64>,
    pub redirect_uris: Vec<String>,
    pub grant_types: Vec<&'static str>,
    pub response_types: Vec<&'static str>,
    pub token_endpoint_auth_method: String,
    pub scope: String,
}

/// Whether a client can ask for these grants: none at all, or the authorization
/// code with or without refreshing.
pub open spec fn grant_types_allowed(grants: Seq<Seq<char>>) -> bool {
    grants.len() == 0 || (grants.contains("authorization_code"@) && forall|i: int|
        0 <= i < grants.len() ==> (#[trigger] grants[i]) == "authorization_code"@ || grants[i]
            == "refresh_token"@)
}

/// Whether a client can ask for these responses: none at all, or a code.
pub open spec fn response_types_allowed(responses: Seq<Seq<char>>) -> bool {
    responses.len() == 0 || responses =~= seq!["code"@]
}

/// The type of application: for the web where nothing is said.
pub open spec fn application_type_of(name: Option<Seq<char>>) -> Seq<char> {
    match name {
        Some(name) => name,
        None => "web"@,
    }
}

/// Whether a client is registered on this request.
pub open spec fn registration_allowed(request: RegistrationRequest) -> bool {
    let uris = texts(request.redirect_uris@);
    let application_type = application_type_of(text_option(request.application_type));
    &&& 1 <= uris.len() <= MAX_REDIRECT_URIS
    &&& grant_types_allowed(texts(request.grant_types@))
    &&& response_types_allowed(texts(request.response_types@))
    &&& requested_method(text_option(request.token_endpoint_auth_method)) is Some
    &&& application_type == "web"@ || application_type == "native"@
    &&& forall|i: int| 0 <= i < uris.len() ==> redirect_allowed(#[trigger] uris[i], application_type)
    &&& uris.no_duplicates()
}

/// The scopes that a registered client can ask for.
pub open spec fn registered_scopes(scope: Option<Seq<char>>) -> Set<Seq<char>> {
    match scope {
        Some(text) => lenient_grant(text),
        None => both_scopes(),
    }
}

/// What the identifier of a client registered at `now` says.
pub open spec fn registration_payload(request: RegistrationRequest, now: u64) -> ClientIdModel {
    ClientIdModel {
        version: 1,
        redirect_uris: ascending(texts(request.redirect_uris@).to_set()),
        token_endpoint_auth_method: requested_method(
            text_option(request.token_endpoint_auth_method),
        )->Some_0,
        scopes: registered_scopes(text_option(request.scope)),
        issued_at: now,
    }
}

/// The identifier of a client registered at `now`.
pub open spec fn registration_id(key: Seq<u8>, request: RegistrationRequest, now: u64) -> Seq<
    char,
> {
    CLIENT_ID_PREFIX@ + signed(
        key,
        CLIENT_LABEL@,
        client_id_tree(registration_payload(request, now)),
    )
}

/// The client that a request registers, under an identifier.
pub open spec fn client_of_registration(
    request: RegistrationRequest,
    client_id: Seq<char>,
) -> ClientModel {
    ClientModel {
        client_id,
        redirect_uris: texts(request.redirect_uris@).to_set(),
        token_endpoint_auth_method: requested_method(
            text_option(request.token_endpoint_auth_method),
        )->Some_0,
        scopes: registered_scopes(text_option(request.scope)),
    }
}

/// Whether a response tells what a request registered at `now` led to.
pub open spec fn registration_answer(
    key: Seq<u8>,
    request: RegistrationRequest,
    now: u64,
    response: RegistrationResponse,
) -> bool {
    let payload = registration_payload(request, now);
    let secret = !(payload.token_endpoint_auth_method is Public);
    &&& response.client_id@ == registration_id(key, request, now)
    &&& response.client_id_issued_at == now
    &&& text_option(response.client_secret) == (if secret {
        Some(secret_of(key, response.client_id@))
    } else {
        None
    })
    &&& response.client_secret_expires_at == (if secret {
        Some(0u64)
    } else {
        None
    })
    &&& texts(response.redirect_uris@) == payload.redirect_uris
    &&& response.grant_types@.len() == 2 && response.grant_types@[0]@ == "authorization_code"@
        && response.grant_types@[1]@ == "refresh_token"@
    &&& response.response_types@.len() == 1 && response.response_types@[0]@ == "code"@
    &&& response.token_endpoint_auth_method@ == method_name(payload.token_endpoint_auth_method)
    &&& response.scope@ == scope_text(payload.scopes)
}

fn are_grant_types_allowed(grants: &Vec<String>) -> (r: bool)
    ensures
        r == grant_types_allowed(texts(grants@)),
{
    if grants.is_empty() {
        return true;
    }
    let ghost all = texts(grants@);
    let mut found = false;
    let mut i: usize = 0;
    while i < grants.len()
        invariant
            i <= grants@.len(),
            all == texts(grants@),
            all.len() > 0,
            found == (exists|j: int| 0 <= j < i && all[j] == "authorization_code"@),
            forall|j: int|
                0 <= j < i ==> (#[trigger] all[j]) == "authorization_code"@ || all[j]
                    == "refresh_token"@,
        decreases grants@.len() - i,
    {
        proof {
            assert(all[i as int] == grants@[i as int]@);
        }
        if same_text(grants[i].as_str(), "authorization_code") {
            found = true;
        } else if !same_text(grants[i].as_str(), "refresh_token") {
            return false;
        }
        i = i + 1;
    }
    found
}

/// Registers a client at `now`. The identifier reads back as the client that
/// was registered, where it is no longer than identifiers may be.
pub fn register_client_at(key: &SigningKey, request: RegistrationRequest, now: u64) -> (r: Result<
    RegistrationResponse,
    OAuthError,
>)
    ensures
        match r {
            Ok(response) => registration_allowed(request) && registration_answer(
                key@,
                request,
                now,
                response,
            ) && (byte_len(response.client_id@) <= MAX_CLIENT_ID_LENGTH ==> registered_client(
                key@,
                response.client_id@,
            ) == Some(client_of_registration(request, response.client_id@))),
            Err(error) => error is InvalidClient && !registration_allowed(request),
        },
{
    if request.redirect_uris.is_empty() || request.redirect_uris.len() > MAX_REDIRECT_URIS {
        return Err(OAuthError::InvalidClient);
    }
    if !are_grant_types_allowed(&request.grant_types) {
        return Err(OAuthError::InvalidClient);
    }
    if !request.response_types.is_empty() && (request.response_types.len() != 1 || !same_text(
        request.response_types[0].as_str(),
        "code",
    )) {
        proof {
            let responses = texts(request.response_types@);
            if responses.len() == 1 {
                assert(responses[0] == request.response_types@[0]@);
            }
        }
        return Err(OAuthError::InvalidClient);
    }
    proof {
        let responses = texts(request.response_types@);
        if responses.len() > 0 {
            assert(responses =~= seq!["code"@]);
        }
    }
    let method_asked: Option<&str> = match &request.token_endpoint_auth_method {
        Some(name) => Some(name.as_str()),
        None => None,
    };
    let method = ClientAuthenticationMethod::parse(method_asked)?;
    let application_type: String = match &request.application_type {
        Some(name) => name.clone(),
        None => "web".to_owned(),
    };
    if !same_text(application_type.as_str(), "web") && !same_text(
        application_type.as_str(),
        "native",
    ) {
        return Err(OAuthError::InvalidClient);
    }
    let ghost uris = texts(request.redirect_uris@);
    let mut i: usize = 0;
    while i < request.redirect_uris.len()
        invariant
            i <= request.redirect_uris@.len(),
            uris == texts(request.redirect_uris@),
            application_type@ == application_type_of(text_option(request.application_type)),
            forall|j: int| 0 <= j < i ==> redirect_allowed(#[trigger] uris[j], application_type@),
        decreases request.redirect_uris@.len() - i,
    {
        proof {
            assert(uris[i as int] == request.redirect_uris@[i as int]@);
        }
        if validate_redirect_uri(
            request.redirect_uris[i].as_str(),
            application_type.as_str(),
        ).is_err() {
            return Err(OAuthError::InvalidClient);
        }
        i = i + 1;
    }
    if !all_different(&request.redirect_uris) {
        return Err(OAuthError::InvalidClient);
    }
    let redirect_uris = TextSet::from_texts(&request.redirect_uris);
    let scopes = match &request.scope {
        Some(text) => ScopeGrant::parse_lenient(text.as_str()),
        None => ScopeGrant::default_for_new_client(),
    };
    let listed = clone_texts(redirect_uris.items());
    let payload = ClientIdPayload {
        version: 1,
        redirect_uris: listed,
        token_endpoint_auth_method: method,
        scopes: scopes.copy(),
        issued_at: now,
    };
    let body = match key.sign(CLIENT_LABEL, &payload.to_json()) {
        Ok(body) => body,
        Err(_) => {
            return Err(OAuthError::InvalidClient);
        },
    };
    let client_id = joined(CLIENT_ID_PREFIX, body.as_str());
    proof {
        assert(payload@ == registration_payload(request, now));
        assert(client_id@ == registration_id(key@, request, now));
        lemma_prefix_falls_away(CLIENT_ID_PREFIX@, body@);
        lemma_listed_redirects(
            uris,
            texts(payload.redirect_uris@),
            application_type@,
        );
    }
    let secret = match method {
        ClientAuthenticationMethod::Public => None,
        _ => Some(client_secret(key, client_id.as_str())),
    };
    let secret_expires_at: Option<u64> = match method {
        ClientAuthenticationMethod::Public => None,
        _ => Some(0),
    };
    Ok(
        RegistrationResponse {
            client_id,
            client_id_issued_at: now,
            client_secret: secret,
            client_secret_expires_at: secret_expires_at,
            redirect_uris: payload.redirect_uris,
            grant_types: vec!["authorization_code", "refresh_token"],
            response_types: vec!["code"],
            token_endpoint_auth_method: method.as_str().to_owned(),
            scope: scopes.as_string(),
        },
    )
}

/// Different redirect URIs that are allowed can be registered in ascending
/// order.
proof fn lemma_listed_redirects(
    uris: Seq<Seq<char>>,
    listed: Seq<Seq<char>>,
    application_type: Seq<char>,
)
    requires
        1 <= uris.len() <= MAX_REDIRECT_URIS,
        uris.no_duplicates(),
        forall|i: int|
            0 <= i < uris.len() ==> redirect_allowed(#[trigger] uris[i], application_type),
        application_type == "web"@ || application_type == "native"@,
        crate::order::strictly_ascending(listed),
        listed.to_set() == uris.to_set(),
    ensures
        redirects_registrable(listed),
{
    crate::order::lemma_ascending_no_duplicates(listed);
    listed.unique_seq_to_set();
    uris.unique_seq_to_set();
    assert forall|i: int| 0 <= i < listed.len() implies redirect_registrable(
        #[trigger] listed[i],
    ) by {
        assert(listed.to_set().contains(listed[i]));
        assert(uris.to_set().contains(listed[i]));
        let j = choose|j: int| 0 <= j < uris.len() && uris[j] == listed[i];
        assert(redirect_allowed(uris[j], application_type));
    }
}

} // verus!
