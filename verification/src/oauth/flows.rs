//! What the authorization server does: its requests and answers, and each of its
//! flows as a function of the server's state, the request, the time and random
//! bytes.
use vstd::prelude::*;
use vstd::utf8::encode_utf8;

use crate::auth::AccessScope;
use crate::config::{oauth_config_error, OAuthConfig};
use crate::crypto::{base64_url_bytes, base64_url_of};
use crate::oauth::claims::{
    access_in, access_tree, approval_in, approval_tree, refresh_in, refresh_tree, AccessModel,
    ApprovalModel, RefreshModel,
};
use crate::oauth::client::{
    authenticated_client, registered_client, ClientModel, MAX_CLIENT_ID_LENGTH,
};
use crate::oauth::families::{
    after_rotation, family_active, opened_state, rotation_granted, with_family, FamilyModel,
    StateDirectory,
};
use crate::oauth::page::approval_page;
use crate::oauth::pkce::{answers_challenge, is_code_challenge};
use crate::oauth::scope::{access_of, grant_allows, grantable, requested_grant, scope_text};
use crate::oauth::service::AuthorizationCode;
use crate::oauth::signing::{
    coded, mac_of, opened, opened_token, random_text, signed, ACCESS_TOKEN_LABEL, APPROVAL_LABEL,
    CLIENT_BINDING_LABEL, FINGERPRINT_LABEL, REFRESH_ID_LABEL, REFRESH_TOKEN_LABEL,
    TOKEN_HASH_LABEL,
};
use crate::scan::without_prefix;
use crate::oauth::OAuthError;
use crate::table::unlapsed;
use crate::text::{byte_len, text_option};
use crate::web::url_with_pairs;

verus! {

/// How long a consent page can be answered.
pub const APPROVAL_REQUEST_TTL_SECONDS: u64 = 300;

/// The longest value of a form field or token, in bytes.
pub const MAX_FORM_VALUE_LENGTH: usize = 8_192;

/// What stands before an access token.
pub const ACCESS_TOKEN_PREFIX: &'static str = "at_";

/// What stands before a refresh token.
pub const REFRESH_TOKEN_PREFIX: &'static str = "rt_";

/// The version of token claims.
pub const TOKEN_CLAIMS_VERSION: u8 = 1;

/// A request for authorization, as a client sends it.
pub struct AuthorizationQuery {
    pub response_type: String,
    pub client_id: String,
    pub redirect_uri: String,
    pub scope: Option<String>,
    pub state: Option<String>,
    pub resource: String,
    pub code_challenge: String,
    pub code_challenge_method: String,
}

/// The owner's answer to a consent page.
pub struct ApprovalForm {
    pub request: String,
    pub owner_secret: String,
    pub decision: String,
    pub scope: String,
}

/// A request at the token endpoint.
pub struct TokenRequest {
    pub grant_type: String,
    pub code: Option<String>,
    pub redirect_uri: Option<String>,
    pub client_id: Option<String>,
    pub client_secret: Option<String>,
    pub code_verifier: Option<String>,
    pub refresh_token: Option<String>,
    pub scope: Option<String>,
    pub resource: String,
}

/// A pair of tokens.
pub struct TokenResponse {
    pub access_token: String,
    pub refresh_token: String,
    pub token_type: &'static str,
    pub expires_in: u64,
    pub scope: String,
}

/// Where the owner's browser is sent.
pub enum AuthorizationRedirect {
    Approved(String),
    Denied(String),
}

/// An authorization code as mathematical values.
pub struct CodeModel {
    pub client_id: Seq<char>,
    pub redirect_uri: Seq<char>,
    pub scopes: Set<Seq<char>>,
    pub resource: Seq<char>,
    pub code_challenge: Seq<char>,
    pub expires_at: u64,
}

/// The authorization server as mathematical values.
pub struct OAuthModel {
    pub issuer: Seq<char>,
    pub resource: Seq<char>,
    pub owner_secret: Seq<u8>,
    pub key: Seq<u8>,
    pub access_ttl: u64,
    pub code_ttl: u64,
    pub refresh_ttl: u64,
    /// Authorization codes that were given out, by their hash.
    pub codes: Map<Seq<u8>, CodeModel>,
    /// Families of refresh tokens, by their name.
    pub families: Map<Seq<char>, FamilyModel>,
}

/// The time `ttl` seconds after `now`, or the last there is.
pub open spec fn after(now: u64, ttl: u64) -> u64 {
    if now + ttl > u64::MAX {
        u64::MAX
    } else {
        (now + ttl) as u64
    }
}

/// The hash under which a token or code is known.
pub open spec fn hash_of(key: Seq<u8>, token: Seq<char>) -> Seq<u8> {
    mac_of(key, TOKEN_HASH_LABEL@, encode_utf8(token))
}

/// The audit fingerprint of a token.
pub open spec fn fingerprint_of(key: Seq<u8>, token: Seq<char>) -> Seq<u8> {
    mac_of(key, FINGERPRINT_LABEL@, hash_of(key, token)).take(8)
}

/// What an access token says; nothing where this server did not sign it.
pub open spec fn access_token_claims(key: Seq<u8>, token: Seq<char>) -> Option<AccessModel> {
    match opened_token(key, ACCESS_TOKEN_PREFIX@, ACCESS_TOKEN_LABEL@, token) {
        Some(tree) => access_in(tree),
        None => None,
    }
}

/// What a refresh token says; nothing where this server did not sign it.
pub open spec fn refresh_token_claims(key: Seq<u8>, token: Seq<char>) -> Option<RefreshModel> {
    match opened_token(key, REFRESH_TOKEN_PREFIX@, REFRESH_TOKEN_LABEL@, token) {
        Some(tree) => refresh_in(tree),
        None => None,
    }
}

/// What the bearer of a token may see at `now`; nothing where the token is not
/// honoured.
pub open spec fn bearer_access(m: OAuthModel, token: Seq<char>, now: u64) -> Option<AccessScope> {
    if byte_len(token) > MAX_FORM_VALUE_LENGTH {
        None
    } else {
        match access_token_claims(m.key, token) {
            Some(claims) => if claims.version == TOKEN_CLAIMS_VERSION && grantable(claims.scopes)
                && claims.family_id.len() > 0 && claims.audience == m.resource && claims.expires_at
                > now && family_active(m.families, claims.family_id, now) {
                Some(access_of(claims.scopes))
            } else {
                None
            },
            None => None,
        }
    }
}

/// What a token exchange grants, and to whom.
pub struct GrantModel {
    pub client_id: Seq<char>,
    pub scopes: Set<Seq<char>>,
    pub family_id: Seq<char>,
    /// The random bytes of the access token's name.
    pub access_id: Seq<u8>,
    /// The random bytes of the refresh token's name.
    pub refresh_id: Seq<u8>,
}

pub open spec fn granted_access_claims(m: OAuthModel, g: GrantModel, now: u64) -> AccessModel {
    AccessModel {
        version: TOKEN_CLAIMS_VERSION,
        token_id: random_text("ati_"@, g.access_id),
        family_id: g.family_id,
        scopes: g.scopes,
        audience: m.resource,
        issued_at: now,
        expires_at: after(now, m.access_ttl),
    }
}

pub open spec fn granted_refresh_claims(m: OAuthModel, g: GrantModel, now: u64) -> RefreshModel {
    RefreshModel {
        version: TOKEN_CLAIMS_VERSION,
        family_id: g.family_id,
        token_id: random_text("rti_"@, g.refresh_id),
        client_binding: coded(m.key, CLIENT_BINDING_LABEL@, g.client_id),
        scopes: g.scopes,
        audience: m.resource,
        issued_at: now,
        expires_at: after(now, m.refresh_ttl),
    }
}

/// The access token of a grant.
pub open spec fn granted_access_token(m: OAuthModel, g: GrantModel, now: u64) -> Seq<char> {
    ACCESS_TOKEN_PREFIX@ + signed(
        m.key,
        ACCESS_TOKEN_LABEL@,
        access_tree(granted_access_claims(m, g, now)),
    )
}

/// The refresh token of a grant.
pub open spec fn granted_refresh_token(m: OAuthModel, g: GrantModel, now: u64) -> Seq<char> {
    REFRESH_TOKEN_PREFIX@ + signed(
        m.key,
        REFRESH_TOKEN_LABEL@,
        refresh_tree(granted_refresh_claims(m, g, now)),
    )
}

/// The hash under which the name of a refresh token is kept.
pub open spec fn refresh_id_hash(key: Seq<u8>, token_id: Seq<char>) -> Seq<char> {
    coded(key, REFRESH_ID_LABEL@, token_id)
}

/// Whether a response carries the tokens of a grant.
pub open spec fn carries_grant(
    m: OAuthModel,
    g: GrantModel,
    now: u64,
    response: TokenResponse,
) -> bool {
    &&& response.access_token@ == granted_access_token(m, g, now)
    &&& response.refresh_token@ == granted_refresh_token(m, g, now)
    &&& response.token_type@ == "Bearer"@
    &&& response.expires_in == m.access_ttl
    &&& response.scope@ == scope_text(g.scopes)
}

/// Random bytes for the names of a pair of tokens and their family, as far as
/// the generator gave them.
pub struct TokenDraws {
    pub family: Option<[u8; 32]>,
    pub access: Option<[u8; 32]>,
    pub refresh: Option<[u8; 32]>,
}

/// What a token request leads to.
pub struct ExchangeModel {
    /// The authorization codes that are left.
    pub codes: Map<Seq<u8>, CodeModel>,
    /// The families to store before the answer; nothing where they stay as they
    /// are.
    pub next: Option<Map<Seq<char>, FamilyModel>>,
    /// What is granted, or why nothing is.
    pub result: Result<GrantModel, OAuthError>,
}

pub open spec fn refused(m: OAuthModel, error: OAuthError) -> ExchangeModel {
    ExchangeModel { codes: m.codes, next: None, result: Err(error) }
}

/// A grant of new tokens in a new family.
pub open spec fn new_grant(
    m: OAuthModel,
    codes: Map<Seq<u8>, CodeModel>,
    scopes: Set<Seq<char>>,
    resource: Seq<char>,
    client_id: Seq<char>,
    now: u64,
    draws: TokenDraws,
) -> ExchangeModel {
    match draws.family {
        None => ExchangeModel { codes, next: None, result: Err(OAuthError::Entropy) },
        Some(family) => if resource != m.resource || !grantable(scopes) {
            ExchangeModel { codes, next: None, result: Err(OAuthError::InvalidTarget) }
        } else {
            match (draws.access, draws.refresh) {
                (Some(access), Some(refresh)) => {
                    let grant = GrantModel {
                        client_id,
                        scopes,
                        family_id: random_text("rf_"@, family@),
                        access_id: access@,
                        refresh_id: refresh@,
                    };
                    match with_family(
                        m.families,
                        grant.family_id,
                        refresh_id_hash(m.key, random_text("rti_"@, refresh@)),
                        after(now, m.refresh_ttl),
                        now,
                    ) {
                        Some(next) => ExchangeModel { codes, next: Some(next), result: Ok(grant) },
                        None => ExchangeModel {
                            codes,
                            next: None,
                            result: Err(OAuthError::Entropy),
                        },
                    }
                },
                _ => ExchangeModel { codes, next: None, result: Err(OAuthError::Entropy) },
            }
        },
    }
}

/// Whether a code that was given out can be redeemed by this request.
pub open spec fn code_redeemable(
    record: CodeModel,
    client_id: Seq<char>,
    redirect_uri: Seq<char>,
    resource: Seq<char>,
    verifier: Seq<char>,
    now: u64,
) -> bool {
    &&& record.expires_at > now
    &&& record.client_id == client_id
    &&& record.redirect_uri == redirect_uri
    &&& record.resource == resource
    &&& answers_challenge(verifier, record.code_challenge)
}

/// What redeeming an authorization code leads to. A code that is found is spent,
/// whether or not it can be redeemed.
pub open spec fn code_exchange(
    m: OAuthModel,
    request: TokenRequest,
    header: Option<Seq<char>>,
    now: u64,
    draws: TokenDraws,
) -> ExchangeModel {
    match (request.code, request.redirect_uri, request.code_verifier) {
        (Some(code), Some(redirect_uri), Some(verifier)) => if byte_len(code@)
            > MAX_FORM_VALUE_LENGTH || byte_len(verifier@) > 128 || byte_len(redirect_uri@)
            > MAX_FORM_VALUE_LENGTH || request.resource@ != m.resource {
            refused(m, OAuthError::InvalidGrant)
        } else {
            match authenticated_client(
                m.key,
                text_option(request.client_id),
                text_option(request.client_secret),
                header,
            ) {
                None => refused(m, OAuthError::InvalidClient),
                Some(client) => {
                    let hash = hash_of(m.key, code@);
                    if !m.codes.dom().contains(hash) {
                        refused(m, OAuthError::InvalidGrant)
                    } else if !code_redeemable(
                        m.codes[hash],
                        client.client_id,
                        redirect_uri@,
                        request.resource@,
                        verifier@,
                        now,
                    ) {
                        ExchangeModel {
                            codes: m.codes.remove(hash),
                            next: None,
                            result: Err(OAuthError::InvalidGrant),
                        }
                    } else {
                        new_grant(
                            m,
                            m.codes.remove(hash),
                            m.codes[hash].scopes,
                            m.codes[hash].resource,
                            client.client_id,
                            now,
                            draws,
                        )
                    }
                },
            }
        },
        _ => refused(m, OAuthError::InvalidGrant),
    }
}

/// Whether a refresh token can be used by a client at `now`.
pub open spec fn refresh_usable(
    m: OAuthModel,
    claims: RefreshModel,
    client_id: Seq<char>,
    now: u64,
) -> bool {
    &&& claims.version == TOKEN_CLAIMS_VERSION
    &&& grantable(claims.scopes)
    &&& claims.audience == m.resource
    &&& claims.expires_at > now
    &&& claims.client_binding == coded(m.key, CLIENT_BINDING_LABEL@, client_id)
}

/// The scopes that a refresh asks for: those it lists, else those of the token.
pub open spec fn refresh_scopes(claims: RefreshModel, scope: Option<Seq<char>>) -> Option<
    Set<Seq<char>>,
> {
    match scope {
        Some(text) => requested_grant(text),
        None => Some(claims.scopes),
    }
}

/// What presenting a valid refresh token leads to.
pub open spec fn renewed_grant(
    m: OAuthModel,
    claims: RefreshModel,
    client_id: Seq<char>,
    scopes: Set<Seq<char>>,
    now: u64,
    draws: TokenDraws,
) -> ExchangeModel {
    if claims.family_id.len() == 0 {
        refused(m, OAuthError::InvalidTarget)
    } else {
        match (draws.access, draws.refresh) {
            (Some(access), Some(refresh)) => {
                let presented = refresh_id_hash(m.key, claims.token_id);
                let next = after_rotation(
                    m.families,
                    claims.family_id,
                    presented,
                    refresh_id_hash(m.key, random_text("rti_"@, refresh@)),
                    after(now, m.refresh_ttl),
                    now,
                );
                let granted = rotation_granted(m.families, claims.family_id, presented, now);
                ExchangeModel {
                    codes: m.codes,
                    next: if granted || next != m.families {
                        Some(next)
                    } else {
                        None
                    },
                    result: if granted {
                        Ok(
                            GrantModel {
                                client_id,
                                scopes,
                                family_id: claims.family_id,
                                access_id: access@,
                                refresh_id: refresh@,
                            },
                        )
                    } else {
                        Err(OAuthError::InvalidGrant)
                    },
                }
            },
            _ => refused(m, OAuthError::Entropy),
        }
    }
}

/// What refreshing leads to.
pub open spec fn refresh_exchange(
    m: OAuthModel,
    request: TokenRequest,
    header: Option<Seq<char>>,
    now: u64,
    draws: TokenDraws,
) -> ExchangeModel {
    match request.refresh_token {
        None => refused(m, OAuthError::InvalidGrant),
        Some(token) => if byte_len(token@) > MAX_FORM_VALUE_LENGTH || request.resource@
            != m.resource {
            refused(m, OAuthError::InvalidGrant)
        } else {
            match authenticated_client(
                m.key,
                text_option(request.client_id),
                text_option(request.client_secret),
                header,
            ) {
                None => refused(m, OAuthError::InvalidClient),
                Some(client) => match refresh_token_claims(m.key, token@) {
                    None => refused(m, OAuthError::InvalidGrant),
                    Some(claims) => if !refresh_usable(m, claims, client.client_id, now) {
                        refused(m, OAuthError::InvalidGrant)
                    } else {
                        match refresh_scopes(claims, text_option(request.scope)) {
                            None => refused(m, OAuthError::InvalidScope),
                            Some(scopes) => if !grant_allows(claims.scopes, scopes) {
                                refused(m, OAuthError::InvalidScope)
                            } else {
                                renewed_grant(m, claims, client.client_id, scopes, now, draws)
                            },
                        }
                    },
                },
            }
        },
    }
}

/// What a token request leads to.
pub open spec fn exchange(
    m: OAuthModel,
    request: TokenRequest,
    header: Option<Seq<char>>,
    now: u64,
    draws: TokenDraws,
) -> ExchangeModel {
    if request.grant_type@ == "authorization_code"@ {
        code_exchange(m, request, header, now, draws)
    } else if request.grant_type@ == "refresh_token"@ {
        refresh_exchange(m, request, header, now, draws)
    } else {
        refused(m, OAuthError::InvalidGrant)
    }
}

/// The server that a configuration starts, with the families it found.
pub open spec fn started(config: OAuthConfig, families: Map<Seq<char>, FamilyModel>) -> OAuthModel {
    OAuthModel {
        issuer: config.issuer@,
        resource: config.resource@,
        owner_secret: encode_utf8(config.owner_secret@),
        key: encode_utf8(config.signing_key@),
        access_ttl: config.access_token_ttl_seconds,
        code_ttl: config.authorization_code_ttl_seconds,
        refresh_ttl: config.refresh_token_ttl_seconds,
        codes: Map::empty(),
        families,
    }
}

/// What starting the server leads to.
pub open spec fn start(config: OAuthConfig, directory: StateDirectory) -> Result<
    OAuthModel,
    OAuthError,
> {
    if oauth_config_error(config) is Some {
        Err(OAuthError::InvalidConfiguration)
    } else {
        match opened_state(directory) {
            Ok(families) => Ok(started(config, families)),
            Err(error) => Err(error),
        }
    }
}

/// The server once the families of an exchange are stored.
pub open spec fn settled(m: OAuthModel, e: ExchangeModel) -> OAuthModel {
    OAuthModel {
        codes: e.codes,
        families: match e.next {
            Some(families) => families,
            None => m.families,
        },
        ..m
    }
}

/// The tokens of a grant do what they are for once its families are stored. They
/// say what was granted, under names that tell the drawn bytes. The access token is
/// honoured, for the scopes of the grant, until it or its family lapses; the
/// refresh token is the active one of its family until it lapses.
pub open spec fn tokens_are_good(
    m: OAuthModel,
    e: ExchangeModel,
    g: GrantModel,
    now: u64,
    response: TokenResponse,
) -> bool {
    &&& grantable(g.scopes)
    &&& g.family_id.len() > 0
    &&& access_token_claims(m.key, response.access_token@) == Some(
        granted_access_claims(m, g, now),
    )
    &&& base64_url_bytes(base64_url_of(g.access_id)) == Some(g.access_id)
    &&& base64_url_bytes(base64_url_of(g.refresh_id)) == Some(g.refresh_id)
    &&& byte_len(response.access_token@) <= MAX_FORM_VALUE_LENGTH ==> forall|later: u64|
        #![trigger bearer_access(settled(m, e), response.access_token@, later)]
        bearer_access(settled(m, e), response.access_token@, later) == (if later < after(
            now,
            m.access_ttl,
        ) && later < after(now, m.refresh_ttl) {
            Some(access_of(g.scopes))
        } else {
            None
        })
    &&& refresh_token_claims(m.key, response.refresh_token@) == Some(
        granted_refresh_claims(m, g, now),
    )
    &&& forall|later: u64|
        #![trigger family_active(settled(m, e).families, g.family_id, later)]
        rotation_granted(
            settled(m, e).families,
            g.family_id,
            refresh_id_hash(m.key, random_text("rti_"@, g.refresh_id)),
            later,
        ) == (later < after(now, m.refresh_ttl))
}

/// Whether an authorization query is one this server can take up.
pub open spec fn query_acceptable(m: OAuthModel, query: AuthorizationQuery) -> bool {
    &&& query.response_type@ == "code"@
    &&& query.client_id@.len() > 0
    &&& byte_len(query.client_id@) <= MAX_CLIENT_ID_LENGTH
    &&& byte_len(query.redirect_uri@) <= MAX_FORM_VALUE_LENGTH
    &&& query.resource@ == m.resource
    &&& query.code_challenge_method@ == "S256"@
    &&& is_code_challenge(query.code_challenge@)
    &&& query.state matches Some(state) ==> byte_len(state@) <= 2_048
}

/// The request for consent that a query leads to at `now`.
pub open spec fn consent_request(m: OAuthModel, query: AuthorizationQuery, now: u64) -> Result<
    ApprovalModel,
    OAuthError,
> {
    if !query_acceptable(m, query) {
        Err(OAuthError::InvalidAuthorizationRequest)
    } else {
        match registered_client(m.key, query.client_id@) {
            None => Err(OAuthError::InvalidClient),
            Some(client) => if !client.redirect_uris.contains(query.redirect_uri@) {
                Err(OAuthError::InvalidAuthorizationRequest)
            } else {
                let scopes = match query.scope {
                    Some(text) => requested_grant(text@),
                    None => Some(client.scopes),
                };
                match scopes {
                    None => Err(OAuthError::InvalidScope),
                    Some(scopes) => if !grant_allows(client.scopes, scopes) {
                        Err(OAuthError::InvalidScope)
                    } else {
                        Ok(
                            ApprovalModel {
                                client_id: query.client_id@,
                                redirect_uri: query.redirect_uri@,
                                requested_scopes: scopes,
                                state: text_option(query.state),
                                resource: query.resource@,
                                code_challenge: query.code_challenge@,
                                expires_at: after(now, APPROVAL_REQUEST_TTL_SECONDS),
                            },
                        )
                    },
                }
            },
        }
    }
}

/// The signed form of a request for consent.
pub open spec fn signed_consent_request(key: Seq<u8>, request: ApprovalModel) -> Seq<char> {
    signed(key, APPROVAL_LABEL@, approval_tree(request))
}

/// What a signed request for consent says.
pub open spec fn consent_request_claims(key: Seq<u8>, text: Seq<char>) -> Option<ApprovalModel> {
    match opened(key, APPROVAL_LABEL@, text) {
        Some(tree) => approval_in(tree),
        None => None,
    }
}

/// The page that asks for consent.
pub open spec fn consent_page(key: Seq<u8>, request: ApprovalModel) -> Seq<char> {
    approval_page(
        signed_consent_request(key, request),
        request.client_id,
        request.redirect_uri,
        request.resource,
        request.requested_scopes,
    )
}

/// Where the owner's browser is sent, as mathematical values.
pub enum RedirectModel {
    Approved(Seq<char>),
    Denied(Seq<char>),
}

pub open spec fn redirect_of(redirect: AuthorizationRedirect) -> RedirectModel {
    match redirect {
        AuthorizationRedirect::Approved(url) => RedirectModel::Approved(url@),
        AuthorizationRedirect::Denied(url) => RedirectModel::Denied(url@),
    }
}

/// A query parameter, where there is a value for it.
pub open spec fn parameter(name: Seq<char>, value: Option<Seq<char>>) -> Seq<
    (Seq<char>, Seq<char>),
> {
    match value {
        Some(value) => seq![(name, value)],
        None => Seq::empty(),
    }
}

/// The query parameters of an authorization response.
pub open spec fn response_parameters(
    m: OAuthModel,
    state: Option<Seq<char>>,
    code: Option<Seq<char>>,
    error: Option<Seq<char>>,
) -> Seq<(Seq<char>, Seq<char>)> {
    seq![("iss"@, m.issuer)] + parameter("state"@, state) + parameter("code"@, code) + parameter(
        "error"@,
        error,
    )
}

/// What the owner's answer leads to.
pub struct ConsentModel {
    pub codes: Map<Seq<u8>, CodeModel>,
    pub result: Result<RedirectModel, OAuthError>,
}

/// The code that an approval hands out, and what it stands for.
pub open spec fn approved_code(
    m: OAuthModel,
    request: ApprovalModel,
    scopes: Set<Seq<char>>,
    now: u64,
) -> CodeModel {
    CodeModel {
        client_id: request.client_id,
        redirect_uri: request.redirect_uri,
        scopes,
        resource: request.resource,
        code_challenge: request.code_challenge,
        expires_at: after(now, m.code_ttl),
    }
}

/// What approving or denying a request that this server made leads to.
pub open spec fn decided(
    m: OAuthModel,
    form: ApprovalForm,
    request: ApprovalModel,
    client: ClientModel,
    now: u64,
    drawn: Option<[u8; 32]>,
) -> ConsentModel {
    let stays = |error: OAuthError| ConsentModel { codes: m.codes, result: Err(error) };
    if form.decision@ == "deny"@ {
        ConsentModel {
            codes: m.codes,
            result: Ok(
                RedirectModel::Denied(
                    url_with_pairs(
                        request.redirect_uri,
                        response_parameters(m, request.state, None, Some("access_denied"@)),
                    )->Some_0,
                ),
            ),
        }
    } else if form.decision@ != "approve"@ || encode_utf8(form.owner_secret@) != m.owner_secret {
        stays(OAuthError::InvalidOwner)
    } else {
        match requested_grant(form.scope@) {
            None => stays(OAuthError::InvalidScope),
            Some(scopes) => if !scopes.subset_of(request.requested_scopes) || !grant_allows(
                client.scopes,
                scopes,
            ) {
                stays(OAuthError::InvalidScope)
            } else {
                match drawn {
                    None => stays(OAuthError::Entropy),
                    Some(bytes) => {
                        let code = random_text("ac_"@, bytes@);
                        ConsentModel {
                            codes: unlapsed::<Seq<u8>, AuthorizationCode>(m.codes, now).insert(
                                hash_of(m.key, code),
                                approved_code(m, request, scopes, now),
                            ),
                            result: Ok(
                                RedirectModel::Approved(
                                    url_with_pairs(
                                        request.redirect_uri,
                                        response_parameters(m, request.state, Some(code), None),
                                    )->Some_0,
                                ),
                            ),
                        }
                    },
                }
            },
        }
    }
}

/// What the owner's answer to a consent page leads to at `now`.
pub open spec fn consent(
    m: OAuthModel,
    form: ApprovalForm,
    now: u64,
    drawn: Option<[u8; 32]>,
) -> ConsentModel {
    let stays = |error: OAuthError| ConsentModel { codes: m.codes, result: Err(error) };
    if byte_len(form.request@) > MAX_FORM_VALUE_LENGTH || byte_len(form.owner_secret@)
        > MAX_FORM_VALUE_LENGTH || byte_len(form.scope@) > 256 {
        stays(OAuthError::InvalidRequest)
    } else {
        match consent_request_claims(m.key, form.request@) {
            None => stays(OAuthError::InvalidRequest),
            Some(request) => if request.expires_at <= now {
                stays(OAuthError::InvalidRequest)
            } else {
                match registered_client(m.key, request.client_id) {
                    None => stays(OAuthError::InvalidClient),
                    Some(client) => if !client.redirect_uris.contains(request.redirect_uri)
                        || !grant_allows(client.scopes, request.requested_scopes)
                        || request.resource != m.resource {
                        stays(OAuthError::InvalidAuthorizationRequest)
                    } else {
                        decided(m, form, request, client, now, drawn)
                    },
                }
            },
        }
    }
}

/// The server after the owner's answer.
pub open spec fn answered(m: OAuthModel, c: ConsentModel) -> OAuthModel {
    OAuthModel { codes: c.codes, ..m }
}

} // verus!
