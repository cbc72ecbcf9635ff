//! The authorization server.
use vstd::prelude::*;

use crate::auth::OAuthIdentity;
use crate::calendar::{read_clock, seconds_of};
use crate::config::OAuthConfig;
use crate::crypto::{base64_url_bytes, base64_url_of, constant_time_equal, random_bytes};
use crate::json::{json_tree, JsonTree};
use crate::oauth::claims::{
    AccessTokenClaims, ApprovalModel, RefreshTokenClaims, SignedApprovalRequest,
};
use crate::oauth::client::{
    authenticate_client, client_from_id, client_of_registration, lemma_registered_redirects,
    register_client_at, registered_client, registration_allowed, registration_answer, same_secret,
    RegisteredClient, RegistrationRequest, RegistrationResponse, MAX_CLIENT_ID_LENGTH,
};
use crate::oauth::families::{is_state_text, FamilyModel, RefreshTokenStore, StateDirectory};
use crate::oauth::flows::{
    access_token_claims, bearer_access, carries_grant, code_exchange, consent, consent_page,
    consent_request, consent_request_claims, exchange, fingerprint_of, granted_access_claims,
    granted_access_token, granted_refresh_claims, granted_refresh_token, new_grant,
    query_acceptable, redirect_of, refresh_exchange, refresh_token_claims, renewed_grant,
    response_parameters, settled, signed_consent_request, start, tokens_are_good, ApprovalForm,
    AuthorizationQuery, AuthorizationRedirect, CodeModel, ExchangeModel, GrantModel, OAuthModel,
    RedirectModel, TokenDraws, TokenRequest, TokenResponse, ACCESS_TOKEN_PREFIX,
    APPROVAL_REQUEST_TTL_SECONDS, MAX_FORM_VALUE_LENGTH, REFRESH_TOKEN_PREFIX, TOKEN_CLAIMS_VERSION,
};
use crate::oauth::metadata::{
    authorization_server, authorization_server_fields, protected_resource,
    protected_resource_fields,
};
use crate::oauth::page::render_approval_page;
use crate::oauth::pkce::{valid_code_challenge, verify_pkce};
use crate::oauth::scope::{grantable, ScopeGrant};
use crate::oauth::signing::{
    random_text, random_value, SigningKey, ACCESS_TOKEN_LABEL, APPROVAL_LABEL, REFRESH_TOKEN_LABEL,
};
use crate::oauth::OAuthError;
use crate::scan::{lemma_prefix_falls_away, text_starts_with};
use crate::table::{Table, TableValue};
use crate::text::{byte_len, bytes_of, joined, same_text, str_option, text_bytes_len, text_option};
use crate::web::{add_query_pairs, pair_texts, url_of, url_with_pairs};

verus! {

/// What an authorization code stands for.
pub struct AuthorizationCode {
    client_id: String,
    redirect_uri: String,
    scopes: ScopeGrant,
    resource: String,
    code_challenge: String,
    expires_at: u64,
}

impl View for AuthorizationCode {
    type V = CodeModel;

    closed spec fn view(&self) -> CodeModel {
        CodeModel {
            client_id: self.client_id@,
            redirect_uri: self.redirect_uri@,
            scopes: self.scopes@,
            resource: self.resource@,
            code_challenge: self.code_challenge@,
            expires_at: self.expires_at,
        }
    }
}

impl TableValue for AuthorizationCode {
    open spec fn lapses_at(value: CodeModel) -> u64 {
        value.expires_at
    }

    fn expiry(&self) -> (r: u64) {
        self.expires_at
    }

    fn copy_value(&self) -> (r: AuthorizationCode) {
        AuthorizationCode {
            client_id: self.client_id.clone(),
            redirect_uri: self.redirect_uri.clone(),
            scopes: self.scopes.copy(),
            resource: self.resource.clone(),
            code_challenge: self.code_challenge.clone(),
            expires_at: self.expires_at,
        }
    }
}

/// The outcome of a token request, to be answered once the families are stored.
pub struct PendingExchange {
    next: Option<RefreshTokenStore>,
    result: Result<TokenResponse, OAuthError>,
}

impl PendingExchange {
    /// The families to store first.
    pub closed spec fn next(&self) -> Option<Map<Seq<char>, FamilyModel>> {
        match self.next {
            Some(store) => Some(store@),
            None => None,
        }
    }

    /// The answer that is given once they are stored.
    pub closed spec fn result(&self) -> Result<TokenResponse, OAuthError> {
        self.result
    }

    /// What is to be written to the state file before the answer is given;
    /// nothing where it stays as it is.
    pub fn state_to_store(&self) -> (r: Option<Vec<u8>>)
        ensures
            match r {
                Some(bytes) => self.next() matches Some(families) && is_state_text(
                    bytes@,
                    families,
                ),
                None => self.next() is None,
            },
    {
        match &self.next {
            Some(store) => store.to_bytes(),
            None => None,
        }
    }
}

/// The server's part in recognising bearers, with all it remembers.
pub struct OAuthBearerAuthenticator {
    issuer: String,
    resource: String,
    owner_secret: Vec<u8>,
    key: SigningKey,
    access_token_ttl_seconds: u64,
    authorization_code_ttl_seconds: u64,
    refresh_token_ttl_seconds: u64,
    authorization_codes: Table<[u8; 32], AuthorizationCode>,
    refresh_tokens: RefreshTokenStore,
}

impl View for OAuthBearerAuthenticator {
    type V = OAuthModel;

    closed spec fn view(&self) -> OAuthModel {
        OAuthModel {
            issuer: self.issuer@,
            resource: self.resource@,
            owner_secret: self.owner_secret@,
            key: self.key@,
            access_ttl: self.access_token_ttl_seconds,
            code_ttl: self.authorization_code_ttl_seconds,
            refresh_ttl: self.refresh_token_ttl_seconds,
            codes: self.authorization_codes@,
            families: self.refresh_tokens@,
        }
    }
}

impl OAuthBearerAuthenticator {
    pub fn new(config: &OAuthConfig, directory: StateDirectory) -> (r: Result<
        OAuthBearerAuthenticator,
        OAuthError,
    >)
        ensures
            match r {
                Ok(bearer) => start(*config, directory) == Ok::<_, OAuthError>(bearer@),
                Err(error) => start(*config, directory) == Err::<OAuthModel, _>(error),
            },
    {
        if config.validate().is_err() {
            return Err(OAuthError::InvalidConfiguration);
        }
        let refresh_tokens = RefreshTokenStore::open(directory)?;
        Ok(
            OAuthBearerAuthenticator {
                issuer: config.issuer.clone(),
                resource: config.resource.clone(),
                owner_secret: bytes_of(config.owner_secret.as_str()),
                key: SigningKey::new(bytes_of(config.signing_key.as_str())),
                access_token_ttl_seconds: config.access_token_ttl_seconds,
                authorization_code_ttl_seconds: config.authorization_code_ttl_seconds,
                refresh_token_ttl_seconds: config.refresh_token_ttl_seconds,
                authorization_codes: Table::new(),
                refresh_tokens,
            },
        )
    }

    /// Who the bearer of a token is, by the clock.
    pub fn authenticate_bearer(&self, token: &str) -> (r: Result<OAuthIdentity, OAuthError>)
        ensures
            match r {
                Ok(identity) => exists|now: u64|
                    #[trigger] bearer_access(self@, token@, now) == Some(identity.scope)
                        && identity.credential_fingerprint@ == fingerprint_of(self@.key, token@),
                Err(error) => error is InvalidGrant && exists|now: u64|
                    #[trigger] bearer_access(self@, token@, now) is None,
            },
    {
        self.authenticate_bearer_at(token, seconds_of(read_clock()))
    }

    /// Who the bearer of a token is at `now`.
    pub fn authenticate_bearer_at(&self, token: &str, now: u64) -> (r: Result<
        OAuthIdentity,
        OAuthError,
    >)
        ensures
            match r {
                Ok(identity) => bearer_access(self@, token@, now) == Some(identity.scope)
                    && identity.credential_fingerprint@ == fingerprint_of(self@.key, token@),
                Err(error) => error is InvalidGrant && bearer_access(self@, token@, now) is None,
            },
    {
        if text_bytes_len(token) > MAX_FORM_VALUE_LENGTH || !text_starts_with(
            token,
            ACCESS_TOKEN_PREFIX,
        ) {
            return Err(OAuthError::InvalidGrant);
        }
        let said = match self.key.verify_token(ACCESS_TOKEN_PREFIX, ACCESS_TOKEN_LABEL, token) {
            Ok(said) => said,
            Err(_) => {
                return Err(OAuthError::InvalidGrant);
            },
        };
        let claims = match AccessTokenClaims::from_json(&said) {
            Some(claims) => claims,
            None => {
                return Err(OAuthError::InvalidGrant);
            },
        };
        if claims.version != TOKEN_CLAIMS_VERSION || !claims.scopes.is_valid()
            || claims.family_id.as_str().is_empty() || !same_text(
            claims.audience.as_str(),
            self.resource.as_str(),
        ) || claims.expires_at <= now {
            return Err(OAuthError::InvalidGrant);
        }
        if !self.refresh_tokens.is_active(claims.family_id.as_str(), now) {
            return Err(OAuthError::InvalidGrant);
        }
        let hash = self.key.token_hash(token);
        Ok(
            OAuthIdentity {
                scope: claims.scopes.access_scope(),
                credential_fingerprint: self.key.audit_fingerprint(&hash),
            },
        )
    }

    /// An access token of a family.
    fn issue_access_token(
        &self,
        scopes: &ScopeGrant,
        resource: &str,
        family_id: &str,
        now: u64,
        drawn: &Option<[u8; 32]>,
    ) -> (r: Result<(String, u64), OAuthError>)
        ensures
            match r {
                Ok((token, ttl)) => resource@ == self@.resource && grantable(scopes@)
                    && family_id@.len() > 0 && (*drawn matches Some(bytes) && forall|
                    g: GrantModel,
                |
                    g.scopes == scopes@ && g.family_id == family_id@ && g.access_id == bytes@ ==> {
                        &&& #[trigger] granted_access_token(self@, g, now) == token@
                        &&& access_token_claims(self@.key, token@) == Some(
                            granted_access_claims(self@, g, now),
                        )
                    } && base64_url_bytes(base64_url_of(bytes@)) == Some(bytes@)) && ttl
                    == self@.access_ttl,
                Err(OAuthError::InvalidTarget) => resource@ != self@.resource || !grantable(scopes@)
                    || family_id@.len() == 0,
                Err(error) => error is Entropy && resource@ == self@.resource && grantable(scopes@)
                    && family_id@.len() > 0 && *drawn is None,
            },
    {
        if !same_text(resource, self.resource.as_str()) || !scopes.is_valid()
            || family_id.is_empty() {
            return Err(OAuthError::InvalidTarget);
        }
        let token_id = random_value("ati_", drawn)?;
        let claims = AccessTokenClaims {
            version: TOKEN_CLAIMS_VERSION,
            token_id,
            family_id: family_id.to_owned(),
            scopes: scopes.copy(),
            audience: resource.to_owned(),
            issued_at: now,
            expires_at: now.saturating_add(self.access_token_ttl_seconds),
        };
        let text = self.key.sign(ACCESS_TOKEN_LABEL, &claims.to_json())?;
        proof {
            lemma_prefix_falls_away(ACCESS_TOKEN_PREFIX@, text@);
            assert forall|g: GrantModel|
                g.scopes == scopes@ && g.family_id == family_id@ && drawn is Some && g.access_id
                    == drawn->Some_0@ implies claims@ == #[trigger] granted_access_claims(
                self@,
                g,
                now,
            ) by {}
        }
        Ok((joined(ACCESS_TOKEN_PREFIX, text.as_str()), self.access_token_ttl_seconds))
    }

    /// A refresh token of a family.
    fn issue_refresh_token(
        &self,
        scopes: &ScopeGrant,
        family_id: &str,
        token_id: &str,
        client_id: &str,
        now: u64,
    ) -> (r: Result<String, OAuthError>)
        ensures
            r matches Ok(token) && forall|g: GrantModel|
                g.scopes == scopes@ && g.family_id == family_id@ && g.client_id == client_id@
                    && token_id@ == random_text("rti_"@, g.refresh_id) ==> {
                    &&& #[trigger] granted_refresh_token(self@, g, now) == token@
                    &&& refresh_token_claims(self@.key, token@) == Some(
                        granted_refresh_claims(self@, g, now),
                    )
                },
    {
        let claims = RefreshTokenClaims {
            version: TOKEN_CLAIMS_VERSION,
            family_id: family_id.to_owned(),
            token_id: token_id.to_owned(),
            client_binding: self.key.client_binding(client_id),
            scopes: scopes.copy(),
            audience: self.resource.clone(),
            issued_at: now,
            expires_at: now.saturating_add(self.refresh_token_ttl_seconds),
        };
        let text = self.key.sign(REFRESH_TOKEN_LABEL, &claims.to_json())?;
        proof {
            lemma_prefix_falls_away(REFRESH_TOKEN_PREFIX@, text@);
            assert forall|g: GrantModel|
                g.scopes == scopes@ && g.family_id == family_id@ && g.client_id == client_id@
                    && token_id@ == random_text("rti_"@, g.refresh_id) implies claims@
                == #[trigger] granted_refresh_claims(self@, g, now) by {}
        }
        Ok(joined(REFRESH_TOKEN_PREFIX, text.as_str()))
    }

    /// A pair of tokens in a new family.
    fn issue_token_pair(
        &self,
        scopes: &ScopeGrant,
        resource: &str,
        client_id: &str,
        now: u64,
        draws: &TokenDraws,
    ) -> (r: PendingExchange)
        ensures
            answers(
                self@,
                new_grant(
                    self@,
                    self@.codes,
                    scopes@,
                    resource@,
                    client_id@,
                    now,
                    *draws,
                ),
                now,
                r,
            ),
    {
        let family_id = match random_value("rf_", &draws.family) {
            Ok(family_id) => family_id,
            Err(error) => {
                return PendingExchange { next: None, result: Err(error) };
            },
        };
        proof {
            reveal_strlit("rf_");
            assert(family_id@.len() > 0);
        }
        let (access_token, expires_in) = match self.issue_access_token(
            scopes,
            resource,
            family_id.as_str(),
            now,
            &draws.access,
        ) {
            Ok(issued) => issued,
            Err(error) => {
                return PendingExchange { next: None, result: Err(error) };
            },
        };
        let token_id = match random_value("rti_", &draws.refresh) {
            Ok(token_id) => token_id,
            Err(error) => {
                return PendingExchange { next: None, result: Err(error) };
            },
        };
        let refresh_token = match self.issue_refresh_token(
            scopes,
            family_id.as_str(),
            token_id.as_str(),
            client_id,
            now,
        ) {
            Ok(token) => token,
            Err(error) => {
                return PendingExchange { next: None, result: Err(error) };
            },
        };
        let ghost grant = GrantModel {
            client_id: client_id@,
            scopes: scopes@,
            family_id: family_id@,
            access_id: draws.access->Some_0@,
            refresh_id: draws.refresh->Some_0@,
        };
        proof {
            assert(granted_access_token(self@, grant, now) == access_token@);
            assert(granted_refresh_token(self@, grant, now) == refresh_token@);
        }
        match self.refresh_tokens.create_family(
            family_id.as_str(),
            self.key.refresh_token_id_hash(token_id.as_str()),
            now.saturating_add(self.refresh_token_ttl_seconds),
            now,
        ) {
            Ok(next) => PendingExchange {
                next: Some(next),
                result: Ok(
                    TokenResponse {
                        access_token,
                        refresh_token,
                        token_type: "Bearer",
                        expires_in,
                        scope: scopes.as_string(),
                    },
                ),
            },
            Err(error) => PendingExchange { next: None, result: Err(error) },
        }
    }

    /// A pair of tokens in the family of a refresh token that was presented.
    fn renew_token_pair(
        &self,
        claims: &RefreshTokenClaims,
        client_id: &str,
        scopes: &ScopeGrant,
        now: u64,
        draws: &TokenDraws,
    ) -> (r: PendingExchange)
        requires
            grantable(scopes@),
        ensures
            answers(
                self@,
                renewed_grant(self@, claims@, client_id@, scopes@, now, *draws),
                now,
                r,
            ),
    {
        let (access_token, expires_in) = match self.issue_access_token(
            scopes,
            self.resource.as_str(),
            claims.family_id.as_str(),
            now,
            &draws.access,
        ) {
            Ok(issued) => issued,
            Err(error) => {
                return PendingExchange { next: None, result: Err(error) };
            },
        };
        let token_id = match random_value("rti_", &draws.refresh) {
            Ok(token_id) => token_id,
            Err(error) => {
                return PendingExchange { next: None, result: Err(error) };
            },
        };
        let refresh_token = match self.issue_refresh_token(
            scopes,
            claims.family_id.as_str(),
            token_id.as_str(),
            client_id,
            now,
        ) {
            Ok(token) => token,
            Err(error) => {
                return PendingExchange { next: None, result: Err(error) };
            },
        };
        let ghost grant = GrantModel {
            client_id: client_id@,
            scopes: scopes@,
            family_id: claims.family_id@,
            access_id: draws.access->Some_0@,
            refresh_id: draws.refresh->Some_0@,
        };
        proof {
            assert(granted_access_token(self@, grant, now) == access_token@);
            assert(granted_refresh_token(self@, grant, now) == refresh_token@);
        }
        let rotation = self.refresh_tokens.rotate(
            claims.family_id.as_str(),
            self.key.refresh_token_id_hash(claims.token_id.as_str()).as_str(),
            self.key.refresh_token_id_hash(token_id.as_str()),
            now.saturating_add(self.refresh_token_ttl_seconds),
            now,
        );
        if rotation.granted {
            PendingExchange {
                next: rotation.next,
                result: Ok(
                    TokenResponse {
                        access_token,
                        refresh_token,
                        token_type: "Bearer",
                        expires_in,
                        scope: scopes.as_string(),
                    },
                ),
            }
        } else {
            PendingExchange { next: rotation.next, result: Err(OAuthError::InvalidGrant) }
        }
    }
}

/// Whether a pending answer is the one that an exchange leads to.
pub open spec fn answers(m: OAuthModel, e: ExchangeModel, now: u64, r: PendingExchange) -> bool {
    &&& r.next() == e.next
    &&& match r.result() {
        Ok(response) => e.result matches Ok(g) && carries_grant(m, g, now, response)
            && tokens_are_good(m, e, g, now, response),
        Err(error) => e.result == Err::<GrantModel, _>(error),
    }
}

/// The authorization server.
pub struct OAuthService {
    bearer: OAuthBearerAuthenticator,
}

impl View for OAuthService {
    type V = OAuthModel;

    closed spec fn view(&self) -> OAuthModel {
        self.bearer@
    }
}

fn borrowed(value: &Option<String>) -> (r: Option<&str>)
    ensures
        str_option(r) == text_option(*value),
{
    match value {
        Some(text) => Some(text.as_str()),
        None => None,
    }
}

impl OAuthService {
    pub fn new(config: &OAuthConfig, directory: StateDirectory) -> (r: Result<
        OAuthService,
        OAuthError,
    >)
        ensures
            match r {
                Ok(service) => start(*config, directory) == Ok::<_, OAuthError>(service@),
                Err(error) => start(*config, directory) == Err::<OAuthModel, _>(error),
            },
    {
        match OAuthBearerAuthenticator::new(config, directory) {
            Ok(bearer) => Ok(OAuthService { bearer }),
            Err(error) => Err(error),
        }
    }

    pub fn bearer_authenticator(&self) -> (r: &OAuthBearerAuthenticator)
        ensures
            r@ == self@,
    {
        &self.bearer
    }

    pub fn issuer(&self) -> (r: &str)
        ensures
            r@ == self@.issuer,
    {
        self.bearer.issuer.as_str()
    }

    pub fn resource(&self) -> (r: &str)
        ensures
            r@ == self@.resource,
    {
        self.bearer.resource.as_str()
    }

    pub fn protected_resource_metadata_url(&self) -> (r: String)
        ensures
            r@ == self@.issuer + "/.well-known/oauth-protected-resource"@,
    {
        joined(self.issuer(), "/.well-known/oauth-protected-resource")
    }

    pub fn authorization_server_metadata(&self) -> (r: serde_json::Value)
        ensures
            json_tree(r) == JsonTree::Object(authorization_server_fields(self@.issuer)),
    {
        authorization_server(self.issuer())
    }

    pub fn protected_resource_metadata(&self) -> (r: serde_json::Value)
        ensures
            json_tree(r) == JsonTree::Object(
                protected_resource_fields(self@.issuer, self@.resource),
            ),
    {
        protected_resource(self.issuer(), self.resource())
    }

    fn validate_authorization_query(&self, query: &AuthorizationQuery) -> (r: Result<
        (),
        OAuthError,
    >)
        ensures
            r is Ok <==> query_acceptable(self@, *query),
            r matches Err(error) ==> error is InvalidAuthorizationRequest,
    {
        let state_too_long = match &query.state {
            Some(state) => text_bytes_len(state.as_str()) > 2_048,
            None => false,
        };
        if !same_text(query.response_type.as_str(), "code") || query.client_id.as_str().is_empty()
            || text_bytes_len(query.client_id.as_str()) > MAX_CLIENT_ID_LENGTH || text_bytes_len(
            query.redirect_uri.as_str(),
        ) > MAX_FORM_VALUE_LENGTH || !same_text(query.resource.as_str(), self.resource())
            || !same_text(query.code_challenge_method.as_str(), "S256") || !valid_code_challenge(
            query.code_challenge.as_str(),
        ) || state_too_long {
            return Err(OAuthError::InvalidAuthorizationRequest);
        }
        Ok(())
    }

    /// The page that asks the owner for consent, by the clock.
    pub fn begin_authorization(&self, query: AuthorizationQuery) -> (r: Result<String, OAuthError>)
        ensures
            match r {
                Ok(page) => exists|now: u64|
                    #[trigger] consent_request(self@, query, now) matches Ok(request) && page@
                        == consent_page(self@.key, request),
                Err(error) => exists|now: u64|
                    #[trigger] consent_request(self@, query, now) == Err::<ApprovalModel, _>(error),
            },
    {
        self.begin_authorization_at(query, seconds_of(read_clock()))
    }

    /// The page that asks the owner for consent, at `now`. The request that it
    /// carries reads back as the one that was made.
    pub fn begin_authorization_at(&self, query: AuthorizationQuery, now: u64) -> (r: Result<
        String,
        OAuthError,
    >)
        ensures
            match r {
                Ok(page) => consent_request(self@, query, now) matches Ok(request) && page@
                    == consent_page(self@.key, request) && consent_request_claims(
                    self@.key,
                    signed_consent_request(self@.key, request),
                ) == Some(request),
                Err(error) => consent_request(self@, query, now) == Err::<ApprovalModel, _>(error),
            },
    {
        self.validate_authorization_query(&query)?;
        let client = self.client_from_id(query.client_id.as_str())?;
        if !client.redirect_uris.contains(query.redirect_uri.as_str()) {
            return Err(OAuthError::InvalidAuthorizationRequest);
        }
        let requested_scopes = match &query.scope {
            Some(text) => match ScopeGrant::parse(text.as_str()) {
                Ok(scopes) => scopes,
                Err(error) => {
                    return Err(error);
                },
            },
            None => client.scopes.copy(),
        };
        if !client.scopes.allows(&requested_scopes) {
            return Err(OAuthError::InvalidScope);
        }
        let request = SignedApprovalRequest {
            client_id: query.client_id,
            redirect_uri: query.redirect_uri,
            requested_scopes,
            state: query.state,
            resource: query.resource,
            code_challenge: query.code_challenge,
            expires_at: now.saturating_add(APPROVAL_REQUEST_TTL_SECONDS),
        };
        match self.bearer.key.sign(APPROVAL_LABEL, &request.to_json()) {
            Ok(text) => Ok(
                render_approval_page(
                    text.as_str(),
                    request.client_id.as_str(),
                    request.redirect_uri.as_str(),
                    request.resource.as_str(),
                    &request.requested_scopes,
                ),
            ),
            Err(_) => Err(OAuthError::Internal),
        }
    }

    /// Takes the owner's answer, by the clock.
    pub fn complete_authorization(&mut self, form: ApprovalForm) -> (r: Result<
        AuthorizationRedirect,
        OAuthError,
    >)
        ensures
            exists|now: u64, drawn: Option<[u8; 32]>|
                {
                    let c = #[trigger] consent(old(self)@, form, now, drawn);
                    &&& final(self)@ == (OAuthModel { codes: c.codes, ..old(self)@ })
                    &&& match r {
                        Ok(redirect) => c.result == Ok::<_, OAuthError>(redirect_of(redirect)),
                        Err(error) => c.result == Err::<RedirectModel, _>(error),
                    }
                },
    {
        let now: u64 = seconds_of(read_clock());
        let drawn = random_bytes();
        let ghost witness = consent(old(self)@, form, now, drawn);
        self.complete_authorization_at(form, now, &drawn)
    }

    /// Takes the owner's answer at `now`, with random bytes for a code. A code that
    /// is given out is short enough to be presented.
    pub fn complete_authorization_at(
        &mut self,
        form: ApprovalForm,
        now: u64,
        drawn: &Option<[u8; 32]>,
    ) -> (r: Result<AuthorizationRedirect, OAuthError>)
        ensures
            ({
                let c = consent(old(self)@, form, now, *drawn);
                &&& final(self)@ == (OAuthModel { codes: c.codes, ..old(self)@ })
                &&& match r {
                    Ok(redirect) => c.result == Ok::<_, OAuthError>(redirect_of(redirect)),
                    Err(error) => c.result == Err::<RedirectModel, _>(error),
                }
                &&& r matches Ok(AuthorizationRedirect::Approved(_)) ==> *drawn matches Some(bytes)
                    && byte_len(random_text("ac_"@, bytes@)) <= MAX_FORM_VALUE_LENGTH
            }),
    {
        if text_bytes_len(form.request.as_str()) > MAX_FORM_VALUE_LENGTH || text_bytes_len(
            form.owner_secret.as_str(),
        ) > MAX_FORM_VALUE_LENGTH || text_bytes_len(form.scope.as_str()) > 256 {
            return Err(OAuthError::InvalidRequest);
        }
        let said = match self.bearer.key.verify(APPROVAL_LABEL, form.request.as_str()) {
            Ok(said) => said,
            Err(_) => {
                return Err(OAuthError::InvalidRequest);
            },
        };
        let request = match SignedApprovalRequest::from_json(&said) {
            Some(request) => request,
            None => {
                return Err(OAuthError::InvalidRequest);
            },
        };
        if request.expires_at <= now {
            return Err(OAuthError::InvalidRequest);
        }
        let client = self.client_from_id(request.client_id.as_str())?;
        if !client.redirect_uris.contains(request.redirect_uri.as_str()) || !client.scopes.allows(
            &request.requested_scopes,
        ) || !same_text(request.resource.as_str(), self.resource()) {
            return Err(OAuthError::InvalidAuthorizationRequest);
        }
        proof {
            lemma_registered_redirects(self@.key, request.client_id@, request.redirect_uri@);
        }
        if same_text(form.decision.as_str(), "deny") {
            return match self.redirect_url(
                request.redirect_uri.as_str(),
                borrowed(&request.state),
                None,
                Some("access_denied"),
            ) {
                Ok(url) => Ok(AuthorizationRedirect::Denied(url)),
                Err(error) => Err(error),
            };
        }
        if !same_text(form.decision.as_str(), "approve") || !constant_time_equal(
            bytes_of(form.owner_secret.as_str()).as_slice(),
            self.bearer.owner_secret.as_slice(),
        ) {
            return Err(OAuthError::InvalidOwner);
        }
        let granted_scopes = ScopeGrant::parse(form.scope.as_str())?;
        if !granted_scopes.is_subset_of(&request.requested_scopes) || !client.scopes.allows(
            &granted_scopes,
        ) {
            return Err(OAuthError::InvalidScope);
        }
        let code = random_value("ac_", drawn)?;
        let redirect = self.redirect_url(
            request.redirect_uri.as_str(),
            borrowed(&request.state),
            Some(code.as_str()),
            None,
        )?;
        proof {
            reveal_strlit("ac_");
            assert(vstd::utf8::is_ascii_chars("ac_"@));
        }
        let code_hash = self.bearer.key.token_hash(code.as_str());
        let record = AuthorizationCode {
            client_id: request.client_id,
            redirect_uri: request.redirect_uri,
            scopes: granted_scopes,
            resource: request.resource,
            code_challenge: request.code_challenge,
            expires_at: now.saturating_add(self.bearer.authorization_code_ttl_seconds),
        };
        let (kept, _) = self.bearer.authorization_codes.unlapsed(now);
        self.bearer.authorization_codes = kept.with(code_hash, record);
        Ok(AuthorizationRedirect::Approved(redirect))
    }

    fn redirect_url(
        &self,
        redirect_uri: &str,
        state: Option<&str>,
        code: Option<&str>,
        error: Option<&str>,
    ) -> (r: Result<String, OAuthError>)
        requires
            byte_len(redirect_uri@) <= 65_536,
            url_of(redirect_uri@) matches Some(parts) ==> parts.fragment is None,
        ensures
            match r {
                Ok(url) => url_with_pairs(
                    redirect_uri@,
                    response_parameters(
                        self@,
                        str_option(state),
                        str_option(code),
                        str_option(error),
                    ),
                ) == Some(url@),
                Err(error) => error is InvalidAuthorizationRequest && url_of(
                    redirect_uri@,
                ) is None,
            },
    {
        let mut pairs: Vec<(String, String)> = Vec::new();
        pairs.push(("iss".to_owned(), self.bearer.issuer.clone()));
        if let Some(state) = state {
            pairs.push(("state".to_owned(), state.to_owned()));
        }
        if let Some(code) = code {
            pairs.push(("code".to_owned(), code.to_owned()));
        }
        if let Some(error) = error {
            pairs.push(("error".to_owned(), error.to_owned()));
        }
        proof {
            assert(pair_texts(pairs@) =~= response_parameters(
                self@,
                str_option(state),
                str_option(code),
                str_option(error),
            ));
        }
        match add_query_pairs(redirect_uri, &pairs) {
            Some(url) => Ok(url),
            None => Err(OAuthError::InvalidAuthorizationRequest),
        }
    }

    /// The client of an identifier.
    pub fn client_from_id(&self, client_id: &str) -> (r: Result<RegisteredClient, OAuthError>)
        ensures
            match r {
                Ok(client) => registered_client(self@.key, client_id@) == Some(client@),
                Err(error) => error is InvalidClient && registered_client(
                    self@.key,
                    client_id@,
                ) is None,
            },
    {
        client_from_id(&self.bearer.key, client_id)
    }

    /// Takes a token request, by the clock.
    pub fn exchange_token(
        &mut self,
        request: TokenRequest,
        authorization_header: Option<&str>,
    ) -> (r: PendingExchange)
        ensures
            exists|now: u64, draws: TokenDraws|
                {
                    let e = #[trigger] exchange(
                        old(self)@,
                        request,
                        str_option(authorization_header),
                        now,
                        draws,
                    );
                    &&& final(self)@ == (OAuthModel { codes: e.codes, ..old(self)@ })
                    &&& answers(old(self)@, e, now, r)
                },
    {
        let now: u64 = seconds_of(read_clock());
        let draws = TokenDraws {
            family: random_bytes(),
            access: random_bytes(),
            refresh: random_bytes(),
        };
        let ghost witness = exchange(
            old(self)@,
            request,
            str_option(authorization_header),
            now,
            draws,
        );
        self.exchange_token_at(request, authorization_header, now, &draws)
    }

    /// Takes a token request at `now`, with random bytes for the tokens.
    pub fn exchange_token_at(
        &mut self,
        request: TokenRequest,
        authorization_header: Option<&str>,
        now: u64,
        draws: &TokenDraws,
    ) -> (r: PendingExchange)
        ensures
            ({
                let e = exchange(
                    old(self)@,
                    request,
                    str_option(authorization_header),
                    now,
                    *draws,
                );
                &&& final(self)@ == (OAuthModel { codes: e.codes, ..old(self)@ })
                &&& answers(old(self)@, e, now, r)
            }),
    {
        if same_text(request.grant_type.as_str(), "authorization_code") {
            self.exchange_authorization_code(request, authorization_header, now, draws)
        } else if same_text(request.grant_type.as_str(), "refresh_token") {
            self.exchange_refresh_token(request, authorization_header, now, draws)
        } else {
            PendingExchange { next: None, result: Err(OAuthError::InvalidGrant) }
        }
    }

    /// Redeems an authorization code at `now`, with random bytes for the tokens.
    pub fn exchange_authorization_code(
        &mut self,
        request: TokenRequest,
        authorization_header: Option<&str>,
        now: u64,
        draws: &TokenDraws,
    ) -> (r: PendingExchange)
        ensures
            ({
                let e = code_exchange(
                    old(self)@,
                    request,
                    str_option(authorization_header),
                    now,
                    *draws,
                );
                &&& final(self)@ == (OAuthModel { codes: e.codes, ..old(self)@ })
                &&& answers(old(self)@, e, now, r)
            }),
    {
        let (code, redirect_uri, code_verifier) = match (
            &request.code,
            &request.redirect_uri,
            &request.code_verifier,
        ) {
            (Some(code), Some(redirect_uri), Some(code_verifier)) => (
                code.as_str(),
                redirect_uri.as_str(),
                code_verifier.as_str(),
            ),
            _ => {
                return PendingExchange { next: None, result: Err(OAuthError::InvalidGrant) };
            },
        };
        if text_bytes_len(code) > MAX_FORM_VALUE_LENGTH || text_bytes_len(code_verifier) > 128
            || text_bytes_len(redirect_uri) > MAX_FORM_VALUE_LENGTH || !same_text(
            request.resource.as_str(),
            self.resource(),
        ) {
            return PendingExchange { next: None, result: Err(OAuthError::InvalidGrant) };
        }
        let client = match authenticate_client(
            &self.bearer.key,
            borrowed(&request.client_id),
            borrowed(&request.client_secret),
            authorization_header,
        ) {
            Ok(client) => client,
            Err(error) => {
                return PendingExchange { next: None, result: Err(error) };
            },
        };
        let code_hash = self.bearer.key.token_hash(code);
        // A code is spent before the verifier is looked at, so that there is
        // only one guess at it.
        let record = match self.bearer.authorization_codes.get(&code_hash) {
            Some(record) => record.copy_value(),
            None => {
                return PendingExchange { next: None, result: Err(OAuthError::InvalidGrant) };
            },
        };
        self.bearer.authorization_codes = self.bearer.authorization_codes.without(&code_hash);
        if record.expires_at <= now || !same_text(
            record.client_id.as_str(),
            client.client_id.as_str(),
        ) || !same_text(record.redirect_uri.as_str(), redirect_uri) || !same_text(
            record.resource.as_str(),
            request.resource.as_str(),
        ) || !verify_pkce(code_verifier, record.code_challenge.as_str()) {
            return PendingExchange { next: None, result: Err(OAuthError::InvalidGrant) };
        }
        let r = self.bearer.issue_token_pair(
            &record.scopes,
            record.resource.as_str(),
            client.client_id.as_str(),
            now,
            draws,
        );
        proof {
            lemma_answers_whatever_the_codes(
                old(self)@,
                self@,
                record@.scopes,
                record@.resource,
                client@.client_id,
                now,
                *draws,
                r,
            );
        }
        r
    }

    /// Refreshes a pair of tokens at `now`, with random bytes for the new ones.
    pub fn exchange_refresh_token(
        &mut self,
        request: TokenRequest,
        authorization_header: Option<&str>,
        now: u64,
        draws: &TokenDraws,
    ) -> (r: PendingExchange)
        ensures
            ({
                let e = refresh_exchange(
                    old(self)@,
                    request,
                    str_option(authorization_header),
                    now,
                    *draws,
                );
                &&& final(self)@ == (OAuthModel { codes: e.codes, ..old(self)@ })
                &&& answers(old(self)@, e, now, r)
            }),
    {
        let refresh_token = match &request.refresh_token {
            Some(token) => token.as_str(),
            None => {
                return PendingExchange { next: None, result: Err(OAuthError::InvalidGrant) };
            },
        };
        if text_bytes_len(refresh_token) > MAX_FORM_VALUE_LENGTH || !same_text(
            request.resource.as_str(),
            self.resource(),
        ) {
            return PendingExchange { next: None, result: Err(OAuthError::InvalidGrant) };
        }
        let client = match authenticate_client(
            &self.bearer.key,
            borrowed(&request.client_id),
            borrowed(&request.client_secret),
            authorization_header,
        ) {
            Ok(client) => client,
            Err(error) => {
                return PendingExchange { next: None, result: Err(error) };
            },
        };
        let said = match self.bearer.key.verify_token(
            REFRESH_TOKEN_PREFIX,
            REFRESH_TOKEN_LABEL,
            refresh_token,
        ) {
            Ok(said) => said,
            Err(_) => {
                return PendingExchange { next: None, result: Err(OAuthError::InvalidGrant) };
            },
        };
        let claims = match RefreshTokenClaims::from_json(&said) {
            Some(claims) => claims,
            None => {
                return PendingExchange { next: None, result: Err(OAuthError::InvalidGrant) };
            },
        };
        if claims.version != TOKEN_CLAIMS_VERSION || !claims.scopes.is_valid() || !same_text(
            claims.audience.as_str(),
            self.resource(),
        ) || claims.expires_at <= now || !same_secret(
            claims.client_binding.as_str(),
            self.bearer.key.client_binding(client.client_id.as_str()).as_str(),
        ) {
            return PendingExchange { next: None, result: Err(OAuthError::InvalidGrant) };
        }
        let scopes = match &request.scope {
            Some(text) => match ScopeGrant::parse(text.as_str()) {
                Ok(scopes) => scopes,
                Err(error) => {
                    return PendingExchange { next: None, result: Err(error) };
                },
            },
            None => claims.scopes.copy(),
        };
        if !claims.scopes.allows(&scopes) {
            return PendingExchange { next: None, result: Err(OAuthError::InvalidScope) };
        }
        self.bearer.renew_token_pair(&claims, client.client_id.as_str(), &scopes, now, draws)
    }

    /// Gives the answer to a token request, once it has been tried to store its
    /// families.
    pub fn finish_exchange(&mut self, pending: PendingExchange, stored: bool) -> (r: Result<
        TokenResponse,
        OAuthError,
    >)
        ensures
            match pending.next() {
                None => r == pending.result() && final(self)@ == old(self)@,
                Some(families) => if stored {
                    r == pending.result() && final(self)@ == (OAuthModel {
                        families,
                        ..old(self)@
                    })
                } else {
                    r == Err::<TokenResponse, _>(OAuthError::Internal) && final(self)@ == old(self)@
                },
            },
    {
        match pending.next {
            None => pending.result,
            Some(store) => {
                if stored {
                    self.bearer.refresh_tokens = store;
                    pending.result
                } else {
                    Err(OAuthError::Internal)
                }
            },
        }
    }

    /// Registers a client, by the clock.
    pub fn register_client(&self, request: RegistrationRequest) -> (r: Result<
        RegistrationResponse,
        OAuthError,
    >)
        ensures
            match r {
                Ok(response) => {
                    &&& registration_allowed(request)
                    &&& exists|now: u64| #[trigger]
                        registration_answer(self@.key, request, now, response)
                    &&& byte_len(response.client_id@) <= MAX_CLIENT_ID_LENGTH ==> registered_client(
                        self@.key,
                        response.client_id@,
                    ) == Some(client_of_registration(request, response.client_id@))
                },
                Err(error) => error is InvalidClient && !registration_allowed(request),
            },
    {
        let now: u64 = seconds_of(read_clock());
        let r = register_client_at(&self.bearer.key, request, now);
        proof {
            if r is Ok {
                assert(registration_answer(self@.key, request, now, r->Ok_0));
            }
        }
        r
    }
}

/// Which codes are left does not bear on the tokens of a new family.
proof fn lemma_answers_whatever_the_codes(
    m: OAuthModel,
    n: OAuthModel,
    scopes: Set<Seq<char>>,
    resource: Seq<char>,
    client_id: Seq<char>,
    now: u64,
    draws: TokenDraws,
    r: PendingExchange,
)
    requires
        n == (OAuthModel { codes: n.codes, ..m }),
        answers(n, new_grant(n, n.codes, scopes, resource, client_id, now, draws), now, r),
    ensures
        answers(m, new_grant(m, n.codes, scopes, resource, client_id, now, draws), now, r),
{
    let e = new_grant(n, n.codes, scopes, resource, client_id, now, draws);
    assert(e == new_grant(m, n.codes, scopes, resource, client_id, now, draws));
    assert(settled(n, e) == settled(m, e));
}

} // verus!
