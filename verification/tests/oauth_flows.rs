use base64::Engine;
use engram_mcp::auth::{AccessScope, Authenticator, HeaderValue, RequestHeaders};
use engram_mcp::config::{OAuthConfig, ScopeDirectories};
use engram_mcp::document::{
    DocumentId, DocumentStore, FileOutcome, FrontMatter, RootOutcome, StoreError,
};
use engram_mcp::http::{
    admit_request, declared_bytes, oauth_error_status, unauthorized_challenge, Admission,
};
use engram_mcp::limits::RateLimiter;
use engram_mcp::oauth::{
    ApprovalForm, AuthorizationQuery, AuthorizationRedirect, OAuthError, OAuthService,
    RegistrationRequest, StateDirectory, StateFile, TokenDraws, TokenRequest, TokenResponse,
};
use sha2::Digest;

const ISSUER: &str = "https://engram.test";
const RESOURCE: &str = "https://engram.test/mcp";
const OWNER_SECRET: &str = "owner-secret-for-oauth-test-only";
const SIGNING_KEY: &str = "signing-key-for-oauth-test-only-with-sufficient-length";
const REDIRECT_URI: &str = "https://client.test/oauth/callback";
const PKCE_VERIFIER: &str = "correct-pkce-verifier-for-oauth-test-with-at-least-forty-three-bytes";
const NOW: u64 = 1_786_592_700;

fn code_challenge(verifier: &str) -> String {
    base64::engine::general_purpose::URL_SAFE_NO_PAD
        .encode(sha2::Sha256::digest(verifier.as_bytes()))
}

fn config(access_token_ttl_seconds: u64, refresh_token_ttl_seconds: u64) -> OAuthConfig {
    OAuthConfig {
        issuer: ISSUER.into(),
        resource: RESOURCE.into(),
        owner_secret: OWNER_SECRET.into(),
        signing_key: SIGNING_KEY.into(),
        access_token_ttl_seconds,
        authorization_code_ttl_seconds: 60,
        refresh_state_dir: "/state".into(),
        refresh_token_ttl_seconds,
    }
}

/// A server whose state file is kept in memory.
struct Server {
    oauth: OAuthService,
    state: Option<Vec<u8>>,
    drawn: u8,
}

impl Server {
    fn with_ttls(access: u64, refresh: u64) -> Server {
        let oauth =
            OAuthService::new(&config(access, refresh), StateDirectory::Ready(StateFile::Missing))
                .unwrap();
        Server { oauth, state: None, drawn: 0 }
    }

    fn new(access: u64) -> Server {
        Server::with_ttls(access, 60)
    }

    fn restarted(&self) -> Server {
        let contents = self.state.clone().unwrap();
        let file = StateFile::Found {
            regular: true,
            len: contents.len() as u64,
            contents: Some(contents),
        };
        let oauth = OAuthService::new(&config(60, 60), StateDirectory::Ready(file)).unwrap();
        Server { oauth, state: self.state.clone(), drawn: self.drawn }
    }

    fn draw(&mut self) -> Option<[u8; 32]> {
        self.drawn += 1;
        Some([self.drawn; 32])
    }

    fn register_public_client(&self) -> String {
        let registered = self
            .oauth
            .register_client(RegistrationRequest {
                redirect_uris: vec![REDIRECT_URI.into()],
                grant_types: vec!["authorization_code".into(), "refresh_token".into()],
                response_types: vec!["code".into()],
                token_endpoint_auth_method: Some("none".into()),
                scope: Some("kb:tech kb:private".into()),
                application_type: None,
            })
            .unwrap();
        assert_eq!(registered.grant_types, vec!["authorization_code", "refresh_token"]);
        registered.client_id
    }

    fn query(client_id: &str, scope: &str) -> AuthorizationQuery {
        AuthorizationQuery {
            response_type: "code".into(),
            client_id: client_id.into(),
            redirect_uri: REDIRECT_URI.into(),
            scope: Some(scope.into()),
            state: Some("state-1".into()),
            resource: RESOURCE.into(),
            code_challenge: code_challenge(PKCE_VERIFIER),
            code_challenge_method: "S256".into(),
        }
    }

    fn approval(&self, client_id: &str, scope: &str) -> ApprovalForm {
        let page =
            self.oauth.begin_authorization_at(Server::query(client_id, scope), NOW).unwrap();
        let prefix = "name=\"request\" value=\"";
        let start = page.find(prefix).unwrap() + prefix.len();
        ApprovalForm {
            request: page[start..].split('"').next().unwrap().to_owned(),
            owner_secret: OWNER_SECRET.into(),
            decision: "approve".into(),
            scope: scope.into(),
        }
    }

    fn authorize(&mut self, client_id: &str, scope: &str) -> String {
        let form = self.approval(client_id, scope);
        let drawn = self.draw();
        let redirect = self.oauth.complete_authorization_at(form, NOW, &drawn).unwrap();
        let AuthorizationRedirect::Approved(location) = redirect else {
            panic!("the owner approved");
        };
        let redirect = url::Url::parse(&location).unwrap();
        assert_eq!(
            redirect.query_pairs().find(|(key, _)| key == "iss").map(|(_, v)| v.into_owned()),
            Some(ISSUER.into())
        );
        assert_eq!(
            redirect.query_pairs().find(|(key, _)| key == "state").map(|(_, v)| v.into_owned()),
            Some("state-1".into())
        );
        redirect.query_pairs().find(|(key, _)| key == "code").unwrap().1.into_owned()
    }

    fn exchange(&mut self, request: TokenRequest, now: u64) -> Result<TokenResponse, OAuthError> {
        let draws =
            TokenDraws { family: self.draw(), access: self.draw(), refresh: self.draw() };
        let pending = self.oauth.exchange_token_at(request, None, now, &draws);
        let stored = match pending.state_to_store() {
            Some(bytes) => {
                self.state = Some(bytes);
                true
            }
            None => false,
        };
        self.oauth.finish_exchange(pending, stored)
    }

    fn exchange_code(
        &mut self,
        client_id: &str,
        code: &str,
        verifier: &str,
    ) -> Result<TokenResponse, OAuthError> {
        self.exchange(code_request(client_id, code, verifier), NOW)
    }

    fn refresh(
        &mut self,
        client_id: &str,
        token: &str,
        scope: Option<&str>,
    ) -> Result<TokenResponse, OAuthError> {
        self.exchange(refresh_request(client_id, token, scope), NOW)
    }

    fn bearer(&self, token: &str) -> Option<AccessScope> {
        let auth = Authenticator::with_oauth(
            b"tech-secret",
            b"private-secret",
            self.oauth.bearer_authenticator(),
        );
        let headers = RequestHeaders {
            authorization: HeaderValue::Text(format!("Bearer {token}")),
            api_key: HeaderValue::Absent,
        };
        auth.authenticate_headers_at(&headers, NOW).ok().map(|subject| subject.scope)
    }
}

fn code_request(client_id: &str, code: &str, verifier: &str) -> TokenRequest {
    TokenRequest {
        grant_type: "authorization_code".into(),
        code: Some(code.into()),
        redirect_uri: Some(REDIRECT_URI.into()),
        client_id: Some(client_id.into()),
        client_secret: None,
        code_verifier: Some(verifier.into()),
        refresh_token: None,
        scope: None,
        resource: RESOURCE.into(),
    }
}

fn refresh_request(client_id: &str, token: &str, scope: Option<&str>) -> TokenRequest {
    TokenRequest {
        grant_type: "refresh_token".into(),
        code: None,
        redirect_uri: None,
        client_id: Some(client_id.into()),
        client_secret: None,
        code_verifier: None,
        refresh_token: Some(token.into()),
        scope: scope.map(str::to_owned),
        resource: RESOURCE.into(),
    }
}

fn no_front_matter(_block: &str) -> Option<FrontMatter> {
    None
}

fn fetch(scope: AccessScope, id: &str) -> Option<StoreError> {
    let store = DocumentStore::new(
        RootOutcome::Ready("/srv/kb".into()),
        65_536,
        1_048_576,
        ScopeDirectories::default(),
    )
    .unwrap();
    let file = FileOutcome::Contents(b"text".to_vec());
    store.read(scope, &DocumentId::parse(id).unwrap(), file, &no_front_matter).err()
}

#[test]
fn oauth_metadata_endpoints_advertise_mcp_oauth_contract() {
    let server = Server::new(60);
    let text = |value: &serde_json::Value| serde_json::to_string(value).unwrap();
    let protected_resource = server.oauth.protected_resource_metadata();
    assert_eq!(protected_resource["resource"], RESOURCE);
    assert_eq!(protected_resource["authorization_servers"][0], ISSUER);
    assert_eq!(text(&protected_resource["scopes_supported"]), "[\"kb:tech\",\"kb:private\"]");

    let authorization_server = server.oauth.authorization_server_metadata();
    assert_eq!(authorization_server["issuer"], ISSUER);
    assert_eq!(authorization_server["authorization_endpoint"], format!("{ISSUER}/oauth/authorize"));
    assert_eq!(authorization_server["token_endpoint"], format!("{ISSUER}/oauth/token"));
    assert_eq!(authorization_server["registration_endpoint"], format!("{ISSUER}/oauth/register"));
    assert_eq!(
        text(&authorization_server["grant_types_supported"]),
        "[\"authorization_code\",\"refresh_token\"]"
    );
    assert_eq!(
        text(&authorization_server["code_challenge_methods_supported"]),
        "[\"S256\"]"
    );
    assert_eq!(server.oauth.issuer(), ISSUER);
    assert_eq!(server.oauth.resource(), RESOURCE);
}

#[test]
fn pkce_rejects_a_wrong_verifier() {
    let mut server = Server::new(60);
    let client_id = server.register_public_client();
    let code = server.authorize(&client_id, "kb:tech");
    let error = server.exchange_code(&client_id, &code, "wrong-pkce-verifier").err().unwrap();
    assert_eq!(oauth_error_status(&error), 400);
    assert_eq!(error.error_code(), "invalid_grant");
    // The code is spent.
    assert_eq!(
        server.exchange_code(&client_id, &code, PKCE_VERIFIER).err(),
        Some(OAuthError::InvalidGrant)
    );
}

#[test]
fn kb_tech_bearer_token_hides_private_documents_and_api_keys_still_work() {
    let mut server = Server::new(60);
    let client_id = server.register_public_client();
    let code = server.authorize(&client_id, "kb:tech");
    let token = server.exchange_code(&client_id, &code, PKCE_VERIFIER).unwrap();
    assert_eq!(token.scope, "kb:tech");

    let scope = server.bearer(&token.access_token).unwrap();
    assert_eq!(fetch(scope, "90_private/secret.md"), Some(StoreError::NotFound));

    let auth = Authenticator::with_oauth(
        b"tech-secret",
        b"private-secret",
        server.oauth.bearer_authenticator(),
    );
    let scope = auth.authenticate_key("tech-secret").unwrap().scope;
    assert_eq!(fetch(scope, "10_tech/rust/needle.md"), None);
}

#[test]
fn expired_or_tampered_bearer_token_is_unauthorized_with_metadata_challenge() {
    let mut server = Server::new(0);
    let client_id = server.register_public_client();
    let code = server.authorize(&client_id, "kb:tech");
    let token = server.exchange_code(&client_id, &code, PKCE_VERIFIER).unwrap();
    let expired = token.access_token;
    let auth = Authenticator::with_oauth(
        b"tech-secret",
        b"private-secret",
        server.oauth.bearer_authenticator(),
    );
    let mut limiter = RateLimiter::new(600, 100);
    for bearer in [expired.clone(), format!("{expired}tampered")] {
        let headers = RequestHeaders {
            authorization: HeaderValue::Text(format!("Bearer {bearer}")),
            api_key: HeaderValue::Absent,
        };
        let url = server.oauth.protected_resource_metadata_url();
        let admission = admit_request(&auth, &mut limiter, &url, 1, &headers, NOW, 0);
        let Admission::Rejected { status, outcome, challenge } = admission else {
            panic!("an expired token is refused");
        };
        assert_eq!(status, 401);
        assert_eq!(outcome, "unauthorized");
        let challenge = challenge.unwrap();
        assert!(challenge.contains("Bearer"));
        assert!(challenge.contains("oauth-protected-resource"));
        assert!(challenge.contains("kb:tech"));
        assert!(challenge.contains("kb:private"));
    }
}

#[test]
fn the_challenge_names_the_metadata_and_the_scopes() {
    assert_eq!(
        unauthorized_challenge("https://engram.test/.well-known/oauth-protected-resource"),
        "Bearer resource_metadata=\"https://engram.test/.well-known/oauth-protected-resource\", scope=\"kb:tech kb:private\""
    );
}

#[test]
fn refresh_grant_issues_a_new_access_and_refresh_token() {
    let mut server = Server::new(60);
    let client_id = server.register_public_client();
    let code = server.authorize(&client_id, "kb:tech");
    let initial = server.exchange_code(&client_id, &code, PKCE_VERIFIER).unwrap();
    let refreshed = server.refresh(&client_id, &initial.refresh_token, None).unwrap();
    assert_eq!(refreshed.scope, "kb:tech");
    assert_ne!(refreshed.access_token, initial.access_token);
    assert_ne!(refreshed.refresh_token, initial.refresh_token);
}

#[test]
fn refresh_token_reuse_revokes_its_entire_family() {
    let mut server = Server::new(60);
    let client_id = server.register_public_client();
    let code = server.authorize(&client_id, "kb:tech");
    let initial = server.exchange_code(&client_id, &code, PKCE_VERIFIER).unwrap();
    let rotated = server.refresh(&client_id, &initial.refresh_token, None).unwrap();
    assert_eq!(server.bearer(&rotated.access_token), Some(AccessScope::Tech));

    let reused = server.refresh(&client_id, &initial.refresh_token, None).err().unwrap();
    assert_eq!(oauth_error_status(&reused), 400);
    assert_eq!(reused.error_code(), "invalid_grant");

    let family_revoked = server.refresh(&client_id, &rotated.refresh_token, None).err().unwrap();
    assert_eq!(oauth_error_status(&family_revoked), 400);
    assert_eq!(family_revoked.error_code(), "invalid_grant");

    assert_eq!(server.bearer(&rotated.access_token), None);
}

#[test]
fn refresh_grant_allows_scope_narrowing() {
    let mut server = Server::new(60);
    let client_id = server.register_public_client();
    let code = server.authorize(&client_id, "kb:tech kb:private");
    let initial = server.exchange_code(&client_id, &code, PKCE_VERIFIER).unwrap();
    let narrowed = server.refresh(&client_id, &initial.refresh_token, Some("kb:tech")).unwrap();
    assert_eq!(narrowed.scope, "kb:tech");
    let scope = server.bearer(&narrowed.access_token).unwrap();
    assert_eq!(fetch(scope, "90_private/secret.md"), Some(StoreError::NotFound));
    // What was narrowed cannot be widened again.
    assert_eq!(
        server.refresh(&client_id, &narrowed.refresh_token, Some("kb:tech kb:private")).err(),
        Some(OAuthError::InvalidScope)
    );
}

#[test]
fn a_refused_scope_leaves_the_token_working() {
    let mut server = Server::new(60);
    let client_id = server.register_public_client();
    let code = server.authorize(&client_id, "kb:tech");
    let initial = server.exchange_code(&client_id, &code, PKCE_VERIFIER).unwrap();
    let wide = server.refresh(&client_id, &initial.refresh_token, Some("kb:private"));
    assert_eq!(wide.err(), Some(OAuthError::InvalidScope));
    let same = server.refresh(&client_id, &initial.refresh_token, None).unwrap();
    assert_eq!(same.scope, "kb:tech");
}

#[test]
fn a_wrong_verifier_spends_the_code() {
    let mut server = Server::new(60);
    let client_id = server.register_public_client();
    let code = server.authorize(&client_id, "kb:tech");
    let wrong = "wrong-pkce-verifier-for-oauth-test-with-at-least-forty-three-bytes";
    let guess = server.exchange_code(&client_id, &code, wrong);
    assert_eq!(guess.err(), Some(OAuthError::InvalidGrant));
    let late = server.exchange_code(&client_id, &code, PKCE_VERIFIER);
    assert_eq!(late.err(), Some(OAuthError::InvalidGrant));

    let code = server.authorize(&client_id, "kb:tech kb:private");
    let granted = server.exchange_code(&client_id, &code, PKCE_VERIFIER).unwrap();
    assert_eq!(granted.token_type, "Bearer");
    assert_eq!(granted.scope, "kb:tech kb:private");
    let again = server.exchange_code(&client_id, &code, PKCE_VERIFIER);
    assert_eq!(again.err(), Some(OAuthError::InvalidGrant));
}

#[test]
fn reuse_leaves_other_families_alone() {
    let mut server = Server::new(60);
    let client_id = server.register_public_client();
    let code = server.authorize(&client_id, "kb:tech");
    let first = server.exchange_code(&client_id, &code, PKCE_VERIFIER).unwrap();
    let code = server.authorize(&client_id, "kb:private");
    let other = server.exchange_code(&client_id, &code, PKCE_VERIFIER).unwrap();
    server.refresh(&client_id, &first.refresh_token, None).unwrap();
    assert!(server.refresh(&client_id, &first.refresh_token, None).is_err());
    assert_eq!(server.bearer(&first.access_token), None);
    assert_eq!(server.bearer(&other.access_token), Some(AccessScope::Private));
    assert!(server.refresh(&client_id, &other.refresh_token, None).is_ok());
}

#[test]
fn only_whole_access_tokens_are_honoured() {
    let mut server = Server::new(60);
    let client_id = server.register_public_client();
    let code = server.authorize(&client_id, "kb:private");
    let token = server.exchange_code(&client_id, &code, PKCE_VERIFIER).unwrap();
    assert_eq!(server.bearer(&token.access_token), Some(AccessScope::Private));
    for tail in ["A", "tampered", ".", "="] {
        assert_eq!(server.bearer(&format!("{}{tail}", token.access_token)), None);
    }
    assert_eq!(server.bearer(&token.refresh_token), None);
    let widened = format!("{}A", token.refresh_token);
    assert_eq!(
        server.refresh(&client_id, &widened, None).err(),
        Some(OAuthError::InvalidGrant)
    );
    let elsewhere = OAuthConfig { resource: format!("{RESOURCE}/other"), ..config(60, 60) };
    let contents = server.state.clone().unwrap();
    let file = StateFile::Found {
        regular: true,
        len: contents.len() as u64,
        contents: Some(contents),
    };
    let other = OAuthService::new(&elsewhere, StateDirectory::Ready(file)).unwrap();
    let seen = other.bearer_authenticator().authenticate_bearer_at(&token.access_token, NOW);
    assert_eq!(seen.err(), Some(OAuthError::InvalidGrant));
}

#[test]
fn expired_refresh_token_is_rejected_as_invalid_grant() {
    let mut server = Server::with_ttls(60, 0);
    let client_id = server.register_public_client();
    let code = server.authorize(&client_id, "kb:tech");
    let initial = server.exchange_code(&client_id, &code, PKCE_VERIFIER).unwrap();
    let error = server.refresh(&client_id, &initial.refresh_token, None).err().unwrap();
    assert_eq!(oauth_error_status(&error), 400);
    assert_eq!(error.error_code(), "invalid_grant");
}

#[test]
fn signed_access_tokens_and_refresh_rotation_survive_router_restart() {
    let mut first = Server::new(60);
    let client_id = first.register_public_client();
    let code = first.authorize(&client_id, "kb:tech");
    let initial = first.exchange_code(&client_id, &code, PKCE_VERIFIER).unwrap();

    let persisted = String::from_utf8(first.state.clone().unwrap()).unwrap();
    assert!(!persisted.contains(&initial.access_token));
    assert!(!persisted.contains(&initial.refresh_token));

    let mut restarted = first.restarted();
    assert_eq!(restarted.bearer(&initial.access_token), Some(AccessScope::Tech));
    assert!(restarted.refresh(&client_id, &initial.refresh_token, None).is_ok());
}

#[test]
fn a_code_is_redeemed_once_and_in_time() {
    let mut server = Server::new(60);
    let client_id = server.register_public_client();
    let code = server.authorize(&client_id, "kb:tech");
    assert!(server.exchange_code(&client_id, &code, PKCE_VERIFIER).is_ok());
    assert_eq!(
        server.exchange_code(&client_id, &code, PKCE_VERIFIER).err(),
        Some(OAuthError::InvalidGrant)
    );
    let late = server.authorize(&client_id, "kb:tech");
    assert_eq!(
        server.exchange(code_request(&client_id, &late, PKCE_VERIFIER), NOW + 60).err(),
        Some(OAuthError::InvalidGrant)
    );
    let prompt = server.authorize(&client_id, "kb:tech");
    assert!(server.exchange(code_request(&client_id, &prompt, PKCE_VERIFIER), NOW + 59).is_ok());
}

#[test]
fn only_the_owner_approves() {
    let mut server = Server::new(60);
    let client_id = server.register_public_client();
    let mut complete = |change: fn(&mut ApprovalForm), now: u64| {
        let mut form = server.approval(&client_id, "kb:tech");
        change(&mut form);
        let drawn = server.draw();
        server.oauth.complete_authorization_at(form, now, &drawn)
    };
    assert_eq!(
        complete(|form| form.owner_secret = "wrong".into(), NOW).err(),
        Some(OAuthError::InvalidOwner)
    );
    assert!(complete(|form| form.request.push('x'), NOW).is_err());
    assert!(complete(|_| {}, NOW + 300).is_err());
    assert!(complete(|form| form.scope = "kb:private".into(), NOW).is_err());
    assert!(complete(|form| form.decision = "perhaps".into(), NOW).is_err());
    assert!(complete(|_| {}, NOW).is_ok());
}

#[test]
fn a_denial_is_reported_to_the_client() {
    let mut server = Server::new(60);
    let client_id = server.register_public_client();
    let mut form = server.approval(&client_id, "kb:tech");
    form.decision = "deny".into();
    match server.oauth.complete_authorization_at(form, NOW, &None).unwrap() {
        AuthorizationRedirect::Denied(location) => assert_eq!(
            location,
            "https://client.test/oauth/callback?iss=https%3A%2F%2Fengram.test&state=state-1&error=access_denied"
        ),
        AuthorizationRedirect::Approved(_) => panic!("the owner denied"),
    }
}

#[test]
fn nothing_is_granted_without_entropy_or_storage() {
    let mut server = Server::new(60);
    let client_id = server.register_public_client();
    let form = server.approval(&client_id, "kb:tech");
    assert_eq!(
        server.oauth.complete_authorization_at(form, NOW, &None).err(),
        Some(OAuthError::Entropy)
    );

    let code = server.authorize(&client_id, "kb:tech");
    let draws = TokenDraws { family: None, access: None, refresh: None };
    let request = code_request(&client_id, &code, PKCE_VERIFIER);
    let pending = server.oauth.exchange_token_at(request, None, NOW, &draws);
    assert_eq!(server.oauth.finish_exchange(pending, true).err(), Some(OAuthError::Entropy));

    let code = server.authorize(&client_id, "kb:tech");
    let draws = TokenDraws { family: server.draw(), access: server.draw(), refresh: server.draw() };
    let request = code_request(&client_id, &code, PKCE_VERIFIER);
    let pending = server.oauth.exchange_token_at(request, None, NOW, &draws);
    assert!(pending.state_to_store().is_some());
    assert_eq!(server.oauth.finish_exchange(pending, false).err(), Some(OAuthError::Internal));
}

#[test]
fn token_requests_are_refused_for_what_is_wrong_with_them() {
    let mut server = Server::new(60);
    let client_id = server.register_public_client();
    let mut attempt = |change: fn(&mut TokenRequest)| {
        let code = server.authorize(&client_id, "kb:tech");
        let mut request = code_request(&client_id, &code, PKCE_VERIFIER);
        change(&mut request);
        server.exchange(request, NOW).err()
    };
    assert_eq!(attempt(|_| {}), None);
    assert_eq!(
        attempt(|request| request.grant_type = "password".into()),
        Some(OAuthError::InvalidGrant)
    );
    assert_eq!(attempt(|request| request.code_verifier = None), Some(OAuthError::InvalidGrant));
    assert_eq!(
        attempt(|request| request.resource = "https://other.test/mcp".into()),
        Some(OAuthError::InvalidGrant)
    );
    assert_eq!(
        attempt(|request| request.client_id = Some("dcr.x".into())),
        Some(OAuthError::InvalidClient)
    );
    assert_eq!(
        attempt(|request| request.redirect_uri = Some("https://client.test/other".into())),
        Some(OAuthError::InvalidGrant)
    );
    assert_eq!(
        attempt(|request| request.code = Some("unknown".into())),
        Some(OAuthError::InvalidGrant)
    );
}

#[test]
fn authorization_requests_are_refused_for_what_is_wrong_with_them() {
    let server = Server::new(60);
    let client_id = server.register_public_client();
    let begin = |change: fn(&mut AuthorizationQuery)| {
        let mut query = Server::query(&client_id, "kb:tech");
        change(&mut query);
        server.oauth.begin_authorization_at(query, NOW).err()
    };
    assert_eq!(begin(|_| {}), None);
    assert_eq!(
        begin(|query| query.response_type = "token".into()),
        Some(OAuthError::InvalidAuthorizationRequest)
    );
    assert_eq!(
        begin(|query| query.code_challenge_method = "plain".into()),
        Some(OAuthError::InvalidAuthorizationRequest)
    );
    assert_eq!(
        begin(|query| query.client_id = "dcr.unknown".into()),
        Some(OAuthError::InvalidClient)
    );
    assert!(begin(|query| query.redirect_uri = "https://evil.test/cb".into()).is_some());
    assert_eq!(
        begin(|query| query.scope = Some("kb:unknown".into())),
        Some(OAuthError::InvalidScope)
    );
    assert!(begin(|query| query.resource = "https://other.test/mcp".into()).is_some());
}

#[test]
fn codes_and_tokens_by_the_clock_are_honoured_and_differ() {
    let mut oauth =
        OAuthService::new(&config(60, 60), StateDirectory::Ready(StateFile::Missing)).unwrap();
    let server = Server::new(60);
    let client_id = server.register_public_client();
    let registered = oauth
        .register_client(RegistrationRequest {
            redirect_uris: vec![REDIRECT_URI.into()],
            grant_types: vec![],
            response_types: vec![],
            token_endpoint_auth_method: None,
            scope: None,
            application_type: None,
        })
        .unwrap();
    assert!(registered.client_id_issued_at > 1_700_000_000);
    let mut tokens = Vec::new();
    for _ in 0..2 {
        let page = oauth.begin_authorization(Server::query(&client_id, "kb:private")).unwrap();
        let prefix = "name=\"request\" value=\"";
        let start = page.find(prefix).unwrap() + prefix.len();
        let form = ApprovalForm {
            request: page[start..].split('"').next().unwrap().to_owned(),
            owner_secret: OWNER_SECRET.into(),
            decision: "approve".into(),
            scope: "kb:private".into(),
        };
        let AuthorizationRedirect::Approved(location) = oauth.complete_authorization(form).unwrap()
        else {
            panic!("the owner approved");
        };
        let redirect = url::Url::parse(&location).unwrap();
        let code = redirect.query_pairs().find(|(key, _)| key == "code").unwrap().1.into_owned();
        let pending = oauth.exchange_token(code_request(&client_id, &code, PKCE_VERIFIER), None);
        let response = oauth.finish_exchange(pending, true).unwrap();
        assert_eq!(response.token_type, "Bearer");
        assert_eq!(response.expires_in, 60);
        let identity = oauth.bearer_authenticator().authenticate_bearer(&response.access_token);
        assert_eq!(identity.unwrap().scope, AccessScope::Private);
        tokens.push(response);
    }
    assert_ne!(tokens[0].access_token, tokens[1].access_token);
    assert_ne!(tokens[0].refresh_token, tokens[1].refresh_token);
    let body = serde_json::to_string(&tokens[0].to_json()).unwrap();
    assert!(body.starts_with("{\"access_token\":\"at_"));
    assert!(body.ends_with("\"token_type\":\"Bearer\",\"expires_in\":60,\"scope\":\"kb:private\"}"));
}

#[test]
fn refusals_have_a_status() {
    assert_eq!(oauth_error_status(&OAuthError::InvalidClient), 401);
    assert_eq!(oauth_error_status(&OAuthError::Internal), 500);
    assert_eq!(oauth_error_status(&OAuthError::Entropy), 500);
    assert_eq!(oauth_error_status(&OAuthError::InvalidConfiguration), 500);
    assert_eq!(oauth_error_status(&OAuthError::InvalidScope), 400);
    assert_eq!(declared_bytes(Some("345")), 345);
    assert_eq!(declared_bytes(Some("+7")), 7);
    assert_eq!(declared_bytes(Some("many")), 0);
    assert_eq!(declared_bytes(Some("18446744073709551616")), 0);
    assert_eq!(declared_bytes(None), 0);
}
