use engram_mcp::auth::AccessScope;
use engram_mcp::config::{OAuthConfig, ScopeDirectories};
use engram_mcp::document::{
    DocumentId, DocumentStore, FileOutcome, FrontMatter, RootOutcome, StoreError,
};
use engram_mcp::inbox::{note_file_name, MAX_NAME_ATTEMPTS};
use engram_mcp::oauth::claims::{
    AccessTokenClaims, ClientAuthenticationMethod, ClientIdPayload, RefreshTokenClaims,
    SignedApprovalRequest,
};
use engram_mcp::oauth::families::RefreshTokenStore;
use engram_mcp::oauth::{
    ApprovalForm, AuthorizationQuery, AuthorizationRedirect, OAuthError, OAuthService,
    RegistrationRequest, ScopeGrant, StateDirectory, StateFile, TokenDraws, TokenRequest,
};

const NOW: u64 = 1_000;
const VERIFIER: &str = "dBjftJeZ4CVP-mB92K27uhbUJU1p1r_wW1gFWFOEjXk";
const CHALLENGE: &str = "E9Melhoa2OwvFrEMTJguCHaoeK1t8URWbuGJSstw-cM";

fn config(signing_key: &str) -> OAuthConfig {
    OAuthConfig {
        issuer: "https://engram.test".into(),
        resource: "https://engram.test/mcp".into(),
        owner_secret: "owner-secret-for-law-tests".into(),
        signing_key: signing_key.into(),
        access_token_ttl_seconds: 60,
        authorization_code_ttl_seconds: 60,
        refresh_state_dir: "/state".into(),
        refresh_token_ttl_seconds: 600,
    }
}

fn start(signing_key: &str, state: Option<Vec<u8>>) -> OAuthService {
    let file = match state {
        Some(contents) => StateFile::Found {
            regular: true,
            len: contents.len() as u64,
            contents: Some(contents),
        },
        None => StateFile::Missing,
    };
    OAuthService::new(&config(signing_key), StateDirectory::Ready(file)).unwrap()
}

const OLD_KEY: &str = "old-signing-key-for-law-tests-0123456789";
const NEW_KEY: &str = "new-signing-key-for-law-tests-0123456789";

fn register(oauth: &OAuthService) -> String {
    oauth
        .register_client(RegistrationRequest {
            redirect_uris: vec!["https://client.test/cb".into()],
            grant_types: vec![],
            response_types: vec![],
            token_endpoint_auth_method: None,
            scope: None,
            application_type: None,
        })
        .unwrap()
        .client_id
}

fn approve(oauth: &mut OAuthService, client_id: &str, drawn: u8) -> String {
    let page = oauth
        .begin_authorization_at(
            AuthorizationQuery {
                response_type: "code".into(),
                client_id: client_id.into(),
                redirect_uri: "https://client.test/cb".into(),
                scope: None,
                state: None,
                resource: "https://engram.test/mcp".into(),
                code_challenge: CHALLENGE.into(),
                code_challenge_method: "S256".into(),
            },
            NOW,
        )
        .unwrap();
    let prefix = "name=\"request\" value=\"";
    let at = page.find(prefix).unwrap() + prefix.len();
    let form = ApprovalForm {
        request: page[at..].split('"').next().unwrap().to_owned(),
        owner_secret: "owner-secret-for-law-tests".into(),
        decision: "approve".into(),
        scope: "kb:tech".into(),
    };
    match oauth.complete_authorization_at(form, NOW, &Some([drawn; 32])).unwrap() {
        AuthorizationRedirect::Approved(location) => {
            location.split("code=").nth(1).unwrap().split('&').next().unwrap().to_owned()
        }
        AuthorizationRedirect::Denied(_) => panic!("the owner approved"),
    }
}

fn redeem(client_id: &str, code: &str) -> TokenRequest {
    TokenRequest {
        grant_type: "authorization_code".into(),
        code: Some(code.into()),
        redirect_uri: Some("https://client.test/cb".into()),
        client_id: Some(client_id.into()),
        client_secret: None,
        code_verifier: Some(VERIFIER.into()),
        refresh_token: None,
        scope: None,
        resource: "https://engram.test/mcp".into(),
    }
}

fn renew(client_id: &str, token: &str) -> TokenRequest {
    TokenRequest {
        grant_type: "refresh_token".into(),
        code: None,
        redirect_uri: None,
        code_verifier: None,
        refresh_token: Some(token.into()),
        ..redeem(client_id, "")
    }
}

fn draws(from: u8) -> TokenDraws {
    TokenDraws {
        family: Some([from; 32]),
        access: Some([from + 1; 32]),
        refresh: Some([from + 2; 32]),
    }
}

#[test]
fn a_new_key_ends_tokens_and_clients() {
    let mut old = start(OLD_KEY, None);
    let client_id = register(&old);
    let code = approve(&mut old, &client_id, 1);
    let pending = old.exchange_token_at(redeem(&client_id, &code), None, NOW, &draws(10));
    let state = pending.state_to_store().unwrap();
    let tokens = old.finish_exchange(pending, true).unwrap();
    let bearer = |oauth: &OAuthService| {
        oauth.bearer_authenticator().authenticate_bearer_at(&tokens.access_token, NOW).is_ok()
    };
    assert!(bearer(&old));

    let mut new = start(NEW_KEY, Some(state.clone()));
    assert!(!bearer(&new));
    assert!(new.client_from_id(&client_id).is_err());
    let other_client = register(&new);
    let request = renew(&other_client, &tokens.refresh_token);
    let pending = new.exchange_token_at(request, None, NOW, &draws(20));
    assert!(pending.state_to_store().is_none());
    assert_eq!(new.finish_exchange(pending, false).err(), Some(OAuthError::InvalidGrant));

    // With the old key everything goes on.
    let mut again = start(OLD_KEY, Some(state));
    assert!(bearer(&again));
    let request = renew(&client_id, &tokens.refresh_token);
    let pending = again.exchange_token_at(request, None, NOW, &draws(20));
    assert!(again.finish_exchange(pending, true).is_ok());
}

#[test]
fn codes_do_not_outlive_the_server() {
    let mut first = start(OLD_KEY, None);
    let client_id = register(&first);
    let code = approve(&mut first, &client_id, 1);
    let mut second = start(OLD_KEY, None);
    let pending = second.exchange_token_at(redeem(&client_id, &code), None, NOW, &draws(10));
    assert_eq!(second.finish_exchange(pending, true).err(), Some(OAuthError::InvalidGrant));
    let pending = first.exchange_token_at(redeem(&client_id, &code), None, NOW, &draws(10));
    assert!(first.finish_exchange(pending, true).is_ok());
}

#[test]
fn a_token_is_bound_to_its_client() {
    let mut oauth = start(OLD_KEY, None);
    let client_id = register(&oauth);
    let other = oauth
        .register_client(RegistrationRequest {
            redirect_uris: vec!["https://other.test/cb".into()],
            grant_types: vec![],
            response_types: vec![],
            token_endpoint_auth_method: None,
            scope: None,
            application_type: None,
        })
        .unwrap()
        .client_id;
    let code = approve(&mut oauth, &client_id, 1);
    let pending = oauth.exchange_token_at(redeem(&client_id, &code), None, NOW, &draws(10));
    let tokens = oauth.finish_exchange(pending, true).unwrap();
    let request = renew(&other, &tokens.refresh_token);
    let pending = oauth.exchange_token_at(request, None, NOW, &draws(20));
    assert_eq!(oauth.finish_exchange(pending, true).err(), Some(OAuthError::InvalidGrant));
}

#[test]
fn a_revoked_family_stays_revoked_and_others_are_left_alone() {
    let empty = RefreshTokenStore::open(StateDirectory::Ready(StateFile::Missing)).unwrap();
    let store = empty.create_family("f1", "h1".into(), 100, 10).unwrap();
    let store = store.create_family("f2", "h2".into(), 100, 10).unwrap();
    assert_eq!(
        store.create_family("f1", "h3".into(), 100, 10).err(),
        Some(OAuthError::Entropy)
    );
    let revoked = store.rotate("f1", "wrong", "x".into(), 100, 20).next.unwrap();
    assert!(!revoked.is_active("f1", 20));
    assert!(revoked.is_active("f2", 20));
    // The token that was active is of no use any more.
    let tried = revoked.rotate("f1", "h1", "x".into(), 100, 30);
    assert!(!tried.granted);
    assert!(tried.next.is_none());
    let rotated = revoked.rotate("f2", "h2", "h4".into(), 200, 30);
    assert!(rotated.granted);
    let rotated = rotated.next.unwrap();
    assert!(!rotated.is_active("f1", 30));
    assert!(rotated.rotate("f2", "h4", "h5".into(), 300, 199).granted);
    assert!(!rotated.rotate("f2", "h4", "h5".into(), 300, 200).granted);
}

#[test]
fn allowed_scopes_are_allowed_onwards() {
    let tech = ScopeGrant::parse("kb:tech").unwrap();
    let private = ScopeGrant::parse("kb:private").unwrap();
    let both = ScopeGrant::parse("kb:tech kb:private").unwrap();
    assert!(private.allows(&both) && both.allows(&tech) && private.allows(&tech));
    assert!(!tech.allows(&private) && !tech.allows(&both));
    assert!(tech.is_subset_of(&both) && both.allows(&tech));
    assert!(!tech.is_subset_of(&private));
}

#[test]
fn names_of_attempts_differ() {
    let mut names: Vec<String> =
        (0..MAX_NAME_ATTEMPTS).map(|attempt| note_file_name(0, "note", attempt)).collect();
    assert_eq!(names[0], "1970-01-01-000000-note.md");
    assert_eq!(names[63], "1970-01-01-000000-note-64.md");
    names.sort();
    names.dedup();
    // With one name fewer taken than are tried, one is free.
    let taken = &names[1..];
    assert!(names.iter().any(|name| !taken.contains(name)));
    assert_eq!(names.len(), MAX_NAME_ATTEMPTS as usize);
}

fn no_front_matter(_block: &str) -> Option<FrontMatter> {
    None
}

#[test]
fn a_response_fits_its_budget_and_is_ranked() {
    let store = DocumentStore::new(
        RootOutcome::Ready("/kb".into()),
        65_536,
        65_536,
        ScopeDirectories::default(),
    )
    .unwrap();
    let files = || -> Result<Vec<DocumentId>, StoreError> {
        (0..9).map(|n| DocumentId::parse(&format!("10_tech/{n}.md"))).collect()
    };
    let open = |_: &DocumentId| {
        FileOutcome::Contents(format!("needle {}\n", "y".repeat(50)).into_bytes())
    };
    let search = |budget: usize| {
        store
            .search(AccessScope::Tech, "needle", Some(9), budget, &files, &open, &no_front_matter)
            .unwrap()
    };
    let whole = search(100_000);
    assert_eq!(whole.results.len(), 9);
    assert!(!whole.truncated);
    let size = serde_json::to_vec(&whole.to_json()).unwrap().len();
    for budget in [size, size - 1, 700, 300] {
        let response = search(budget);
        assert!(serde_json::to_vec(&response.to_json()).unwrap().len() <= budget);
        assert_eq!(response.truncated, budget < size);
        let ids: Vec<&str> = response.results.iter().map(|r| r.id.as_str()).collect();
        let mut sorted = ids.clone();
        sorted.sort();
        assert_eq!(ids, sorted);
    }
}

#[test]
fn claims_are_read_from_a_list_of_values_too() {
    let value = |text: &str| -> serde_json::Value { serde_json::from_str(text).unwrap() };
    let access = value(r#"[1,"t","f",["kb:tech"],"a",1,2]"#);
    let read = AccessTokenClaims::from_json(&access).unwrap();
    assert_eq!((read.token_id.as_str(), read.family_id.as_str()), ("t", "f"));
    assert_eq!((read.issued_at, read.expires_at), (1, 2));
    assert!(AccessTokenClaims::from_json(&value(r#"[1,"t","f",["kb:tech"],"a",1]"#)).is_none());
    let approval = value(r#"["c","u",["kb:tech"],null,"r","h",5]"#);
    assert!(SignedApprovalRequest::from_json(&approval).unwrap().state.is_none());
    let named = value(r#"[1,["u"],"none",["kb:tech"],3]"#);
    let method = ClientIdPayload::from_json(&named).unwrap().token_endpoint_auth_method;
    assert_eq!(method, ClientAuthenticationMethod::Public);
    let keyed = value(r#"[1,["u"],{"client_secret_post":null},["kb:tech"],3]"#);
    let method = ClientIdPayload::from_json(&keyed).unwrap().token_endpoint_auth_method;
    assert_eq!(method, ClientAuthenticationMethod::ClientSecretPost);
    assert!(ClientIdPayload::from_json(&value(r#"[1,["u"],{"none":1},["kb:tech"],3]"#)).is_none());
    let refresh = value(r#"[1,"f","t","b",["kb:tech"],"a",1,2]"#);
    assert_eq!(RefreshTokenClaims::from_json(&refresh).unwrap().client_binding, "b");
}

#[test]
fn nested_values_are_no_claims() {
    let mut nested = serde_json::Value::Null;
    for _ in 0..1_000 {
        nested = serde_json::Value::Array(vec![nested]);
    }
    assert!(AccessTokenClaims::from_json(&nested).is_none());
}

#[test]
fn claims_are_read_back() {
    let scopes = || ScopeGrant::parse("kb:tech").unwrap();
    let access = AccessTokenClaims {
        version: 1,
        token_id: "t".into(),
        family_id: "f".into(),
        scopes: scopes(),
        audience: "a".into(),
        issued_at: 1,
        expires_at: u64::MAX,
    };
    let read = AccessTokenClaims::from_json(&access.to_json()).unwrap();
    assert_eq!(read.expires_at, u64::MAX);
    assert_eq!(read.scopes.as_string(), "kb:tech");
    let refresh = RefreshTokenClaims {
        version: 1,
        family_id: "f".into(),
        token_id: "t".into(),
        client_binding: "b".into(),
        scopes: scopes(),
        audience: "a".into(),
        issued_at: 1,
        expires_at: 2,
    };
    assert_eq!(RefreshTokenClaims::from_json(&refresh.to_json()).unwrap().client_binding, "b");
    assert!(AccessTokenClaims::from_json(&serde_json::Value::Null).is_none());
    let client = ClientIdPayload {
        version: 1,
        redirect_uris: vec!["https://a.test/".into()],
        token_endpoint_auth_method: ClientAuthenticationMethod::ClientSecretBasic,
        scopes: scopes(),
        issued_at: 3,
    };
    let read = ClientIdPayload::from_json(&client.to_json()).unwrap();
    assert_eq!(read.token_endpoint_auth_method, ClientAuthenticationMethod::ClientSecretBasic);
    assert_eq!(
        serde_json::to_string(&client.to_json()).unwrap(),
        "{\"version\":1,\"redirect_uris\":[\"https://a.test/\"],\"token_endpoint_auth_method\":\"client_secret_basic\",\"scopes\":[\"kb:tech\"],\"issued_at\":3}"
    );
    let request = SignedApprovalRequest {
        client_id: "c".into(),
        redirect_uri: "r".into(),
        requested_scopes: scopes(),
        state: None,
        resource: "s".into(),
        code_challenge: "x".into(),
        expires_at: 9,
    };
    let read = SignedApprovalRequest::from_json(&request.to_json()).unwrap();
    assert_eq!(read.state, None);
    assert_eq!(read.expires_at, 9);
    assert_eq!(
        serde_json::to_string(&request.to_json()).unwrap(),
        "{\"client_id\":\"c\",\"redirect_uri\":\"r\",\"requested_scopes\":[\"kb:tech\"],\"state\":null,\"resource\":\"s\",\"code_challenge\":\"x\",\"expires_at\":9}"
    );
}
