use std::collections::BTreeMap;

use engram_mcp::config::{
    Config, ConfigError, OAuthConfig, ScopeDirectories, DEFAULT_BIND_ADDR, DEFAULT_MAX_READ_BYTES,
    DEFAULT_OAUTH_ACCESS_TOKEN_TTL_SECONDS, DEFAULT_OAUTH_REFRESH_TOKEN_TTL_SECONDS,
    DEFAULT_RATE_LIMIT_BURST,
};
use engram_mcp::order::TextSet;

fn values() -> BTreeMap<String, String> {
    BTreeMap::from([
        ("KB_ROOT".into(), "/srv/kb".into()),
        ("KB_KEY_A".into(), "tech-key".into()),
        ("KB_KEY_B".into(), "private-key".into()),
        ("MCP_ALLOWED_HOSTS".into(), "engram.example.test".into()),
        ("OAUTH_ISSUER".into(), "https://engram.example.test".into()),
        ("OAUTH_RESOURCE".into(), "https://engram.example.test/mcp".into()),
        ("OAUTH_OWNER_SECRET".into(), "owner-secret-for-config-test".into()),
        (
            "OAUTH_SIGNING_KEY".into(),
            "signing-key-for-config-test-with-sufficient-length".into(),
        ),
        ("OAUTH_STATE_DIR".into(), "/srv/kb/oauth-state".into()),
    ])
}

fn load(source: &BTreeMap<String, String>) -> Result<Config, ConfigError> {
    Config::from_lookup(
        |key: &str| source.get(key).cloned(),
        |path: &str| path == "/srv/kb",
        |address: &str| address.ends_with(":8080") || address == DEFAULT_BIND_ADDR,
    )
}

fn load_with(name: &str, value: &str) -> Result<Config, ConfigError> {
    let mut source = values();
    source.insert(name.into(), value.into());
    load(&source)
}

fn set(names: &[&str]) -> TextSet {
    TextSet::from_texts(&names.iter().map(|name| (*name).to_owned()).collect())
}

#[test]
fn rejects_missing_required_value() {
    let mut source = values();
    source.remove("KB_KEY_A");
    assert!(matches!(load(&source), Err(ConfigError::Missing("KB_KEY_A"))));
}

#[test]
fn rejects_duplicate_keys() {
    assert!(matches!(load_with("KB_KEY_B", "tech-key"), Err(ConfigError::DuplicateKeys)));
}

#[test]
fn applies_safe_defaults() {
    let config = load(&values()).unwrap();
    assert_eq!(config.max_read_bytes, DEFAULT_MAX_READ_BYTES);
    assert_eq!(config.rate_limit_burst, DEFAULT_RATE_LIMIT_BURST);
    assert_eq!(config.bind_addr.to_string(), DEFAULT_BIND_ADDR);
    assert_eq!(config.oauth.access_token_ttl_seconds, DEFAULT_OAUTH_ACCESS_TOKEN_TTL_SECONDS);
    assert_eq!(config.oauth.refresh_token_ttl_seconds, DEFAULT_OAUTH_REFRESH_TOKEN_TTL_SECONDS);
    assert!(config.scope_directories.allows_public("10_tech"));
    assert!(config.scope_directories.allows_public("20_projects"));
    assert!(config.scope_directories.allows_private("90_private"));
}

#[test]
fn accepts_custom_scope_directories() {
    let mut source = values();
    source.insert("KB_PUBLIC_DIRS".into(), "docs,projects".into());
    source.insert("KB_PRIVATE_DIRS".into(), "personal".into());
    let config = load(&source).unwrap();
    assert!(config.scope_directories.allows_public("docs"));
    assert!(config.scope_directories.allows_public("projects"));
    assert!(config.scope_directories.allows_private("personal"));
    assert!(!config.scope_directories.allows_public("10_tech"));
}

#[test]
fn rejects_unsafe_or_overlapping_scope_directories() {
    let mut source = values();
    source.insert("KB_PUBLIC_DIRS".into(), "../outside".into());
    assert!(matches!(
        load(&source),
        Err(ConfigError::InvalidScopeDirectories("KB_PUBLIC_DIRS"))
    ));

    source.insert("KB_PUBLIC_DIRS".into(), "shared".into());
    source.insert("KB_PRIVATE_DIRS".into(), "shared".into());
    assert!(matches!(load(&source), Err(ConfigError::OverlappingScopeDirectories)));

    assert!(matches!(
        ScopeDirectories::new(set(&["../outside"]), set(&["private"])),
        Err(ConfigError::InvalidScopeDirectories("KB_PUBLIC_DIRS"))
    ));
}

#[test]
fn rejects_out_of_range_response_limit() {
    assert!(matches!(
        load_with("MAX_SEARCH_RESPONSE_BYTES", "1"),
        Err(ConfigError::OutOfRange("MAX_SEARCH_RESPONSE_BYTES"))
    ));
}

#[test]
fn every_setting_is_checked() {
    assert!(matches!(load_with("KB_KEY_A", "  "), Err(ConfigError::Empty("KB_KEY_A"))));
    assert!(matches!(load_with("KB_ROOT", "/elsewhere"), Err(ConfigError::InvalidKbRoot)));
    assert!(matches!(
        load_with("MCP_BIND_ADDR", "nowhere"),
        Err(ConfigError::InvalidBindAddress)
    ));
    assert!(matches!(
        load_with("MAX_READ_BYTES", "many"),
        Err(ConfigError::InvalidInteger("MAX_READ_BYTES"))
    ));
    assert!(matches!(
        load_with("MCP_ALLOWED_HOSTS", " , "),
        Err(ConfigError::MissingAllowedHosts)
    ));
    assert!(matches!(
        load_with("OAUTH_ISSUER", "http://engram.example.test"),
        Err(ConfigError::InvalidOAuthIssuer)
    ));
    assert!(matches!(
        load_with("OAUTH_ISSUER", "https://engram.example.test/"),
        Err(ConfigError::InvalidOAuthIssuer)
    ));
    assert!(matches!(
        load_with("OAUTH_RESOURCE", "https://other.example.test/mcp"),
        Err(ConfigError::InvalidOAuthResource)
    ));
    assert!(matches!(
        load_with("OAUTH_OWNER_SECRET", "short"),
        Err(ConfigError::WeakSecret("OAUTH_OWNER_SECRET"))
    ));
    assert!(matches!(
        load_with("OAUTH_SIGNING_KEY", "short"),
        Err(ConfigError::WeakSecret("OAUTH_SIGNING_KEY"))
    ));
    assert!(matches!(
        load_with("OAUTH_STATE_DIR", "relative/state"),
        Err(ConfigError::InvalidOAuthStateDir)
    ));
    assert!(matches!(
        load_with("INBOX_ROOT", "relative/inbox"),
        Err(ConfigError::InvalidInboxRoot)
    ));
    assert!(matches!(
        ScopeDirectories::new(set(&["docs"]), set(&[])),
        Err(ConfigError::InvalidScopeDirectories("KB_PRIVATE_DIRS"))
    ));
}

#[test]
fn an_inbox_is_optional_and_has_defaults() {
    assert!(load(&values()).unwrap().inbox.is_none());
    let inbox = load_with("INBOX_ROOT", "/inbox").unwrap().inbox.unwrap();
    assert_eq!(inbox.root, "/inbox");
    assert_eq!(inbox.writes_per_hour, 10);
    assert_eq!(inbox.max_note_bytes, 32_768);
    assert_eq!(inbox.max_total_bytes, 8_388_608);
}

#[test]
fn configuration_errors_name_the_variable() {
    assert_eq!(
        ConfigError::Missing("KB_KEY_A").message(),
        "missing required environment variable: KB_KEY_A"
    );
    assert_eq!(
        ConfigError::Empty("KB_KEY_A").message(),
        "environment variable KB_KEY_A must not be empty"
    );
    assert_eq!(
        ConfigError::OutOfRange("MAX_READ_BYTES").message(),
        "MAX_READ_BYTES is outside its allowed range"
    );
    assert_eq!(
        ConfigError::InvalidOAuthIssuer.message(),
        "OAUTH_ISSUER must be an HTTPS origin without a trailing slash"
    );
}

#[test]
fn a_resource_lies_on_the_origin_of_its_issuer() {
    let config = |issuer: &str, resource: &str| OAuthConfig {
        issuer: issuer.into(),
        resource: resource.into(),
        owner_secret: "owner-secret-for-config-test".into(),
        signing_key: "signing-key-for-config-test-with-sufficient-length".into(),
        access_token_ttl_seconds: 60,
        authorization_code_ttl_seconds: 60,
        refresh_state_dir: "/state".into(),
        refresh_token_ttl_seconds: 60,
    };
    assert!(config("https://a.test", "https://a.test/mcp").validate().is_ok());
    // The default port is the same origin.
    assert!(config("https://a.test", "https://a.test:443/mcp").validate().is_ok());
    for resource in [
        "https://a.test:8443/mcp",
        "https://b.test/mcp",
        "http://a.test/mcp",
        "https://a.test/mcp#part",
    ] {
        assert_eq!(
            config("https://a.test", resource).validate(),
            Err(ConfigError::InvalidOAuthResource)
        );
    }
}

#[test]
fn an_issuer_of_another_scheme_is_refused_however_deep_it_is() {
    let config = |issuer: &str| OAuthConfig {
        issuer: issuer.into(),
        resource: "https://a.test/mcp".into(),
        owner_secret: "owner-secret-for-config-test".into(),
        signing_key: "signing-key-for-config-test-with-sufficient-length".into(),
        access_token_ttl_seconds: 60,
        authorization_code_ttl_seconds: 60,
        refresh_state_dir: "/state".into(),
        refresh_token_ttl_seconds: 60,
    };
    for issuer in ["blob:https://a.test", &"blob:".repeat(200_000)] {
        assert_eq!(config(issuer).validate(), Err(ConfigError::InvalidOAuthIssuer));
    }
}
