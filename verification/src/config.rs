//! The settings of the server, checked.
use vstd::prelude::*;

use crate::format::{parse_number, parsed_number};
use crate::order::TextSet;
use crate::scan::{is_blank, pieces, split_text, trim_text, trimmed};
use crate::text::{
    byte_len, chars_of, clone_text_option, joined, same_text, text_bytes_len, text_option, texts,
};
use crate::web::{https_origin, parse_url, url_of, url_origin};

verus! {

#[derive(Debug, Clone, Copy, PartialEq, Eq)]
pub enum ConfigError {
    Missing(&'static str),
    Empty(&'static str),
    InvalidKbRoot,
    DuplicateKeys,
    InvalidScopeDirectories(&'static str),
    OverlappingScopeDirectories,
    InvalidBindAddress,
    InvalidInteger(&'static str),
    OutOfRange(&'static str),
    MissingAllowedHosts,
    InvalidOAuthIssuer,
    InvalidOAuthResource,
    WeakSecret(&'static str),
    InvalidOAuthStateDir,
    InvalidInboxRoot,
}

/// What a configuration error says: which variable is wrong and how, never what
/// it holds.
pub open spec fn config_message(error: ConfigError) -> Seq<char> {
    match error {
        ConfigError::Missing(name) => "missing required environment variable: "@ + name@,
        ConfigError::Empty(name) => "environment variable "@ + name@ + " must not be empty"@,
        ConfigError::InvalidKbRoot => "KB_ROOT is not a readable directory"@,
        ConfigError::DuplicateKeys => "KB_KEY_A and KB_KEY_B must be different"@,
        ConfigError::InvalidScopeDirectories(name) => name@
            + " must contain one or more safe top-level directory names"@,
        ConfigError::OverlappingScopeDirectories => {
            "KB_PUBLIC_DIRS and KB_PRIVATE_DIRS must not overlap"@
        },
        ConfigError::InvalidBindAddress => "invalid socket address in MCP_BIND_ADDR"@,
        ConfigError::InvalidInteger(name) => "invalid integer in "@ + name@,
        ConfigError::OutOfRange(name) => name@ + " is outside its allowed range"@,
        ConfigError::MissingAllowedHosts => "MCP_ALLOWED_HOSTS must contain at least one host"@,
        ConfigError::InvalidOAuthIssuer => {
            "OAUTH_ISSUER must be an HTTPS origin without a trailing slash"@
        },
        ConfigError::InvalidOAuthResource => {
            "OAUTH_RESOURCE must be an HTTPS resource URI on the OAUTH_ISSUER origin"@
        },
        ConfigError::WeakSecret(name) => name@
            + " must be a high-entropy secret of sufficient length"@,
        ConfigError::InvalidOAuthStateDir => {
            "OAUTH_STATE_DIR must be an absolute writable directory path"@
        },
        ConfigError::InvalidInboxRoot => "INBOX_ROOT must be an absolute path"@,
    }
}

impl ConfigError {
    pub fn message(&self) -> (r: String)
        ensures
            r@ == config_message(*self),
    {
        match self {
            ConfigError::Missing(name) => joined("missing required environment variable: ", name),
            ConfigError::Empty(name) => joined(
                joined("environment variable ", name).as_str(),
                " must not be empty",
            ),
            ConfigError::InvalidKbRoot => "KB_ROOT is not a readable directory".to_owned(),
            ConfigError::DuplicateKeys => "KB_KEY_A and KB_KEY_B must be different".to_owned(),
            ConfigError::InvalidScopeDirectories(name) => joined(
                name,
                " must contain one or more safe top-level directory names",
            ),
            ConfigError::OverlappingScopeDirectories => {
                "KB_PUBLIC_DIRS and KB_PRIVATE_DIRS must not overlap".to_owned()
            },
            ConfigError::InvalidBindAddress => {
                "invalid socket address in MCP_BIND_ADDR".to_owned()
            },
            ConfigError::InvalidInteger(name) => joined("invalid integer in ", name),
            ConfigError::OutOfRange(name) => joined(name, " is outside its allowed range"),
            ConfigError::MissingAllowedHosts => {
                "MCP_ALLOWED_HOSTS must contain at least one host".to_owned()
            },
            ConfigError::InvalidOAuthIssuer => {
                "OAUTH_ISSUER must be an HTTPS origin without a trailing slash".to_owned()
            },
            ConfigError::InvalidOAuthResource => {
                "OAUTH_RESOURCE must be an HTTPS resource URI on the OAUTH_ISSUER origin".to_owned()
            },
            ConfigError::WeakSecret(name) => joined(
                name,
                " must be a high-entropy secret of sufficient length",
            ),
            ConfigError::InvalidOAuthStateDir => {
                "OAUTH_STATE_DIR must be an absolute writable directory path".to_owned()
            },
            ConfigError::InvalidInboxRoot => "INBOX_ROOT must be an absolute path".to_owned(),
        }
    }
}

pub struct OAuthConfig {
    /// Canonical HTTPS issuer, without a trailing slash.
    pub issuer: String,
    /// Canonical HTTPS URI of this MCP resource, normally ending in `/mcp`.
    pub resource: String,
    /// High-entropy secret entered by the resource owner in the local consent page.
    pub owner_secret: String,
    /// Server-only HMAC key for codes, tokens, signed client registrations, and audit IDs.
    pub signing_key: String,
    pub access_token_ttl_seconds: u64,
    pub authorization_code_ttl_seconds: u64,
    /// Writable, persistent directory for refresh-token rotation and revocation state.
    pub refresh_state_dir: String,
    pub refresh_token_ttl_seconds: u64,
}

/// Whether a path is absolute.
pub open spec fn is_absolute_path(path: Seq<char>) -> bool {
    path.len() > 0 && path[0] == '/'
}

pub fn absolute_path(path: &str) -> (r: bool)
    ensures
        r == is_absolute_path(path@),
{
    let chars = chars_of(path);
    chars.len() > 0 && chars[0] == '/'
}

/// Whether a text is an HTTPS origin without a trailing slash.
pub open spec fn is_issuer(text: Seq<char>) -> bool {
    url_of(text) matches Some(url) && {
        &&& url.scheme == "https"@
        &&& url.host is Some
        &&& url.path == "/"@
        &&& url.query is None
        &&& url.fragment is None
        &&& !(text.len() > 0 && text.last() == '/')
    }
}

/// Whether a text is an HTTPS URL, without query and fragment, on the origin of
/// the issuer.
pub open spec fn is_resource(text: Seq<char>, issuer: Seq<char>) -> bool {
    url_of(text) matches Some(url) && {
        &&& url.scheme == "https"@
        &&& url.host is Some
        &&& url.query is None
        &&& url.fragment is None
        &&& https_origin(text) == https_origin(issuer)
    }
}

/// What is wrong with the OAuth settings.
pub open spec fn oauth_config_error(config: OAuthConfig) -> Option<ConfigError> {
    if !is_issuer(config.issuer@) {
        Some(ConfigError::InvalidOAuthIssuer)
    } else if !is_resource(config.resource@, config.issuer@) {
        Some(ConfigError::InvalidOAuthResource)
    } else if byte_len(config.owner_secret@) < 20 {
        Some(ConfigError::WeakSecret("OAUTH_OWNER_SECRET"))
    } else if byte_len(config.signing_key@) < 32 {
        Some(ConfigError::WeakSecret("OAUTH_SIGNING_KEY"))
    } else if !is_absolute_path(config.refresh_state_dir@) {
        Some(ConfigError::InvalidOAuthStateDir)
    } else {
        None
    }
}

/// Whether two HTTPS URLs have the same origin.
fn have_same_origin(a: &str, b: &str) -> (r: bool)
    requires
        url_of(a@) matches Some(url) && url.scheme == "https"@,
        url_of(b@) matches Some(url) && url.scheme == "https"@,
    ensures
        r == (https_origin(a@) == https_origin(b@)),
{
    match (url_origin(a), url_origin(b)) {
        (Some((scheme, host, port)), Some((other_scheme, other_host, other_port))) => same_text(
            scheme.as_str(),
            other_scheme.as_str(),
        ) && same_text(host.as_str(), other_host.as_str()) && port == other_port,
        _ => false,
    }
}

impl OAuthConfig {
    pub fn validate(&self) -> (r: Result<(), ConfigError>)
        ensures
            match r {
                Ok(_) => oauth_config_error(*self) is None,
                Err(error) => oauth_config_error(*self) == Some(error),
            },
    {
        let issuer = match parse_url(self.issuer.as_str()) {
            Some(url) => url,
            None => {
                return Err(ConfigError::InvalidOAuthIssuer);
            },
        };
        let issuer_chars = chars_of(self.issuer.as_str());
        let slash = issuer_chars.len() > 0 && issuer_chars[issuer_chars.len() - 1] == '/';
        if !same_text(issuer.scheme.as_str(), "https") || issuer.host.is_none() || !same_text(
            issuer.path.as_str(),
            "/",
        ) || issuer.query.is_some() || issuer.fragment.is_some() || slash {
            return Err(ConfigError::InvalidOAuthIssuer);
        }
        let resource = match parse_url(self.resource.as_str()) {
            Some(url) => url,
            None => {
                return Err(ConfigError::InvalidOAuthResource);
            },
        };
        if !same_text(resource.scheme.as_str(), "https") || resource.host.is_none()
            || resource.query.is_some() || resource.fragment.is_some() || !have_same_origin(
            self.resource.as_str(),
            self.issuer.as_str(),
        ) {
            return Err(ConfigError::InvalidOAuthResource);
        }
        if text_bytes_len(self.owner_secret.as_str()) < 20 {
            return Err(ConfigError::WeakSecret("OAUTH_OWNER_SECRET"));
        }
        if text_bytes_len(self.signing_key.as_str()) < 32 {
            return Err(ConfigError::WeakSecret("OAUTH_SIGNING_KEY"));
        }
        if !absolute_path(self.refresh_state_dir.as_str()) {
            return Err(ConfigError::InvalidOAuthStateDir);
        }
        Ok(())
    }
}

pub const DEFAULT_BIND_ADDR: &'static str = "0.0.0.0:8080";

pub const DEFAULT_MAX_READ_BYTES: usize = 65_536;

pub const DEFAULT_MAX_SEARCH_RESPONSE_BYTES: usize = 24_576;

pub const DEFAULT_MAX_SEARCH_FILE_BYTES: usize = 1_048_576;

pub const DEFAULT_RATE_LIMIT_PER_MINUTE: u32 = 60;

pub const DEFAULT_RATE_LIMIT_BURST: u32 = 10;

pub const DEFAULT_OAUTH_ACCESS_TOKEN_TTL_SECONDS: u64 = 900;

pub const DEFAULT_OAUTH_AUTHORIZATION_CODE_TTL_SECONDS: u64 = 300;

pub const DEFAULT_OAUTH_REFRESH_TOKEN_TTL_SECONDS: u64 = 1_209_600;

pub const DEFAULT_KB_PUBLIC_DIRS: &'static str = "10_tech,20_projects";

pub const DEFAULT_KB_PRIVATE_DIRS: &'static str = "90_private";

pub const DEFAULT_INBOX_WRITES_PER_HOUR: u32 = 10;

pub const DEFAULT_INBOX_MAX_NOTE_BYTES: usize = 32_768;

pub const DEFAULT_INBOX_MAX_TOTAL_BYTES: u64 = 8_388_608;

/// Whether a text can name a top-level directory: visible, of at most 128 bytes,
/// and a single component on every system.
pub open spec fn is_safe_directory(name: Seq<char>) -> bool {
    &&& name.len() > 0
    &&& byte_len(name) <= 128
    &&& name[0] != '.'
    &&& forall|i: int|
        0 <= i < name.len() ==> (#[trigger] name[i]) != '/' && name[i] != '\\' && name[i] != '\0'
            && name[i] != ':'
}

pub fn is_safe_top_level_directory(value: &str) -> (r: bool)
    ensures
        r == is_safe_directory(value@),
{
    let chars = chars_of(value);
    if chars.is_empty() || text_bytes_len(value) > 128 || chars[0] == '.' {
        return false;
    }
    let mut i: usize = 0;
    while i < chars.len()
        invariant
            i <= chars@.len(),
            chars@ == value@,
            forall|j: int|
                0 <= j < i ==> (#[trigger] value@[j]) != '/' && value@[j] != '\\' && value@[j]
                    != '\0' && value@[j] != ':',
        decreases chars@.len() - i,
    {
        let c = chars[i];
        if c == '/' || c == '\\' || c == '\0' || c == ':' {
            proof {
                assert(value@[i as int] == c);
            }
            return false;
        }
        i = i + 1;
    }
    true
}

/// Whether a set of directories can be a scope: there is one, and each is safe.
pub open spec fn is_directory_set(directories: Set<Seq<char>>) -> bool {
    directories != Set::<Seq<char>>::empty() && forall|d: Seq<char>| #[trigger]
        directories.contains(d) ==> is_safe_directory(d)
}

fn are_directories(directories: &TextSet) -> (r: bool)
    ensures
        r == is_directory_set(directories@),
{
    if directories.is_empty() {
        return false;
    }
    let list = directories.items();
    let ghost all = texts(list@);
    let mut i: usize = 0;
    while i < list.len()
        invariant
            i <= list@.len(),
            all == texts(list@),
            all.to_set() == directories@,
            forall|j: int| 0 <= j < i ==> is_safe_directory(#[trigger] all[j]),
        decreases list@.len() - i,
    {
        proof {
            assert(all[i as int] == list@[i as int]@);
            assert(all.to_set().contains(all[i as int]));
        }
        if !is_safe_top_level_directory(list[i].as_str()) {
            return false;
        }
        i = i + 1;
    }
    proof {
        assert forall|d: Seq<char>| #[trigger] directories@.contains(d) implies is_safe_directory(
            d,
        ) by {
            assert(all.to_set().contains(d));
            let j = choose|j: int| 0 <= j < all.len() && all[j] == d;
            assert(is_safe_directory(all[j]));
        }
    }
    true
}

fn have_common_text(a: &TextSet, b: &TextSet) -> (r: bool)
    ensures
        r == !a@.disjoint(b@),
{
    let list = a.items();
    let ghost all = texts(list@);
    let mut i: usize = 0;
    while i < list.len()
        invariant
            i <= list@.len(),
            all == texts(list@),
            all.to_set() == a@,
            forall|j: int| 0 <= j < i ==> !b@.contains(#[trigger] all[j]),
        decreases list@.len() - i,
    {
        proof {
            assert(all[i as int] == list@[i as int]@);
            assert(all.to_set().contains(all[i as int]));
        }
        if b.contains(list[i].as_str()) {
            return true;
        }
        i = i + 1;
    }
    proof {
        assert forall|d: Seq<char>| a@.contains(d) implies !b@.contains(d) by {
            assert(all.to_set().contains(d));
            let j = choose|j: int| 0 <= j < all.len() && all[j] == d;
            assert(!b@.contains(all[j]));
        }
    }
    false
}

/// Top-level knowledge-base directories visible to each scope.
///
/// The private scope inherits every public directory and adds its own. The
/// top-level `INDEX.md` is visible to both.
pub struct ScopeDirectories {
    public: TextSet,
    private: TextSet,
}

/// The directories as sets.
pub struct DirectoriesModel {
    pub public: Set<Seq<char>>,
    pub private: Set<Seq<char>>,
}

impl View for ScopeDirectories {
    type V = DirectoriesModel;

    closed spec fn view(&self) -> DirectoriesModel {
        DirectoriesModel { public: self.public@, private: self.private@ }
    }
}

/// What is wrong with a choice of directories.
pub open spec fn directories_error(
    public: Set<Seq<char>>,
    private: Set<Seq<char>>,
) -> Option<ConfigError> {
    if !is_directory_set(public) {
        Some(ConfigError::InvalidScopeDirectories("KB_PUBLIC_DIRS"))
    } else if !is_directory_set(private) {
        Some(ConfigError::InvalidScopeDirectories("KB_PRIVATE_DIRS"))
    } else if !public.disjoint(private) {
        Some(ConfigError::OverlappingScopeDirectories)
    } else {
        None
    }
}

/// The public directories of the sample layout.
pub open spec fn default_public() -> Set<Seq<char>> {
    Set::<Seq<char>>::empty().insert("10_tech"@).insert("20_projects"@)
}

/// The private directories of the sample layout.
pub open spec fn default_private() -> Set<Seq<char>> {
    Set::<Seq<char>>::empty().insert("90_private"@)
}

impl ScopeDirectories {
    #[verifier::type_invariant]
    closed spec fn sound(&self) -> bool {
        directories_error(self.public@, self.private@) is None
    }

    pub fn new(public: TextSet, private: TextSet) -> (r: Result<ScopeDirectories, ConfigError>)
        ensures
            match r {
                Ok(directories) => directories_error(public@, private@) is None && directories@
                    == (DirectoriesModel { public: public@, private: private@ }),
                Err(error) => directories_error(public@, private@) == Some(error),
            },
    {
        if !are_directories(&public) {
            return Err(ConfigError::InvalidScopeDirectories("KB_PUBLIC_DIRS"));
        }
        if !are_directories(&private) {
            return Err(ConfigError::InvalidScopeDirectories("KB_PRIVATE_DIRS"));
        }
        if have_common_text(&public, &private) {
            return Err(ConfigError::OverlappingScopeDirectories);
        }
        Ok(ScopeDirectories { public, private })
    }

    pub fn allows_public(&self, directory: &str) -> (r: bool)
        ensures
            r == self@.public.contains(directory@),
            r ==> is_safe_directory(directory@) && !self@.private.contains(directory@),
    {
        proof {
            use_type_invariant(self);
        }
        self.public.contains(directory)
    }

    pub fn allows_private(&self, directory: &str) -> (r: bool)
        ensures
            r == self@.private.contains(directory@),
            r ==> is_safe_directory(directory@) && !self@.public.contains(directory@),
    {
        proof {
            use_type_invariant(self);
        }
        self.private.contains(directory)
    }

    /// The public directories in ascending order.
    pub fn public_directories(&self) -> (r: &Vec<String>)
        ensures
            texts(r@) == crate::order::ascending(self@.public),
            texts(r@).to_set() == self@.public,
    {
        self.public.items()
    }

    /// The private directories in ascending order.
    pub fn private_directories(&self) -> (r: &Vec<String>)
        ensures
            texts(r@) == crate::order::ascending(self@.private),
            texts(r@).to_set() == self@.private,
    {
        self.private.items()
    }

    pub fn copy(&self) -> (r: ScopeDirectories)
        ensures
            r@ == self@,
    {
        proof {
            use_type_invariant(self);
        }
        ScopeDirectories { public: self.public.copy(), private: self.private.copy() }
    }
}

proof fn lemma_short_names_are_safe(name: Seq<char>)
    requires
        0 < name.len() <= 32,
        forall|i: int|
            0 <= i < name.len() ==> crate::text::is_alphanumeric(#[trigger] name[i]) || name[i]
                == '_',
    ensures
        is_safe_directory(name),
{
    assert(vstd::utf8::is_ascii_chars(name)) by {
        assert forall|i: int| 0 <= i < name.len() implies name[i] as nat <= 127 by {
            assert(crate::text::is_alphanumeric(name[i]) || name[i] == '_');
        }
    }
    vstd::utf8::is_ascii_chars_encode_utf8(name);
}

impl Default for ScopeDirectories {
    fn default() -> (r: ScopeDirectories)
        ensures
            r@ == (DirectoriesModel { public: default_public(), private: default_private() }),
    {
        let public = TextSet::new().with("10_tech".to_owned()).with("20_projects".to_owned());
        let private = TextSet::new().with("90_private".to_owned());
        proof {
            reveal_strlit("10_tech");
            reveal_strlit("20_projects");
            reveal_strlit("90_private");
            lemma_short_names_are_safe("10_tech"@);
            lemma_short_names_are_safe("20_projects"@);
            lemma_short_names_are_safe("90_private"@);
            assert("10_tech"@.len() == 7);
            assert("20_projects"@.len() == 11);
            assert("90_private"@.len() == 10);
            assert(public@.contains("10_tech"@));
            assert(private@.contains("90_private"@));
        }
        ScopeDirectories { public, private }
    }
}

/// Where notes are appended, and how many and how large they may be.
pub struct InboxConfig {
    pub root: String,
    pub writes_per_hour: u32,
    pub max_note_bytes: usize,
    pub max_total_bytes: u64,
}

pub struct Config {
    pub kb_root: String,
    pub scope_directories: ScopeDirectories,
    pub key_a: String,
    pub key_b: String,
    pub bind_addr: String,
    pub allowed_hosts: TextSet,
    pub allowed_origins: TextSet,
    pub max_read_bytes: usize,
    pub max_search_response_bytes: usize,
    pub max_search_file_bytes: usize,
    pub rate_limit_per_minute: u32,
    pub rate_limit_burst: u32,
    pub oauth: OAuthConfig,
    pub inbox: Option<InboxConfig>,
}

/// The settings as they are found, each under the name of its variable.
pub struct RawSettings {
    pub kb_root: Option<String>,
    pub kb_public_dirs: Option<String>,
    pub kb_private_dirs: Option<String>,
    pub kb_key_a: Option<String>,
    pub kb_key_b: Option<String>,
    pub mcp_bind_addr: Option<String>,
    pub mcp_allowed_hosts: Option<String>,
    pub allowed_origins: Option<String>,
    pub max_read_bytes: Option<String>,
    pub max_search_response_bytes: Option<String>,
    pub max_search_file_bytes: Option<String>,
    pub rate_limit_per_minute: Option<String>,
    pub rate_limit_burst: Option<String>,
    pub oauth_issuer: Option<String>,
    pub oauth_resource: Option<String>,
    pub oauth_owner_secret: Option<String>,
    pub oauth_signing_key: Option<String>,
    pub oauth_access_token_ttl_seconds: Option<String>,
    pub oauth_authorization_code_ttl_seconds: Option<String>,
    pub oauth_state_dir: Option<String>,
    pub oauth_refresh_token_ttl_seconds: Option<String>,
    pub inbox_root: Option<String>,
    pub inbox_writes_per_hour: Option<String>,
    pub inbox_max_note_bytes: Option<String>,
    pub inbox_max_total_bytes: Option<String>,
}

/// A setting that says something.
pub open spec fn setting(raw: Option<String>) -> Option<Seq<char>> {
    match raw {
        Some(value) => if trimmed(value@).len() > 0 {
            Some(value@)
        } else {
            None
        },
        None => None,
    }
}

/// What is wrong with a setting that has to be there.
pub open spec fn required_error(key: &'static str, raw: Option<String>) -> Option<ConfigError> {
    match raw {
        None => Some(ConfigError::Missing(key)),
        Some(value) => if trimmed(value@).len() == 0 {
            Some(ConfigError::Empty(key))
        } else {
            None
        },
    }
}

fn required(raw: Option<String>, key: &'static str) -> (r: Result<String, ConfigError>)
    ensures
        match r {
            Ok(value) => required_error(key, raw) is None && raw == Some(value),
            Err(error) => required_error(key, raw) == Some(error),
        },
{
    match raw {
        Some(value) => if is_blank(value.as_str()) {
            Err(ConfigError::Empty(key))
        } else {
            Ok(value)
        },
        None => Err(ConfigError::Missing(key)),
    }
}

fn optional(raw: Option<String>) -> (r: Option<String>)
    ensures
        text_option(r) == setting(raw),
{
    match raw {
        Some(value) => if is_blank(value.as_str()) {
            None
        } else {
            Some(value)
        },
        None => None,
    }
}

/// The texts between commas, without the white space around them.
pub open spec fn listed(text: Seq<char>) -> Seq<Seq<char>> {
    pieces(text, ',').map_values(|s: Seq<char>| trimmed(s))
}

fn split_list(text: &str) -> (r: Vec<String>)
    ensures
        texts(r@) == listed(text@),
{
    let parts = split_text(text, ',');
    let ghost all = texts(parts@);
    let ghost trim = |s: Seq<char>| trimmed(s);
    let mut out: Vec<String> = Vec::new();
    let mut i: usize = 0;
    while i < parts.len()
        invariant
            i <= parts@.len(),
            all == texts(parts@),
            trim == (|s: Seq<char>| trimmed(s)),
            texts(out@) == all.map_values(trim).take(i as int),
        decreases parts@.len() - i,
    {
        let ghost before = texts(out@);
        let part = trim_text(parts[i].as_str());
        proof {
            assert(all[i as int] == parts@[i as int]@);
        }
        out.push(part);
        proof {
            assert(texts(out@) =~= before.push(part@));
            assert(all.map_values(trim).take(i + 1) =~= all.map_values(trim).take(i as int).push(
                all.map_values(trim)[i as int],
            ));
        }
        i = i + 1;
    }
    proof {
        assert(all.map_values(trim).take(all.len() as int) =~= all.map_values(trim));
    }
    out
}

/// The texts between commas that are not empty.
pub open spec fn listed_set(text: Seq<char>) -> Set<Seq<char>> {
    listed(text).to_set().filter(|s: Seq<char>| s.len() > 0)
}

fn parse_set(value: &str) -> (r: TextSet)
    ensures
        r@ == listed_set(value@),
{
    let list = split_list(value);
    let ghost all = texts(list@);
    let ghost full = |s: Seq<char>| s.len() > 0;
    let mut out = TextSet::new();
    let mut i: usize = 0;
    proof {
        assert(all.take(0).to_set().filter(full) =~= Set::<Seq<char>>::empty());
    }
    while i < list.len()
        invariant
            i <= list@.len(),
            all == texts(list@),
            full == (|s: Seq<char>| s.len() > 0),
            out@ == all.take(i as int).to_set().filter(full),
        decreases list@.len() - i,
    {
        proof {
            assert(all.take(i + 1) =~= all.take(i as int).push(all[i as int]));
            all.take(i as int).lemma_push_to_set_commute(all[i as int]);
            assert(all[i as int] == list@[i as int]@);
        }
        if !list[i].as_str().is_empty() {
            out = out.with(list[i].clone());
        }
        proof {
            assert(out@ =~= all.take(i + 1).to_set().filter(full));
        }
        i = i + 1;
    }
    proof {
        assert(all.take(all.len() as int) =~= all);
    }
    out
}

/// The text that lists directories, or the sample layout.
pub open spec fn directories_text(raw: Option<String>, default: Seq<char>) -> Seq<char> {
    match setting(raw) {
        Some(text) => text,
        None => default,
    }
}

/// Whether a text lists none but safe directories.
pub open spec fn lists_directories(text: Seq<char>) -> bool {
    forall|i: int| 0 <= i < listed(text).len() ==> is_safe_directory(#[trigger] listed(text)[i])
}

fn parse_directory_set(raw: Option<String>, key: &'static str, default: &str) -> (r: Result<
    TextSet,
    ConfigError,
>)
    ensures
        match r {
            Ok(set) => lists_directories(directories_text(raw, default@)) && set@ == listed(
                directories_text(raw, default@),
            ).to_set(),
            Err(error) => error == ConfigError::InvalidScopeDirectories(key) && !lists_directories(
                directories_text(raw, default@),
            ),
        },
{
    let text = match optional(raw) {
        Some(text) => text,
        None => default.to_owned(),
    };
    let list = split_list(text.as_str());
    let mut i: usize = 0;
    while i < list.len()
        invariant
            i <= list@.len(),
            texts(list@) == listed(text@),
            text@ == directories_text(raw, default@),
            forall|j: int| 0 <= j < i ==> is_safe_directory(#[trigger] listed(text@)[j]),
        decreases list@.len() - i,
    {
        proof {
            assert(listed(text@)[i as int] == list@[i as int]@);
        }
        if !is_safe_top_level_directory(list[i].as_str()) {
            return Err(ConfigError::InvalidScopeDirectories(key));
        }
        i = i + 1;
    }
    Ok(TextSet::from_texts(&list))
}

/// The number that a setting gives, or the default; nothing where it is no
/// number of its type.
pub open spec fn number_setting(raw: Option<String>, default: nat, type_max: nat) -> Option<nat> {
    match setting(raw) {
        Some(text) => parsed_number(text, type_max),
        None => Some(default),
    }
}

/// What is wrong with a setting that is a number.
pub open spec fn number_error(
    key: &'static str,
    raw: Option<String>,
    default: nat,
    type_max: nat,
    min: nat,
    max: nat,
) -> Option<ConfigError> {
    match number_setting(raw, default, type_max) {
        None => Some(ConfigError::InvalidInteger(key)),
        Some(n) => if min <= n <= max {
            None
        } else {
            Some(ConfigError::OutOfRange(key))
        },
    }
}

fn parse_u64(
    raw: Option<String>,
    key: &'static str,
    type_max: u64,
    default: u64,
    min: u64,
    max: u64,
) -> (r: Result<u64, ConfigError>)
    ensures
        match r {
            Ok(n) => number_error(
                key,
                raw,
                default as nat,
                type_max as nat,
                min as nat,
                max as nat,
            ) is None && number_setting(raw, default as nat, type_max as nat) == Some(n as nat),
            Err(error) => number_error(
                key,
                raw,
                default as nat,
                type_max as nat,
                min as nat,
                max as nat,
            ) == Some(error),
        },
{
    let value: u64 = match optional(raw) {
        Some(text) => match parse_number(text.as_str(), type_max) {
            Some(value) => value,
            None => {
                return Err(ConfigError::InvalidInteger(key));
            },
        },
        None => default,
    };
    if value < min || value > max {
        return Err(ConfigError::OutOfRange(key));
    }
    Ok(value)
}

fn parse_usize(
    raw: Option<String>,
    key: &'static str,
    default: usize,
    min: usize,
    max: usize,
) -> (r: Result<usize, ConfigError>)
    ensures
        match r {
            Ok(n) => number_error(
                key,
                raw,
                default as nat,
                usize::MAX as nat,
                min as nat,
                max as nat,
            ) is None && number_setting(raw, default as nat, usize::MAX as nat) == Some(n as nat),
            Err(error) => number_error(
                key,
                raw,
                default as nat,
                usize::MAX as nat,
                min as nat,
                max as nat,
            ) == Some(error),
        },
{
    let value: u64 = parse_u64(
        raw,
        key,
        usize::MAX as u64,
        default as u64,
        min as u64,
        max as u64,
    )?;
    Ok(value as usize)
}

fn parse_u32(
    raw: Option<String>,
    key: &'static str,
    default: u32,
    min: u32,
    max: u32,
) -> (r: Result<u32, ConfigError>)
    ensures
        match r {
            Ok(n) => number_error(
                key,
                raw,
                default as nat,
                u32::MAX as nat,
                min as nat,
                max as nat,
            ) is None && number_setting(raw, default as nat, u32::MAX as nat) == Some(n as nat),
            Err(error) => number_error(
                key,
                raw,
                default as nat,
                u32::MAX as nat,
                min as nat,
                max as nat,
            ) == Some(error),
        },
{
    let value: u64 = parse_u64(raw, key, u32::MAX as u64, default as u64, min as u64, max as u64)?;
    Ok(value as u32)
}

/// The number that `MAX_READ_BYTES` gives.
pub open spec fn max_read_setting(raw: RawSettings) -> nat {
    number_setting(
        raw.max_read_bytes,
        DEFAULT_MAX_READ_BYTES as nat,
        usize::MAX as nat,
    )->Some_0
}

/// The number that `RATE_LIMIT_PER_MINUTE` gives.
pub open spec fn rate_limit_setting(raw: RawSettings) -> nat {
    number_setting(
        raw.rate_limit_per_minute,
        DEFAULT_RATE_LIMIT_PER_MINUTE as nat,
        u32::MAX as nat,
    )->Some_0
}

/// The first thing that is wrong with the limits.
pub open spec fn limits_error(raw: RawSettings) -> Option<ConfigError> {
    let read = number_error(
        "MAX_READ_BYTES",
        raw.max_read_bytes,
        DEFAULT_MAX_READ_BYTES as nat,
        usize::MAX as nat,
        8_192,
        262_144,
    );
    let response = number_error(
        "MAX_SEARCH_RESPONSE_BYTES",
        raw.max_search_response_bytes,
        DEFAULT_MAX_SEARCH_RESPONSE_BYTES as nat,
        usize::MAX as nat,
        8_192,
        65_536,
    );
    let file = number_error(
        "MAX_SEARCH_FILE_BYTES",
        raw.max_search_file_bytes,
        DEFAULT_MAX_SEARCH_FILE_BYTES as nat,
        usize::MAX as nat,
        max_read_setting(raw),
        4_194_304,
    );
    let rate = number_error(
        "RATE_LIMIT_PER_MINUTE",
        raw.rate_limit_per_minute,
        DEFAULT_RATE_LIMIT_PER_MINUTE as nat,
        u32::MAX as nat,
        1,
        600,
    );
    let burst = number_error(
        "RATE_LIMIT_BURST",
        raw.rate_limit_burst,
        DEFAULT_RATE_LIMIT_BURST as nat,
        u32::MAX as nat,
        1,
        rate_limit_setting(raw),
    );
    if read is Some {
        read
    } else if response is Some {
        response
    } else if file is Some {
        file
    } else if rate is Some {
        rate
    } else {
        burst
    }
}

/// The first thing that is wrong with the OAuth settings, but for how they fit
/// together.
pub open spec fn oauth_settings_error(raw: RawSettings) -> Option<ConfigError> {
    let issuer = required_error("OAUTH_ISSUER", raw.oauth_issuer);
    let resource = required_error("OAUTH_RESOURCE", raw.oauth_resource);
    let owner_secret = required_error("OAUTH_OWNER_SECRET", raw.oauth_owner_secret);
    let signing_key = required_error("OAUTH_SIGNING_KEY", raw.oauth_signing_key);
    let access = number_error(
        "OAUTH_ACCESS_TOKEN_TTL_SECONDS",
        raw.oauth_access_token_ttl_seconds,
        DEFAULT_OAUTH_ACCESS_TOKEN_TTL_SECONDS as nat,
        u64::MAX as nat,
        60,
        3_600,
    );
    let code = number_error(
        "OAUTH_AUTHORIZATION_CODE_TTL_SECONDS",
        raw.oauth_authorization_code_ttl_seconds,
        DEFAULT_OAUTH_AUTHORIZATION_CODE_TTL_SECONDS as nat,
        u64::MAX as nat,
        60,
        600,
    );
    let state_dir = required_error("OAUTH_STATE_DIR", raw.oauth_state_dir);
    let refresh = number_error(
        "OAUTH_REFRESH_TOKEN_TTL_SECONDS",
        raw.oauth_refresh_token_ttl_seconds,
        DEFAULT_OAUTH_REFRESH_TOKEN_TTL_SECONDS as nat,
        u64::MAX as nat,
        60,
        2_592_000,
    );
    if issuer is Some {
        issuer
    } else if resource is Some {
        resource
    } else if owner_secret is Some {
        owner_secret
    } else if signing_key is Some {
        signing_key
    } else if access is Some {
        access
    } else if code is Some {
        code
    } else if state_dir is Some {
        state_dir
    } else {
        refresh
    }
}

/// Whether OAuth settings are those that were found.
pub open spec fn is_oauth_config(raw: RawSettings, config: OAuthConfig) -> bool {
    &&& text_option(raw.oauth_issuer) == Some(config.issuer@)
    &&& text_option(raw.oauth_resource) == Some(config.resource@)
    &&& text_option(raw.oauth_owner_secret) == Some(config.owner_secret@)
    &&& text_option(raw.oauth_signing_key) == Some(config.signing_key@)
    &&& text_option(raw.oauth_state_dir) == Some(config.refresh_state_dir@)
    &&& number_setting(
        raw.oauth_access_token_ttl_seconds,
        DEFAULT_OAUTH_ACCESS_TOKEN_TTL_SECONDS as nat,
        u64::MAX as nat,
    ) == Some(config.access_token_ttl_seconds as nat)
    &&& number_setting(
        raw.oauth_authorization_code_ttl_seconds,
        DEFAULT_OAUTH_AUTHORIZATION_CODE_TTL_SECONDS as nat,
        u64::MAX as nat,
    ) == Some(config.authorization_code_ttl_seconds as nat)
    &&& number_setting(
        raw.oauth_refresh_token_ttl_seconds,
        DEFAULT_OAUTH_REFRESH_TOKEN_TTL_SECONDS as nat,
        u64::MAX as nat,
    ) == Some(config.refresh_token_ttl_seconds as nat)
}

/// What is wrong with OAuth settings that were found: one of them, or how they
/// fit together.
pub open spec fn oauth_error(raw: RawSettings) -> Option<ConfigError> {
    if oauth_settings_error(raw) is Some {
        oauth_settings_error(raw)
    } else if !is_issuer(raw.oauth_issuer->Some_0@) {
        Some(ConfigError::InvalidOAuthIssuer)
    } else if !is_resource(raw.oauth_resource->Some_0@, raw.oauth_issuer->Some_0@) {
        Some(ConfigError::InvalidOAuthResource)
    } else if byte_len(raw.oauth_owner_secret->Some_0@) < 20 {
        Some(ConfigError::WeakSecret("OAUTH_OWNER_SECRET"))
    } else if byte_len(raw.oauth_signing_key->Some_0@) < 32 {
        Some(ConfigError::WeakSecret("OAUTH_SIGNING_KEY"))
    } else if !is_absolute_path(raw.oauth_state_dir->Some_0@) {
        Some(ConfigError::InvalidOAuthStateDir)
    } else {
        None
    }
}

fn oauth_from_values(raw: &RawSettings) -> (r: Result<OAuthConfig, ConfigError>)
    ensures
        match r {
            Ok(config) => oauth_error(*raw) is None && is_oauth_config(*raw, config),
            Err(error) => oauth_error(*raw) == Some(error),
        },
{
    let oauth = OAuthConfig {
        issuer: required(clone_text_option(&raw.oauth_issuer), "OAUTH_ISSUER")?,
        resource: required(clone_text_option(&raw.oauth_resource), "OAUTH_RESOURCE")?,
        owner_secret: required(clone_text_option(&raw.oauth_owner_secret), "OAUTH_OWNER_SECRET")?,
        signing_key: required(clone_text_option(&raw.oauth_signing_key), "OAUTH_SIGNING_KEY")?,
        access_token_ttl_seconds: parse_u64(
            clone_text_option(&raw.oauth_access_token_ttl_seconds),
            "OAUTH_ACCESS_TOKEN_TTL_SECONDS",
            u64::MAX,
            DEFAULT_OAUTH_ACCESS_TOKEN_TTL_SECONDS,
            60,
            3_600,
        )?,
        authorization_code_ttl_seconds: parse_u64(
            clone_text_option(&raw.oauth_authorization_code_ttl_seconds),
            "OAUTH_AUTHORIZATION_CODE_TTL_SECONDS",
            u64::MAX,
            DEFAULT_OAUTH_AUTHORIZATION_CODE_TTL_SECONDS,
            60,
            600,
        )?,
        refresh_state_dir: required(clone_text_option(&raw.oauth_state_dir), "OAUTH_STATE_DIR")?,
        refresh_token_ttl_seconds: parse_u64(
            clone_text_option(&raw.oauth_refresh_token_ttl_seconds),
            "OAUTH_REFRESH_TOKEN_TTL_SECONDS",
            u64::MAX,
            DEFAULT_OAUTH_REFRESH_TOKEN_TTL_SECONDS,
            60,
            2_592_000,
        )?,
    };
    oauth.validate()?;
    Ok(oauth)
}

/// What is wrong with the inbox settings. They count only where there is an
/// inbox.
pub open spec fn inbox_error(raw: RawSettings) -> Option<ConfigError> {
    match setting(raw.inbox_root) {
        None => None,
        Some(root) => {
            let writes = number_error(
                "INBOX_WRITES_PER_HOUR",
                raw.inbox_writes_per_hour,
                DEFAULT_INBOX_WRITES_PER_HOUR as nat,
                u32::MAX as nat,
                1,
                u32::MAX as nat,
            );
            let note = number_error(
                "INBOX_MAX_NOTE_BYTES",
                raw.inbox_max_note_bytes,
                DEFAULT_INBOX_MAX_NOTE_BYTES as nat,
                usize::MAX as nat,
                1,
                usize::MAX as nat,
            );
            let total = number_error(
                "INBOX_MAX_TOTAL_BYTES",
                raw.inbox_max_total_bytes,
                DEFAULT_INBOX_MAX_TOTAL_BYTES as nat,
                u64::MAX as nat,
                1,
                u64::MAX as nat,
            );
            if !is_absolute_path(root) {
                Some(ConfigError::InvalidInboxRoot)
            } else if writes is Some {
                writes
            } else if note is Some {
                note
            } else {
                total
            }
        },
    }
}

/// Whether the inbox is the one that was set.
pub open spec fn is_inbox_config(raw: RawSettings, inbox: Option<InboxConfig>) -> bool {
    match (setting(raw.inbox_root), inbox) {
        (None, None) => true,
        (Some(root), Some(config)) => {
            &&& config.root@ == root
            &&& number_setting(
                raw.inbox_writes_per_hour,
                DEFAULT_INBOX_WRITES_PER_HOUR as nat,
                u32::MAX as nat,
            ) == Some(config.writes_per_hour as nat)
            &&& number_setting(
                raw.inbox_max_note_bytes,
                DEFAULT_INBOX_MAX_NOTE_BYTES as nat,
                usize::MAX as nat,
            ) == Some(config.max_note_bytes as nat)
            &&& number_setting(
                raw.inbox_max_total_bytes,
                DEFAULT_INBOX_MAX_TOTAL_BYTES as nat,
                u64::MAX as nat,
            ) == Some(config.max_total_bytes as nat)
        },
        _ => false,
    }
}

fn inbox_from_values(raw: &RawSettings) -> (r: Result<Option<InboxConfig>, ConfigError>)
    ensures
        match r {
            Ok(inbox) => inbox_error(*raw) is None && is_inbox_config(*raw, inbox),
            Err(error) => inbox_error(*raw) == Some(error),
        },
{
    let root = match optional(clone_text_option(&raw.inbox_root)) {
        Some(root) => root,
        None => {
            return Ok(None);
        },
    };
    if !absolute_path(root.as_str()) {
        return Err(ConfigError::InvalidInboxRoot);
    }
    let writes_per_hour: u32 = parse_u32(
        clone_text_option(&raw.inbox_writes_per_hour),
        "INBOX_WRITES_PER_HOUR",
        DEFAULT_INBOX_WRITES_PER_HOUR,
        1,
        u32::MAX,
    )?;
    let max_note_bytes: usize = parse_usize(
        clone_text_option(&raw.inbox_max_note_bytes),
        "INBOX_MAX_NOTE_BYTES",
        DEFAULT_INBOX_MAX_NOTE_BYTES,
        1,
        usize::MAX,
    )?;
    let max_total_bytes: u64 = parse_u64(
        clone_text_option(&raw.inbox_max_total_bytes),
        "INBOX_MAX_TOTAL_BYTES",
        u64::MAX,
        DEFAULT_INBOX_MAX_TOTAL_BYTES,
        1,
        u64::MAX,
    )?;
    Ok(Some(InboxConfig { root, writes_per_hour, max_note_bytes, max_total_bytes }))
}

/// The text that lists the public directories.
pub open spec fn public_text(raw: RawSettings) -> Seq<char> {
    directories_text(raw.kb_public_dirs, DEFAULT_KB_PUBLIC_DIRS@)
}

/// The text that lists the private directories.
pub open spec fn private_text(raw: RawSettings) -> Seq<char> {
    directories_text(raw.kb_private_dirs, DEFAULT_KB_PRIVATE_DIRS@)
}

/// The address to listen on.
pub open spec fn address_setting(raw: RawSettings) -> Seq<char> {
    match setting(raw.mcp_bind_addr) {
        Some(text) => text,
        None => DEFAULT_BIND_ADDR@,
    }
}

/// The first thing that is wrong with the settings, given whether the knowledge
/// base is a directory and whether the address to listen on is one.
pub open spec fn settings_error(
    raw: RawSettings,
    root_is_directory: bool,
    address_is_valid: bool,
) -> Option<ConfigError> {
    let root = required_error("KB_ROOT", raw.kb_root);
    let key_a = required_error("KB_KEY_A", raw.kb_key_a);
    let key_b = required_error("KB_KEY_B", raw.kb_key_b);
    let hosts = required_error("MCP_ALLOWED_HOSTS", raw.mcp_allowed_hosts);
    let directories = directories_error(
        listed(public_text(raw)).to_set(),
        listed(private_text(raw)).to_set(),
    );
    if root is Some {
        root
    } else if !root_is_directory {
        Some(ConfigError::InvalidKbRoot)
    } else if !lists_directories(public_text(raw)) {
        Some(ConfigError::InvalidScopeDirectories("KB_PUBLIC_DIRS"))
    } else if !lists_directories(private_text(raw)) {
        Some(ConfigError::InvalidScopeDirectories("KB_PRIVATE_DIRS"))
    } else if directories is Some {
        directories
    } else if key_a is Some {
        key_a
    } else if key_b is Some {
        key_b
    } else if raw.kb_key_a->Some_0@ == raw.kb_key_b->Some_0@ {
        Some(ConfigError::DuplicateKeys)
    } else if !address_is_valid {
        Some(ConfigError::InvalidBindAddress)
    } else if hosts is Some {
        hosts
    } else if listed_set(raw.mcp_allowed_hosts->Some_0@) == Set::<Seq<char>>::empty() {
        Some(ConfigError::MissingAllowedHosts)
    } else if limits_error(raw) is Some {
        limits_error(raw)
    } else if oauth_error(raw) is Some {
        oauth_error(raw)
    } else {
        inbox_error(raw)
    }
}

/// Whether a configuration is the one that was set.
pub open spec fn is_config(raw: RawSettings, config: Config) -> bool {
    &&& text_option(raw.kb_root) == Some(config.kb_root@)
    &&& config.scope_directories@.public == listed(public_text(raw)).to_set()
    &&& config.scope_directories@.private == listed(private_text(raw)).to_set()
    &&& text_option(raw.kb_key_a) == Some(config.key_a@)
    &&& text_option(raw.kb_key_b) == Some(config.key_b@)
    &&& config.bind_addr@ == address_setting(raw)
    &&& config.allowed_hosts@ == listed_set(raw.mcp_allowed_hosts->Some_0@)
    &&& config.allowed_origins@ == (match setting(raw.allowed_origins) {
        Some(text) => listed_set(text),
        None => Set::empty(),
    })
    &&& config.max_read_bytes == max_read_setting(raw)
    &&& number_setting(
        raw.max_search_response_bytes,
        DEFAULT_MAX_SEARCH_RESPONSE_BYTES as nat,
        usize::MAX as nat,
    ) == Some(config.max_search_response_bytes as nat)
    &&& number_setting(
        raw.max_search_file_bytes,
        DEFAULT_MAX_SEARCH_FILE_BYTES as nat,
        usize::MAX as nat,
    ) == Some(config.max_search_file_bytes as nat)
    &&& config.rate_limit_per_minute == rate_limit_setting(raw)
    &&& number_setting(
        raw.rate_limit_burst,
        DEFAULT_RATE_LIMIT_BURST as nat,
        u32::MAX as nat,
    ) == Some(config.rate_limit_burst as nat)
    &&& is_oauth_config(raw, config.oauth)
    &&& is_inbox_config(raw, config.inbox)
}

/// A configuration that was accepted keeps to its limits, tells its two keys
/// apart, and its OAuth settings are valid.
pub proof fn lemma_accepted_settings(
    raw: RawSettings,
    root_is_directory: bool,
    address_is_valid: bool,
    config: Config,
)
    requires
        settings_error(raw, root_is_directory, address_is_valid) is None,
        is_config(raw, config),
    ensures
        config.key_a@ != config.key_b@,
        8_192 <= config.max_read_bytes <= 262_144,
        8_192 <= config.max_search_response_bytes <= 65_536,
        config.max_read_bytes <= config.max_search_file_bytes <= 4_194_304,
        1 <= config.rate_limit_burst <= config.rate_limit_per_minute <= 600,
        config.allowed_hosts@ != Set::<Seq<char>>::empty(),
        directories_error(config.scope_directories@.public, config.scope_directories@.private)
            is None,
        oauth_config_error(config.oauth) is None,
        60 <= config.oauth.access_token_ttl_seconds <= 3_600,
        60 <= config.oauth.authorization_code_ttl_seconds <= 600,
        60 <= config.oauth.refresh_token_ttl_seconds <= 2_592_000,
{
}

/// Whether raw settings are what a lookup gives, variable by variable.
pub open spec fn looked_up<F: Fn(&str) -> Option<String>>(lookup: F, raw: RawSettings) -> bool {
    &&& call_ensures(lookup, ("KB_ROOT",), raw.kb_root)
    &&& call_ensures(lookup, ("KB_PUBLIC_DIRS",), raw.kb_public_dirs)
    &&& call_ensures(lookup, ("KB_PRIVATE_DIRS",), raw.kb_private_dirs)
    &&& call_ensures(lookup, ("KB_KEY_A",), raw.kb_key_a)
    &&& call_ensures(lookup, ("KB_KEY_B",), raw.kb_key_b)
    &&& call_ensures(lookup, ("MCP_BIND_ADDR",), raw.mcp_bind_addr)
    &&& call_ensures(lookup, ("MCP_ALLOWED_HOSTS",), raw.mcp_allowed_hosts)
    &&& call_ensures(lookup, ("ALLOWED_ORIGINS",), raw.allowed_origins)
    &&& call_ensures(lookup, ("MAX_READ_BYTES",), raw.max_read_bytes)
    &&& call_ensures(lookup, ("MAX_SEARCH_RESPONSE_BYTES",), raw.max_search_response_bytes)
    &&& call_ensures(lookup, ("MAX_SEARCH_FILE_BYTES",), raw.max_search_file_bytes)
    &&& call_ensures(lookup, ("RATE_LIMIT_PER_MINUTE",), raw.rate_limit_per_minute)
    &&& call_ensures(lookup, ("RATE_LIMIT_BURST",), raw.rate_limit_burst)
    &&& call_ensures(lookup, ("OAUTH_ISSUER",), raw.oauth_issuer)
    &&& call_ensures(lookup, ("OAUTH_RESOURCE",), raw.oauth_resource)
    &&& call_ensures(lookup, ("OAUTH_OWNER_SECRET",), raw.oauth_owner_secret)
    &&& call_ensures(lookup, ("OAUTH_SIGNING_KEY",), raw.oauth_signing_key)
    &&& call_ensures(lookup, ("OAUTH_ACCESS_TOKEN_TTL_SECONDS",), raw.oauth_access_token_ttl_seconds)
    &&& call_ensures(lookup, ("OAUTH_AUTHORIZATION_CODE_TTL_SECONDS",), raw.oauth_authorization_code_ttl_seconds)
    &&& call_ensures(lookup, ("OAUTH_STATE_DIR",), raw.oauth_state_dir)
    &&& call_ensures(lookup, ("OAUTH_REFRESH_TOKEN_TTL_SECONDS",), raw.oauth_refresh_token_ttl_seconds)
    &&& call_ensures(lookup, ("INBOX_ROOT",), raw.inbox_root)
    &&& call_ensures(lookup, ("INBOX_WRITES_PER_HOUR",), raw.inbox_writes_per_hour)
    &&& call_ensures(lookup, ("INBOX_MAX_NOTE_BYTES",), raw.inbox_max_note_bytes)
    &&& call_ensures(lookup, ("INBOX_MAX_TOTAL_BYTES",), raw.inbox_max_total_bytes)
}

impl Config {
    /// The configuration that settings make, given whether the knowledge base is
    /// a directory and whether the address to listen on is one.
    pub fn from_values(
        raw: RawSettings,
        root_is_directory: bool,
        address_is_valid: bool,
    ) -> (r: Result<Config, ConfigError>)
        ensures
            match r {
                Ok(config) => settings_error(raw, root_is_directory, address_is_valid) is None
                    && is_config(raw, config),
                Err(error) => settings_error(raw, root_is_directory, address_is_valid) == Some(
                    error,
                ),
            },
    {
        let kb_root = required(clone_text_option(&raw.kb_root), "KB_ROOT")?;
        if !root_is_directory {
            return Err(ConfigError::InvalidKbRoot);
        }
        let public = parse_directory_set(
            clone_text_option(&raw.kb_public_dirs),
            "KB_PUBLIC_DIRS",
            DEFAULT_KB_PUBLIC_DIRS,
        )?;
        let private = parse_directory_set(
            clone_text_option(&raw.kb_private_dirs),
            "KB_PRIVATE_DIRS",
            DEFAULT_KB_PRIVATE_DIRS,
        )?;
        let scope_directories = ScopeDirectories::new(public, private)?;
        let key_a = required(clone_text_option(&raw.kb_key_a), "KB_KEY_A")?;
        let key_b = required(clone_text_option(&raw.kb_key_b), "KB_KEY_B")?;
        if same_text(key_a.as_str(), key_b.as_str()) {
            return Err(ConfigError::DuplicateKeys);
        }
        let bind_addr = match optional(clone_text_option(&raw.mcp_bind_addr)) {
            Some(text) => text,
            None => DEFAULT_BIND_ADDR.to_owned(),
        };
        if !address_is_valid {
            return Err(ConfigError::InvalidBindAddress);
        }
        let hosts = required(clone_text_option(&raw.mcp_allowed_hosts), "MCP_ALLOWED_HOSTS")?;
        let allowed_hosts = parse_set(hosts.as_str());
        if allowed_hosts.is_empty() {
            return Err(ConfigError::MissingAllowedHosts);
        }
        let allowed_origins = match optional(clone_text_option(&raw.allowed_origins)) {
            Some(text) => parse_set(text.as_str()),
            None => TextSet::new(),
        };
        let max_read_bytes: usize = parse_usize(
            clone_text_option(&raw.max_read_bytes),
            "MAX_READ_BYTES",
            DEFAULT_MAX_READ_BYTES,
            8_192,
            262_144,
        )?;
        let max_search_response_bytes: usize = parse_usize(
            clone_text_option(&raw.max_search_response_bytes),
            "MAX_SEARCH_RESPONSE_BYTES",
            DEFAULT_MAX_SEARCH_RESPONSE_BYTES,
            8_192,
            65_536,
        )?;
        let max_search_file_bytes: usize = parse_usize(
            clone_text_option(&raw.max_search_file_bytes),
            "MAX_SEARCH_FILE_BYTES",
            DEFAULT_MAX_SEARCH_FILE_BYTES,
            max_read_bytes,
            4_194_304,
        )?;
        let rate_limit_per_minute: u32 = parse_u32(
            clone_text_option(&raw.rate_limit_per_minute),
            "RATE_LIMIT_PER_MINUTE",
            DEFAULT_RATE_LIMIT_PER_MINUTE,
            1,
            600,
        )?;
        let rate_limit_burst: u32 = parse_u32(
            clone_text_option(&raw.rate_limit_burst),
            "RATE_LIMIT_BURST",
            DEFAULT_RATE_LIMIT_BURST,
            1,
            rate_limit_per_minute,
        )?;
        let oauth = oauth_from_values(&raw)?;
        let inbox = inbox_from_values(&raw)?;
        Ok(
            Config {
                kb_root,
                scope_directories,
                key_a,
                key_b,
                bind_addr,
                allowed_hosts,
                allowed_origins,
                max_read_bytes,
                max_search_response_bytes,
                max_search_file_bytes,
                rate_limit_per_minute,
                rate_limit_burst,
                oauth,
                inbox,
            },
        )
    }

    /// The configuration that a lookup of variables gives. `is_directory` tells
    /// whether a path leads to a directory, `is_socket_address` whether a text
    /// is an address to listen on.
    pub fn from_lookup<F, D, A>(lookup: F, is_directory: D, is_socket_address: A) -> (r: Result<
        Config,
        ConfigError,
    >) where F: Fn(&str) -> Option<String>, D: Fn(&str) -> bool, A: Fn(&str) -> bool
        requires
            forall|key: &str| call_requires(lookup, (key,)),
            forall|path: &str| call_requires(is_directory, (path,)),
            forall|text: &str| call_requires(is_socket_address, (text,)),
        ensures
            exists|raw: RawSettings, root_is_directory: bool, address_is_valid: bool|
                {
                    &&& looked_up(lookup, raw)
                    &&& match r {
                        Ok(config) => #[trigger] settings_error(
                            raw,
                            root_is_directory,
                            address_is_valid,
                        ) is None && is_config(raw, config),
                        Err(error) => settings_error(raw, root_is_directory, address_is_valid)
                            == Some(error),
                    }
                    &&& raw.kb_root matches Some(root) ==> exists|path: &str|
                        path@ == root@ && #[trigger] call_ensures(
                            is_directory,
                            (path,),
                            root_is_directory,
                        )
                    &&& exists|text: &str|
                        text@ == address_setting(raw) && #[trigger] call_ensures(
                            is_socket_address,
                            (text,),
                            address_is_valid,
                        )
                },
    {
        let raw = RawSettings {
            kb_root: lookup("KB_ROOT"),
            kb_public_dirs: lookup("KB_PUBLIC_DIRS"),
            kb_private_dirs: lookup("KB_PRIVATE_DIRS"),
            kb_key_a: lookup("KB_KEY_A"),
            kb_key_b: lookup("KB_KEY_B"),
            mcp_bind_addr: lookup("MCP_BIND_ADDR"),
            mcp_allowed_hosts: lookup("MCP_ALLOWED_HOSTS"),
            allowed_origins: lookup("ALLOWED_ORIGINS"),
            max_read_bytes: lookup("MAX_READ_BYTES"),
            max_search_response_bytes: lookup("MAX_SEARCH_RESPONSE_BYTES"),
            max_search_file_bytes: lookup("MAX_SEARCH_FILE_BYTES"),
            rate_limit_per_minute: lookup("RATE_LIMIT_PER_MINUTE"),
            rate_limit_burst: lookup("RATE_LIMIT_BURST"),
            oauth_issuer: lookup("OAUTH_ISSUER"),
            oauth_resource: lookup("OAUTH_RESOURCE"),
            oauth_owner_secret: lookup("OAUTH_OWNER_SECRET"),
            oauth_signing_key: lookup("OAUTH_SIGNING_KEY"),
            oauth_access_token_ttl_seconds: lookup("OAUTH_ACCESS_TOKEN_TTL_SECONDS"),
            oauth_authorization_code_ttl_seconds: lookup("OAUTH_AUTHORIZATION_CODE_TTL_SECONDS"),
            oauth_state_dir: lookup("OAUTH_STATE_DIR"),
            oauth_refresh_token_ttl_seconds: lookup("OAUTH_REFRESH_TOKEN_TTL_SECONDS"),
            inbox_root: lookup("INBOX_ROOT"),
            inbox_writes_per_hour: lookup("INBOX_WRITES_PER_HOUR"),
            inbox_max_note_bytes: lookup("INBOX_MAX_NOTE_BYTES"),
            inbox_max_total_bytes: lookup("INBOX_MAX_TOTAL_BYTES"),
        };
        let root_is_directory = match &raw.kb_root {
            Some(root) => is_directory(root.as_str()),
            None => false,
        };
        let bind_addr = match optional(clone_text_option(&raw.mcp_bind_addr)) {
            Some(text) => text,
            None => DEFAULT_BIND_ADDR.to_owned(),
        };
        let address_is_valid = is_socket_address(bind_addr.as_str());
        let ghost found = raw;
        let r = Config::from_values(raw, root_is_directory, address_is_valid);
        proof {
            assert(looked_up(lookup, found));
            let e = settings_error(found, root_is_directory, address_is_valid);
        }
        r
    }
}

} // verus!
