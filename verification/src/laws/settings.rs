//! How the environment sets the server up.
use vstd::prelude::*;
use vstd::utf8::encode_utf8;

use crate::config::{
    config_message, default_private, default_public, directories_error, inbox_error, is_config,
    is_directory_set, is_issuer, is_resource, is_safe_directory, limits_error, listed, listed_set,
    lists_directories, looked_up, max_read_setting, number_error, number_setting,
    oauth_config_error, oauth_error, oauth_settings_error, private_text, public_text,
    rate_limit_setting, setting, settings_error, Config, ConfigError, OAuthConfig, RawSettings,
};
use crate::format::parsed_number;
use crate::laws::texts::{lemma_joined_is_cut_again, lemma_trimmed};
use crate::oauth::OAuthError;
use crate::oauth::families::{FamilyModel, StateDirectory};
use crate::oauth::flows::{start, started, OAuthModel};
use crate::scan::{
    is_char, joined_by, lemma_pieces_not_empty, trimmed, trimmed_end_by, trimmed_start,
};
use crate::text::{is_white_space, text_option};
use crate::web::{https_origin, url_of, UrlModel};

verus! {

/// The value of a variable, where it is set.
pub open spec fn value_of(env: Map<Seq<char>, Seq<char>>, name: Seq<char>) -> Option<Seq<char>> {
    if env.dom().contains(name) {
        Some(env[name])
    } else {
        None
    }
}

/// Whether a lookup reads an environment.
pub open spec fn reads<F: Fn(&str) -> Option<String>>(
    lookup: F,
    env: Map<Seq<char>, Seq<char>>,
) -> bool {
    forall|name: &str, value: Option<String>| #[trigger]
        call_ensures(lookup, (name,), value) ==> text_option(value) == value_of(env, name@)
}

/// Whether a text is nothing but white space.
pub open spec fn all_white(text: Seq<char>) -> bool {
    forall|i: int| 0 <= i < text.len() ==> is_white_space(#[trigger] text[i])
}

proof fn lemma_trimmed_end_of_white_space(s: Seq<char>)
    ensures
        trimmed_end_by(s, |c: char| is_white_space(c)).len() == 0 <==> all_white(s),
    decreases s.len(),
{
    let f = |c: char| is_white_space(c);
    if s.len() > 0 {
        if f(s.last()) {
            lemma_trimmed_end_of_white_space(s.drop_last());
            if all_white(s.drop_last()) {
                assert forall|i: int| 0 <= i < s.len() implies is_white_space(#[trigger] s[i]) by {
                    if i < s.len() - 1 {
                        assert(is_white_space(s.drop_last()[i]));
                    }
                }
            }
            if all_white(s) {
                assert forall|i: int| 0 <= i < s.len() - 1 implies is_white_space(
                    #[trigger] s.drop_last()[i],
                ) by {
                    assert(is_white_space(s[i]));
                }
            }
        } else {
            assert(!is_white_space(s[s.len() - 1]));
        }
    }
}

proof fn lemma_trimmed_start_of_white_space(s: Seq<char>)
    ensures
        all_white(trimmed_start(s)) <==> all_white(s),
    decreases s.len(),
{
    if s.len() > 0 && is_white_space(s[0]) {
        lemma_trimmed_start_of_white_space(s.drop_first());
        if all_white(s.drop_first()) {
            assert forall|i: int| 0 <= i < s.len() implies is_white_space(#[trigger] s[i]) by {
                if i > 0 {
                    assert(is_white_space(s.drop_first()[i - 1]));
                }
            }
        }
        if all_white(s) {
            assert forall|i: int| 0 <= i < s.len() - 1 implies is_white_space(
                #[trigger] s.drop_first()[i],
            ) by {
                assert(is_white_space(s[i + 1]));
            }
        }
    }
}

/// A text has nothing left without the white space around it exactly where it is
/// nothing else.
pub proof fn lemma_blank(text: Seq<char>)
    ensures
        trimmed(text).len() == 0 <==> all_white(text),
{
    lemma_trimmed_start_of_white_space(text);
    lemma_trimmed_end_of_white_space(trimmed_start(text));
}

/// The number that a variable sets, of a type that goes up to `max`; the default
/// where it is not set or blank, and nothing where it is no such number.
pub open spec fn number_of(
    env: Map<Seq<char>, Seq<char>>,
    name: Seq<char>,
    default: nat,
    max: nat,
) -> Option<nat> {
    match value_of(env, name) {
        Some(text) => if all_white(text) {
            Some(default)
        } else {
            parsed_number(text, max)
        },
        None => Some(default),
    }
}

proof fn lemma_number(
    env: Map<Seq<char>, Seq<char>>,
    name: Seq<char>,
    raw: Option<String>,
    default: nat,
    max: nat,
)
    requires
        text_option(raw) == value_of(env, name),
    ensures
        number_setting(raw, default, max) == number_of(env, name, default, max),
{
    if raw is Some {
        lemma_blank(raw->Some_0@);
    }
}

proof fn lemma_text(env: Map<Seq<char>, Seq<char>>, name: Seq<char>, raw: Option<String>)
    requires
        text_option(raw) == value_of(env, name),
    ensures
        setting(raw) == text_of(env, name),
        raw is Some ==> (trimmed(raw->Some_0@).len() == 0 <==> all_white(raw->Some_0@)),
{
    if raw is Some {
        lemma_blank(raw->Some_0@);
    }
}

/// What a variable says, where it is set and not blank.
pub open spec fn text_of(env: Map<Seq<char>, Seq<char>>, name: Seq<char>) -> Option<Seq<char>> {
    match value_of(env, name) {
        Some(text) => if all_white(text) {
            None
        } else {
            Some(text)
        },
        None => None,
    }
}

/// A text, or another where there is none.
pub open spec fn text_or(text: Option<Seq<char>>, default: Seq<char>) -> Seq<char> {
    match text {
        Some(text) => text,
        None => default,
    }
}

/// Every setting comes from the variable of its name, and one that is not set is
/// what it is by default.
pub proof fn lemma_settings_come_from_their_variables<F: Fn(&str) -> Option<String>>(
    lookup: F,
    env: Map<Seq<char>, Seq<char>>,
    raw: RawSettings,
    root_is_directory: bool,
    address_is_valid: bool,
    config: Config,
)
    requires
        reads(lookup, env),
        looked_up(lookup, raw),
        settings_error(raw, root_is_directory, address_is_valid) is None,
        is_config(raw, config),
    ensures
        value_of(env, "KB_ROOT"@) == Some(config.kb_root@),
        value_of(env, "KB_KEY_A"@) == Some(config.key_a@),
        value_of(env, "KB_KEY_B"@) == Some(config.key_b@),
        config.scope_directories@.public == listed(
            text_or(text_of(env, "KB_PUBLIC_DIRS"@), "10_tech,20_projects"@),
        ).to_set(),
        config.scope_directories@.private == listed(
            text_or(text_of(env, "KB_PRIVATE_DIRS"@), "90_private"@),
        ).to_set(),
        config.bind_addr@ == text_or(text_of(env, "MCP_BIND_ADDR"@), "0.0.0.0:8080"@),
        forall|host: Seq<char>|
            config.allowed_hosts@.contains(host) <==> host.len() > 0 && listed(
                env["MCP_ALLOWED_HOSTS"@],
            ).contains(host),
        forall|origin: Seq<char>|
            config.allowed_origins@.contains(origin) <==> origin.len() > 0 && (text_of(
                env,
                "ALLOWED_ORIGINS"@,
            ) matches Some(text) && listed(text).contains(origin)),
        number_of(env, "MAX_READ_BYTES"@, 65_536, usize::MAX as nat) == Some(
            config.max_read_bytes as nat,
        ),
        number_of(env, "MAX_SEARCH_RESPONSE_BYTES"@, 24_576, usize::MAX as nat) == Some(
            config.max_search_response_bytes as nat,
        ),
        number_of(env, "MAX_SEARCH_FILE_BYTES"@, 1_048_576, usize::MAX as nat) == Some(
            config.max_search_file_bytes as nat,
        ),
        number_of(env, "RATE_LIMIT_PER_MINUTE"@, 60, u32::MAX as nat) == Some(
            config.rate_limit_per_minute as nat,
        ),
        number_of(env, "RATE_LIMIT_BURST"@, 10, u32::MAX as nat) == Some(
            config.rate_limit_burst as nat,
        ),
{
    lemma_text(env, "KB_PUBLIC_DIRS"@, raw.kb_public_dirs);
    lemma_text(env, "KB_PRIVATE_DIRS"@, raw.kb_private_dirs);
    lemma_text(env, "MCP_BIND_ADDR"@, raw.mcp_bind_addr);
    lemma_text(env, "ALLOWED_ORIGINS"@, raw.allowed_origins);
    lemma_number(env, "MAX_READ_BYTES"@, raw.max_read_bytes, 65_536, usize::MAX as nat);
    lemma_number(
        env,
        "MAX_SEARCH_RESPONSE_BYTES"@,
        raw.max_search_response_bytes,
        24_576,
        usize::MAX as nat,
    );
    lemma_number(
        env,
        "MAX_SEARCH_FILE_BYTES"@,
        raw.max_search_file_bytes,
        1_048_576,
        usize::MAX as nat,
    );
    lemma_number(env, "RATE_LIMIT_PER_MINUTE"@, raw.rate_limit_per_minute, 60, u32::MAX as nat);
    lemma_number(env, "RATE_LIMIT_BURST"@, raw.rate_limit_burst, 10, u32::MAX as nat);
    assert(text_option(raw.mcp_allowed_hosts) == value_of(env, "MCP_ALLOWED_HOSTS"@));
    assert(raw.mcp_allowed_hosts is Some);
    assert(text_option(raw.kb_root) == value_of(env, "KB_ROOT"@));
    assert(text_option(raw.kb_key_a) == value_of(env, "KB_KEY_A"@));
    assert(text_option(raw.kb_key_b) == value_of(env, "KB_KEY_B"@));
    assert forall|host: Seq<char>|
        config.allowed_hosts@.contains(host) <==> host.len() > 0 && listed(
            env["MCP_ALLOWED_HOSTS"@],
        ).contains(host) by {
        assert(listed(env["MCP_ALLOWED_HOSTS"@]).to_set().contains(host) <==> listed(
            env["MCP_ALLOWED_HOSTS"@],
        ).contains(host));
    }
    assert forall|origin: Seq<char>|
        config.allowed_origins@.contains(origin) <==> origin.len() > 0 && (text_of(
            env,
            "ALLOWED_ORIGINS"@,
        ) matches Some(text) && listed(text).contains(origin)) by {
        if let Some(text) = text_of(env, "ALLOWED_ORIGINS"@) {
            assert(listed(text).to_set().contains(origin) <==> listed(text).contains(origin));
        }
    }
}

/// The authorization server works with what its own variables say: tokens and codes
/// live as long as those set for them say, and so for the rest.
pub proof fn lemma_server_goes_by_its_settings<F: Fn(&str) -> Option<String>>(
    lookup: F,
    env: Map<Seq<char>, Seq<char>>,
    raw: RawSettings,
    config: Config,
    families: Map<Seq<char>, FamilyModel>,
)
    requires
        reads(lookup, env),
        looked_up(lookup, raw),
        is_config(raw, config),
    ensures
        ({
            let m = started(config.oauth, families);
            &&& value_of(env, "OAUTH_ISSUER"@) == Some(m.issuer)
            &&& value_of(env, "OAUTH_RESOURCE"@) == Some(m.resource)
            &&& value_of(env, "OAUTH_OWNER_SECRET"@) matches Some(secret) && m.owner_secret
                == encode_utf8(secret)
            &&& value_of(env, "OAUTH_SIGNING_KEY"@) matches Some(key) && m.key == encode_utf8(key)
            &&& number_of(env, "OAUTH_ACCESS_TOKEN_TTL_SECONDS"@, 900, u64::MAX as nat) == Some(
                m.access_ttl as nat,
            )
            &&& number_of(env, "OAUTH_AUTHORIZATION_CODE_TTL_SECONDS"@, 300, u64::MAX as nat)
                == Some(m.code_ttl as nat)
            &&& number_of(env, "OAUTH_REFRESH_TOKEN_TTL_SECONDS"@, 1_209_600, u64::MAX as nat)
                == Some(m.refresh_ttl as nat)
            &&& m.codes.dom() == Set::<Seq<u8>>::empty()
            &&& m.families == families
        }),
        value_of(env, "OAUTH_STATE_DIR"@) == Some(config.oauth.refresh_state_dir@),
{
    lemma_number(
        env,
        "OAUTH_ACCESS_TOKEN_TTL_SECONDS"@,
        raw.oauth_access_token_ttl_seconds,
        900,
        u64::MAX as nat,
    );
    lemma_number(
        env,
        "OAUTH_AUTHORIZATION_CODE_TTL_SECONDS"@,
        raw.oauth_authorization_code_ttl_seconds,
        300,
        u64::MAX as nat,
    );
    lemma_number(
        env,
        "OAUTH_REFRESH_TOKEN_TTL_SECONDS"@,
        raw.oauth_refresh_token_ttl_seconds,
        1_209_600,
        u64::MAX as nat,
    );
    assert(text_option(raw.oauth_issuer) == value_of(env, "OAUTH_ISSUER"@));
    assert(text_option(raw.oauth_resource) == value_of(env, "OAUTH_RESOURCE"@));
    assert(text_option(raw.oauth_owner_secret) == value_of(env, "OAUTH_OWNER_SECRET"@));
    assert(text_option(raw.oauth_signing_key) == value_of(env, "OAUTH_SIGNING_KEY"@));
    assert(text_option(raw.oauth_state_dir) == value_of(env, "OAUTH_STATE_DIR"@));
}

/// There is an inbox exactly where a directory for it is set, and it goes by what
/// the variables for it say.
pub proof fn lemma_inbox_goes_by_its_settings<F: Fn(&str) -> Option<String>>(
    lookup: F,
    env: Map<Seq<char>, Seq<char>>,
    raw: RawSettings,
    config: Config,
)
    requires
        reads(lookup, env),
        looked_up(lookup, raw),
        is_config(raw, config),
    ensures
        match config.inbox {
            Some(inbox) => {
                &&& text_of(env, "INBOX_ROOT"@) == Some(inbox.root@)
                &&& number_of(env, "INBOX_WRITES_PER_HOUR"@, 10, u32::MAX as nat) == Some(
                    inbox.writes_per_hour as nat,
                )
                &&& number_of(env, "INBOX_MAX_NOTE_BYTES"@, 32_768, usize::MAX as nat) == Some(
                    inbox.max_note_bytes as nat,
                )
                &&& number_of(env, "INBOX_MAX_TOTAL_BYTES"@, 8_388_608, u64::MAX as nat) == Some(
                    inbox.max_total_bytes as nat,
                )
            },
            None => text_of(env, "INBOX_ROOT"@) is None,
        },
{
    lemma_text(env, "INBOX_ROOT"@, raw.inbox_root);
    lemma_number(env, "INBOX_WRITES_PER_HOUR"@, raw.inbox_writes_per_hour, 10, u32::MAX as nat);
    lemma_number(env, "INBOX_MAX_NOTE_BYTES"@, raw.inbox_max_note_bytes, 32_768, usize::MAX as nat);
    lemma_number(
        env,
        "INBOX_MAX_TOTAL_BYTES"@,
        raw.inbox_max_total_bytes,
        8_388_608,
        u64::MAX as nat,
    );
}

/// Whether the number that a variable sets lies between two others.
pub open spec fn in_range(
    env: Map<Seq<char>, Seq<char>>,
    name: Seq<char>,
    default: nat,
    max: nat,
    least: nat,
    most: nat,
) -> bool {
    match number_of(env, name, default, max) {
        Some(n) => least <= n <= most,
        None => false,
    }
}

/// Whether the limits lie in their ranges.
pub open spec fn limits_in_range(env: Map<Seq<char>, Seq<char>>) -> bool {
    &&& in_range(env, "MAX_READ_BYTES"@, 65_536, usize::MAX as nat, 8_192, 262_144)
    &&& in_range(env, "MAX_SEARCH_RESPONSE_BYTES"@, 24_576, usize::MAX as nat, 8_192, 65_536)
    &&& in_range(env, "MAX_SEARCH_FILE_BYTES"@, 1_048_576, usize::MAX as nat, number_of(env, "MAX_READ_BYTES"@, 65_536, usize::MAX as nat)->Some_0, 4_194_304)
    &&& in_range(env, "RATE_LIMIT_PER_MINUTE"@, 60, u32::MAX as nat, 1, 600)
    &&& in_range(env, "RATE_LIMIT_BURST"@, 10, u32::MAX as nat, 1, number_of(env, "RATE_LIMIT_PER_MINUTE"@, 60, u32::MAX as nat)->Some_0)
}

/// Whether the lifetimes of tokens and codes lie in their ranges.
pub open spec fn lifetimes_in_range(env: Map<Seq<char>, Seq<char>>) -> bool {
    &&& in_range(env, "OAUTH_ACCESS_TOKEN_TTL_SECONDS"@, 900, u64::MAX as nat, 60, 3_600)
    &&& in_range(env, "OAUTH_AUTHORIZATION_CODE_TTL_SECONDS"@, 300, u64::MAX as nat, 60, 600)
    &&& in_range(env, "OAUTH_REFRESH_TOKEN_TTL_SECONDS"@, 1_209_600, u64::MAX as nat, 60, 2_592_000)
}

/// Whether the settings of the inbox can be taken up. They count only where there is
/// one.
pub open spec fn inbox_acceptable(env: Map<Seq<char>, Seq<char>>) -> bool {
    match text_of(env, "INBOX_ROOT"@) {
        Some(root) => {
            &&& root[0] == '/'
            &&& in_range(env, "INBOX_WRITES_PER_HOUR"@, 10, u32::MAX as nat, 1, u32::MAX as nat)
            &&& in_range(env, "INBOX_MAX_NOTE_BYTES"@, 32_768, usize::MAX as nat, 1, usize::MAX as nat)
            &&& in_range(env, "INBOX_MAX_TOTAL_BYTES"@, 8_388_608, u64::MAX as nat, 1, u64::MAX as nat)
        },
        None => true,
    }
}

/// Whether the settings that have to be there are.
pub open spec fn required_are_set(env: Map<Seq<char>, Seq<char>>) -> bool {
    &&& text_of(env, "KB_ROOT"@) is Some
    &&& text_of(env, "KB_KEY_A"@) is Some
    &&& text_of(env, "KB_KEY_B"@) is Some
    &&& text_of(env, "MCP_ALLOWED_HOSTS"@) is Some
    &&& text_of(env, "OAUTH_ISSUER"@) is Some
    &&& text_of(env, "OAUTH_RESOURCE"@) is Some
    &&& text_of(env, "OAUTH_OWNER_SECRET"@) is Some
    &&& text_of(env, "OAUTH_SIGNING_KEY"@) is Some
    &&& text_of(env, "OAUTH_STATE_DIR"@) is Some
}

/// Whether the directories that are set are safe ones, none of them both public and
/// private.
pub open spec fn directories_acceptable(env: Map<Seq<char>, Seq<char>>) -> bool {
    let public = listed(text_or(text_of(env, "KB_PUBLIC_DIRS"@), "10_tech,20_projects"@));
    let private = listed(text_or(text_of(env, "KB_PRIVATE_DIRS"@), "90_private"@));
    &&& forall|i: int| 0 <= i < public.len() ==> is_safe_directory(#[trigger] public[i])
    &&& forall|i: int| 0 <= i < private.len() ==> is_safe_directory(#[trigger] private[i])
    &&& forall|i: int, j: int|
        0 <= i < public.len() && 0 <= j < private.len() ==> #[trigger] public[i]
            != #[trigger] private[j]
}

/// Whether an environment is one that the server starts in.
pub open spec fn acceptable(
    env: Map<Seq<char>, Seq<char>>,
    root_is_directory: bool,
    address_is_valid: bool,
) -> bool {
    &&& required_are_set(env)
    &&& root_is_directory
    &&& address_is_valid
    &&& directories_acceptable(env)
    &&& env["KB_KEY_A"@] != env["KB_KEY_B"@]
    &&& exists|i: int|
        0 <= i < listed(env["MCP_ALLOWED_HOSTS"@]).len() && (#[trigger] listed(
            env["MCP_ALLOWED_HOSTS"@],
        )[i]).len() > 0
    &&& limits_in_range(env)
    &&& lifetimes_in_range(env)
    &&& is_issuer(env["OAUTH_ISSUER"@])
    &&& is_resource(env["OAUTH_RESOURCE"@], env["OAUTH_ISSUER"@])
    &&& encode_utf8(env["OAUTH_OWNER_SECRET"@]).len() >= 20
    &&& encode_utf8(env["OAUTH_SIGNING_KEY"@]).len() >= 32
    &&& env["OAUTH_STATE_DIR"@][0] == '/'
    &&& inbox_acceptable(env)
}

proof fn lemma_limits<F: Fn(&str) -> Option<String>>(
    lookup: F,
    env: Map<Seq<char>, Seq<char>>,
    raw: RawSettings,
)
    requires
        reads(lookup, env),
        looked_up(lookup, raw),
    ensures
        limits_error(raw) is None <==> limits_in_range(env),
{
    lemma_number(env, "MAX_READ_BYTES"@, raw.max_read_bytes, 65_536, usize::MAX as nat);
    lemma_number(env, "MAX_SEARCH_RESPONSE_BYTES"@, raw.max_search_response_bytes, 24_576, usize::MAX as nat);
    lemma_number(env, "MAX_SEARCH_FILE_BYTES"@, raw.max_search_file_bytes, 1_048_576, usize::MAX as nat);
    lemma_number(env, "RATE_LIMIT_PER_MINUTE"@, raw.rate_limit_per_minute, 60, u32::MAX as nat);
    lemma_number(env, "RATE_LIMIT_BURST"@, raw.rate_limit_burst, 10, u32::MAX as nat);
}

proof fn lemma_lifetimes<F: Fn(&str) -> Option<String>>(
    lookup: F,
    env: Map<Seq<char>, Seq<char>>,
    raw: RawSettings,
)
    requires
        reads(lookup, env),
        looked_up(lookup, raw),
    ensures
        oauth_settings_error(raw) is None <==> (lifetimes_in_range(env) && text_of(
            env,
            "OAUTH_ISSUER"@,
        ) is Some && text_of(env, "OAUTH_RESOURCE"@) is Some && text_of(env, "OAUTH_OWNER_SECRET"@)
            is Some && text_of(env, "OAUTH_SIGNING_KEY"@) is Some && text_of(
            env,
            "OAUTH_STATE_DIR"@,
        ) is Some),
{
    lemma_number(env, "OAUTH_ACCESS_TOKEN_TTL_SECONDS"@, raw.oauth_access_token_ttl_seconds, 900, u64::MAX as nat);
    lemma_number(env, "OAUTH_AUTHORIZATION_CODE_TTL_SECONDS"@, raw.oauth_authorization_code_ttl_seconds, 300, u64::MAX as nat);
    lemma_number(env, "OAUTH_REFRESH_TOKEN_TTL_SECONDS"@, raw.oauth_refresh_token_ttl_seconds, 1_209_600, u64::MAX as nat);
    lemma_text(env, "OAUTH_ISSUER"@, raw.oauth_issuer);
    lemma_text(env, "OAUTH_RESOURCE"@, raw.oauth_resource);
    lemma_text(env, "OAUTH_OWNER_SECRET"@, raw.oauth_owner_secret);
    lemma_text(env, "OAUTH_SIGNING_KEY"@, raw.oauth_signing_key);
    lemma_text(env, "OAUTH_STATE_DIR"@, raw.oauth_state_dir);
}

proof fn lemma_inbox<F: Fn(&str) -> Option<String>>(
    lookup: F,
    env: Map<Seq<char>, Seq<char>>,
    raw: RawSettings,
)
    requires
        reads(lookup, env),
        looked_up(lookup, raw),
    ensures
        inbox_error(raw) is None <==> inbox_acceptable(env),
{
    lemma_text(env, "INBOX_ROOT"@, raw.inbox_root);
    lemma_number(env, "INBOX_WRITES_PER_HOUR"@, raw.inbox_writes_per_hour, 10, u32::MAX as nat);
    lemma_number(env, "INBOX_MAX_NOTE_BYTES"@, raw.inbox_max_note_bytes, 32_768, usize::MAX as nat);
    lemma_number(env, "INBOX_MAX_TOTAL_BYTES"@, raw.inbox_max_total_bytes, 8_388_608, u64::MAX as nat);
    if let Some(root) = text_of(env, "INBOX_ROOT"@) {
        assert(root.len() > 0) by {
            if root.len() == 0 {
                assert(all_white(root));
            }
        }
    }
}

proof fn lemma_directories(public: Seq<Seq<char>>, private: Seq<Seq<char>>)
    requires
        forall|i: int| 0 <= i < public.len() ==> is_safe_directory(#[trigger] public[i]),
        forall|i: int| 0 <= i < private.len() ==> is_safe_directory(#[trigger] private[i]),
        public.len() > 0,
        private.len() > 0,
    ensures
        directories_error(public.to_set(), private.to_set()) is None <==> forall|i: int, j: int|
            0 <= i < public.len() && 0 <= j < private.len() ==> #[trigger] public[i]
                != #[trigger] private[j],
{
    assert(public.to_set().contains(public[0]));
    assert(private.to_set().contains(private[0]));
    assert(is_directory_set(public.to_set()));
    assert(is_directory_set(private.to_set()));
    let apart = forall|i: int, j: int|
        0 <= i < public.len() && 0 <= j < private.len() ==> #[trigger] public[i]
            != #[trigger] private[j];
    if apart {
        assert forall|d: Seq<char>| public.to_set().contains(d) implies !private.to_set().contains(
            d,
        ) by {
            if private.to_set().contains(d) {
                let i = choose|i: int| 0 <= i < public.len() && public[i] == d;
                let j = choose|j: int| 0 <= j < private.len() && private[j] == d;
                assert(public[i] != private[j]);
            }
        }
        assert(public.to_set().disjoint(private.to_set()));
    }
    if public.to_set().disjoint(private.to_set()) {
        assert forall|i: int, j: int|
            0 <= i < public.len() && 0 <= j < private.len() implies #[trigger] public[i]
            != #[trigger] private[j] by {
            assert(public.to_set().contains(public[i]));
            assert(private.to_set().contains(private[j]));
        }
    }
}

/// The server starts exactly in an environment in which what has to be set is, and
/// every setting is in its range.
pub proof fn lemma_when_the_server_starts<F: Fn(&str) -> Option<String>>(
    lookup: F,
    env: Map<Seq<char>, Seq<char>>,
    raw: RawSettings,
    root_is_directory: bool,
    address_is_valid: bool,
)
    requires
        reads(lookup, env),
        looked_up(lookup, raw),
    ensures
        settings_error(raw, root_is_directory, address_is_valid) is None <==> acceptable(
            env,
            root_is_directory,
            address_is_valid,
        ),
{
    lemma_limits(lookup, env, raw);
    lemma_lifetimes(lookup, env, raw);
    lemma_inbox(lookup, env, raw);
    lemma_text(env, "KB_PUBLIC_DIRS"@, raw.kb_public_dirs);
    lemma_text(env, "KB_PRIVATE_DIRS"@, raw.kb_private_dirs);
    lemma_text(env, "KB_ROOT"@, raw.kb_root);
    lemma_text(env, "KB_KEY_A"@, raw.kb_key_a);
    lemma_text(env, "KB_KEY_B"@, raw.kb_key_b);
    lemma_text(env, "MCP_ALLOWED_HOSTS"@, raw.mcp_allowed_hosts);
    lemma_text(env, "OAUTH_ISSUER"@, raw.oauth_issuer);
    lemma_text(env, "OAUTH_RESOURCE"@, raw.oauth_resource);
    lemma_text(env, "OAUTH_OWNER_SECRET"@, raw.oauth_owner_secret);
    lemma_text(env, "OAUTH_SIGNING_KEY"@, raw.oauth_signing_key);
    lemma_text(env, "OAUTH_STATE_DIR"@, raw.oauth_state_dir);
    let public = listed(public_text(raw));
    let private = listed(private_text(raw));
    lemma_pieces_not_empty(public_text(raw), is_char(','));
    lemma_pieces_not_empty(private_text(raw), is_char(','));
    if lists_directories(public_text(raw)) && lists_directories(private_text(raw)) {
        lemma_directories(public, private);
    }
    if raw.mcp_allowed_hosts is Some {
        let hosts = listed(raw.mcp_allowed_hosts->Some_0@);
        let found = listed_set(raw.mcp_allowed_hosts->Some_0@);
        if found != Set::<Seq<char>>::empty() {
            let host = choose|host: Seq<char>| found.contains(host);
            assert(found.contains(host)) by {
                if forall|h: Seq<char>| !found.contains(h) {
                    assert(found =~= Set::<Seq<char>>::empty());
                }
            }
            assert(hosts.contains(host));
            let i = choose|i: int| 0 <= i < hosts.len() && hosts[i] == host;
            assert(hosts[i].len() > 0);
        }
        if exists|i: int| 0 <= i < hosts.len() && (#[trigger] hosts[i]).len() > 0 {
            let i = choose|i: int| 0 <= i < hosts.len() && (#[trigger] hosts[i]).len() > 0;
            assert(hosts.to_set().contains(hosts[i]));
            assert(found.contains(hosts[i]));
        }
    }
    if let Some(dir) = text_of(env, "OAUTH_STATE_DIR"@) {
        assert(dir.len() > 0) by {
            if dir.len() == 0 {
                assert(all_white(dir));
            }
        }
    }
}

/// Whether the number that a variable sets is out of its range.
pub open spec fn out_of_range(env: Map<Seq<char>, Seq<char>>, name: Seq<char>) -> bool {
    ||| name == "MAX_READ_BYTES"@ && !in_range(env, "MAX_READ_BYTES"@, 65_536, usize::MAX as nat, 8_192, 262_144)
    ||| name == "MAX_SEARCH_RESPONSE_BYTES"@ && !in_range(env, "MAX_SEARCH_RESPONSE_BYTES"@, 24_576, usize::MAX as nat, 8_192, 65_536)
    ||| name == "MAX_SEARCH_FILE_BYTES"@ && !in_range(env, "MAX_SEARCH_FILE_BYTES"@, 1_048_576, usize::MAX as nat, number_of(env, "MAX_READ_BYTES"@, 65_536, usize::MAX as nat)->Some_0, 4_194_304)
    ||| name == "RATE_LIMIT_PER_MINUTE"@ && !in_range(env, "RATE_LIMIT_PER_MINUTE"@, 60, u32::MAX as nat, 1, 600)
    ||| name == "RATE_LIMIT_BURST"@ && !in_range(env, "RATE_LIMIT_BURST"@, 10, u32::MAX as nat, 1, number_of(env, "RATE_LIMIT_PER_MINUTE"@, 60, u32::MAX as nat)->Some_0)
    ||| name == "OAUTH_ACCESS_TOKEN_TTL_SECONDS"@ && !in_range(env, "OAUTH_ACCESS_TOKEN_TTL_SECONDS"@, 900, u64::MAX as nat, 60, 3_600)
    ||| name == "OAUTH_AUTHORIZATION_CODE_TTL_SECONDS"@ && !in_range(env, "OAUTH_AUTHORIZATION_CODE_TTL_SECONDS"@, 300, u64::MAX as nat, 60, 600)
    ||| name == "OAUTH_REFRESH_TOKEN_TTL_SECONDS"@ && !in_range(env, "OAUTH_REFRESH_TOKEN_TTL_SECONDS"@, 1_209_600, u64::MAX as nat, 60, 2_592_000)
    ||| name == "INBOX_WRITES_PER_HOUR"@ && !in_range(env, "INBOX_WRITES_PER_HOUR"@, 10, u32::MAX as nat, 1, u32::MAX as nat)
    ||| name == "INBOX_MAX_NOTE_BYTES"@ && !in_range(env, "INBOX_MAX_NOTE_BYTES"@, 32_768, usize::MAX as nat, 1, usize::MAX as nat)
    ||| name == "INBOX_MAX_TOTAL_BYTES"@ && !in_range(env, "INBOX_MAX_TOTAL_BYTES"@, 8_388_608, u64::MAX as nat, 1, u64::MAX as nat)
}

/// Whether a directory that is listed is not a safe one.
pub open spec fn lists_unsafe(directories: Seq<Seq<char>>) -> bool {
    exists|i: int| 0 <= i < directories.len() && !is_safe_directory(#[trigger] directories[i])
}

/// Whether a directory stands in both of two lists.
pub open spec fn overlap(public: Seq<Seq<char>>, private: Seq<Seq<char>>) -> bool {
    exists|i: int, j: int|
        0 <= i < public.len() && 0 <= j < private.len() && #[trigger] public[i]
            == #[trigger] private[j]
}

/// Whether what an error says of the environment is so. One that names a variable
/// names the one that is wrong.
pub open spec fn is_so(
    env: Map<Seq<char>, Seq<char>>,
    root_is_directory: bool,
    address_is_valid: bool,
    error: ConfigError,
) -> bool {
    match error {
        ConfigError::Missing(name) => value_of(env, name@) is None,
        ConfigError::Empty(name) => value_of(env, name@) matches Some(text) && all_white(text),
        ConfigError::InvalidInteger(name) => text_of(env, name@) matches Some(text)
            && parsed_number(text, u32::MAX as nat) is None,
        ConfigError::OutOfRange(name) => out_of_range(env, name@),
        ConfigError::InvalidKbRoot => !root_is_directory,
        ConfigError::InvalidBindAddress => !address_is_valid,
        ConfigError::DuplicateKeys => env["KB_KEY_A"@] == env["KB_KEY_B"@],
        ConfigError::WeakSecret(name) => {
            ||| name@ == "OAUTH_OWNER_SECRET"@ && encode_utf8(env[name@]).len() < 20
            ||| name@ == "OAUTH_SIGNING_KEY"@ && encode_utf8(env[name@]).len() < 32
        },
        ConfigError::InvalidOAuthIssuer => !is_issuer(env["OAUTH_ISSUER"@]),
        ConfigError::InvalidOAuthResource => !is_resource(
            env["OAUTH_RESOURCE"@],
            env["OAUTH_ISSUER"@],
        ),
        ConfigError::InvalidOAuthStateDir => env["OAUTH_STATE_DIR"@][0] != '/',
        ConfigError::InvalidInboxRoot => text_of(env, "INBOX_ROOT"@) matches Some(root) && root[0]
            != '/',
        ConfigError::MissingAllowedHosts => forall|i: int|
            0 <= i < listed(env["MCP_ALLOWED_HOSTS"@]).len() ==> (#[trigger] listed(
                env["MCP_ALLOWED_HOSTS"@],
            )[i]).len() == 0,
        ConfigError::InvalidScopeDirectories(name) => {
            let default = if name@ == "KB_PUBLIC_DIRS"@ {
                "10_tech,20_projects"@
            } else {
                "90_private"@
            };
            &&& name@ == "KB_PUBLIC_DIRS"@ || name@ == "KB_PRIVATE_DIRS"@
            &&& lists_unsafe(listed(text_or(text_of(env, name@), default)))
        },
        ConfigError::OverlappingScopeDirectories => {
            let public = listed(text_or(text_of(env, "KB_PUBLIC_DIRS"@), "10_tech,20_projects"@));
            let private = listed(text_or(text_of(env, "KB_PRIVATE_DIRS"@), "90_private"@));
            overlap(public, private)
        },
    }
}

proof fn lemma_no_number(text: Seq<char>, max: nat)
    requires
        parsed_number(text, max) is None,
        u32::MAX as nat <= max,
    ensures
        parsed_number(text, u32::MAX as nat) is None,
{
}

proof fn lemma_number_error(
    env: Map<Seq<char>, Seq<char>>,
    name: &'static str,
    raw: Option<String>,
    default: nat,
    max: nat,
    least: nat,
    most: nat,
)
    requires
        text_option(raw) == value_of(env, name@),
        u32::MAX as nat <= max,
    ensures
        number_error(name, raw, default, max, least, most) matches Some(error) ==> {
            ||| error == ConfigError::InvalidInteger(name) && (text_of(env, name@) matches Some(
                text,
            ) && parsed_number(text, u32::MAX as nat) is None)
            ||| error == ConfigError::OutOfRange(name) && !in_range(
                env,
                name@,
                default,
                max,
                least,
                most,
            )
        },
{
    lemma_number(env, name@, raw, default, max);
    if number_setting(raw, default, max) is None {
        lemma_no_number(text_of(env, name@)->Some_0, max);
    }
}

proof fn lemma_limits_error<F: Fn(&str) -> Option<String>>(
    lookup: F,
    env: Map<Seq<char>, Seq<char>>,
    raw: RawSettings,
    root_is_directory: bool,
    address_is_valid: bool,
)
    requires
        reads(lookup, env),
        looked_up(lookup, raw),
    ensures
        limits_error(raw) matches Some(error) ==> is_so(
            env,
            root_is_directory,
            address_is_valid,
            error,
        ),
{
    lemma_number(env, "MAX_READ_BYTES"@, raw.max_read_bytes, 65_536, usize::MAX as nat);
    lemma_number_error(env, "MAX_READ_BYTES", raw.max_read_bytes, 65_536, usize::MAX as nat, 8_192, 262_144);
    lemma_number(env, "MAX_SEARCH_RESPONSE_BYTES"@, raw.max_search_response_bytes, 24_576, usize::MAX as nat);
    lemma_number_error(env, "MAX_SEARCH_RESPONSE_BYTES", raw.max_search_response_bytes, 24_576, usize::MAX as nat, 8_192, 65_536);
    lemma_number(env, "MAX_SEARCH_FILE_BYTES"@, raw.max_search_file_bytes, 1_048_576, usize::MAX as nat);
    lemma_number_error(env, "MAX_SEARCH_FILE_BYTES", raw.max_search_file_bytes, 1_048_576, usize::MAX as nat, max_read_setting(raw), 4_194_304);
    lemma_number(env, "RATE_LIMIT_PER_MINUTE"@, raw.rate_limit_per_minute, 60, u32::MAX as nat);
    lemma_number_error(env, "RATE_LIMIT_PER_MINUTE", raw.rate_limit_per_minute, 60, u32::MAX as nat, 1, 600);
    lemma_number(env, "RATE_LIMIT_BURST"@, raw.rate_limit_burst, 10, u32::MAX as nat);
    lemma_number_error(env, "RATE_LIMIT_BURST", raw.rate_limit_burst, 10, u32::MAX as nat, 1, rate_limit_setting(raw));
}

proof fn lemma_oauth_settings_error<F: Fn(&str) -> Option<String>>(
    lookup: F,
    env: Map<Seq<char>, Seq<char>>,
    raw: RawSettings,
    root_is_directory: bool,
    address_is_valid: bool,
)
    requires
        reads(lookup, env),
        looked_up(lookup, raw),
    ensures
        oauth_settings_error(raw) matches Some(error) ==> is_so(
            env,
            root_is_directory,
            address_is_valid,
            error,
        ),
{
    lemma_text(env, "OAUTH_ISSUER"@, raw.oauth_issuer);
    lemma_text(env, "OAUTH_RESOURCE"@, raw.oauth_resource);
    lemma_text(env, "OAUTH_OWNER_SECRET"@, raw.oauth_owner_secret);
    lemma_text(env, "OAUTH_SIGNING_KEY"@, raw.oauth_signing_key);
    lemma_text(env, "OAUTH_STATE_DIR"@, raw.oauth_state_dir);
    lemma_number(env, "OAUTH_ACCESS_TOKEN_TTL_SECONDS"@, raw.oauth_access_token_ttl_seconds, 900, u64::MAX as nat);
    lemma_number_error(env, "OAUTH_ACCESS_TOKEN_TTL_SECONDS", raw.oauth_access_token_ttl_seconds, 900, u64::MAX as nat, 60, 3_600);
    lemma_number(env, "OAUTH_AUTHORIZATION_CODE_TTL_SECONDS"@, raw.oauth_authorization_code_ttl_seconds, 300, u64::MAX as nat);
    lemma_number_error(env, "OAUTH_AUTHORIZATION_CODE_TTL_SECONDS", raw.oauth_authorization_code_ttl_seconds, 300, u64::MAX as nat, 60, 600);
    lemma_number(env, "OAUTH_REFRESH_TOKEN_TTL_SECONDS"@, raw.oauth_refresh_token_ttl_seconds, 1_209_600, u64::MAX as nat);
    lemma_number_error(env, "OAUTH_REFRESH_TOKEN_TTL_SECONDS", raw.oauth_refresh_token_ttl_seconds, 1_209_600, u64::MAX as nat, 60, 2_592_000);
}

proof fn lemma_inbox_error<F: Fn(&str) -> Option<String>>(
    lookup: F,
    env: Map<Seq<char>, Seq<char>>,
    raw: RawSettings,
    root_is_directory: bool,
    address_is_valid: bool,
)
    requires
        reads(lookup, env),
        looked_up(lookup, raw),
    ensures
        inbox_error(raw) matches Some(error) ==> is_so(
            env,
            root_is_directory,
            address_is_valid,
            error,
        ),
{
    lemma_text(env, "INBOX_ROOT"@, raw.inbox_root);
    lemma_number(env, "INBOX_WRITES_PER_HOUR"@, raw.inbox_writes_per_hour, 10, u32::MAX as nat);
    lemma_number_error(env, "INBOX_WRITES_PER_HOUR", raw.inbox_writes_per_hour, 10, u32::MAX as nat, 1, u32::MAX as nat);
    lemma_number(env, "INBOX_MAX_NOTE_BYTES"@, raw.inbox_max_note_bytes, 32_768, usize::MAX as nat);
    lemma_number_error(env, "INBOX_MAX_NOTE_BYTES", raw.inbox_max_note_bytes, 32_768, usize::MAX as nat, 1, usize::MAX as nat);
    lemma_number(env, "INBOX_MAX_TOTAL_BYTES"@, raw.inbox_max_total_bytes, 8_388_608, u64::MAX as nat);
    lemma_number_error(env, "INBOX_MAX_TOTAL_BYTES", raw.inbox_max_total_bytes, 8_388_608, u64::MAX as nat, 1, u64::MAX as nat);
    if let Some(root) = text_of(env, "INBOX_ROOT"@) {
        assert(root.len() > 0) by {
            if root.len() == 0 {
                assert(all_white(root));
            }
        }
    }
}

proof fn lemma_oauth_error<F: Fn(&str) -> Option<String>>(
    lookup: F,
    env: Map<Seq<char>, Seq<char>>,
    raw: RawSettings,
    root_is_directory: bool,
    address_is_valid: bool,
)
    requires
        reads(lookup, env),
        looked_up(lookup, raw),
    ensures
        oauth_error(raw) matches Some(error) ==> is_so(
            env,
            root_is_directory,
            address_is_valid,
            error,
        ),
{
    lemma_oauth_settings_error(lookup, env, raw, root_is_directory, address_is_valid);
    lemma_lifetimes(lookup, env, raw);
    lemma_text(env, "OAUTH_ISSUER"@, raw.oauth_issuer);
    lemma_text(env, "OAUTH_RESOURCE"@, raw.oauth_resource);
    lemma_text(env, "OAUTH_OWNER_SECRET"@, raw.oauth_owner_secret);
    lemma_text(env, "OAUTH_SIGNING_KEY"@, raw.oauth_signing_key);
    lemma_text(env, "OAUTH_STATE_DIR"@, raw.oauth_state_dir);
    if let Some(dir) = text_of(env, "OAUTH_STATE_DIR"@) {
        assert(dir.len() > 0) by {
            if dir.len() == 0 {
                assert(all_white(dir));
            }
        }
    }
}

/// What the server says of an environment that it does not start in is so.
pub proof fn lemma_errors_name_what_is_wrong<F: Fn(&str) -> Option<String>>(
    lookup: F,
    env: Map<Seq<char>, Seq<char>>,
    raw: RawSettings,
    root_is_directory: bool,
    address_is_valid: bool,
)
    requires
        reads(lookup, env),
        looked_up(lookup, raw),
    ensures
        settings_error(raw, root_is_directory, address_is_valid) matches Some(error) ==> is_so(
            env,
            root_is_directory,
            address_is_valid,
            error,
        ),
{
    reveal_strlit("KB_PUBLIC_DIRS");
    reveal_strlit("KB_PRIVATE_DIRS");
    assert("KB_PUBLIC_DIRS"@.len() == 14 && "KB_PRIVATE_DIRS"@.len() == 15);
    lemma_limits_error(lookup, env, raw, root_is_directory, address_is_valid);
    lemma_oauth_error(lookup, env, raw, root_is_directory, address_is_valid);
    lemma_inbox_error(lookup, env, raw, root_is_directory, address_is_valid);
    lemma_text(env, "KB_PUBLIC_DIRS"@, raw.kb_public_dirs);
    lemma_text(env, "KB_PRIVATE_DIRS"@, raw.kb_private_dirs);
    lemma_text(env, "KB_ROOT"@, raw.kb_root);
    lemma_text(env, "KB_KEY_A"@, raw.kb_key_a);
    lemma_text(env, "KB_KEY_B"@, raw.kb_key_b);
    lemma_text(env, "MCP_ALLOWED_HOSTS"@, raw.mcp_allowed_hosts);
    let public = listed(public_text(raw));
    let private = listed(private_text(raw));
    lemma_pieces_not_empty(public_text(raw), is_char(','));
    lemma_pieces_not_empty(private_text(raw), is_char(','));
    if lists_directories(public_text(raw)) && lists_directories(private_text(raw)) {
        lemma_directories(public, private);
        assert(public.to_set().contains(public[0]));
        assert(private.to_set().contains(private[0]));
        assert(is_directory_set(public.to_set()));
        assert(is_directory_set(private.to_set()));
    }
    if raw.mcp_allowed_hosts is Some {
        let hosts = listed(raw.mcp_allowed_hosts->Some_0@);
        let found = listed_set(raw.mcp_allowed_hosts->Some_0@);
        if found == Set::<Seq<char>>::empty() {
            assert forall|i: int| 0 <= i < hosts.len() implies (#[trigger] hosts[i]).len() == 0 by {
                assert(hosts.to_set().contains(hosts[i]));
                assert(!found.contains(hosts[i]));
            }
        }
    }
    assert(!lists_directories(public_text(raw)) ==> lists_unsafe(public));
    assert(!lists_directories(private_text(raw)) ==> lists_unsafe(private));
    assert(public == listed(text_or(text_of(env, "KB_PUBLIC_DIRS"@), "10_tech,20_projects"@)));
    assert(private == listed(text_or(text_of(env, "KB_PRIVATE_DIRS"@), "90_private"@)));
    if settings_error(raw, root_is_directory, address_is_valid) == Some(
        ConfigError::OverlappingScopeDirectories,
    ) {
        assert(overlap(public, private));
    }
}

/// What is said of a variable names it.
pub proof fn lemma_messages_name_the_variable(name: &'static str)
    ensures
        config_message(ConfigError::Missing(name)) == "missing required environment variable: "@
            + name@,
        config_message(ConfigError::Empty(name)) == "environment variable "@ + name@
            + " must not be empty"@,
        config_message(ConfigError::InvalidInteger(name)) == "invalid integer in "@ + name@,
        name@.is_prefix_of(config_message(ConfigError::OutOfRange(name))),
        name@.is_prefix_of(config_message(ConfigError::WeakSecret(name))),
        name@.is_prefix_of(config_message(ConfigError::InvalidScopeDirectories(name))),
{
    assert(name@ =~= config_message(ConfigError::OutOfRange(name)).take(name@.len() as int));
    assert(name@ =~= config_message(ConfigError::WeakSecret(name)).take(name@.len() as int));
    assert(name@ =~= config_message(ConfigError::InvalidScopeDirectories(name)).take(
        name@.len() as int,
    ));
}

/// Which issuers and resources are taken: an issuer is an HTTPS origin without a
/// slash at its end, and a resource an HTTPS URL without query and fragment on the
/// same origin.
pub proof fn lemma_which_issuers_are_taken(text: Seq<char>, issuer: Seq<char>, url: UrlModel)
    requires
        url_of(text) == Some(url),
    ensures
        is_issuer(text) <==> {
            &&& url.scheme == "https"@
            &&& url.host is Some
            &&& url.path == "/"@
            &&& url.query is None
            &&& url.fragment is None
            &&& text.len() == 0 || text.last() != '/'
        },
        is_resource(text, issuer) <==> {
            &&& url.scheme == "https"@
            &&& url.host is Some
            &&& url.query is None
            &&& url.fragment is None
            &&& https_origin(text) == https_origin(issuer)
        },
{
}

/// Which directories are safe: with one to 128 bytes, not hidden, and without a
/// slash, a backslash, a colon or a null character.
pub proof fn lemma_which_directories_are_safe(name: Seq<char>)
    ensures
        is_safe_directory(name) <==> {
            &&& 1 <= name.len()
            &&& encode_utf8(name).len() <= 128
            &&& name[0] != '.'
            &&& !name.contains('/')
            &&& !name.contains('\\')
            &&& !name.contains(':')
            &&& !name.contains('\0')
        },
{
    if !name.contains('/') && !name.contains('\\') && !name.contains(':') && !name.contains('\0') {
        assert forall|i: int| 0 <= i < name.len() implies (#[trigger] name[i]) != '/' && name[i]
            != '\\' && name[i] != '\0' && name[i] != ':' by {
            assert(name.contains(name[i]));
        }
    }
}

/// The authorization server does not start with settings that are out of order: the
/// owner's secret takes twenty bytes and the key thirty-two, and the state lies at an
/// absolute path.
pub proof fn lemma_which_oauth_settings_are_taken(config: OAuthConfig, directory: StateDirectory)
    ensures
        oauth_config_error(config) is None <==> {
            &&& is_issuer(config.issuer@)
            &&& is_resource(config.resource@, config.issuer@)
            &&& encode_utf8(config.owner_secret@).len() >= 20
            &&& encode_utf8(config.signing_key@).len() >= 32
            &&& config.refresh_state_dir@.len() > 0
            &&& config.refresh_state_dir@[0] == '/'
        },
        oauth_config_error(config) is Some ==> start(config, directory) == Err::<OAuthModel, _>(
            OAuthError::InvalidConfiguration,
        ),
{
}

/// The directories of the sample layout are those that are listed by default.
pub proof fn lemma_sample_layout(name: Seq<char>)
    ensures
        default_public().contains(name) <==> name == "10_tech"@ || name == "20_projects"@,
        default_private().contains(name) <==> name == "90_private"@,
        default_public() == listed("10_tech,20_projects"@).to_set(),
        default_private() == listed("90_private"@).to_set(),
{
    reveal_strlit("10_tech");
    reveal_strlit("20_projects");
    reveal_strlit("90_private");
    reveal_strlit("10_tech,20_projects");
    let (tech, projects, private) = ("10_tech"@, "20_projects"@, "90_private"@);
    let none = Seq::<char>::empty();
    assert(tech.len() == 7 && projects.len() == 11 && private.len() == 10);
    assert(forall|i: int| 0 <= i < 7 ==> tech[i] != ',');
    assert(forall|i: int| 0 <= i < 11 ==> projects[i] != ',');
    assert(forall|i: int| 0 <= i < 10 ==> private[i] != ',');
    let list = seq![tech, projects];
    assert(list.drop_last() =~= seq![tech]);
    assert(joined_by(seq![tech], seq![',']) == tech);
    assert(joined_by(list, seq![',']) =~= tech + seq![','] + projects);
    assert("10_tech,20_projects"@ =~= tech + seq![','] + projects);
    assert forall|i: int| 0 <= i < list.len() implies !(#[trigger] list[i]).contains(',') by {}
    lemma_joined_is_cut_again(list, ',');
    let one = seq![private];
    assert(joined_by(one, seq![',']) == private);
    assert forall|i: int| 0 <= i < one.len() implies !(#[trigger] one[i]).contains(',') by {}
    lemma_joined_is_cut_again(one, ',');
    lemma_trimmed(none, tech, none);
    lemma_trimmed(none, projects, none);
    lemma_trimmed(none, private, none);
    assert(none + tech + none =~= tech);
    assert(none + projects + none =~= projects);
    assert(none + private + none =~= private);
    let public = listed("10_tech,20_projects"@);
    assert(public =~= list);
    assert(listed(private) =~= one);
    assert(list[0] == tech && list[1] == projects && one[0] == private);
    assert(default_public() =~= list.to_set());
    assert(default_private() =~= one.to_set());
}

} // verus!
