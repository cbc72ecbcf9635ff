//! What signed values say: claims as JSON objects, and back.
use vstd::prelude::*;

use crate::json::{
    distinct_names, field_trees, field_value, find_field, json_depth, json_layer, json_tree,
    json_value, lemma_field_value, lemma_listed_texts, lemma_not_reserved, lemma_plain_texts,
    name_texts, named_trees, number_field, number_in, optional_text, optional_text_field,
    optional_text_in, ordinary, plain, record_fields, record_of, text_field, text_in, text_list,
    texts_field, texts_in, with_number, with_optional_text, with_text, with_texts, Json, JsonRef,
    JsonTree,
};
use crate::oauth::scope::ScopeGrant;
use crate::oauth::OAuthError;
use crate::order::{ascending, lemma_ascending};
use crate::text::{same_text, str_option, text_option, texts};

verus! {

/// How a client proves who it is at the token endpoint.
#[derive(Debug, Clone, Copy, PartialEq, Eq, Structural)]
pub enum ClientAuthenticationMethod {
    Public,
    ClientSecretPost,
    ClientSecretBasic,
}

/// The registered name of a method.
pub open spec fn method_name(method: ClientAuthenticationMethod) -> Seq<char> {
    match method {
        ClientAuthenticationMethod::Public => "none"@,
        ClientAuthenticationMethod::ClientSecretPost => "client_secret_post"@,
        ClientAuthenticationMethod::ClientSecretBasic => "client_secret_basic"@,
    }
}

/// The method of that name.
pub open spec fn method_of(name: Seq<char>) -> Option<ClientAuthenticationMethod> {
    if name == "none"@ {
        Some(ClientAuthenticationMethod::Public)
    } else if name == "client_secret_post"@ {
        Some(ClientAuthenticationMethod::ClientSecretPost)
    } else if name == "client_secret_basic"@ {
        Some(ClientAuthenticationMethod::ClientSecretBasic)
    } else {
        None
    }
}

pub proof fn lemma_method_name(method: ClientAuthenticationMethod)
    ensures
        method_of(method_name(method)) == Some(method),
{
    reveal_strlit("none");
    reveal_strlit("client_secret_post");
    reveal_strlit("client_secret_basic");
    assert("none"@.len() == 4);
    assert("client_secret_post"@.len() == 18);
    assert("client_secret_basic"@.len() == 19);
}

/// The method that a registration asks for: none where it says nothing.
pub open spec fn requested_method(name: Option<Seq<char>>) -> Option<ClientAuthenticationMethod> {
    match name {
        Some(name) => method_of(name),
        None => Some(ClientAuthenticationMethod::Public),
    }
}

impl ClientAuthenticationMethod {
    pub fn parse(value: Option<&str>) -> (r: Result<ClientAuthenticationMethod, OAuthError>)
        ensures
            match r {
                Ok(method) => requested_method(str_option(value)) == Some(method),
                Err(error) => error is InvalidClient && requested_method(str_option(value)) is None,
            },
    {
        match value {
            None => Ok(ClientAuthenticationMethod::Public),
            Some(name) => match method_named(name) {
                Some(method) => Ok(method),
                None => Err(OAuthError::InvalidClient),
            },
        }
    }

    pub fn as_str(self) -> (r: &'static str)
        ensures
            r@ == method_name(self),
    {
        match self {
            ClientAuthenticationMethod::Public => "none",
            ClientAuthenticationMethod::ClientSecretPost => "client_secret_post",
            ClientAuthenticationMethod::ClientSecretBasic => "client_secret_basic",
        }
    }
}

fn method_named(name: &str) -> (r: Option<ClientAuthenticationMethod>)
    ensures
        r == method_of(name@),
{
    if same_text(name, "none") {
        Some(ClientAuthenticationMethod::Public)
    } else if same_text(name, "client_secret_post") {
        Some(ClientAuthenticationMethod::ClientSecretPost)
    } else if same_text(name, "client_secret_basic") {
        Some(ClientAuthenticationMethod::ClientSecretBasic)
    } else {
        None
    }
}

/// The method that a field names, by a text or by the name of an object's only
/// field, which is null.
pub open spec fn method_in(fields: Seq<(Seq<char>, JsonTree)>, name: Seq<char>) -> Option<
    ClientAuthenticationMethod,
> {
    match field_value(fields, name) {
        Some(JsonTree::Text(s)) => method_of(s),
        Some(JsonTree::Object(inner)) => if inner.len() == 1 && inner[0].1 == JsonTree::Null {
            method_of(inner[0].0)
        } else {
            None
        },
        _ => None,
    }
}

fn method_field<'a>(fields: &Vec<(&'a str, &'a serde_json::Value)>, name: &str) -> (r: Option<
    ClientAuthenticationMethod,
>)
    ensures
        r == method_in(named_trees(fields@), name@),
{
    match find_field(fields, name) {
        Some(value) => match json_layer(value) {
            JsonRef::Text(s) => method_named(s),
            JsonRef::Object(inner) => {
                if inner.len() != 1 {
                    return None;
                }
                match json_layer(inner[0].1) {
                    JsonRef::Null => method_named(inner[0].0),
                    _ => None,
                }
            },
            _ => None,
        },
        None => None,
    }
}

/// A request for consent, as the consent page carries it.
pub struct SignedApprovalRequest {
    pub client_id: String,
    pub redirect_uri: String,
    pub requested_scopes: ScopeGrant,
    pub state: Option<String>,
    pub resource: String,
    pub code_challenge: String,
    pub expires_at: u64,
}

/// A request for consent as mathematical values.
pub struct ApprovalModel {
    pub client_id: Seq<char>,
    pub redirect_uri: Seq<char>,
    pub requested_scopes: Set<Seq<char>>,
    pub state: Option<Seq<char>>,
    pub resource: Seq<char>,
    pub code_challenge: Seq<char>,
    pub expires_at: u64,
}

impl View for SignedApprovalRequest {
    type V = ApprovalModel;

    open spec fn view(&self) -> ApprovalModel {
        ApprovalModel {
            client_id: self.client_id@,
            redirect_uri: self.redirect_uri@,
            requested_scopes: self.requested_scopes@,
            state: text_option(self.state),
            resource: self.resource@,
            code_challenge: self.code_challenge@,
            expires_at: self.expires_at,
        }
    }
}

pub open spec fn approval_fields(c: ApprovalModel) -> Seq<(Seq<char>, JsonTree)> {
    seq![
        ("client_id"@, JsonTree::Text(c.client_id)),
        ("redirect_uri"@, JsonTree::Text(c.redirect_uri)),
        ("requested_scopes"@, text_list(ascending(c.requested_scopes))),
        ("state"@, optional_text(c.state)),
        ("resource"@, JsonTree::Text(c.resource)),
        ("code_challenge"@, JsonTree::Text(c.code_challenge)),
        ("expires_at"@, JsonTree::Number(c.expires_at)),
    ]
}

/// The JSON object that holds the claims.
pub open spec fn approval_tree(c: ApprovalModel) -> JsonTree {
    JsonTree::Object(approval_fields(c))
}

/// The names of the fields, in their order.
pub open spec fn approval_names() -> Seq<Seq<char>> {
    seq![
        "client_id"@,
        "redirect_uri"@,
        "requested_scopes"@,
        "state"@,
        "resource"@,
        "code_challenge"@,
        "expires_at"@,
    ]
}

/// The claims that a JSON value holds.
pub open spec fn approval_in(tree: JsonTree) -> Option<ApprovalModel> {
    match record_fields(tree, approval_names()) {
        Some(f) => match (
            text_in(f, "client_id"@),
            text_in(f, "redirect_uri"@),
            texts_in(f, "requested_scopes"@),
            optional_text_in(f, "state"@),
            text_in(f, "resource"@),
            text_in(f, "code_challenge"@),
            number_in(f, "expires_at"@),
        ) {
            (
                Some(client_id),
                Some(redirect_uri),
                Some(requested_scopes),
                Some(state),
                Some(resource),
                Some(code_challenge),
                Some(expires_at),
            ) =>
                Some(
                    ApprovalModel {
                        client_id,
                        redirect_uri,
                        requested_scopes: requested_scopes.to_set(),
                        state,
                        resource,
                        code_challenge,
                        expires_at,
                    },
                ),
            _ => None,
        },
        None => None,
    }
}

pub proof fn lemma_approval_names(c: ApprovalModel)
    ensures
        distinct_names(approval_fields(c)),
{
    reveal_strlit("client_id");
    reveal_strlit("redirect_uri");
    reveal_strlit("requested_scopes");
    reveal_strlit("state");
    reveal_strlit("resource");
    reveal_strlit("code_challenge");
    reveal_strlit("expires_at");
    assert("client_id"@.len() == 9 && "client_id"@[0] == 'c');
    assert("redirect_uri"@.len() == 12 && "redirect_uri"@[0] == 'r');
    assert("requested_scopes"@.len() == 16 && "requested_scopes"@[0] == 'r');
    assert("state"@.len() == 5 && "state"@[0] == 's');
    assert("resource"@.len() == 8 && "resource"@[0] == 'r');
    assert("code_challenge"@.len() == 14 && "code_challenge"@[0] == 'c');
    assert("expires_at"@.len() == 10 && "expires_at"@[0] == 'e');
}

/// Reading the object gives the claims back.
pub proof fn lemma_approval_read_back(c: ApprovalModel)
    requires
        c.requested_scopes.finite(),
    ensures
        approval_in(approval_tree(c)) == Some(c),
{
    let f = approval_fields(c);
    lemma_approval_names(c);
    lemma_ascending(c.requested_scopes);
    lemma_listed_texts(ascending(c.requested_scopes));
    lemma_field_value(f, 0);
    lemma_field_value(f, 1);
    lemma_field_value(f, 2);
    lemma_field_value(f, 3);
    lemma_field_value(f, 4);
    lemma_field_value(f, 5);
    lemma_field_value(f, 6);
}

pub proof fn lemma_approval_plain(c: ApprovalModel)
    ensures
        plain(approval_tree(c), json_depth()),
        ordinary(approval_tree(c)),
{
    reveal_strlit("client_id");
    lemma_not_reserved("client_id"@);
    let f = approval_fields(c);
    lemma_plain_texts(ascending(c.requested_scopes), 126);
    assert forall|i: int| 0 <= i < f.len() implies plain((#[trigger] f[i]).1, 126) && ordinary(
        f[i].1,
    ) by {
    }
}

impl SignedApprovalRequest {
    pub fn to_json(&self) -> (r: serde_json::Value)
        ensures
            json_tree(r) == approval_tree(self@),
            plain(json_tree(r), json_depth()),
            ordinary(json_tree(r)),
            approval_in(json_tree(r)) == Some(self@),
    {
        let fields: Vec<(String, serde_json::Value)> = Vec::new();
        proof {
            assert(field_trees(fields@) =~= Seq::empty());
        }
        let fields = with_text(fields, "client_id", self.client_id.as_str());
        let fields = with_text(fields, "redirect_uri", self.redirect_uri.as_str());
        let fields = with_texts(fields, "requested_scopes", self.requested_scopes.items());
        let fields = with_optional_text(fields, "state", &self.state);
        let fields = with_text(fields, "resource", self.resource.as_str());
        let fields = with_text(fields, "code_challenge", self.code_challenge.as_str());
        let fields = with_number(fields, "expires_at", self.expires_at);
        let finite = self.requested_scopes.items();
        proof {
            assert(field_trees(fields@) =~= approval_fields(self@));
            lemma_approval_names(self@);
            lemma_approval_plain(self@);
            vstd::seq_lib::seq_to_set_is_finite(texts(finite@));
            lemma_approval_read_back(self@);
        }
        json_value(Json::Object(fields))
    }

    pub fn from_json(value: &serde_json::Value) -> (r: Option<SignedApprovalRequest>)
        ensures
            match r {
                Some(claims) => approval_in(json_tree(*value)) == Some(claims@),
                None => approval_in(json_tree(*value)) is None,
            },
    {
        let names: Vec<&'static str> = vec![
            "client_id",
            "redirect_uri",
            "requested_scopes",
            "state",
            "resource",
            "code_challenge",
            "expires_at",
        ];
        proof {
            assert(name_texts(names@) =~= approval_names());
        }
        let fields = match record_of(value, &names) {
            Some(fields) => fields,
            None => {
                return None;
            },
        };
        match (
            text_field(&fields, "client_id"),
            text_field(&fields, "redirect_uri"),
            texts_field(&fields, "requested_scopes"),
            optional_text_field(&fields, "state"),
            text_field(&fields, "resource"),
            text_field(&fields, "code_challenge"),
            number_field(&fields, "expires_at"),
        ) {
            (
                Some(client_id),
                Some(redirect_uri),
                Some(requested_scopes),
                Some(state),
                Some(resource),
                Some(code_challenge),
                Some(expires_at),
            ) => {
                Some(
                    SignedApprovalRequest {
                        client_id,
                        redirect_uri,
                        requested_scopes: ScopeGrant::of_texts(&requested_scopes),
                        state,
                        resource,
                        code_challenge,
                        expires_at,
                    },
                )
            },
            _ => None,
        }
    }
}
/// What an access token says.
pub struct AccessTokenClaims {
    pub version: u8,
    pub token_id: String,
    pub family_id: String,
    pub scopes: ScopeGrant,
    pub audience: String,
    pub issued_at: u64,
    pub expires_at: u64,
}

/// An access token as mathematical values.
pub struct AccessModel {
    pub version: u8,
    pub token_id: Seq<char>,
    pub family_id: Seq<char>,
    pub scopes: Set<Seq<char>>,
    pub audience: Seq<char>,
    pub issued_at: u64,
    pub expires_at: u64,
}

impl View for AccessTokenClaims {
    type V = AccessModel;

    open spec fn view(&self) -> AccessModel {
        AccessModel {
            version: self.version,
            token_id: self.token_id@,
            family_id: self.family_id@,
            scopes: self.scopes@,
            audience: self.audience@,
            issued_at: self.issued_at,
            expires_at: self.expires_at,
        }
    }
}

pub open spec fn access_fields(c: AccessModel) -> Seq<(Seq<char>, JsonTree)> {
    seq![
        ("version"@, JsonTree::Number(c.version as u64)),
        ("token_id"@, JsonTree::Text(c.token_id)),
        ("family_id"@, JsonTree::Text(c.family_id)),
        ("scopes"@, text_list(ascending(c.scopes))),
        ("audience"@, JsonTree::Text(c.audience)),
        ("issued_at"@, JsonTree::Number(c.issued_at)),
        ("expires_at"@, JsonTree::Number(c.expires_at)),
    ]
}

/// The JSON object that holds the claims.
pub open spec fn access_tree(c: AccessModel) -> JsonTree {
    JsonTree::Object(access_fields(c))
}

/// The names of the fields, in their order.
pub open spec fn access_names() -> Seq<Seq<char>> {
    seq![
        "version"@,
        "token_id"@,
        "family_id"@,
        "scopes"@,
        "audience"@,
        "issued_at"@,
        "expires_at"@,
    ]
}

/// The claims that a JSON value holds.
pub open spec fn access_in(tree: JsonTree) -> Option<AccessModel> {
    match record_fields(tree, access_names()) {
        Some(f) => match (
            number_in(f, "version"@),
            text_in(f, "token_id"@),
            text_in(f, "family_id"@),
            texts_in(f, "scopes"@),
            text_in(f, "audience"@),
            number_in(f, "issued_at"@),
            number_in(f, "expires_at"@),
        ) {
            (
                Some(version),
                Some(token_id),
                Some(family_id),
                Some(scopes),
                Some(audience),
                Some(issued_at),
                Some(expires_at),
            ) =>
                if version <= 255 {
                    Some(
                        AccessModel {
                            version: version as u8,
                            token_id,
                            family_id,
                            scopes: scopes.to_set(),
                            audience,
                            issued_at,
                            expires_at,
                        },
                    )
                } else {
                    None
                },
            _ => None,
        },
        None => None,
    }
}

pub proof fn lemma_access_names(c: AccessModel)
    ensures
        distinct_names(access_fields(c)),
{
    reveal_strlit("version");
    reveal_strlit("token_id");
    reveal_strlit("family_id");
    reveal_strlit("scopes");
    reveal_strlit("audience");
    reveal_strlit("issued_at");
    reveal_strlit("expires_at");
    assert("version"@.len() == 7 && "version"@[0] == 'v');
    assert("token_id"@.len() == 8 && "token_id"@[0] == 't');
    assert("family_id"@.len() == 9 && "family_id"@[0] == 'f');
    assert("scopes"@.len() == 6 && "scopes"@[0] == 's');
    assert("audience"@.len() == 8 && "audience"@[0] == 'a');
    assert("issued_at"@.len() == 9 && "issued_at"@[0] == 'i');
    assert("expires_at"@.len() == 10 && "expires_at"@[0] == 'e');
}

/// Reading the object gives the claims back.
pub proof fn lemma_access_read_back(c: AccessModel)
    requires
        c.scopes.finite(),
    ensures
        access_in(access_tree(c)) == Some(c),
{
    let f = access_fields(c);
    lemma_access_names(c);
    lemma_ascending(c.scopes);
    lemma_listed_texts(ascending(c.scopes));
    lemma_field_value(f, 0);
    lemma_field_value(f, 1);
    lemma_field_value(f, 2);
    lemma_field_value(f, 3);
    lemma_field_value(f, 4);
    lemma_field_value(f, 5);
    lemma_field_value(f, 6);
}

pub proof fn lemma_access_plain(c: AccessModel)
    ensures
        plain(access_tree(c), json_depth()),
        ordinary(access_tree(c)),
{
    reveal_strlit("version");
    lemma_not_reserved("version"@);
    let f = access_fields(c);
    lemma_plain_texts(ascending(c.scopes), 126);
    assert forall|i: int| 0 <= i < f.len() implies plain((#[trigger] f[i]).1, 126) && ordinary(
        f[i].1,
    ) by {
    }
}

impl AccessTokenClaims {
    pub fn to_json(&self) -> (r: serde_json::Value)
        ensures
            json_tree(r) == access_tree(self@),
            plain(json_tree(r), json_depth()),
            ordinary(json_tree(r)),
            access_in(json_tree(r)) == Some(self@),
    {
        let fields: Vec<(String, serde_json::Value)> = Vec::new();
        proof {
            assert(field_trees(fields@) =~= Seq::empty());
        }
        let fields = with_number(fields, "version", self.version as u64);
        let fields = with_text(fields, "token_id", self.token_id.as_str());
        let fields = with_text(fields, "family_id", self.family_id.as_str());
        let fields = with_texts(fields, "scopes", self.scopes.items());
        let fields = with_text(fields, "audience", self.audience.as_str());
        let fields = with_number(fields, "issued_at", self.issued_at);
        let fields = with_number(fields, "expires_at", self.expires_at);
        let finite = self.scopes.items();
        proof {
            assert(field_trees(fields@) =~= access_fields(self@));
            lemma_access_names(self@);
            lemma_access_plain(self@);
            vstd::seq_lib::seq_to_set_is_finite(texts(finite@));
            lemma_access_read_back(self@);
        }
        json_value(Json::Object(fields))
    }

    pub fn from_json(value: &serde_json::Value) -> (r: Option<AccessTokenClaims>)
        ensures
            match r {
                Some(claims) => access_in(json_tree(*value)) == Some(claims@),
                None => access_in(json_tree(*value)) is None,
            },
    {
        let names: Vec<&'static str> = vec![
            "version",
            "token_id",
            "family_id",
            "scopes",
            "audience",
            "issued_at",
            "expires_at",
        ];
        proof {
            assert(name_texts(names@) =~= access_names());
        }
        let fields = match record_of(value, &names) {
            Some(fields) => fields,
            None => {
                return None;
            },
        };
        match (
            number_field(&fields, "version"),
            text_field(&fields, "token_id"),
            text_field(&fields, "family_id"),
            texts_field(&fields, "scopes"),
            text_field(&fields, "audience"),
            number_field(&fields, "issued_at"),
            number_field(&fields, "expires_at"),
        ) {
            (
                Some(version),
                Some(token_id),
                Some(family_id),
                Some(scopes),
                Some(audience),
                Some(issued_at),
                Some(expires_at),
            ) => {
                if version > 255 {
                    return None;
                }
                Some(
                    AccessTokenClaims {
                        version: version as u8,
                        token_id,
                        family_id,
                        scopes: ScopeGrant::of_texts(&scopes),
                        audience,
                        issued_at,
                        expires_at,
                    },
                )
            },
            _ => None,
        }
    }
}
/// What a refresh token says.
pub struct RefreshTokenClaims {
    pub version: u8,
    pub family_id: String,
    pub token_id: String,
    pub client_binding: String,
    pub scopes: ScopeGrant,
    pub audience: String,
    pub issued_at: u64,
    pub expires_at: u64,
}

/// A refresh token as mathematical values.
pub struct RefreshModel {
    pub version: u8,
    pub family_id: Seq<char>,
    pub token_id: Seq<char>,
    pub client_binding: Seq<char>,
    pub scopes: Set<Seq<char>>,
    pub audience: Seq<char>,
    pub issued_at: u64,
    pub expires_at: u64,
}

impl View for RefreshTokenClaims {
    type V = RefreshModel;

    open spec fn view(&self) -> RefreshModel {
        RefreshModel {
            version: self.version,
            family_id: self.family_id@,
            token_id: self.token_id@,
            client_binding: self.client_binding@,
            scopes: self.scopes@,
            audience: self.audience@,
            issued_at: self.issued_at,
            expires_at: self.expires_at,
        }
    }
}

pub open spec fn refresh_fields(c: RefreshModel) -> Seq<(Seq<char>, JsonTree)> {
    seq![
        ("version"@, JsonTree::Number(c.version as u64)),
        ("family_id"@, JsonTree::Text(c.family_id)),
        ("token_id"@, JsonTree::Text(c.token_id)),
        ("client_binding"@, JsonTree::Text(c.client_binding)),
        ("scopes"@, text_list(ascending(c.scopes))),
        ("audience"@, JsonTree::Text(c.audience)),
        ("issued_at"@, JsonTree::Number(c.issued_at)),
        ("expires_at"@, JsonTree::Number(c.expires_at)),
    ]
}

/// The JSON object that holds the claims.
pub open spec fn refresh_tree(c: RefreshModel) -> JsonTree {
    JsonTree::Object(refresh_fields(c))
}

/// The names of the fields, in their order.
pub open spec fn refresh_names() -> Seq<Seq<char>> {
    seq![
        "version"@,
        "family_id"@,
        "token_id"@,
        "client_binding"@,
        "scopes"@,
        "audience"@,
        "issued_at"@,
        "expires_at"@,
    ]
}

/// The claims that a JSON value holds.
pub open spec fn refresh_in(tree: JsonTree) -> Option<RefreshModel> {
    match record_fields(tree, refresh_names()) {
        Some(f) => match (
            number_in(f, "version"@),
            text_in(f, "family_id"@),
            text_in(f, "token_id"@),
            text_in(f, "client_binding"@),
            texts_in(f, "scopes"@),
            text_in(f, "audience"@),
            number_in(f, "issued_at"@),
            number_in(f, "expires_at"@),
        ) {
            (
                Some(version),
                Some(family_id),
                Some(token_id),
                Some(client_binding),
                Some(scopes),
                Some(audience),
                Some(issued_at),
                Some(expires_at),
            ) =>
                if version <= 255 {
                    Some(
                        RefreshModel {
                            version: version as u8,
                            family_id,
                            token_id,
                            client_binding,
                            scopes: scopes.to_set(),
                            audience,
                            issued_at,
                            expires_at,
                        },
                    )
                } else {
                    None
                },
            _ => None,
        },
        None => None,
    }
}

pub proof fn lemma_refresh_names(c: RefreshModel)
    ensures
        distinct_names(refresh_fields(c)),
{
    reveal_strlit("version");
    reveal_strlit("family_id");
    reveal_strlit("token_id");
    reveal_strlit("client_binding");
    reveal_strlit("scopes");
    reveal_strlit("audience");
    reveal_strlit("issued_at");
    reveal_strlit("expires_at");
    assert("version"@.len() == 7 && "version"@[0] == 'v');
    assert("family_id"@.len() == 9 && "family_id"@[0] == 'f');
    assert("token_id"@.len() == 8 && "token_id"@[0] == 't');
    assert("client_binding"@.len() == 14 && "client_binding"@[0] == 'c');
    assert("scopes"@.len() == 6 && "scopes"@[0] == 's');
    assert("audience"@.len() == 8 && "audience"@[0] == 'a');
    assert("issued_at"@.len() == 9 && "issued_at"@[0] == 'i');
    assert("expires_at"@.len() == 10 && "expires_at"@[0] == 'e');
}

/// Reading the object gives the claims back.
pub proof fn lemma_refresh_read_back(c: RefreshModel)
    requires
        c.scopes.finite(),
    ensures
        refresh_in(refresh_tree(c)) == Some(c),
{
    let f = refresh_fields(c);
    lemma_refresh_names(c);
    lemma_ascending(c.scopes);
    lemma_listed_texts(ascending(c.scopes));
    lemma_field_value(f, 0);
    lemma_field_value(f, 1);
    lemma_field_value(f, 2);
    lemma_field_value(f, 3);
    lemma_field_value(f, 4);
    lemma_field_value(f, 5);
    lemma_field_value(f, 6);
    lemma_field_value(f, 7);
}

pub proof fn lemma_refresh_plain(c: RefreshModel)
    ensures
        plain(refresh_tree(c), json_depth()),
        ordinary(refresh_tree(c)),
{
    reveal_strlit("version");
    lemma_not_reserved("version"@);
    let f = refresh_fields(c);
    lemma_plain_texts(ascending(c.scopes), 126);
    assert forall|i: int| 0 <= i < f.len() implies plain((#[trigger] f[i]).1, 126) && ordinary(
        f[i].1,
    ) by {
    }
}

impl RefreshTokenClaims {
    pub fn to_json(&self) -> (r: serde_json::Value)
        ensures
            json_tree(r) == refresh_tree(self@),
            plain(json_tree(r), json_depth()),
            ordinary(json_tree(r)),
            refresh_in(json_tree(r)) == Some(self@),
    {
        let fields: Vec<(String, serde_json::Value)> = Vec::new();
        proof {
            assert(field_trees(fields@) =~= Seq::empty());
        }
        let fields = with_number(fields, "version", self.version as u64);
        let fields = with_text(fields, "family_id", self.family_id.as_str());
        let fields = with_text(fields, "token_id", self.token_id.as_str());
        let fields = with_text(fields, "client_binding", self.client_binding.as_str());
        let fields = with_texts(fields, "scopes", self.scopes.items());
        let fields = with_text(fields, "audience", self.audience.as_str());
        let fields = with_number(fields, "issued_at", self.issued_at);
        let fields = with_number(fields, "expires_at", self.expires_at);
        let finite = self.scopes.items();
        proof {
            assert(field_trees(fields@) =~= refresh_fields(self@));
            lemma_refresh_names(self@);
            lemma_refresh_plain(self@);
            vstd::seq_lib::seq_to_set_is_finite(texts(finite@));
            lemma_refresh_read_back(self@);
        }
        json_value(Json::Object(fields))
    }

    pub fn from_json(value: &serde_json::Value) -> (r: Option<RefreshTokenClaims>)
        ensures
            match r {
                Some(claims) => refresh_in(json_tree(*value)) == Some(claims@),
                None => refresh_in(json_tree(*value)) is None,
            },
    {
        let names: Vec<&'static str> = vec![
            "version",
            "family_id",
            "token_id",
            "client_binding",
            "scopes",
            "audience",
            "issued_at",
            "expires_at",
        ];
        proof {
            assert(name_texts(names@) =~= refresh_names());
        }
        let fields = match record_of(value, &names) {
            Some(fields) => fields,
            None => {
                return None;
            },
        };
        match (
            number_field(&fields, "version"),
            text_field(&fields, "family_id"),
            text_field(&fields, "token_id"),
            text_field(&fields, "client_binding"),
            texts_field(&fields, "scopes"),
            text_field(&fields, "audience"),
            number_field(&fields, "issued_at"),
            number_field(&fields, "expires_at"),
        ) {
            (
                Some(version),
                Some(family_id),
                Some(token_id),
                Some(client_binding),
                Some(scopes),
                Some(audience),
                Some(issued_at),
                Some(expires_at),
            ) => {
                if version > 255 {
                    return None;
                }
                Some(
                    RefreshTokenClaims {
                        version: version as u8,
                        family_id,
                        token_id,
                        client_binding,
                        scopes: ScopeGrant::of_texts(&scopes),
                        audience,
                        issued_at,
                        expires_at,
                    },
                )
            },
            _ => None,
        }
    }
}
/// What a client identifier says of the client.
pub struct ClientIdPayload {
    pub version: u8,
    pub redirect_uris: Vec<String>,
    pub token_endpoint_auth_method: ClientAuthenticationMethod,
    pub scopes: ScopeGrant,
    pub issued_at: u64,
}

/// A client identifier as mathematical values.
pub struct ClientIdModel {
    pub version: u8,
    pub redirect_uris: Seq<Seq<char>>,
    pub token_endpoint_auth_method: ClientAuthenticationMethod,
    pub scopes: Set<Seq<char>>,
    pub issued_at: u64,
}

impl View for ClientIdPayload {
    type V = ClientIdModel;

    open spec fn view(&self) -> ClientIdModel {
        ClientIdModel {
            version: self.version,
            redirect_uris: texts(self.redirect_uris@),
            token_endpoint_auth_method: self.token_endpoint_auth_method,
            scopes: self.scopes@,
            issued_at: self.issued_at,
        }
    }
}

pub open spec fn client_id_fields(c: ClientIdModel) -> Seq<(Seq<char>, JsonTree)> {
    seq![
        ("version"@, JsonTree::Number(c.version as u64)),
        ("redirect_uris"@, text_list(c.redirect_uris)),
        ("token_endpoint_auth_method"@, JsonTree::Text(method_name(c.token_endpoint_auth_method))),
        ("scopes"@, text_list(ascending(c.scopes))),
        ("issued_at"@, JsonTree::Number(c.issued_at)),
    ]
}

/// The JSON object that holds the claims.
pub open spec fn client_id_tree(c: ClientIdModel) -> JsonTree {
    JsonTree::Object(client_id_fields(c))
}

/// The names of the fields, in their order.
pub open spec fn client_id_names() -> Seq<Seq<char>> {
    seq![
        "version"@,
        "redirect_uris"@,
        "token_endpoint_auth_method"@,
        "scopes"@,
        "issued_at"@,
    ]
}

/// The claims that a JSON value holds.
pub open spec fn client_id_in(tree: JsonTree) -> Option<ClientIdModel> {
    match record_fields(tree, client_id_names()) {
        Some(f) => match (
            number_in(f, "version"@),
            texts_in(f, "redirect_uris"@),
            method_in(f, "token_endpoint_auth_method"@),
            texts_in(f, "scopes"@),
            number_in(f, "issued_at"@),
        ) {
            (
                Some(version),
                Some(redirect_uris),
                Some(token_endpoint_auth_method),
                Some(scopes),
                Some(issued_at),
            ) =>
                if version <= 255 {
                    Some(
                        ClientIdModel {
                            version: version as u8,
                            redirect_uris,
                            token_endpoint_auth_method,
                            scopes: scopes.to_set(),
                            issued_at,
                        },
                    )
                } else {
                    None
                },
            _ => None,
        },
        None => None,
    }
}

pub proof fn lemma_client_id_names(c: ClientIdModel)
    ensures
        distinct_names(client_id_fields(c)),
{
    reveal_strlit("version");
    reveal_strlit("redirect_uris");
    reveal_strlit("token_endpoint_auth_method");
    reveal_strlit("scopes");
    reveal_strlit("issued_at");
    assert("version"@.len() == 7 && "version"@[0] == 'v');
    assert("redirect_uris"@.len() == 13 && "redirect_uris"@[0] == 'r');
    assert("token_endpoint_auth_method"@.len() == 26 && "token_endpoint_auth_method"@[0] == 't');
    assert("scopes"@.len() == 6 && "scopes"@[0] == 's');
    assert("issued_at"@.len() == 9 && "issued_at"@[0] == 'i');
}

/// Reading the object gives the claims back.
pub proof fn lemma_client_id_read_back(c: ClientIdModel)
    requires
        c.scopes.finite(),
    ensures
        client_id_in(client_id_tree(c)) == Some(c),
{
    let f = client_id_fields(c);
    lemma_client_id_names(c);
    lemma_ascending(c.scopes);
    lemma_listed_texts(ascending(c.scopes));
    lemma_listed_texts(c.redirect_uris);
    lemma_method_name(c.token_endpoint_auth_method);
    lemma_field_value(f, 0);
    lemma_field_value(f, 1);
    lemma_field_value(f, 2);
    lemma_field_value(f, 3);
    lemma_field_value(f, 4);
}

pub proof fn lemma_client_id_plain(c: ClientIdModel)
    ensures
        plain(client_id_tree(c), json_depth()),
        ordinary(client_id_tree(c)),
{
    reveal_strlit("version");
    lemma_not_reserved("version"@);
    let f = client_id_fields(c);
    lemma_plain_texts(ascending(c.scopes), 126);
    lemma_plain_texts(c.redirect_uris, 126);
    assert forall|i: int| 0 <= i < f.len() implies plain((#[trigger] f[i]).1, 126) && ordinary(
        f[i].1,
    ) by {
    }
}

impl ClientIdPayload {
    pub fn to_json(&self) -> (r: serde_json::Value)
        ensures
            json_tree(r) == client_id_tree(self@),
            plain(json_tree(r), json_depth()),
            ordinary(json_tree(r)),
            client_id_in(json_tree(r)) == Some(self@),
    {
        let fields: Vec<(String, serde_json::Value)> = Vec::new();
        proof {
            assert(field_trees(fields@) =~= Seq::empty());
        }
        let fields = with_number(fields, "version", self.version as u64);
        let fields = with_texts(fields, "redirect_uris", &self.redirect_uris);
        let method = self.token_endpoint_auth_method.as_str();
        let fields = with_text(fields, "token_endpoint_auth_method", method);
        let fields = with_texts(fields, "scopes", self.scopes.items());
        let fields = with_number(fields, "issued_at", self.issued_at);
        let finite = self.scopes.items();
        proof {
            assert(field_trees(fields@) =~= client_id_fields(self@));
            lemma_client_id_names(self@);
            lemma_client_id_plain(self@);
            vstd::seq_lib::seq_to_set_is_finite(texts(finite@));
            lemma_client_id_read_back(self@);
        }
        json_value(Json::Object(fields))
    }

    pub fn from_json(value: &serde_json::Value) -> (r: Option<ClientIdPayload>)
        ensures
            match r {
                Some(claims) => client_id_in(json_tree(*value)) == Some(claims@),
                None => client_id_in(json_tree(*value)) is None,
            },
    {
        let names: Vec<&'static str> = vec![
            "version",
            "redirect_uris",
            "token_endpoint_auth_method",
            "scopes",
            "issued_at",
        ];
        proof {
            assert(name_texts(names@) =~= client_id_names());
        }
        let fields = match record_of(value, &names) {
            Some(fields) => fields,
            None => {
                return None;
            },
        };
        match (
            number_field(&fields, "version"),
            texts_field(&fields, "redirect_uris"),
            method_field(&fields, "token_endpoint_auth_method"),
            texts_field(&fields, "scopes"),
            number_field(&fields, "issued_at"),
        ) {
            (
                Some(version),
                Some(redirect_uris),
                Some(token_endpoint_auth_method),
                Some(scopes),
                Some(issued_at),
            ) => {
                if version > 255 {
                    return None;
                }
                Some(
                    ClientIdPayload {
                        version: version as u8,
                        redirect_uris,
                        token_endpoint_auth_method,
                        scopes: ScopeGrant::of_texts(&scopes),
                        issued_at,
                    },
                )
            },
            _ => None,
        }
    }
}
} // verus!
