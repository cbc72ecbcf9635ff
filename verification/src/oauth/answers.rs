//! What clients are told, as JSON.
use vstd::prelude::*;

use crate::json::{
    distinct_names, field_trees, json_tree, json_value, text_list, with_number, with_text,
    with_texts, Json, JsonTree,
};
use crate::laws::answers::{
    lemma_registration_response, lemma_token_response, tells_registration, tells_tokens,
};
use crate::oauth::client::RegistrationResponse;
use crate::oauth::flows::TokenResponse;
use crate::oauth::{error_code_of, OAuthError};
use crate::text::{text_option, texts};

verus! {

pub open spec fn token_fields(response: TokenResponse) -> Seq<(Seq<char>, JsonTree)> {
    seq![
        ("access_token"@, JsonTree::Text(response.access_token@)),
        ("refresh_token"@, JsonTree::Text(response.refresh_token@)),
        ("token_type"@, JsonTree::Text(response.token_type@)),
        ("expires_in"@, JsonTree::Number(response.expires_in)),
        ("scope"@, JsonTree::Text(response.scope@)),
    ]
}

impl TokenResponse {
    pub fn to_json(&self) -> (r: serde_json::Value)
        ensures
            json_tree(r) == JsonTree::Object(token_fields(*self)),
            tells_tokens(json_tree(r), *self),
    {
        let fields: Vec<(String, serde_json::Value)> = Vec::new();
        proof {
            assert(field_trees(fields@) =~= Seq::empty());
            reveal_strlit("access_token");
            reveal_strlit("refresh_token");
            reveal_strlit("token_type");
            reveal_strlit("expires_in");
            reveal_strlit("scope");
            assert("access_token"@.len() == 12);
            assert("refresh_token"@.len() == 13);
            assert("token_type"@.len() == 10 && "token_type"@[0] == 't');
            assert("expires_in"@.len() == 10 && "expires_in"@[0] == 'e');
            assert("scope"@.len() == 5);
        }
        let fields = with_text(fields, "access_token", self.access_token.as_str());
        let fields = with_text(fields, "refresh_token", self.refresh_token.as_str());
        let fields = with_text(fields, "token_type", self.token_type);
        let fields = with_number(fields, "expires_in", self.expires_in);
        let fields = with_text(fields, "scope", self.scope.as_str());
        proof {
            assert(field_trees(fields@) =~= token_fields(*self));
            lemma_token_response(*self);
        }
        json_value(Json::Object(fields))
    }
}

pub open spec fn secret_fields(secret: Option<Seq<char>>) -> Seq<(Seq<char>, JsonTree)> {
    match secret {
        Some(secret) => seq![("client_secret"@, JsonTree::Text(secret))],
        None => Seq::empty(),
    }
}

pub open spec fn expiry_fields(expires_at: Option<u64>) -> Seq<(Seq<char>, JsonTree)> {
    match expires_at {
        Some(expires_at) => seq![("client_secret_expires_at"@, JsonTree::Number(expires_at))],
        None => Seq::empty(),
    }
}

pub open spec fn names(list: Seq<&'static str>) -> Seq<Seq<char>> {
    list.map_values(|s: &'static str| s@)
}

/// What a registered client is told, as JSON. What it does not have is left out.
pub open spec fn registration_fields(response: RegistrationResponse) -> Seq<
    (Seq<char>, JsonTree),
> {
    seq![
        ("client_id"@, JsonTree::Text(response.client_id@)),
        ("client_id_issued_at"@, JsonTree::Number(response.client_id_issued_at)),
    ] + secret_fields(text_option(response.client_secret)) + expiry_fields(
        response.client_secret_expires_at,
    ) + seq![
        ("redirect_uris"@, text_list(texts(response.redirect_uris@))),
        ("grant_types"@, text_list(names(response.grant_types@))),
        ("response_types"@, text_list(names(response.response_types@))),
        (
            "token_endpoint_auth_method"@,
            JsonTree::Text(response.token_endpoint_auth_method@),
        ),
        ("scope"@, JsonTree::Text(response.scope@)),
    ]
}

pub proof fn lemma_registration_names(response: RegistrationResponse)
    ensures
        distinct_names(registration_fields(response)),
{
    reveal_strlit("client_id");
    reveal_strlit("client_id_issued_at");
    reveal_strlit("client_secret");
    reveal_strlit("client_secret_expires_at");
    reveal_strlit("redirect_uris");
    reveal_strlit("grant_types");
    reveal_strlit("response_types");
    reveal_strlit("token_endpoint_auth_method");
    reveal_strlit("scope");
    assert("client_id"@.len() == 9);
    assert("client_id_issued_at"@.len() == 19);
    assert("client_secret"@.len() == 13 && "client_secret"@[0] == 'c');
    assert("client_secret_expires_at"@.len() == 24);
    assert("redirect_uris"@.len() == 13 && "redirect_uris"@[0] == 'r');
    assert("grant_types"@.len() == 11);
    assert("response_types"@.len() == 14);
    assert("token_endpoint_auth_method"@.len() == 26);
    assert("scope"@.len() == 5);
}

fn owned_names(list: &Vec<&'static str>) -> (r: Vec<String>)
    ensures
        texts(r@) == names(list@),
{
    let mut out: Vec<String> = Vec::new();
    let mut i: usize = 0;
    while i < list.len()
        invariant
            i <= list@.len(),
            out@.len() == i,
            forall|j: int| 0 <= j < i ==> (#[trigger] out@[j])@ == list@[j]@,
        decreases list@.len() - i,
    {
        out.push(list[i].to_owned());
        i = i + 1;
    }
    proof {
        assert(texts(out@) =~= names(list@));
    }
    out
}

impl RegistrationResponse {
    pub fn to_json(&self) -> (r: serde_json::Value)
        ensures
            json_tree(r) == JsonTree::Object(registration_fields(*self)),
            tells_registration(json_tree(r), *self),
    {
        let fields: Vec<(String, serde_json::Value)> = Vec::new();
        proof {
            assert(field_trees(fields@) =~= Seq::empty());
            lemma_registration_names(*self);
        }
        let fields = with_text(fields, "client_id", self.client_id.as_str());
        let fields = with_number(fields, "client_id_issued_at", self.client_id_issued_at);
        let fields = match &self.client_secret {
            Some(secret) => with_text(fields, "client_secret", secret.as_str()),
            None => fields,
        };
        let fields = match self.client_secret_expires_at {
            Some(expires_at) => with_number(fields, "client_secret_expires_at", expires_at),
            None => fields,
        };
        let fields = with_texts(fields, "redirect_uris", &self.redirect_uris);
        let fields = with_texts(fields, "grant_types", &owned_names(&self.grant_types));
        let fields = with_texts(fields, "response_types", &owned_names(&self.response_types));
        let fields = with_text(
            fields,
            "token_endpoint_auth_method",
            self.token_endpoint_auth_method.as_str(),
        );
        let fields = with_text(fields, "scope", self.scope.as_str());
        proof {
            assert(field_trees(fields@) =~= registration_fields(*self));
            lemma_registration_response(*self);
        }
        json_value(Json::Object(fields))
    }
}

/// What a refused client is told.
pub open spec fn refusal_fields(error: OAuthError) -> Seq<(Seq<char>, JsonTree)> {
    seq![("error"@, JsonTree::Text(error_code_of(error)))]
}

impl OAuthError {
    pub fn to_json(&self) -> (r: serde_json::Value)
        ensures
            json_tree(r) == JsonTree::Object(refusal_fields(*self)),
    {
        let fields: Vec<(String, serde_json::Value)> = Vec::new();
        proof {
            assert(field_trees(fields@) =~= Seq::empty());
        }
        let fields = with_text(fields, "error", self.error_code());
        proof {
            assert(field_trees(fields@) =~= refusal_fields(*self));
        }
        json_value(Json::Object(fields))
    }
}

} // verus!
