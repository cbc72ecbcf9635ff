//! What the server publishes of itself.
use vstd::prelude::*;

use crate::json::{
    distinct_names, field_trees, json_tree, json_value, text_list, with_flag, with_text, with_texts,
    Json, JsonTree,
};
use crate::oauth::scope::{SCOPE_PRIVATE, SCOPE_TECH};
use crate::text::{joined, texts};

verus! {

pub open spec fn authorization_server_fields(issuer: Seq<char>) -> Seq<(Seq<char>, JsonTree)> {
    seq![
        ("issuer"@, JsonTree::Text(issuer)),
        ("authorization_endpoint"@, JsonTree::Text(issuer + "/oauth/authorize"@)),
        ("token_endpoint"@, JsonTree::Text(issuer + "/oauth/token"@)),
        ("registration_endpoint"@, JsonTree::Text(issuer + "/oauth/register"@)),
        ("response_types_supported"@, text_list(seq!["code"@])),
        ("grant_types_supported"@, text_list(seq!["authorization_code"@, "refresh_token"@])),
        (
            "token_endpoint_auth_methods_supported"@,
            text_list(seq!["none"@, "client_secret_post"@, "client_secret_basic"@]),
        ),
        ("code_challenge_methods_supported"@, text_list(seq!["S256"@])),
        ("scopes_supported"@, text_list(seq![SCOPE_TECH@, SCOPE_PRIVATE@])),
        ("authorization_response_iss_parameter_supported"@, JsonTree::Bool(true)),
    ]
}

pub open spec fn protected_resource_fields(issuer: Seq<char>, resource: Seq<char>) -> Seq<
    (Seq<char>, JsonTree),
> {
    seq![
        ("resource"@, JsonTree::Text(resource)),
        ("authorization_servers"@, text_list(seq![issuer])),
        ("scopes_supported"@, text_list(seq![SCOPE_TECH@, SCOPE_PRIVATE@])),
        ("bearer_methods_supported"@, text_list(seq!["header"@])),
    ]
}

pub proof fn lemma_authorization_server_names(issuer: Seq<char>)
    ensures
        distinct_names(authorization_server_fields(issuer)),
{
    reveal_strlit("issuer");
    reveal_strlit("authorization_endpoint");
    reveal_strlit("token_endpoint");
    reveal_strlit("registration_endpoint");
    reveal_strlit("response_types_supported");
    reveal_strlit("grant_types_supported");
    reveal_strlit("token_endpoint_auth_methods_supported");
    reveal_strlit("code_challenge_methods_supported");
    reveal_strlit("scopes_supported");
    reveal_strlit("authorization_response_iss_parameter_supported");
    assert("issuer"@.len() == 6);
    assert("authorization_endpoint"@.len() == 22);
    assert("token_endpoint"@.len() == 14);
    assert("registration_endpoint"@.len() == 21 && "registration_endpoint"@[0] == 'r');
    assert("response_types_supported"@.len() == 24);
    assert("grant_types_supported"@.len() == 21 && "grant_types_supported"@[0] == 'g');
    assert("token_endpoint_auth_methods_supported"@.len() == 37);
    assert("code_challenge_methods_supported"@.len() == 32);
    assert("scopes_supported"@.len() == 16);
    assert("authorization_response_iss_parameter_supported"@.len() == 46);
}

pub proof fn lemma_protected_resource_names(issuer: Seq<char>, resource: Seq<char>)
    ensures
        distinct_names(protected_resource_fields(issuer, resource)),
{
    reveal_strlit("resource");
    reveal_strlit("authorization_servers");
    reveal_strlit("scopes_supported");
    reveal_strlit("bearer_methods_supported");
    assert("resource"@.len() == 8);
    assert("authorization_servers"@.len() == 21);
    assert("scopes_supported"@.len() == 16);
    assert("bearer_methods_supported"@.len() == 24);
}

fn one(a: &str) -> (r: Vec<String>)
    ensures
        texts(r@) == seq![a@],
{
    let mut out: Vec<String> = Vec::new();
    out.push(a.to_owned());
    proof {
        assert(texts(out@) =~= seq![a@]);
    }
    out
}

fn two(a: &str, b: &str) -> (r: Vec<String>)
    ensures
        texts(r@) == seq![a@, b@],
{
    let mut out: Vec<String> = Vec::new();
    out.push(a.to_owned());
    out.push(b.to_owned());
    proof {
        assert(texts(out@) =~= seq![a@, b@]);
    }
    out
}

fn three(a: &str, b: &str, c: &str) -> (r: Vec<String>)
    ensures
        texts(r@) == seq![a@, b@, c@],
{
    let mut out: Vec<String> = Vec::new();
    out.push(a.to_owned());
    out.push(b.to_owned());
    out.push(c.to_owned());
    proof {
        assert(texts(out@) =~= seq![a@, b@, c@]);
    }
    out
}

/// Authorization server metadata.
pub fn authorization_server(issuer: &str) -> (r: serde_json::Value)
    ensures
        json_tree(r) == JsonTree::Object(authorization_server_fields(issuer@)),
{
    let fields: Vec<(String, serde_json::Value)> = Vec::new();
    proof {
        assert(field_trees(fields@) =~= Seq::empty());
    }
    let fields = with_text(fields, "issuer", issuer);
    let fields = with_text(
        fields,
        "authorization_endpoint",
        joined(issuer, "/oauth/authorize").as_str(),
    );
    let fields = with_text(fields, "token_endpoint", joined(issuer, "/oauth/token").as_str());
    let fields = with_text(
        fields,
        "registration_endpoint",
        joined(issuer, "/oauth/register").as_str(),
    );
    let fields = with_texts(fields, "response_types_supported", &one("code"));
    let fields = with_texts(
        fields,
        "grant_types_supported",
        &two("authorization_code", "refresh_token"),
    );
    let fields = with_texts(
        fields,
        "token_endpoint_auth_methods_supported",
        &three("none", "client_secret_post", "client_secret_basic"),
    );
    let fields = with_texts(fields, "code_challenge_methods_supported", &one("S256"));
    let fields = with_texts(fields, "scopes_supported", &two(SCOPE_TECH, SCOPE_PRIVATE));
    let fields = with_flag(fields, "authorization_response_iss_parameter_supported", true);
    proof {
        assert(field_trees(fields@) =~= authorization_server_fields(issuer@));
        lemma_authorization_server_names(issuer@);
    }
    json_value(Json::Object(fields))
}

/// Protected resource metadata.
pub fn protected_resource(issuer: &str, resource: &str) -> (r: serde_json::Value)
    ensures
        json_tree(r) == JsonTree::Object(protected_resource_fields(issuer@, resource@)),
{
    let fields: Vec<(String, serde_json::Value)> = Vec::new();
    proof {
        assert(field_trees(fields@) =~= Seq::empty());
    }
    let fields = with_text(fields, "resource", resource);
    let fields = with_texts(fields, "authorization_servers", &one(issuer));
    let fields = with_texts(fields, "scopes_supported", &two(SCOPE_TECH, SCOPE_PRIVATE));
    let fields = with_texts(fields, "bearer_methods_supported", &one("header"));
    proof {
        assert(field_trees(fields@) =~= protected_resource_fields(issuer@, resource@));
        lemma_protected_resource_names(issuer@, resource@);
    }
    json_value(Json::Object(fields))
}

} // verus!
