use engram_mcp::audit::AuditContext;
use engram_mcp::auth::{
    AccessScope, Authenticator, CredentialId, HeaderValue, RateLimiter, RequestHeaders,
    WriteRateLimiter,
};
use engram_mcp::config::ScopeDirectories;
use engram_mcp::document::{
    DocumentId, DocumentMetadata, DocumentStore, FetchedDocument, FileOutcome, FrontMatter,
    RootOutcome, StoreError,
};
use engram_mcp::http::{
    admit_request, Admission, RouterError, CACHE_CONTROL, MAX_CONCURRENT_REQUESTS,
    MAX_REQUEST_BODY_BYTES,
};
use engram_mcp::inbox::{
    CreateOutcome, CreatedNote, InboxDirectory, InboxError, InboxStore, NoteStep,
};
use engram_mcp::oauth::OAuthError;
use engram_mcp::server::{
    fetch_outcome, fetch_response, fetch_target, request_context, search_outcome, AppendStep,
    KnowledgeBaseServer, RequestParts, ToolAnswer, ToolOutcome,
};

/// 2026-08-13T03:45:00Z
const SAMPLE_TIME: i64 = 1_786_592_700;

fn yaml(block: &str) -> Option<FrontMatter> {
    let value: serde_yaml::Value = serde_yaml::from_str(block).ok()?;
    let text = |name: &str| value.get(name).and_then(|v| v.as_str()).map(str::to_owned);
    Some(FrontMatter {
        title: text("title"),
        description: text("description"),
        updated: text("updated"),
    })
}

fn store() -> DocumentStore {
    let root = RootOutcome::Ready("/kb".to_owned());
    DocumentStore::new(root, 65_536, 1_048_576, ScopeDirectories::default()).unwrap()
}

fn inbox_of(max_note_bytes: usize, max_total_bytes: u64) -> InboxStore {
    let directory = InboxDirectory::Found {
        root: "/kb/99_inbox".to_owned(),
        kb_root: Some("/kb".to_owned()),
        writable: true,
        opened: true,
    };
    InboxStore::open(directory, max_note_bytes, max_total_bytes).unwrap()
}

fn server_with(inbox: InboxStore, writes_per_hour: u32) -> KnowledgeBaseServer {
    KnowledgeBaseServer::new(store(), 24_576, Some((inbox, WriteRateLimiter::new(writes_per_hour))))
}

fn server() -> KnowledgeBaseServer {
    server_with(inbox_of(32_768, 8_388_608), 10)
}

fn context(scope: AccessScope) -> AuditContext {
    AuditContext { request_id: 7, credential_fingerprint: "0123456789abcdef".to_owned(), scope }
}

fn files() -> Vec<(&'static str, &'static str)> {
    vec![
        (
            "10_tech/rust/needle.md",
            "---\ntitle: Public needle\ndescription: Public search result\n---\nneedle body\n",
        ),
        ("90_private/secret.md", "---\ntitle: Private note\n---\nprivate-only-term\n"),
    ]
}

fn open(id: &DocumentId) -> FileOutcome {
    let (_, text) = files().into_iter().find(|(name, _)| *name == id.path()).unwrap();
    FileOutcome::Contents(text.as_bytes().to_vec())
}

fn search(server: &KnowledgeBaseServer, scope: AccessScope, query: &str) -> ToolOutcome {
    let list = || files().into_iter().map(|(id, _)| DocumentId::parse(id)).collect();
    server.search(scope, &context(scope), query, None, &list, &open, &yaml)
}

fn fetch(server: &KnowledgeBaseServer, scope: AccessScope, id: &str) -> ToolOutcome {
    let target = match fetch_target(id) {
        Ok(target) => target,
        Err(outcome) => return outcome,
    };
    let file = match files().into_iter().find(|(name, _)| *name == id) {
        Some((_, text)) => FileOutcome::Contents(text.as_bytes().to_vec()),
        None => FileOutcome::NotRegular,
    };
    server.fetch(scope, &context(scope), &target, file, &yaml)
}

fn append(
    server: &mut KnowledgeBaseServer,
    scope: AccessScope,
    title: &str,
    body: &str,
    used: u64,
) -> (ToolOutcome, Option<(String, String)>) {
    let context = context(scope);
    let draft = match server.append_note(scope, &context, title, body, None, SAMPLE_TIME, 0) {
        AppendStep::Answer(outcome) => return (outcome, None),
        AppendStep::Store(draft) => draft,
    };
    let attempted = body.len() as u64;
    let attempt = match server.admit_note(draft, Ok(used)) {
        Ok(attempt) => attempt,
        Err(error) => return (server.append_note_outcome(&context, Err(error), attempted), None),
    };
    let written = (attempt.file_name(), attempt.contents().to_owned());
    let NoteStep::Done(note) = attempt.after(CreateOutcome::Written) else {
        panic!("a note that was written is done");
    };
    (server.append_note_outcome(&context, Ok(note), attempted), Some(written))
}

fn value(outcome: &ToolOutcome) -> serde_json::Value {
    match &outcome.answer {
        ToolAnswer::Structured { value, text } => {
            assert_eq!(*text, serde_json::to_string(value).unwrap());
            value.clone()
        }
        _ => panic!("a result was expected"),
    }
}

fn error(outcome: &ToolOutcome) -> serde_json::Value {
    match &outcome.answer {
        ToolAnswer::StructuredError(value) => value.clone(),
        _ => panic!("a refusal was expected"),
    }
}

fn invalid(outcome: &ToolOutcome) -> &'static str {
    match outcome.answer {
        ToolAnswer::InvalidParams(message) => message,
        _ => panic!("the call was expected to be invalid"),
    }
}

fn recorded(outcome: &ToolOutcome) -> &'static str {
    outcome.record.as_ref().unwrap().outcome
}

#[test]
fn append_note_needs_both_a_private_scope_and_an_inbox() {
    let without_inbox = KnowledgeBaseServer::new(store(), 24_576, None);
    assert!(!without_inbox.append_note_is_visible(Some(AccessScope::Private)));

    let with_inbox = server_with(inbox_of(32_768, 1_048_576), 10);
    assert!(with_inbox.append_note_is_visible(Some(AccessScope::Private)));
    assert!(!with_inbox.append_note_is_visible(Some(AccessScope::Tech)));
    assert!(!with_inbox.append_note_is_visible(None));
}

#[test]
fn fetch_response_has_the_public_contract_shape() {
    let id = DocumentId::parse("10_tech/rust/example.md").unwrap();
    let value = fetch_response(&FetchedDocument {
        id,
        text: "body".into(),
        metadata: DocumentMetadata {
            title: "Example".into(),
            description: "Description".into(),
            updated: Some("2026-08-12".into()),
        },
        truncated: false,
    });
    assert_eq!(value["title"], "Example");
    assert_eq!(value["metadata"]["path"], "10_tech/rust/example.md");
    assert_eq!(
        serde_json::to_string(&value).unwrap(),
        "{\"id\":\"10_tech/rust/example.md\",\"title\":\"Example\",\"text\":\"body\",\"metadata\":{\"path\":\"10_tech/rust/example.md\",\"description\":\"Description\",\"updated\":\"2026-08-12\"},\"truncated\":false}"
    );
}

#[test]
fn a_missing_key_is_unauthorized_and_answers_are_not_cached() {
    let auth = Authenticator::new(b"tech-secret", b"private-secret");
    let mut limiter = RateLimiter::new(600, 10);
    let headers =
        RequestHeaders { authorization: HeaderValue::Absent, api_key: HeaderValue::Absent };
    let admission = admit_request(&auth, &mut limiter, "u", 1, &headers, 0, 0);
    assert!(matches!(admission, Admission::Rejected { status: 401, .. }));
    assert_eq!(CACHE_CONTROL, "no-store");
}

#[test]
fn tech_scope_lists_only_search_then_fetch() {
    assert_eq!(server().tool_names(Some(AccessScope::Tech)), vec!["search", "fetch"]);
    assert_eq!(server().tool_names(None), vec!["search", "fetch"]);
}

#[test]
fn only_the_private_scope_is_offered_append_note() {
    let tools = server().tool_names(Some(AccessScope::Private));
    assert_eq!(tools.len(), 3);
    assert_eq!(tools[2], "append_note");
}

#[test]
fn tech_scope_cannot_call_append_note_or_learn_that_it_exists() {
    let mut server = server();
    assert!(server.refuses_call("append_note", Some(AccessScope::Tech)));
    assert!(server.refuses_call("append_note", None));
    assert!(!server.refuses_call("append_note", Some(AccessScope::Private)));
    assert!(!server.refuses_call("fetch", Some(AccessScope::Tech)));
    let (denied, written) = append(&mut server, AccessScope::Tech, "Tech note", "body", 0);
    assert_eq!(invalid(&denied), "tool not found");
    assert!(denied.record.is_none());
    assert!(written.is_none());
}

#[test]
fn append_note_stores_a_server_named_markdown_file() {
    let (outcome, written) = append(
        &mut server(),
        AccessScope::Private,
        "Rust Ownership Notes",
        "unique-inbox-term in the body",
        0,
    );
    let result = value(&outcome);
    let id = result["id"].as_str().unwrap();
    assert!(id.starts_with("99_inbox/"));
    assert!(id.ends_with("-rust-ownership-notes.md"));

    let (name, stored) = written.unwrap();
    assert_eq!(format!("99_inbox/{name}"), id);
    assert!(stored.starts_with("---\ntitle: Rust Ownership Notes\n"));
    assert!(stored.contains("source: mcp:append_note"));
    assert!(stored.contains(&format!("created: {}", result["created"].as_str().unwrap())));
    assert!(stored.ends_with("unique-inbox-term in the body\n"));
    assert_eq!(result["bytes"].as_u64().unwrap(), stored.len() as u64);
    let record = outcome.record.unwrap();
    assert_eq!(record.outcome, "ok");
    assert_eq!(record.document_id, id);
    assert_eq!(record.bytes, Some(stored.len() as u64));
}

#[test]
fn an_appended_note_stays_out_of_search_and_fetch() {
    let mut server = server();
    let (created, written) =
        append(&mut server, AccessScope::Private, "Hidden Note", "unique-inbox-term", 0);
    let id = value(&created)["id"].as_str().unwrap().to_owned();
    let (_, stored) = written.unwrap();
    let file = || FileOutcome::Contents(stored.as_bytes().to_vec());

    let scope = AccessScope::Private;
    let searched = server.search(
        scope,
        &context(scope),
        "unique-inbox-term",
        None,
        &|| Ok(vec![DocumentId::parse(&id).unwrap()]),
        &|_: &DocumentId| file(),
        &yaml,
    );
    assert!(value(&searched)["results"].as_array().unwrap().is_empty());

    let Ok(target) = fetch_target(&id) else {
        panic!("the note has an identifier");
    };
    let fetched = server.fetch(scope, &context(scope), &target, file(), &yaml);
    assert_eq!(error(&fetched)["error"], "not_found");
}

#[test]
fn unavailable_inbox_costs_only_the_write_tool() {
    let mut server = KnowledgeBaseServer::new(store(), 24_576, None);
    assert_eq!(server.tool_names(Some(AccessScope::Private)).len(), 2);
    let (denied, _) = append(&mut server, AccessScope::Private, "Note", "body", 0);
    assert_eq!(invalid(&denied), "tool not found");
    let fetched = fetch(&server, AccessScope::Private, "10_tech/rust/needle.md");
    assert_eq!(value(&fetched)["title"], "Public needle");
}

#[test]
fn search_and_fetch_enforce_scope_without_private_leakage() {
    let server = server();
    let public_search = search(&server, AccessScope::Tech, "needle");
    assert_eq!(value(&public_search)["results"][0]["id"], "10_tech/rust/needle.md");
    assert_eq!(recorded(&public_search), "ok");

    let hidden_search = search(&server, AccessScope::Tech, "private-only-term");
    assert!(value(&hidden_search)["results"].as_array().unwrap().is_empty());

    let hidden_fetch = fetch(&server, AccessScope::Tech, "90_private/secret.md");
    assert_eq!(error(&hidden_fetch)["error"], "not_found");
    assert_eq!(recorded(&hidden_fetch), "not_found");

    let private_fetch = fetch(&server, AccessScope::Private, "90_private/secret.md");
    assert_eq!(value(&private_fetch)["title"], "Private note");
}

#[test]
fn blocks_path_traversal() {
    let traversal = fetch(&server(), AccessScope::Tech, "../../etc/passwd");
    assert_eq!(invalid(&traversal), "invalid document id");
}

#[test]
fn rate_limit_is_per_credential() {
    let auth = Authenticator::new(b"tech-secret", b"private-secret");
    let mut limiter = RateLimiter::new(600, 1);
    let headers = |key: &str| RequestHeaders {
        authorization: HeaderValue::Absent,
        api_key: HeaderValue::Text(key.to_owned()),
    };
    let first = admit_request(&auth, &mut limiter, "u", 1, &headers("tech-secret"), 0, 0);
    let Admission::Admitted(context) = first else {
        panic!("the first request is let through");
    };
    assert_eq!(context.request_id, 1);
    assert_eq!(context.scope, AccessScope::Tech);
    assert_eq!(context.credential_fingerprint, auth.fingerprint(CredentialId::KeyA));
    let second = admit_request(&auth, &mut limiter, "u", 2, &headers("tech-secret"), 0, 0);
    assert!(matches!(
        second,
        Admission::Rejected { status: 429, outcome: "rate_limited", challenge: None }
    ));
    let other = admit_request(&auth, &mut limiter, "u", 3, &headers("private-secret"), 0, 0);
    assert!(matches!(other, Admission::Admitted(_)));
}

#[test]
fn limits_on_requests_have_their_documented_values() {
    assert_eq!(MAX_REQUEST_BODY_BYTES, 32 * 1024);
    assert_eq!(MAX_CONCURRENT_REQUESTS, 16);
}

#[test]
fn refusals_name_the_reason_and_nothing_else() {
    let refused = |title: &str, body: &str, used: u64| {
        append(&mut server_with(inbox_of(64, 1_000), 10), AccessScope::Private, title, body, used).0
    };
    let text = |outcome: &ToolOutcome| serde_json::to_string(&error(outcome)).unwrap();
    assert_eq!(invalid(&refused("", "body", 0)), "invalid note title");
    assert_eq!(invalid(&refused("T", "", 0)), "invalid note body");
    let large = refused("T", &"x".repeat(65), 0);
    assert_eq!(text(&large), "{\"error\":\"note_too_large\",\"max_bytes\":64}");
    assert_eq!(recorded(&large), "note_too_large");
    assert_eq!(large.record.unwrap().bytes, Some(65));
    let full = refused("T", "body", 1_000);
    assert_eq!(text(&full), "{\"error\":\"quota_exceeded\"}");
    assert_eq!(full.record.unwrap().document_id, "");

    let scope = AccessScope::Private;
    let failed = server().append_note_outcome(&context(scope), Err(InboxError::Io), 4);
    assert_eq!(text(&failed), "{\"error\":\"internal_error\",\"request_id\":7}");
    let dated =
        server().append_note(scope, &context(scope), "T", "b", Some("soon"), SAMPLE_TIME, 0);
    let AppendStep::Answer(dated) = dated else {
        panic!("the date is refused");
    };
    assert_eq!(invalid(&dated), "invalid occurred date; use YYYY-MM-DD");
}

#[test]
fn writes_are_limited_whether_they_succeed_or_not() {
    let mut server = server_with(inbox_of(64, 1_000), 1);
    let (first, _) = append(&mut server, AccessScope::Private, "", "body", 0);
    assert_eq!(invalid(&first), "invalid note title");
    let (second, written) = append(&mut server, AccessScope::Private, "T", "body", 0);
    assert_eq!(
        serde_json::to_string(&error(&second)).unwrap(),
        "{\"error\":\"rate_limited\"}"
    );
    assert_eq!(recorded(&second), "rate_limited");
    assert!(written.is_none());
}

#[test]
fn failures_of_the_store_are_internal_errors() {
    let scope = AccessScope::Tech;
    let searched = search_outcome(&context(scope), Err(StoreError::InvalidQuery));
    assert_eq!(invalid(&searched), "invalid search query");
    assert_eq!(recorded(&searched), "invalid_query");
    let searched = search_outcome(&context(scope), Err(StoreError::Io));
    assert_eq!(error(&searched)["error"], "internal_error");
    let id = DocumentId::parse("10_tech/a.md").unwrap();
    let fetched = fetch_outcome(&context(scope), &id, Err(StoreError::InvalidUtf8));
    assert_eq!(error(&fetched)["error"], "internal_error");
    assert_eq!(fetched.record.unwrap().document_id, "10_tech/a.md");
    assert_eq!(server().search_budget(), 23_552);
    assert_eq!(KnowledgeBaseServer::new(store(), 1_000, None).search_budget(), 0);
}

#[test]
fn a_request_carries_who_is_asking() {
    let message = |parts: Option<RequestParts>| match request_context(parts) {
        Err(ToolAnswer::InternalError(message)) => message,
        _ => "",
    };
    assert_eq!(message(None), "request context unavailable");
    assert_eq!(
        message(Some(RequestParts { scope: None, context: None })),
        "authorization context unavailable"
    );
    let scope = AccessScope::Tech;
    assert_eq!(
        message(Some(RequestParts { scope: Some(scope), context: None })),
        "audit context unavailable"
    );
    let parts = RequestParts { scope: Some(scope), context: Some(context(scope)) };
    assert!(matches!(request_context(Some(parts)), Ok((AccessScope::Tech, _))));
}

#[test]
fn a_server_that_does_not_start_says_in_what() {
    assert_eq!(
        RouterError::Store(StoreError::Io).message(),
        "knowledge-base initialization failed"
    );
    assert_eq!(
        RouterError::OAuth(OAuthError::InvalidConfiguration).message(),
        "OAuth initialization failed"
    );
    let note = CreatedNote { id: "i".into(), bytes: 1, created: "c".into() };
    let outcome = server().append_note_outcome(&context(AccessScope::Private), Ok(note), 1);
    assert_eq!(
        serde_json::to_string(&value(&outcome)).unwrap(),
        "{\"id\":\"i\",\"created\":\"c\",\"bytes\":1}"
    );
}
