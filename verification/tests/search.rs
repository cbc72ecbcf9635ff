use engram_mcp::auth::AccessScope;
use engram_mcp::config::ScopeDirectories;
use engram_mcp::document::{
    DocumentId, DocumentStore, FileOutcome, FrontMatter, RootOutcome, StoreError,
};
use engram_mcp::search::{parse_terms, snippet, SearchResponse};

fn yaml(block: &str) -> Option<FrontMatter> {
    let value: serde_yaml::Value = serde_yaml::from_str(block).ok()?;
    let text = |name: &str| value.get(name).and_then(|v| v.as_str()).map(str::to_owned);
    Some(FrontMatter {
        title: text("title"),
        description: text("description"),
        updated: text("updated"),
    })
}

fn store(max_search_file_bytes: usize) -> DocumentStore {
    DocumentStore::new(
        RootOutcome::Ready("/srv/kb".to_owned()),
        65_536,
        max_search_file_bytes,
        ScopeDirectories::default(),
    )
    .unwrap()
}

fn search(
    store: &DocumentStore,
    scope: AccessScope,
    query: &str,
    limit: Option<usize>,
    max_response_bytes: usize,
    files: &[(&str, &str)],
) -> Result<SearchResponse, StoreError> {
    let list = || files.iter().map(|(id, _)| DocumentId::parse(id)).collect();
    let open = |id: &DocumentId| {
        let (_, text) = files.iter().find(|(name, _)| *name == id.path()).unwrap();
        FileOutcome::Contents(text.as_bytes().to_vec())
    };
    store.search(scope, query, limit, max_response_bytes, &list, &open, &yaml)
}

fn ids(response: &SearchResponse) -> Vec<&str> {
    response.results.iter().map(|result| result.id.as_str()).collect()
}

#[test]
fn search_is_scoped_and_sorted() {
    let response = search(
        &store(1_024),
        AccessScope::Tech,
        "ownership",
        None,
        24_576,
        &[
            ("10_tech/rust/ownership.md", "# Ownership\nRust ownership rules\n"),
            ("20_projects/demo/notes.md", "# Demo\nOwnership in a project note\n"),
            ("90_private/secret.md", "ownership secret\n"),
        ],
    )
    .unwrap();
    assert_eq!(ids(&response), vec!["10_tech/rust/ownership.md", "20_projects/demo/notes.md"]);
}

#[test]
fn search_never_exposes_private_matches_to_tech_scope() {
    let response = search(
        &store(1_024),
        AccessScope::Tech,
        "sensitive-only-term",
        None,
        24_576,
        &[("90_private/secret.md", "sensitive-only-term\n")],
    )
    .unwrap();
    assert!(response.results.is_empty());
}

#[test]
fn rejects_empty_and_oversized_queries() {
    let store = store(1_024);
    assert!(search(&store, AccessScope::Tech, "  ", None, 24_576, &[]).is_err());
    assert!(search(&store, AccessScope::Tech, &"a".repeat(257), None, 24_576, &[]).is_err());
}

#[test]
fn a_query_has_up_to_256_characters_besides_white_space() {
    let query = "あ".repeat(100);
    assert_eq!(parse_terms(&query), Ok(vec![query]));
    let longest = "ü".repeat(256);
    assert_eq!(parse_terms(&longest), Ok(vec![longest]));
    let spaced = format!("{}\t \n", "a ".repeat(256));
    assert_eq!(parse_terms(&spaced), Ok(vec!["a".to_owned(); 256]));
    assert_eq!(parse_terms(&"a ".repeat(257)), Err(StoreError::InvalidQuery));
    assert_eq!(parse_terms(&"あ".repeat(257)), Err(StoreError::InvalidQuery));
    assert_eq!(parse_terms(&" ".repeat(1_000)), Err(StoreError::InvalidQuery));
}

#[test]
fn the_file_of_a_hidden_document_is_not_opened() {
    let open = |_: &DocumentId| panic!("a hidden document is not opened");
    let hidden = || Ok(vec![DocumentId::parse("90_private/secret.md").unwrap()]);
    let response = store(1_024)
        .search(AccessScope::Tech, "secret", None, 24_576, &hidden, &open, &yaml)
        .unwrap();
    assert!(response.results.is_empty());
}

#[test]
fn nothing_is_listed_for_a_query_that_is_not_valid() {
    let list = || panic!("no documents are listed");
    let open = |_: &DocumentId| FileOutcome::NotRegular;
    for (query, limit) in [("  ", None), ("a", Some(21))] {
        let answer =
            store(1_024).search(AccessScope::Tech, query, limit, 24_576, &list, &open, &yaml);
        assert_eq!(answer.err(), Some(StoreError::InvalidQuery));
    }
}

#[test]
fn limits_run_from_one_to_twenty() {
    let store = store(1_024);
    for wrong in [0, 21] {
        assert_eq!(
            search(&store, AccessScope::Tech, "a", Some(wrong), 24_576, &[]).err(),
            Some(StoreError::InvalidQuery)
        );
    }
    let files = [("10_tech/a.md", "x"), ("10_tech/b.md", "x"), ("10_tech/c.md", "x")];
    let response = search(&store, AccessScope::Tech, "x", Some(2), 24_576, &files).unwrap();
    assert_eq!(ids(&response), vec!["10_tech/a.md", "10_tech/b.md"]);
    assert!(response.truncated);
    let all = search(&store, AccessScope::Tech, "x", Some(3), 24_576, &files).unwrap();
    assert_eq!(all.results.len(), 3);
    assert!(!all.truncated);
}

#[test]
fn honors_response_size_cap() {
    let text = format!("needle {}\n", "x".repeat(300)).repeat(3);
    let response = search(
        &store(65_536),
        AccessScope::Tech,
        "needle",
        None,
        200,
        &[("10_tech/long.md", &text)],
    )
    .unwrap();
    assert!(response.truncated);
    assert!(response.results.is_empty());
}

#[test]
fn titles_count_for_more_than_texts() {
    let response = search(
        &store(1_024),
        AccessScope::Tech,
        "borrow",
        None,
        24_576,
        &[
            ("10_tech/a.md", "borrow in the text only\n"),
            ("10_tech/b.md", "---\ntitle: Borrow checker\n---\ntext\n"),
        ],
    )
    .unwrap();
    assert_eq!(ids(&response), vec!["10_tech/b.md", "10_tech/a.md"]);
}

#[test]
fn every_term_has_to_occur_whatever_its_case() {
    let files = [("10_tech/a.md", "ÄRGER and More\n"), ("10_tech/b.md", "ärger alone\n")];
    let response =
        search(&store(1_024), AccessScope::Tech, "Ärger MORE", None, 24_576, &files).unwrap();
    assert_eq!(ids(&response), vec!["10_tech/a.md"]);
    assert_eq!(parse_terms("  Ärger\tMORE ").unwrap(), vec!["ärger", "more"]);
}

#[test]
fn a_snippet_shows_the_lines_around_the_first_term() {
    let text = "one\ntwo\nthree needle\nfour\nfive\nsix\n";
    assert_eq!(
        snippet(text, "needle"),
        ("one\ntwo\nthree needle\nfour\nfive".to_owned(), 1, 5)
    );
    assert_eq!(snippet(text, "six"), ("four\nfive\nsix".to_owned(), 4, 6));
    assert_eq!(snippet(text, "absent"), ("one\ntwo\nthree needle".to_owned(), 1, 3));
    let (shown, _, _) = snippet(&"n".repeat(2_000), "n");
    assert_eq!(shown, format!("{}…", "n".repeat(600)));
}

#[test]
fn a_document_that_is_gone_is_passed_over_and_an_error_ends_the_search() {
    let store = store(1_024);
    let contents = || FileOutcome::Contents(b"needle".to_vec());
    let both = || ["10_tech/a.md", "10_tech/b.md"].iter().map(|id| DocumentId::parse(id)).collect();
    let gone = |id: &DocumentId| match id.path() {
        "10_tech/a.md" => FileOutcome::NotRegular,
        _ => contents(),
    };
    let found = store.search(AccessScope::Tech, "needle", None, 24_576, &both, &gone, &yaml);
    assert_eq!(ids(&found.unwrap()), vec!["10_tech/b.md"]);
    let closed = |_: &DocumentId| FileOutcome::Unavailable;
    let failed = store.search(AccessScope::Tech, "needle", None, 24_576, &both, &closed, &yaml);
    assert_eq!(failed.err(), Some(StoreError::SafeOpenUnavailable));
    let unlisted = store.search(
        AccessScope::Tech,
        "needle",
        None,
        24_576,
        &|| Err(StoreError::Io),
        &gone,
        &yaml,
    );
    assert_eq!(unlisted.err(), Some(StoreError::Io));
}

#[test]
fn a_response_is_written_as_json() {
    let response = search(
        &store(1_024),
        AccessScope::Tech,
        "needle",
        None,
        24_576,
        &[("10_tech/a.md", "---\ntitle: T\ndescription: D\n---\nneedle\n")],
    )
    .unwrap();
    let value = response.to_json();
    assert_eq!(value["truncated"], serde_json::Value::Bool(false));
    assert_eq!(value["results"][0]["id"], "10_tech/a.md");
    assert_eq!(value["results"][0]["title"], "T");
    assert_eq!(value["results"][0]["metadata"]["path"], "10_tech/a.md");
    assert_eq!(value["results"][0]["metadata"]["description"], "D");
    assert_eq!(
        serde_json::to_string(&value["results"][0]["metadata"]["line_start"]).unwrap(),
        response.results[0].metadata.line_start.to_string()
    );
}
