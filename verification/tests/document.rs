use engram_mcp::auth::AccessScope;
use engram_mcp::config::ScopeDirectories;
use engram_mcp::document::{
    front_matter_block, map_open_error, read_utf8_limited, DocumentId, DocumentStore, FileOutcome,
    FrontMatter, OpenError, RootOutcome, StoreError, WalkEntry,
};
use engram_mcp::order::TextSet;

const OWNERSHIP: &str =
    "---\ntitle: Ownership\ndescription: Rust ownership note\nupdated: 2026-08-12\n---\n\nOwned data.\n";

fn yaml(block: &str) -> Option<FrontMatter> {
    let value: serde_yaml::Value = serde_yaml::from_str(block).ok()?;
    let text = |name: &str| value.get(name).and_then(|v| v.as_str()).map(str::to_owned);
    Some(FrontMatter {
        title: text("title"),
        description: text("description"),
        updated: text("updated"),
    })
}

fn store_of(max_read_bytes: usize) -> DocumentStore {
    let root = RootOutcome::Ready("/srv/kb".to_owned());
    DocumentStore::new(root, max_read_bytes, 1_024, ScopeDirectories::default()).unwrap()
}

fn store() -> DocumentStore {
    store_of(1_024)
}

fn id(text: &str) -> DocumentId {
    DocumentId::parse(text).unwrap()
}

fn contents(text: &str) -> FileOutcome {
    FileOutcome::Contents(text.as_bytes().to_vec())
}

fn walked(path: &str) -> WalkEntry {
    WalkEntry::File {
        extension: path.rsplit_once('.').map(|(_, extension)| extension.to_owned()),
        names: Some(path.split('/').map(str::to_owned).collect()),
    }
}

fn set(names: &[&str]) -> TextSet {
    TextSet::from_texts(&names.iter().map(|name| (*name).to_owned()).collect())
}

#[test]
fn rejects_path_traversal_and_non_markdown_ids() {
    for invalid in ["../etc/passwd", "/etc/passwd", "C:\\secret.md", "note.txt", ".hidden.md"] {
        assert!(matches!(DocumentId::parse(invalid), Err(StoreError::InvalidDocumentId)));
    }
}

#[test]
fn identifiers_are_plain_relative_paths() {
    for invalid in ["", "./a.md", "a/../b.md", "a/.git/b.md", "a\0.md", "a/.md", "a.md/b"] {
        assert!(DocumentId::parse(invalid).is_err());
    }
    for valid in ["a.md", "a//b.md", "a/./b.md", "a/b.md/", "a b/c.d.md"] {
        assert!(DocumentId::parse(valid).is_ok());
    }
    assert!(DocumentId::parse(&format!("{}.md", "x".repeat(509))).is_ok());
    assert!(DocumentId::parse(&format!("{}.md", "x".repeat(510))).is_err());
    let note = id("10_tech/rust/ownership.md");
    assert_eq!(note.as_str(), "10_tech/rust/ownership.md");
    assert_eq!(note.path(), "10_tech/rust/ownership.md");
    assert_eq!(note.top_level().as_deref(), Some("10_tech"));
}

#[test]
fn allows_only_scope_roots() {
    let store = store();
    let tech = id("10_tech/rust/ownership.md");
    let private = id("90_private/diary.md");
    assert!(store.is_allowed(AccessScope::Tech, &tech));
    assert!(!store.is_allowed(AccessScope::Tech, &private));
    assert!(store.is_allowed(AccessScope::Private, &private));
}

#[test]
fn directories_that_are_not_listed_are_out_of_sight() {
    let store = store();
    for scope in [AccessScope::Tech, AccessScope::Private] {
        assert!(store.is_allowed(scope, &id("INDEX.md")));
        assert!(!store.is_allowed(scope, &id("99_inbox/note.md")));
        assert!(!store.is_allowed(scope, &id("OTHER.md")));
    }
}

#[test]
fn hides_private_documents_from_tech_scope() {
    let private = id("90_private/diary.md");
    assert!(matches!(
        store().read(AccessScope::Tech, &private, contents("Private note\n"), &yaml),
        Err(StoreError::NotFound)
    ));
    assert_eq!(
        store()
            .read(AccessScope::Private, &private, contents("Private note\n"), &yaml)
            .unwrap()
            .text,
        "Private note\n"
    );
}

#[test]
fn reads_front_matter_metadata() {
    let document = store()
        .read(AccessScope::Tech, &id("10_tech/rust/ownership.md"), contents(OWNERSHIP), &yaml)
        .unwrap();
    assert_eq!(document.metadata.title, "Ownership");
    assert_eq!(document.metadata.description, "Rust ownership note");
    assert_eq!(document.metadata.updated.as_deref(), Some("2026-08-12"));
}

#[test]
fn a_title_falls_back_to_the_file_name() {
    let note = id("10_tech/rust/ownership.md");
    for text in ["Owned data.\n", "---\ndescription: d\n---\n", "---\n[broken\n---\n", "---\ntitle: x\n"] {
        let document = store().read(AccessScope::Tech, &note, contents(text), &yaml).unwrap();
        assert_eq!(document.metadata.title, "ownership");
    }
    assert_eq!(front_matter_block("---\na: 1\n---\nrest").as_deref(), Some("a: 1"));
    assert_eq!(front_matter_block("a: 1\n---\n"), None);
}

#[test]
fn truncates_without_breaking_utf8() {
    let text = format!("{}😀xyz", "a".repeat(62));
    let document = store_of(64)
        .read(AccessScope::Tech, &id("10_tech/rust/utf8.md"), contents(&text), &yaml)
        .unwrap();
    assert!(document.truncated);
    assert_eq!(document.text, "a".repeat(62));
}

#[test]
fn a_limit_is_reached_only_beyond_it() {
    assert!(matches!(read_utf8_limited(b"abcd".to_vec(), 4), Ok((text, false)) if text == "abcd"));
    assert!(matches!(read_utf8_limited(b"abcde".to_vec(), 4), Ok((text, true)) if text == "abcd"));
    assert!(matches!(read_utf8_limited(vec![b'a', 0xff, b'b'], 4), Err(StoreError::InvalidUtf8)));
}

#[test]
fn rejects_symbolic_links() {
    assert!(matches!(
        store().read(
            AccessScope::Tech,
            &id("10_tech/rust/link.md"),
            FileOutcome::OpenFailed(OpenError::Loop),
            &yaml,
        ),
        Err(StoreError::NotFound)
    ));
}

#[test]
fn rejects_fifo_without_blocking() {
    assert!(matches!(
        store().read(
            AccessScope::Tech,
            &id("10_tech/rust/stream.md"),
            FileOutcome::NotRegular,
            &yaml,
        ),
        Err(StoreError::NotFound)
    ));
}

#[test]
fn failures_to_open_are_told_apart() {
    assert_eq!(map_open_error(OpenError::NotFound), StoreError::NotFound);
    assert_eq!(map_open_error(OpenError::NotADirectory), StoreError::NotFound);
    assert_eq!(map_open_error(OpenError::Loop), StoreError::NotFound);
    assert_eq!(map_open_error(OpenError::CrossDevice), StoreError::NotFound);
    assert_eq!(map_open_error(OpenError::Other), StoreError::Io);
    let read = |file: FileOutcome| {
        store().read(AccessScope::Tech, &id("10_tech/a.md"), file, &yaml).err()
    };
    assert_eq!(read(FileOutcome::Unavailable), Some(StoreError::SafeOpenUnavailable));
    assert_eq!(read(FileOutcome::ReadFailed), Some(StoreError::Io));
    assert_eq!(read(FileOutcome::Contents(vec![0xff, 0xff])), Some(StoreError::InvalidUtf8));
}

#[test]
fn uses_configured_scope_directories_for_read_and_search_candidates() {
    let directories = ScopeDirectories::new(set(&["docs"]), set(&["personal"])).unwrap();
    let root = RootOutcome::Ready("/srv/kb".to_owned());
    let store = DocumentStore::new(root, 1_024, 1_024, directories).unwrap();
    let public_id = id("docs/rust/note.md");
    let private_id = id("personal/note.md");

    assert!(store.is_allowed(AccessScope::Tech, &public_id));
    assert!(!store.is_allowed(AccessScope::Tech, &private_id));
    assert!(store.is_allowed(AccessScope::Private, &private_id));
    assert_eq!(store.search_roots(AccessScope::Tech), vec!["docs"]);
    assert_eq!(store.search_roots(AccessScope::Private), vec!["docs", "personal"]);
    assert_eq!(
        store
            .candidate_ids(AccessScope::Tech, false, &|directory: &str| match directory {
                "docs" => vec![walked("docs/rust/note.md")],
                _ => vec![walked("personal/note.md")],
            })
            .unwrap()
            .into_iter()
            .map(|id| id.as_str().to_owned())
            .collect::<Vec<_>>(),
        vec!["docs/rust/note.md"]
    );
}

#[test]
fn candidates_are_markdown_files_in_order() {
    let entries = vec![
        walked("20_projects/b.md"),
        walked("10_tech/z.md"),
        walked("10_tech/image.png"),
        WalkEntry::NotAFile,
        walked("10_tech/a.md"),
        walked("10_tech/a.md"),
    ];
    let ids: Vec<String> = store()
        .candidates_among(true, &entries)
        .unwrap()
        .into_iter()
        .map(|id| id.as_str().to_owned())
        .collect();
    assert_eq!(ids, vec!["10_tech/a.md", "10_tech/z.md", "20_projects/b.md", "INDEX.md"]);
    assert_eq!(
        store().candidates_among(true, &vec![WalkEntry::Failed]).err(),
        Some(StoreError::Io)
    );
    assert_eq!(
        store().candidates_among(true, &vec![walked("10_tech/.hidden.md")]).err(),
        Some(StoreError::InvalidDocumentId)
    );
    let outside = WalkEntry::File { extension: Some("md".to_owned()), names: None };
    assert_eq!(store().candidates_among(true, &vec![outside]).err(), Some(StoreError::NotFound));
}

#[test]
fn candidates_of_a_scope_are_visible_to_it() {
    let found = |scope: AccessScope| -> Vec<DocumentId> {
        let walk = |directory: &str| {
            vec![walked(&format!("{directory}/b.md")), walked(&format!("{directory}/a.md"))]
        };
        store().candidate_ids(scope, true, &walk).unwrap()
    };
    let public = found(AccessScope::Tech);
    let all = found(AccessScope::Private);
    let names = |ids: &Vec<DocumentId>| -> Vec<String> {
        ids.iter().map(|id| id.as_str().to_owned()).collect()
    };
    assert!(public.iter().all(|id| store().is_allowed(AccessScope::Tech, id)));
    assert!(all.iter().all(|id| store().is_allowed(AccessScope::Private, id)));
    assert!(names(&public).iter().all(|id| names(&all).contains(id)));
    assert!(names(&all).windows(2).all(|pair| pair[0] < pair[1]));
    assert_eq!(names(&all).len(), names(&public).len() + 2);
    assert!(names(&public).contains(&"INDEX.md".to_owned()));
}

#[test]
fn a_root_has_to_be_a_directory() {
    let make = |root: RootOutcome| {
        DocumentStore::new(root, 1, 1, ScopeDirectories::default()).err()
    };
    assert_eq!(make(RootOutcome::Unavailable), Some(StoreError::Io));
    assert!(make(RootOutcome::NotADirectory).is_some());
    assert_eq!(store().root(), "/srv/kb");
    assert_eq!(store().max_search_file_bytes(), 1_024);
}
