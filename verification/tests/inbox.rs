use std::cell::RefCell;
use std::collections::BTreeMap;

use engram_mcp::calendar::{civil_from_days, rfc3339_utc, utc_parts};
use engram_mcp::inbox::{
    is_safe_file_name, normalize_title, note_file_name, render_note, slug, used_bytes,
    validate_body, validate_occurred, CreateOutcome, CreatedNote, InboxDirectory, InboxEntry,
    InboxError, InboxStore, NoteStep, FALLBACK_SLUG, MAX_NAME_ATTEMPTS, MAX_SLUG_CHARS, NOTE_SOURCE,
};

const FINGERPRINT: &str = "0123456789abcdef";

/// 2026-08-13T03:45:00Z
const SAMPLE_TIME: i64 = 1_786_592_700;

fn found(root: &str, kb_root: &str) -> InboxDirectory {
    InboxDirectory::Found {
        root: root.to_owned(),
        kb_root: Some(kb_root.to_owned()),
        writable: true,
        opened: true,
    }
}

fn open(max_note_bytes: usize, max_total_bytes: u64) -> InboxStore {
    InboxStore::open(found("/kb/99_inbox", "/kb"), max_note_bytes, max_total_bytes).unwrap()
}

fn store() -> InboxStore {
    open(32_768, 1_048_576)
}

/// Files a note in a directory that is kept in memory. What stands in it is
/// never replaced.
fn file(
    store: &InboxStore,
    files: &mut BTreeMap<String, String>,
    title: &str,
    body: &str,
) -> Result<CreatedNote, InboxError> {
    let draft = store.create_note(title, body, None, FINGERPRINT, SAMPLE_TIME)?;
    let entries = files
        .iter()
        .map(|(name, text)| InboxEntry::Named {
            name: name.as_bytes().to_vec(),
            stat: Some((true, text.len() as i64)),
        })
        .collect();
    let attempt = store.admit_note(draft, used_bytes(&entries)?)?;
    let files = RefCell::new(files);
    let create = |name: &str, contents: &str| {
        let mut files = files.borrow_mut();
        if files.contains_key(name) {
            return CreateOutcome::Taken;
        }
        files.insert(name.to_owned(), contents.to_owned());
        CreateOutcome::Written
    };
    attempt.file(&create)
}

#[test]
fn converts_days_to_calendar_dates() {
    assert_eq!(civil_from_days(0), (1970, 1, 1));
    assert_eq!(civil_from_days(-1), (1969, 12, 31));
    assert_eq!(utc_parts(951_782_400).0, 2000);
    assert_eq!(utc_parts(951_782_400).1, 2);
    assert_eq!(utc_parts(951_782_400).2, 29);
    // 2100 is not a leap year: 2100-02-28 + 1 day is 2100-03-01.
    assert_eq!(civil_from_days(47_540), (2100, 2, 28));
    assert_eq!(civil_from_days(47_541), (2100, 3, 1));
    assert_eq!(rfc3339_utc(SAMPLE_TIME), "2026-08-13T03:45:00Z");
}

#[test]
fn builds_slugs_from_titles_the_client_controls() {
    assert_eq!(slug("Rust Ownership Notes"), "rust-ownership-notes");
    assert_eq!(slug("  ../../etc/passwd  "), "etc-passwd");
    assert_eq!(slug("a__b--c"), "a-b-c");
    // A title with no ASCII alphanumerics still yields a usable name.
    assert_eq!(slug("所有権のメモ"), FALLBACK_SLUG);
    assert_eq!(slug("---"), FALLBACK_SLUG);
    let long = slug(&"ab".repeat(60));
    assert_eq!(long.len(), MAX_SLUG_CHARS);
    assert!(!long.ends_with('-'));
}

#[test]
fn slugs_are_tidy_stay_as_they_are_and_ignore_case() {
    for title in ["  --Rust  &  Ownership!--", "ÄÖÜ 12", "x", "-a-", "ab".repeat(60).as_str()] {
        let made = slug(title);
        assert!((1..=MAX_SLUG_CHARS).contains(&made.len()));
        assert!(!made.starts_with('-') && !made.ends_with('-') && !made.contains("--"));
        assert_eq!(slug(&made), made);
        assert_eq!(slug(&title.to_ascii_uppercase()), made);
    }
    assert_eq!(slug("  --Rust  &  Ownership!--"), "rust-ownership");
    // A dash is not left where the slug is cut.
    assert_eq!(slug(&format!("{} b", "a".repeat(39))), "a".repeat(39));
}

#[test]
fn names_sort_by_time() {
    let times =
        [0, 59, 60, 3_599, 86_399, 86_400, 951_782_399, 951_782_400, SAMPLE_TIME, 253_402_300_799];
    for pair in times.windows(2) {
        let first = note_file_name(pair[0], "zz", 63);
        let second = note_file_name(pair[1], "a", 0);
        assert!(first < second, "{first} comes before {second}");
        assert!(is_safe_file_name(&first));
    }
    assert_eq!(note_file_name(253_402_300_799, "a", 0), "9999-12-31-235959-a.md");
}

#[test]
fn file_names_are_generated_and_never_client_paths() {
    let name = note_file_name(SAMPLE_TIME, "rust-notes", 0);
    assert_eq!(name, "2026-08-13-034500-rust-notes.md");
    assert_eq!(
        note_file_name(SAMPLE_TIME, "rust-notes", 1),
        "2026-08-13-034500-rust-notes-2.md"
    );
    assert!(is_safe_file_name(&name));
    assert!(!is_safe_file_name("../escape.md"));
    assert!(!is_safe_file_name("nested/note.md"));
    assert!(!is_safe_file_name(".hidden.md"));
    assert!(!is_safe_file_name("note.txt"));
}

#[test]
fn front_matter_is_server_generated_and_escapes_hostile_titles() {
    let title = "---\ntitle: forged"; // rejected before rendering
    assert!(matches!(normalize_title(title), Err(InboxError::InvalidTitle)));

    let title = "a: b --- \"quoted\" #hash 所有権";
    let note = render_note(title, "2026-08-13T03:45:00Z", None, FINGERPRINT, "body\n").unwrap();
    let rest = note.strip_prefix("---\n").unwrap();
    let end = rest.find("\n---\n").unwrap();
    let parsed: serde_yaml::Value = serde_yaml::from_str(&rest[..end]).unwrap();
    assert_eq!(parsed["title"].as_str().unwrap(), title);
    assert_eq!(parsed["source"].as_str().unwrap(), NOTE_SOURCE);
    assert_eq!(parsed["fingerprint"].as_str().unwrap(), FINGERPRINT);
    assert_eq!(&rest[end..], "\n---\n\nbody\n");
}

#[test]
fn a_body_that_starts_with_front_matter_stays_body() {
    let body = "---\ntitle: Forged\nsource: trusted\n---\n\nreal body\n";
    let note = render_note("Real", "2026-08-13T03:45:00Z", None, FINGERPRINT, body).unwrap();
    let rest = note.strip_prefix("---\n").unwrap();
    let end = rest.find("\n---\n").unwrap();
    let parsed: serde_yaml::Value = serde_yaml::from_str(&rest[..end]).unwrap();
    assert_eq!(parsed["title"].as_str().unwrap(), "Real");
    assert_eq!(parsed["source"].as_str().unwrap(), NOTE_SOURCE);
    assert!(note.ends_with(body));
}

#[test]
fn a_note_says_when_what_it_tells_of_happened() {
    let note =
        render_note("Real", "2026-08-13T03:45:00Z", Some("2026-08-01"), FINGERPRINT, "b").unwrap();
    let rest = note.strip_prefix("---\n").unwrap();
    let end = rest.find("\n---\n").unwrap();
    let parsed: serde_yaml::Value = serde_yaml::from_str(&rest[..end]).unwrap();
    assert_eq!(parsed["occurred"].as_str().unwrap(), "2026-08-01");
    assert!(note.ends_with("\n---\n\nb\n"));
    assert_eq!(validate_occurred("2026-08-01"), Ok("2026-08-01"));
    for wrong in ["", "2026-8-1", "2026-13-01", "2026-08-32", "2026/08/01", "2026-08-01 "] {
        assert_eq!(validate_occurred(wrong), Err(InboxError::InvalidOccurred));
    }
}

#[test]
fn writes_a_note_with_a_generated_name() {
    let mut files = BTreeMap::new();
    let note = file(&store(), &mut files, "Rust Notes", "body text").unwrap();
    assert_eq!(note.id, "99_inbox/2026-08-13-034500-rust-notes.md");
    assert_eq!(note.created, "2026-08-13T03:45:00Z");

    let contents = &files["2026-08-13-034500-rust-notes.md"];
    assert!(contents.starts_with("---\ntitle: Rust Notes\n"));
    assert!(contents.contains("source: mcp:append_note"));
    assert!(contents.ends_with("body text\n"));
    assert_eq!(note.bytes, contents.len() as u64);
}

#[test]
fn a_name_collision_never_overwrites() {
    let mut files = BTreeMap::new();
    let store = store();
    let first = file(&store, &mut files, "Same Title", "first").unwrap();
    let second = file(&store, &mut files, "Same Title", "second").unwrap();
    assert_eq!(first.id, "99_inbox/2026-08-13-034500-same-title.md");
    assert_eq!(second.id, "99_inbox/2026-08-13-034500-same-title-2.md");
    assert!(files["2026-08-13-034500-same-title.md"].ends_with("first\n"));
}

#[test]
fn the_first_free_name_is_used_and_nothing_else_changes() {
    let mut files = BTreeMap::new();
    for attempt in [0, 1, 3] {
        let name = note_file_name(SAMPLE_TIME, "same-title", attempt);
        files.insert(name, format!("existing {attempt}"));
    }
    let before = files.clone();
    let note = file(&store(), &mut files, "Same Title", "body").unwrap();
    assert_eq!(note.id, "99_inbox/2026-08-13-034500-same-title-3.md");
    let added = files.remove("2026-08-13-034500-same-title-3.md").unwrap();
    assert_eq!(note.bytes, added.len() as u64);
    assert_eq!(files, before);
    // What is refused adds nothing.
    assert!(file(&store(), &mut files, "", "body").is_err());
    assert!(file(&open(32_768, 10), &mut files, "Same Title", "body").is_err());
    assert_eq!(files, before);
}

#[test]
fn gives_up_rather_than_reusing_a_name_when_every_suffix_is_taken() {
    let mut files = BTreeMap::new();
    let slug = slug("Same Title");
    for attempt in 0..MAX_NAME_ATTEMPTS {
        files.insert(note_file_name(SAMPLE_TIME, &slug, attempt), "existing".to_owned());
    }
    assert!(matches!(
        file(&store(), &mut files, "Same Title", "body"),
        Err(InboxError::NameExhausted)
    ));
    // Every pre-existing file is still exactly as it was.
    for attempt in 0..MAX_NAME_ATTEMPTS {
        assert_eq!(files[&note_file_name(SAMPLE_TIME, &slug, attempt)], "existing");
    }
    assert_eq!(files.len(), MAX_NAME_ATTEMPTS as usize);
}

#[test]
fn a_planted_symlink_cannot_capture_the_write() {
    let draft =
        store().create_note("Same Title", "body", None, FINGERPRINT, SAMPLE_TIME).unwrap();
    let attempt = store().admit_note(draft, 0).unwrap();
    assert_eq!(attempt.file_name(), "2026-08-13-034500-same-title.md");
    let NoteStep::Retry(next) = attempt.after(CreateOutcome::Taken) else {
        panic!("a name that is taken leads to the next");
    };
    let NoteStep::Done(note) = next.after(CreateOutcome::Written) else {
        panic!("a note that was written is done");
    };
    assert_eq!(note.id, "99_inbox/2026-08-13-034500-same-title-2.md");
}

#[test]
fn a_write_that_fails_is_not_tried_again() {
    let attempt = || {
        let draft = store().create_note("T", "body", None, FINGERPRINT, SAMPLE_TIME).unwrap();
        store().admit_note(draft, 0).unwrap()
    };
    assert!(matches!(
        attempt().after(CreateOutcome::Failed),
        NoteStep::GaveUp(InboxError::Io)
    ));
    assert!(matches!(
        attempt().after(CreateOutcome::Unavailable),
        NoteStep::GaveUp(InboxError::Unavailable)
    ));
}

#[test]
fn rejects_titles_and_bodies_it_will_not_store() {
    let store = store();
    for title in ["", "   ", "line\nbreak", &"x".repeat(201)] {
        assert!(matches!(
            store.create_note(title, "body", None, FINGERPRINT, SAMPLE_TIME),
            Err(InboxError::InvalidTitle)
        ));
    }
    for body in ["", "  \n ", "nul\0byte"] {
        assert!(matches!(
            store.create_note("Title", body, None, FINGERPRINT, SAMPLE_TIME),
            Err(InboxError::InvalidBody)
        ));
    }
    assert!(matches!(
        store.create_note("Title", "body", Some("yesterday"), FINGERPRINT, SAMPLE_TIME),
        Err(InboxError::InvalidOccurred)
    ));
    assert_eq!(normalize_title("  Title  ").unwrap(), "Title");
}

#[test]
fn rejects_a_body_over_the_per_note_limit() {
    let store = open(64, 1_048_576);
    assert!(matches!(
        store.create_note("Title", &"x".repeat(65), None, FINGERPRINT, SAMPLE_TIME),
        Err(InboxError::NoteTooLarge)
    ));
    assert!(store.create_note("Title", &"x".repeat(64), None, FINGERPRINT, SAMPLE_TIME).is_ok());
    // The limit is on bytes.
    assert_eq!(validate_body(&"é".repeat(33), 64), Err(InboxError::NoteTooLarge));
    assert_eq!(validate_body(&"é".repeat(32), 64), Ok(()));
}

#[test]
fn rejects_writes_once_the_directory_quota_is_reached() {
    let mut files = BTreeMap::new();
    let store = open(32_768, 400);
    assert!(file(&store, &mut files, "First", "body").is_ok());
    files.insert("bulk.md".to_owned(), "x".repeat(400));
    assert!(matches!(
        file(&store, &mut files, "Second", "body"),
        Err(InboxError::QuotaExceeded)
    ));
}

#[test]
fn only_readable_entries_can_be_counted() {
    let named = |name: &str, stat: Option<(bool, i64)>| InboxEntry::Named {
        name: name.as_bytes().to_vec(),
        stat,
    };
    let entries = vec![
        named(".", Some((false, 4_096))),
        named("..", Some((false, 4_096))),
        named("a.md", Some((true, 10))),
        named("b.md", Some((true, 5))),
    ];
    assert_eq!(used_bytes(&entries), Ok(15));
    assert_eq!(used_bytes(&vec![InboxEntry::Unreadable]), Err(InboxError::Io));
}

#[test]
fn refuses_an_inbox_that_would_expose_the_knowledge_base() {
    assert!(matches!(
        InboxStore::open(found("/kb", "/kb"), 32_768, 1_048_576),
        Err(InboxError::Unavailable)
    ));
    assert!(matches!(
        InboxStore::open(found("/kb", "/kb/10_tech"), 32_768, 1_048_576),
        Err(InboxError::Unavailable)
    ));
}

#[test]
fn refuses_a_missing_or_unwritable_inbox() {
    assert!(InboxStore::open(InboxDirectory::Unavailable, 32_768, 1_048_576).is_err());
    assert!(InboxStore::open(InboxDirectory::NotADirectory, 32_768, 1_048_576).is_err());
    let unwritable = InboxDirectory::Found {
        root: "/kb/99_inbox".to_owned(),
        kb_root: Some("/kb".to_owned()),
        writable: false,
        opened: true,
    };
    assert!(matches!(
        InboxStore::open(unwritable, 32_768, 1_048_576),
        Err(InboxError::Unavailable)
    ));
}
