//! The only writable surface of the server.
//!
//! Notes are appended as new files under a single directory (`99_inbox/` of the
//! knowledge base) and nowhere else. The client never names a file: it supplies
//! a title and a body, and the server derives the file name from the current
//! time and a slug.
pub mod filing;

use vstd::prelude::*;
use vstd::set_lib::{lemma_int_range, lemma_len_subset, lemma_map_size, set_int_range};

use crate::auth::AccessScope;
use crate::calendar::{
    file_stamp, file_stamp_text, lemma_file_stamps_ascend, rfc3339_utc, time_stamp,
};
use crate::config::DirectoriesModel;
use crate::document::{
    front_matter_of, is_visible, lemma_other_directories_are_hidden, lemma_path_through, path_names,
    split_path, INDEX_ID,
};
use crate::format::{decimal, decimal_text, digits_value, lemma_decimal_digits, lemma_decimal_len};
use crate::order::{lemma_text_less_by_front, text_less};
use crate::scan::{
    before_text, contains_text, is_blank, is_char, joined_by, lemma_first_place,
    lemma_pieces_not_empty, lemma_prefix_falls_away, occurs_at, pieces_by, strip_text_prefix,
    text_contains, text_contains_char, text_ends_with, trim_end_char, trim_text, trimmed,
    trimmed_end_by, without_prefix,
};
use crate::text::{
    ascii_lower, ascii_lower_text, byte_len, chars_of, control_code, digit, is_alphanumeric,
    is_control_code, is_digit, is_lower, joined, lower, same_text, str_option, text_between,
    text_bytes_len, texts, to_ascii_lower,
};
use crate::web::pair_texts;
use crate::yaml::{yaml_mapping, yaml_text_of};

verus! {

/// Knowledge-base-relative directory the notes are reported under. The layout is
/// fixed, so this is a constant rather than a setting; `INBOX_ROOT` only says
/// where that directory is mounted in this process.
pub const INBOX_ID_PREFIX: &'static str = "99_inbox";

pub const MAX_TITLE_CHARS: usize = 200;

pub const MAX_SLUG_CHARS: usize = 40;

pub const FALLBACK_SLUG: &'static str = "note";

/// Distinct file names tried before giving up. Only reached when many notes
/// share one second and one slug.
pub const MAX_NAME_ATTEMPTS: u32 = 64;

pub const NOTE_SOURCE: &'static str = "mcp:append_note";

#[derive(Debug, Clone, Copy, PartialEq, Eq, Structural)]
pub enum InboxError {
    InvalidTitle,
    InvalidBody,
    InvalidOccurred,
    NoteTooLarge,
    QuotaExceeded,
    NameExhausted,
    Unavailable,
    InvalidFileName,
    Io,
}

impl InboxError {
    pub fn message(&self) -> (r: &'static str)
        ensures
            r@ == (match *self {
                InboxError::InvalidTitle => "note title is invalid"@,
                InboxError::InvalidBody => "note body is invalid"@,
                InboxError::InvalidOccurred => "occurred date is invalid; use YYYY-MM-DD"@,
                InboxError::NoteTooLarge => "note is larger than the per-note limit"@,
                InboxError::QuotaExceeded => "inbox storage quota is exhausted"@,
                InboxError::NameExhausted => "no free note file name was available"@,
                InboxError::Unavailable => "inbox is unavailable"@,
                InboxError::InvalidFileName => "generated file name is not a single safe component"@,
                InboxError::Io => "failed to write the note"@,
            }),
    {
        match self {
            InboxError::InvalidTitle => "note title is invalid",
            InboxError::InvalidBody => "note body is invalid",
            InboxError::InvalidOccurred => "occurred date is invalid; use YYYY-MM-DD",
            InboxError::NoteTooLarge => "note is larger than the per-note limit",
            InboxError::QuotaExceeded => "inbox storage quota is exhausted",
            InboxError::NameExhausted => "no free note file name was available",
            InboxError::Unavailable => "inbox is unavailable",
            InboxError::InvalidFileName => "generated file name is not a single safe component",
            InboxError::Io => "failed to write the note",
        }
    }
}

/// The characters of a generated file name.
pub open spec fn is_name_char(c: char) -> bool {
    is_lower(c) || is_digit(c) || c == '-' || c == '.'
}

/// Whether a name is a single visible Markdown file name of harmless characters.
pub open spec fn is_safe_name(name: Seq<char>) -> bool {
    &&& name.len() > 0
    &&& byte_len(name) <= 255
    &&& name[0] != '.'
    &&& forall|i: int| 0 <= i < name.len() ==> is_name_char(#[trigger] name[i])
    &&& ".md"@.is_suffix_of(name)
}

/// The last check that the generator of file names has not produced a path.
pub fn is_safe_file_name(name: &str) -> (r: bool)
    ensures
        r == is_safe_name(name@),
{
    let chars = chars_of(name);
    if chars.is_empty() || text_bytes_len(name) > 255 || chars[0] == '.' {
        return false;
    }
    let mut i: usize = 0;
    while i < chars.len()
        invariant
            i <= chars@.len(),
            chars@ == name@,
            forall|j: int| 0 <= j < i ==> is_name_char(#[trigger] name@[j]),
        decreases chars@.len() - i,
    {
        let c = chars[i];
        if !(lower(c) || digit(c) || c == '-' || c == '.') {
            proof {
                assert(!is_name_char(name@[i as int]));
            }
            return false;
        }
        i = i + 1;
    }
    text_ends_with(name, ".md")
}

/// The title under which a note is filed; nothing where it is empty, too long or
/// holds a control character, with which it could add a line to the front
/// matter.
pub open spec fn note_title(title: Seq<char>) -> Option<Seq<char>> {
    let t = trimmed(title);
    if 1 <= t.len() <= MAX_TITLE_CHARS && forall|i: int|
        0 <= i < t.len() ==> !is_control_code(#[trigger] t[i]) {
        Some(t)
    } else {
        None
    }
}

pub fn normalize_title(title: &str) -> (r: Result<String, InboxError>)
    ensures
        match r {
            Ok(title_kept) => note_title(title@) == Some(title_kept@),
            Err(error) => error is InvalidTitle && note_title(title@) is None,
        },
{
    let t = trim_text(title);
    let chars = chars_of(t.as_str());
    if chars.is_empty() || chars.len() > MAX_TITLE_CHARS {
        return Err(InboxError::InvalidTitle);
    }
    let mut i: usize = 0;
    while i < chars.len()
        invariant
            i <= chars@.len(),
            chars@ == trimmed(title@),
            forall|j: int| 0 <= j < i ==> !is_control_code(#[trigger] chars@[j]),
        decreases chars@.len() - i,
    {
        if control_code(chars[i]) {
            proof {
                assert(is_control_code(trimmed(title@)[i as int]));
            }
            return Err(InboxError::InvalidTitle);
        }
        i = i + 1;
    }
    Ok(t)
}

/// Whether a text is a date written `YYYY-MM-DD`, with a month and a day such as
/// there are.
pub open spec fn is_occurred_date(value: Seq<char>) -> bool {
    &&& value.len() == 10
    &&& value[4] == '-' && value[7] == '-'
    &&& is_digit(value[0]) && is_digit(value[1]) && is_digit(value[2]) && is_digit(value[3])
    &&& is_digit(value[5]) && is_digit(value[6]) && is_digit(value[8]) && is_digit(value[9])
    &&& 1 <= digits_value(value.subrange(5, 7)) <= 12
    &&& 1 <= digits_value(value.subrange(8, 10)) <= 31
}

proof fn lemma_two_digits(value: Seq<char>, at: int)
    requires
        0 <= at,
        at + 2 <= value.len(),
        is_digit(value[at]),
        is_digit(value[at + 1]),
    ensures
        digits_value(value.subrange(at, at + 2)) == (value[at] as u32 - 48) * 10 + (value[at + 1]
            as u32 - 48),
{
    let two = value.subrange(at, at + 2);
    reveal_with_fuel(digits_value, 3);
    assert(two.drop_last() =~= seq![value[at]]);
    assert(two.drop_last().drop_last() =~= Seq::empty());
}

pub fn validate_occurred(value: &str) -> (r: Result<&str, InboxError>)
    ensures
        match r {
            Ok(date) => is_occurred_date(value@) && date@ == value@,
            Err(error) => error is InvalidOccurred && !is_occurred_date(value@),
        },
{
    let c = chars_of(value);
    if c.len() != 10 || c[4] != '-' || c[7] != '-' || !digit(c[0]) || !digit(c[1]) || !digit(c[2])
        || !digit(c[3]) || !digit(c[5]) || !digit(c[6]) || !digit(c[8]) || !digit(c[9]) {
        return Err(InboxError::InvalidOccurred);
    }
    let month: u32 = (c[5] as u32 - 48) * 10 + (c[6] as u32 - 48);
    let day: u32 = (c[8] as u32 - 48) * 10 + (c[9] as u32 - 48);
    proof {
        lemma_two_digits(value@, 5);
        lemma_two_digits(value@, 8);
    }
    if month < 1 || month > 12 || day < 1 || day > 31 {
        return Err(InboxError::InvalidOccurred);
    }
    Ok(value)
}

/// What is wrong with the body of a note.
pub open spec fn body_error(body: Seq<char>, max_note_bytes: nat) -> Option<InboxError> {
    if trimmed(body).len() == 0 || body.contains('\0') {
        Some(InboxError::InvalidBody)
    } else if byte_len(body) > max_note_bytes {
        Some(InboxError::NoteTooLarge)
    } else {
        None
    }
}

pub fn validate_body(body: &str, max_note_bytes: usize) -> (r: Result<(), InboxError>)
    ensures
        match r {
            Ok(_) => body_error(body@, max_note_bytes as nat) is None,
            Err(error) => body_error(body@, max_note_bytes as nat) == Some(error),
        },
{
    if is_blank(body) || text_contains_char(body, '\0') {
        return Err(InboxError::InvalidBody);
    }
    if text_bytes_len(body) > max_note_bytes {
        return Err(InboxError::NoteTooLarge);
    }
    Ok(())
}

/// The fields of a note's front matter.
pub open spec fn note_fields(
    title: Seq<char>,
    created: Seq<char>,
    occurred: Option<Seq<char>>,
    fingerprint: Seq<char>,
) -> Seq<(Seq<char>, Seq<char>)> {
    seq![("title"@, title), ("created"@, created)] + (match occurred {
        Some(date) => seq![("occurred"@, date)],
        None => Seq::empty(),
    }) + seq![("source"@, NOTE_SOURCE@), ("fingerprint"@, fingerprint)]
}

/// YAML text as it stands between the lines of dashes.
pub open spec fn bare_yaml(yaml: Seq<char>) -> Seq<char> {
    let rest = match without_prefix(yaml, "---\n"@) {
        Some(rest) => rest,
        None => yaml,
    };
    trimmed_end_by(rest, is_char('\n'))
}

/// A note: front matter, an empty line and the body, ended by a line feed.
pub open spec fn note_text(front: Seq<char>, body: Seq<char>) -> Seq<char> {
    let note = "---\n"@ + front + "\n---\n\n"@ + body;
    if note.last() == '\n' {
        note
    } else {
        note.push('\n')
    }
}

/// The front matter that a note gets; nothing where it could not be told from
/// the body.
pub open spec fn note_front(
    title: Seq<char>,
    created: Seq<char>,
    occurred: Option<Seq<char>>,
    fingerprint: Seq<char>,
) -> Option<Seq<char>> {
    match yaml_text_of(note_fields(title, created, occurred, fingerprint)) {
        Some(yaml) => if contains_text(bare_yaml(yaml), "\n---"@) {
            None
        } else {
            Some(bare_yaml(yaml))
        },
        None => None,
    }
}

/// Whether a text is a line feed and three dashes, with another line feed behind
/// them.
spec fn is_closing_line(close: Seq<char>) -> bool {
    close.len() == 5 && close[0] == '\n' && close[1] == '-' && close[2] == '-' && close[3] == '-'
        && close[4] == '\n'
}

proof fn lemma_no_earlier_line(
    front: Seq<char>,
    close: Seq<char>,
    tail: Seq<char>,
    j: int,
)
    requires
        is_closing_line(close),
        !contains_text(front, close.take(4)),
        0 <= j < front.len(),
    ensures
        !occurs_at(front + close + tail, close, j),
{
    let rest = front + close + tail;
    let at = front.len() as int;
    if occurs_at(rest, close, j) {
        let found = rest.subrange(j, j + 5);
        assert(found == close);
        if j + 4 <= at {
            let part = front.subrange(j, j + 4);
            assert forall|i: int| 0 <= i < 4 implies part[i] == close.take(4)[i] by {
                assert(part[i] == rest[j + i]);
                assert(found[i] == rest[j + i]);
            }
            assert(part =~= close.take(4));
            assert(occurs_at(front, close.take(4), j));
        } else {
            let i = at - j;
            assert(1 <= i <= 3);
            assert(found[i] == rest[at]);
            assert(rest[at] == close[0]);
        }
    }
}

/// The line of dashes behind front matter is the first, where the front matter
/// holds none.
proof fn lemma_first_closing_line(front: Seq<char>, close: Seq<char>, tail: Seq<char>)
    requires
        is_closing_line(close),
        !contains_text(front, close.take(4)),
    ensures
        before_text(front + close + tail, close) == Some(front),
{
    let rest = front + close + tail;
    let at = front.len() as int;
    assert(rest.subrange(at, at + 5) =~= close);
    assert forall|j: int| 0 <= j < at implies !occurs_at(rest, close, j) by {
        lemma_no_earlier_line(front, close, tail, j);
    }
    lemma_first_place(rest, close, at);
    assert(rest.take(at) =~= front);
}

/// Reading the front matter of a note gives what the server wrote, whatever the
/// body is: a body that itself begins with front matter stays body.
pub proof fn lemma_front_matter_is_the_servers(front: Seq<char>, body: Seq<char>)
    requires
        !contains_text(front, "\n---"@),
    ensures
        front_matter_of(note_text(front, body)) == Some(front),
        body.is_suffix_of(note_text(front, body)) || body.push('\n').is_suffix_of(
            note_text(front, body),
        ),
{
    let open = "---\n"@;
    let close = "\n---\n"@;
    let note = note_text(front, body);
    let kept = open + front + "\n---\n\n"@ + body;
    let ended = if kept.last() == '\n' {
        body
    } else {
        body.push('\n')
    };
    let tail = seq!['\n'] + ended;
    lemma_closing_line();
    lemma_note_parts(open, front, close, "\n---\n\n"@, body, ended, note);
    lemma_first_closing_line(front, close, tail);
}

proof fn lemma_closing_line()
    ensures
        is_closing_line("\n---\n"@),
        "\n---\n"@.take(4) == "\n---"@,
        "\n---\n\n"@ == "\n---\n"@ + seq!['\n'],
{
    reveal_strlit("\n---");
    reveal_strlit("\n---\n");
    reveal_strlit("\n---\n\n");
    assert("\n---\n"@.take(4) =~= "\n---"@);
    assert("\n---\n\n"@ =~= "\n---\n"@ + seq!['\n']);
}

proof fn lemma_note_parts(
    open: Seq<char>,
    front: Seq<char>,
    close: Seq<char>,
    closing: Seq<char>,
    body: Seq<char>,
    ended: Seq<char>,
    note: Seq<char>,
)
    requires
        closing == close + seq!['\n'],
        ended == body && note == open + front + closing + body || ended == body.push('\n') && note
            == (open + front + closing + body).push('\n'),
    ensures
        without_prefix(note, open) == Some(front + close + (seq!['\n'] + ended)),
        ended.is_suffix_of(note),
{
    let rest = front + close + (seq!['\n'] + ended);
    assert(note =~= open + rest);
    lemma_prefix_falls_away(open, rest);
    assert(note.subrange(note.len() - ended.len(), note.len() as int) =~= ended);
}

pub fn render_note(
    title: &str,
    created: &str,
    occurred: Option<&str>,
    fingerprint: &str,
    body: &str,
) -> (r: Result<String, InboxError>)
    ensures
        match r {
            Ok(note) => note_front(title@, created@, str_option(occurred), fingerprint@) matches Some(
                front,
            ) && note@ == note_text(front, body@),
            Err(error) => error is InvalidTitle && note_front(
                title@,
                created@,
                str_option(occurred),
                fingerprint@,
            ) is None,
        },
{
    let mut fields: Vec<(String, String)> = Vec::new();
    fields.push(("title".to_owned(), title.to_owned()));
    fields.push(("created".to_owned(), created.to_owned()));
    if let Some(date) = occurred {
        fields.push(("occurred".to_owned(), date.to_owned()));
    }
    fields.push(("source".to_owned(), NOTE_SOURCE.to_owned()));
    fields.push(("fingerprint".to_owned(), fingerprint.to_owned()));
    proof {
        assert(pair_texts(fields@) =~= note_fields(
            title@,
            created@,
            str_option(occurred),
            fingerprint@,
        ));
    }
    let yaml = match yaml_mapping(&fields) {
        Some(yaml) => yaml,
        None => {
            return Err(InboxError::InvalidTitle);
        },
    };
    let rest = match strip_text_prefix(yaml.as_str(), "---\n") {
        Some(rest) => rest,
        None => yaml,
    };
    let front = trim_end_char(rest.as_str(), '\n');
    if text_contains(front.as_str(), "\n---") {
        return Err(InboxError::InvalidTitle);
    }
    let mut note = "---\n".to_owned();
    note.append(front.as_str());
    note.append("\n---\n\n");
    note.append(body);
    let chars = chars_of(note.as_str());
    proof {
        reveal_strlit("---\n");
        assert(chars@.len() > 0);
    }
    if chars[chars.len() - 1] != '\n' {
        note.push('\n');
    }
    Ok(note)
}

/// The characters of a slug, but for the dash.
pub open spec fn is_slug_char(c: char) -> bool {
    is_lower(c) || is_digit(c)
}

/// What separates the parts of a slug.
pub open spec fn separates() -> spec_fn(char) -> bool {
    |c: char| !is_slug_char(c)
}

/// Whether a part is not empty.
pub open spec fn not_empty() -> spec_fn(Seq<char>) -> bool {
    |w: Seq<char>| w.len() > 0
}

/// The runs of letters and digits of a title, in lower case.
pub open spec fn slug_parts(title: Seq<char>) -> Seq<Seq<char>> {
    pieces_by(ascii_lower_text(title), separates()).filter(not_empty())
}

/// The slug of a title: its runs of letters and digits joined by dashes, cut to
/// length, without a dash at its end.
pub open spec fn slug_of(title: Seq<char>) -> Seq<char> {
    let all = joined_by(slug_parts(title), "-"@);
    let cut = if all.len() > MAX_SLUG_CHARS {
        all.take(MAX_SLUG_CHARS as int)
    } else {
        all
    };
    let kept = trimmed_end_by(cut, is_char('-'));
    if kept.len() == 0 {
        FALLBACK_SLUG@
    } else {
        kept
    }
}

/// Whether a text can be a slug.
pub open spec fn is_slug(s: Seq<char>) -> bool {
    1 <= s.len() <= MAX_SLUG_CHARS && forall|i: int|
        0 <= i < s.len() ==> is_slug_char(#[trigger] s[i]) || s[i] == '-'
}

proof fn lemma_trimmed_end(s: Seq<char>, strip: spec_fn(char) -> bool)
    ensures
        trimmed_end_by(s, strip).len() <= s.len(),
        trimmed_end_by(s, strip).is_prefix_of(s),
        trimmed_end_by(s, strip).len() > 0 ==> !strip(trimmed_end_by(s, strip).last()),
    decreases s.len(),
{
    if s.len() > 0 && strip(s.last()) {
        lemma_trimmed_end(s.drop_last(), strip);
        let t = trimmed_end_by(s.drop_last(), strip);
        assert(s.subrange(0, t.len() as int) =~= s.drop_last().subrange(0, t.len() as int));
    } else {
        assert(s.subrange(0, s.len() as int) =~= s);
    }
}

/// Whether dashes stand in a text as they do in a slug: none in front, none at
/// the end, and no two together.
pub open spec fn is_tidy(s: Seq<char>) -> bool {
    &&& s.len() > 0
    &&& s[0] != '-'
    &&& s.last() != '-'
    &&& forall|i: int| 0 <= i < s.len() - 1 ==> #[trigger] s[i] != '-' || s[i + 1] != '-'
}

/// The runs of letters and digits of a text that is in lower case, joined by
/// dashes.
spec fn joined_runs(s: Seq<char>) -> Seq<char> {
    joined_by(pieces_by(s, separates()).filter(not_empty()), "-"@)
}

/// Joined runs are empty where there are no letters or digits; else they are tidy.
proof fn lemma_joined_runs(s: Seq<char>)
    ensures
        ({
            let parts = pieces_by(s, separates());
            let full = joined_runs(s);
            &&& parts.len() > 0
            &&& full.len() == 0 <==> parts.filter(not_empty()).len() == 0
            &&& parts.last().len() > 0 ==> full.len() > 0
            &&& full.len() > 0 ==> is_tidy(full)
            &&& forall|i: int|
                0 <= i < full.len() ==> is_slug_char(#[trigger] full[i]) || full[i] == '-'
            &&& full.len() > 0 <==> exists|i: int| 0 <= i < s.len() && is_slug_char(#[trigger] s[i])
        }),
    decreases s.len(),
{
    reveal_strlit("-");
    let parts = pieces_by(s, separates());
    let full = joined_runs(s);
    if s.len() == 0 {
        reveal(Seq::filter);
        assert(parts =~= seq![Seq::<char>::empty()]);
        assert(parts.drop_last() =~= Seq::empty());
        assert(parts.drop_last().filter(not_empty()) =~= Seq::empty());
        assert(parts.filter(not_empty()) =~= Seq::empty());
    } else {
        let front = s.drop_last();
        let c = s.last();
        let before = pieces_by(front, separates());
        let old_full = joined_runs(front);
        lemma_joined_runs(front);
        lemma_slug_step(before, c);
        lemma_pieces_not_empty(s, separates());
        if is_slug_char(c) {
            assert(s[s.len() - 1] == c);
            if old_full.len() > 0 && before.last().len() == 0 {
                let dashed = old_full + "-"@;
                assert(full =~= dashed.push(c));
                assert forall|i: int| 0 <= i < full.len() - 1 implies #[trigger] full[i] != '-'
                    || full[i + 1] != '-' by {
                    if i < old_full.len() - 1 {
                        assert(full[i] == old_full[i]);
                        assert(full[i + 1] == old_full[i + 1]);
                    } else if i == old_full.len() - 1 {
                        assert(full[i] == old_full.last());
                    }
                }
                assert(full[0] == old_full[0]);
            } else if old_full.len() > 0 {
                assert(full =~= old_full.push(c));
                assert(full[0] == old_full[0]);
            } else {
                assert(full =~= seq![c]);
            }
        } else if full.len() > 0 {
            let i = choose|i: int| 0 <= i < front.len() && is_slug_char(#[trigger] front[i]);
            assert(s[i] == front[i]);
        } else {
            assert forall|i: int| 0 <= i < s.len() implies !is_slug_char(#[trigger] s[i]) by {
                if i < front.len() {
                    assert(s[i] == front[i]);
                }
            }
        }
    }
}

/// A text that begins with something that is not stripped keeps it.
proof fn lemma_trimmed_end_keeps_first(s: Seq<char>, strip: spec_fn(char) -> bool)
    requires
        s.len() > 0,
        !strip(s[0]),
    ensures
        trimmed_end_by(s, strip).len() > 0,
    decreases s.len(),
{
    if strip(s.last()) {
        assert(s.drop_last()[0] == s[0]);
        lemma_trimmed_end_keeps_first(s.drop_last(), strip);
    }
}

/// What `slug_of` gives can be a slug and is tidy. It is the fallback where the
/// title has no ASCII letter and no digit.
proof fn lemma_slug_is_tidy(title: Seq<char>)
    ensures
        is_slug(slug_of(title)),
        is_tidy(slug_of(title)),
        (forall|i: int| 0 <= i < title.len() ==> !is_alphanumeric(#[trigger] title[i]))
            ==> slug_of(title) == FALLBACK_SLUG@,
{
    reveal_strlit("note");
    let lowered = ascii_lower_text(title);
    let all = joined_runs(lowered);
    let cut = if all.len() > MAX_SLUG_CHARS {
        all.take(MAX_SLUG_CHARS as int)
    } else {
        all
    };
    let strip = is_char('-');
    let kept = trimmed_end_by(cut, strip);
    lemma_joined_runs(lowered);
    lemma_trimmed_end(cut, strip);
    assert(slug_of(title) == if kept.len() == 0 {
        FALLBACK_SLUG@
    } else {
        kept
    });
    if all.len() > 0 {
        lemma_trimmed_end_keeps_first(cut, strip);
        assert forall|i: int| 0 <= i < kept.len() implies #[trigger] kept[i] == all[i] by {
            assert(kept[i] == cut[i]);
        }
        assert(kept[0] == all[0]);
        assert forall|i: int| 0 <= i < kept.len() - 1 implies #[trigger] kept[i] != '-' || kept[i
            + 1] != '-' by {
            assert(kept[i] == all[i] && kept[i + 1] == all[i + 1]);
        }
        let i = choose|i: int| 0 <= i < lowered.len() && is_slug_char(#[trigger] lowered[i]);
        assert(lowered[i] == ascii_lower(title[i]));
        assert(is_alphanumeric(title[i]));
    }
}

/// Joining the runs of a text with tidy dashes gives the text back, but for a
/// dash at its end.
proof fn lemma_runs_of_a_slug(s: Seq<char>)
    requires
        forall|i: int| 0 <= i < s.len() ==> is_slug_char(#[trigger] s[i]) || s[i] == '-',
        s.len() > 0 ==> s[0] != '-',
        forall|i: int| 0 <= i < s.len() - 1 ==> #[trigger] s[i] != '-' || s[i + 1] != '-',
    ensures
        ({
            let parts = pieces_by(s, separates());
            &&& parts.len() > 0
            &&& joined_runs(s) == if s.len() > 0 && s.last() == '-' {
                s.drop_last()
            } else {
                s
            }
            &&& parts.last().len() > 0 <==> s.len() > 0 && s.last() != '-'
            &&& parts.filter(not_empty()).len() == 0 <==> s.len() == 0
        }),
    decreases s.len(),
{
    reveal_strlit("-");
    let parts = pieces_by(s, separates());
    if s.len() == 0 {
        reveal(Seq::filter);
        assert(parts =~= seq![Seq::<char>::empty()]);
        assert(parts.drop_last() =~= Seq::empty());
        assert(parts.drop_last().filter(not_empty()) =~= Seq::empty());
        assert(parts.filter(not_empty()) =~= Seq::empty());
        assert(joined_runs(s) =~= s);
    } else {
        let front = s.drop_last();
        let c = s.last();
        assert forall|i: int| 0 <= i < front.len() implies is_slug_char(#[trigger] front[i])
            || front[i] == '-' by {
            assert(front[i] == s[i]);
        }
        assert forall|i: int| 0 <= i < front.len() - 1 implies #[trigger] front[i] != '-'
            || front[i + 1] != '-' by {
            assert(front[i] == s[i] && front[i + 1] == s[i + 1]);
        }
        lemma_runs_of_a_slug(front);
        lemma_slug_step(pieces_by(front, separates()), c);
        assert(s =~= front.push(c));
        if front.len() > 0 {
            assert(front.last() == s[s.len() - 2]);
            assert(s[s.len() - 2] != '-' || s[s.len() - 2 + 1] != '-');
        } else {
            assert(s[0] == c);
        }
        if c == '-' {
            assert(joined_runs(s) =~= s.drop_last());
        } else {
            assert(is_slug_char(s[s.len() - 1]));
            if front.len() > 0 && front.last() == '-' {
                assert(front.drop_last() + "-"@ + seq![c] =~= s);
            } else if front.len() == 0 {
                assert(seq![c] =~= s);
            }
            assert(joined_runs(s) =~= s);
        }
    }
}

/// A slug is its own slug.
pub proof fn lemma_slug_of_a_slug(s: Seq<char>)
    requires
        is_slug(s),
        is_tidy(s),
    ensures
        slug_of(s) == s,
{
    assert forall|i: int| 0 <= i < s.len() implies ascii_lower(#[trigger] s[i]) == s[i] by {
        assert(is_slug_char(s[i]) || s[i] == '-');
    }
    assert(ascii_lower_text(s) =~= s);
    lemma_runs_of_a_slug(s);
}

/// The capital letter of an ASCII letter; other characters stay.
pub open spec fn ascii_upper(c: char) -> char {
    if is_lower(c) {
        ((c as u32) - 32) as char
    } else {
        c
    }
}

/// The slug of every title can be a slug and is tidy; it is its own slug; the case
/// of ASCII letters does not matter; and a title without an ASCII letter or digit
/// has the fallback.
pub proof fn lemma_slugs(title: Seq<char>)
    ensures
        is_slug(slug_of(title)),
        is_tidy(slug_of(title)),
        slug_of(slug_of(title)) == slug_of(title),
        slug_of(title.map_values(|c: char| ascii_upper(c))) == slug_of(title),
        (forall|i: int| 0 <= i < title.len() ==> !is_alphanumeric(#[trigger] title[i]))
            ==> slug_of(title) == FALLBACK_SLUG@,
{
    lemma_slug_is_tidy(title);
    lemma_slug_of_a_slug(slug_of(title));
    let capitals = title.map_values(|c: char| ascii_upper(c));
    assert forall|i: int| 0 <= i < title.len() implies ascii_lower(capitals[i]) == ascii_lower(
        #[trigger] title[i],
    ) by {
        assert(capitals[i] == ascii_upper(title[i]));
    }
    assert(ascii_lower_text(capitals) =~= ascii_lower_text(title));
}

pub fn slug(title: &str) -> (r: String)
    ensures
        r@ == slug_of(title@),
        is_slug(r@),
        is_tidy(r@),
{
    let ghost lowered = ascii_lower_text(title@);
    let mut full = String::new();
    let mut separator = false;
    let ghost mut parts: Seq<Seq<char>> = seq![Seq::<char>::empty()];
    proof {
        assert(lowered.take(0) =~= Seq::empty());
        reveal(Seq::filter);
        assert(parts.drop_last() =~= Seq::empty());
        assert(parts.drop_last().filter(not_empty()) =~= Seq::empty());
        assert(parts.filter(not_empty()) =~= Seq::empty());
    }
    for c in it: title.chars()
        invariant
            it.seq() == title@,
            lowered == ascii_lower_text(title@),
            parts == pieces_by(lowered.take(it.index()), separates()),
            parts.len() > 0,
            full@ == joined_by(parts.filter(not_empty()), "-"@),
            separator ==> parts.last().len() == 0,
            !separator ==> parts.last().len() > 0 || full@.len() == 0,
            full@.len() == 0 <==> parts.filter(not_empty()).len() == 0,
    {
        let ghost before = parts;
        let ghost longer = lowered.take(it.index() + 1);
        let c = to_ascii_lower(c);
        let ghost old_full = full@;
        proof {
            reveal_strlit("-");
            assert(longer.drop_last() =~= lowered.take(it.index()));
            assert(longer.last() == c);
            lemma_pieces_not_empty(longer, separates());
            parts = pieces_by(longer, separates());
            lemma_slug_step(before, c);
        }
        if lower(c) || digit(c) {
            if separator && !full.as_str().is_empty() {
                full.push('-');
            }
            separator = false;
            full.push(c);
            proof {
                assert(full@ =~= joined_by(parts.filter(not_empty()), "-"@));
            }
        } else {
            separator = true;
        }
    }
    proof {
        assert(lowered.take(lowered.len() as int) =~= lowered);
        lemma_slug_is_tidy(title@);
    }
    let chars = chars_of(full.as_str());
    let cut = if chars.len() > MAX_SLUG_CHARS {
        let cut = text_between(&chars, 0, MAX_SLUG_CHARS);
        proof {
            assert(cut@ =~= full@.take(MAX_SLUG_CHARS as int));
        }
        cut
    } else {
        full
    };
    let kept = trim_end_char(cut.as_str(), '-');
    if kept.as_str().is_empty() {
        FALLBACK_SLUG.to_owned()
    } else {
        kept
    }
}

/// What one more character does to the parts of a slug and to their join.
proof fn lemma_slug_step(parts: Seq<Seq<char>>, c: char)
    requires
        parts.len() > 0,
    ensures
        ({
            let next = if separates()(c) {
                parts.push(Seq::<char>::empty())
            } else {
                parts.drop_last().push(parts.last().push(c))
            };
            let full = joined_by(parts.filter(not_empty()), "-"@);
            let after = joined_by(next.filter(not_empty()), "-"@);
            if separates()(c) {
                next.filter(not_empty()) == parts.filter(not_empty()) && after == full
            } else if parts.last().len() > 0 {
                after == full.push(c) && next.filter(not_empty()).len() == parts.filter(
                    not_empty(),
                ).len()
            } else {
                &&& next.filter(not_empty()).len() == parts.filter(not_empty()).len() + 1
                &&& after == (if parts.filter(not_empty()).len() == 0 {
                    seq![c]
                } else {
                    full + "-"@ + seq![c]
                })
            }
        }),
{
    let keep = not_empty();
    let front = parts.drop_last();
    let last = parts.last();
    let kept = front.filter(keep);
    assert(parts =~= front.push(last));
    front.lemma_filter_push(last, keep);
    if separates()(c) {
        parts.lemma_filter_push(Seq::<char>::empty(), keep);
    } else {
        let longer = last.push(c);
        front.lemma_filter_push(longer, keep);
        let next = kept.push(longer);
        assert(next.drop_last() =~= kept);
        if last.len() > 0 {
            let now = kept.push(last);
            assert(now.drop_last() =~= kept);
            if kept.len() == 0 {
                assert(joined_by(next, "-"@) =~= joined_by(now, "-"@).push(c));
            } else {
                assert(joined_by(next, "-"@) =~= joined_by(now, "-"@).push(c));
            }
        } else {
            assert(longer =~= seq![c]);
        }
    }
}

/// The end of the name of a note's file: attempts after the first are numbered.
pub open spec fn name_suffix(attempt: u32) -> Seq<char> {
    if attempt == 0 {
        Seq::empty()
    } else {
        "-"@ + decimal((attempt + 1) as nat)
    }
}

/// The name of a note's file.
pub open spec fn note_name(seconds: int, slug: Seq<char>, attempt: u32) -> Seq<char> {
    file_stamp(seconds) + "-"@ + slug + name_suffix(attempt) + ".md"@
}

proof fn lemma_name_chars_add(a: Seq<char>, b: Seq<char>)
    requires
        forall|i: int| 0 <= i < a.len() ==> is_name_char(#[trigger] a[i]),
        forall|i: int| 0 <= i < b.len() ==> is_name_char(#[trigger] b[i]),
    ensures
        forall|i: int| 0 <= i < (a + b).len() ==> is_name_char(#[trigger] (a + b)[i]),
{
    assert forall|i: int| 0 <= i < (a + b).len() implies is_name_char(#[trigger] (a + b)[i]) by {
        if i < a.len() {
            assert((a + b)[i] == a[i]);
        } else {
            assert((a + b)[i] == b[i - a.len()]);
        }
    }
}

proof fn lemma_suffix(attempt: u32)
    ensures
        name_suffix(attempt).len() <= 11,
        forall|i: int|
            0 <= i < name_suffix(attempt).len() ==> is_name_char(#[trigger] name_suffix(attempt)[i]),
{
    reveal_strlit("-");
    if attempt > 0 {
        let n = (attempt + 1) as nat;
        lemma_decimal_digits(n);
        assert(vstd::arithmetic::power::pow(10, 10) == 10_000_000_000) by {
            reveal_with_fuel(vstd::arithmetic::power::pow, 11);
        }
        lemma_decimal_len(n, 10);
        assert forall|i: int| 0 <= i < decimal(n).len() implies is_name_char(
            #[trigger] decimal(n)[i],
        ) by {
            assert(is_digit(decimal(n)[i]));
        }
        lemma_name_chars_add("-"@, decimal(n));
    }
}

/// The name of a note's file. Whatever the title was, it is safe.
pub fn note_file_name(seconds: i64, slug: &str, attempt: u32) -> (r: String)
    ensures
        r@ == note_name(seconds as int, slug@, attempt),
        is_slug(slug@) ==> is_safe_name(r@),
{
    let stamp = file_stamp_text(seconds);
    let mut out = joined(stamp.as_str(), "-");
    out.append(slug);
    if attempt > 0 {
        out.append("-");
        out.append(decimal_text(attempt as u64 + 1).as_str());
    }
    out.append(".md");
    proof {
        reveal_strlit("-");
        reveal_strlit(".md");
        assert(out@ =~= note_name(seconds as int, slug@, attempt));
        if is_slug(slug@) {
            lemma_suffix(attempt);
            let suffix = name_suffix(attempt);
            assert forall|i: int| 0 <= i < stamp@.len() implies is_name_char(
                #[trigger] stamp@[i],
            ) by {
                assert(is_digit(stamp@[i]) || stamp@[i] == '-');
            }
            lemma_name_chars_add(stamp@, "-"@);
            lemma_name_chars_add(stamp@ + "-"@, slug@);
            lemma_name_chars_add(stamp@ + "-"@ + slug@, suffix);
            lemma_name_chars_add(stamp@ + "-"@ + slug@ + suffix, ".md"@);
            assert(vstd::utf8::is_ascii_chars(out@)) by {
                assert forall|i: int| 0 <= i < out@.len() implies out@[i] as nat <= 127 by {
                    assert(is_name_char(out@[i]));
                }
            }
            vstd::utf8::is_ascii_chars_encode_utf8(out@);
            assert(out@[0] == stamp@[0]);
            assert(is_digit(stamp@[0]) || stamp@[0] == '-');
            assert(out@.subrange(out@.len() - 3, out@.len() as int) =~= ".md"@);
        }
    }
    out
}

/// What the caller is told after a successful append. `id` is the
/// knowledge-base-relative path, never a host or container path.
pub struct CreatedNote {
    pub id: String,
    pub bytes: u64,
    pub created: String,
}

/// A note that is ready to be stored.
pub struct NoteDraft {
    contents: String,
    created: String,
    slug: String,
    seconds: i64,
}

/// A draft as mathematical values.
pub struct DraftModel {
    pub contents: Seq<char>,
    pub created: Seq<char>,
    pub slug: Seq<char>,
    pub seconds: int,
}

impl View for NoteDraft {
    type V = DraftModel;

    closed spec fn view(&self) -> DraftModel {
        DraftModel {
            contents: self.contents@,
            created: self.created@,
            slug: self.slug@,
            seconds: self.seconds as int,
        }
    }
}

impl NoteDraft {
    #[verifier::type_invariant]
    closed spec fn has_a_slug(&self) -> bool {
        is_slug(self.slug@)
    }
}

/// The draft of a note.
pub open spec fn drafted(
    title: Seq<char>,
    body: Seq<char>,
    occurred: Option<Seq<char>>,
    fingerprint: Seq<char>,
    seconds: int,
    max_note_bytes: nat,
) -> Result<DraftModel, InboxError> {
    match note_title(title) {
        None => Err(InboxError::InvalidTitle),
        Some(title) => if body_error(body, max_note_bytes) is Some {
            Err(body_error(body, max_note_bytes)->Some_0)
        } else if occurred is Some && !is_occurred_date(occurred->Some_0) {
            Err(InboxError::InvalidOccurred)
        } else {
            match note_front(title, time_stamp(seconds), occurred, fingerprint) {
                None => Err(InboxError::InvalidTitle),
                Some(front) => Ok(
                    DraftModel {
                        contents: note_text(front, body),
                        created: time_stamp(seconds),
                        slug: slug_of(title),
                        seconds,
                    },
                ),
            }
        },
    }
}

/// What trying to create a file under a new name, and to write the note to it,
/// came to.
#[derive(Debug, Clone, Copy, PartialEq, Eq, Structural)]
pub enum CreateOutcome {
    Written,
    /// The name is taken.
    Taken,
    /// The file could not be created or written.
    Failed,
    /// Files cannot be created safely here.
    Unavailable,
}

/// What comes after trying to create a file.
pub enum NoteStep {
    /// Another name is to be tried.
    Retry(NoteAttempt),
    Done(CreatedNote),
    GaveUp(InboxError),
}

/// A stored note as mathematical values.
pub struct NoteModel {
    pub id: Seq<char>,
    pub bytes: nat,
    pub created: Seq<char>,
}

impl View for CreatedNote {
    type V = NoteModel;

    open spec fn view(&self) -> NoteModel {
        NoteModel { id: self.id@, bytes: self.bytes as nat, created: self.created@ }
    }
}

/// What comes after trying to create a file, as mathematical values: another
/// attempt is known by its number.
pub enum StepModel {
    Retry(u32),
    Done(NoteModel),
    GaveUp(InboxError),
}

/// What comes after an attempt to store a draft.
pub open spec fn step_after(draft: DraftModel, attempt: u32, outcome: CreateOutcome) -> StepModel {
    match outcome {
        CreateOutcome::Written => StepModel::Done(
            NoteModel {
                id: INBOX_ID_PREFIX@ + "/"@ + note_name(draft.seconds, draft.slug, attempt),
                bytes: byte_len(draft.contents),
                created: draft.created,
            },
        ),
        CreateOutcome::Failed => StepModel::GaveUp(InboxError::Io),
        CreateOutcome::Unavailable => StepModel::GaveUp(InboxError::Unavailable),
        CreateOutcome::Taken => if attempt + 1 < MAX_NAME_ATTEMPTS {
            StepModel::Retry((attempt + 1) as u32)
        } else {
            StepModel::GaveUp(InboxError::NameExhausted)
        },
    }
}

/// Whether these are the outcomes of attempts to store a draft, from one attempt
/// on, each after the other, until no further one is to be made.
pub open spec fn tries_in_turn(
    draft: DraftModel,
    first: u32,
    outcomes: Seq<CreateOutcome>,
) -> bool {
    &&& outcomes.len() > 0
    &&& first + outcomes.len() <= MAX_NAME_ATTEMPTS
    &&& forall|i: int|
        0 <= i < outcomes.len() ==> ((step_after(
            draft,
            (first + i) as u32,
            #[trigger] outcomes[i],
        ) is Retry) == (i < outcomes.len() - 1))
}

/// Whether creating a file under a name can have this outcome.
pub open spec fn is_outcome<C: Fn(&str, &str) -> CreateOutcome>(
    create: C,
    name: Seq<char>,
    contents: Seq<char>,
    outcome: CreateOutcome,
) -> bool {
    exists|n: &str, c: &str|
        n@ == name && c@ == contents && #[trigger] call_ensures(create, (n, c), outcome)
}

/// A note that is being stored.
pub struct NoteAttempt {
    draft: NoteDraft,
    attempt: u32,
}

impl NoteAttempt {
    #[verifier::type_invariant]
    closed spec fn has_a_name(&self) -> bool {
        self.attempt < MAX_NAME_ATTEMPTS
    }

    /// The draft of the note.
    pub closed spec fn draft(&self) -> DraftModel {
        self.draft@
    }

    /// How many names have been tried before.
    pub closed spec fn attempt(&self) -> u32 {
        self.attempt
    }

    /// The name to try. It is safe, whatever the title was.
    pub fn file_name(&self) -> (r: String)
        ensures
            r@ == note_name(self.draft().seconds, self.draft().slug, self.attempt()),
            is_safe_name(r@),
            self.attempt() < MAX_NAME_ATTEMPTS,
    {
        proof {
            use_type_invariant(self);
            use_type_invariant(&self.draft);
        }
        note_file_name(self.draft.seconds, self.draft.slug.as_str(), self.attempt)
    }

    /// What is written under the name.
    pub fn contents(&self) -> (r: &str)
        ensures
            r@ == self.draft().contents,
    {
        self.draft.contents.as_str()
    }

    /// What comes after trying the name.
    pub fn after(self, outcome: CreateOutcome) -> (r: NoteStep)
        ensures
            match (step_after(self.draft(), self.attempt(), outcome), r) {
                (StepModel::Retry(attempt), NoteStep::Retry(next)) => next.draft() == self.draft()
                    && next.attempt() == attempt,
                (StepModel::Done(note), NoteStep::Done(created)) => created@ == note,
                (StepModel::GaveUp(reason), NoteStep::GaveUp(error)) => error == reason,
                _ => false,
            },
    {
        proof {
            use_type_invariant(&self);
        }
        match outcome {
            CreateOutcome::Written => {
                let name = self.file_name();
                let id = joined(joined(INBOX_ID_PREFIX, "/").as_str(), name.as_str());
                let bytes: u64 = text_bytes_len(self.draft.contents.as_str()) as u64;
                NoteStep::Done(CreatedNote { id, bytes, created: self.draft.created })
            },
            CreateOutcome::Failed => NoteStep::GaveUp(InboxError::Io),
            CreateOutcome::Unavailable => NoteStep::GaveUp(InboxError::Unavailable),
            CreateOutcome::Taken => {
                if self.attempt + 1 < MAX_NAME_ATTEMPTS {
                    NoteStep::Retry(NoteAttempt { draft: self.draft, attempt: self.attempt + 1 })
                } else {
                    NoteStep::GaveUp(InboxError::NameExhausted)
                }
            },
        }
    }
}

impl NoteAttempt {
    /// Stores the note under the first name that is free, given how a file is
    /// created under a new name.
    pub fn file<C: Fn(&str, &str) -> CreateOutcome>(self, create: &C) -> (r: Result<
        CreatedNote,
        InboxError,
    >)
        requires
            forall|name: &str, contents: &str| call_requires(*create, (name, contents)),
        ensures
            exists|outcomes: Seq<CreateOutcome>|
                {
                    &&& #[trigger] tries_in_turn(self.draft(), self.attempt(), outcomes)
                    &&& forall|i: int|
                        0 <= i < outcomes.len() ==> is_outcome(
                            *create,
                            note_name(
                                self.draft().seconds,
                                self.draft().slug,
                                (self.attempt() + i) as u32,
                            ),
                            self.draft().contents,
                            #[trigger] outcomes[i],
                        )
                    &&& match step_after(
                        self.draft(),
                        (self.attempt() + outcomes.len() - 1) as u32,
                        outcomes.last(),
                    ) {
                        StepModel::Done(note) => r matches Ok(created) && created@ == note,
                        StepModel::GaveUp(error) => r matches Err(reason) && reason == error,
                        StepModel::Retry(_) => false,
                    }
                },
        decreases MAX_NAME_ATTEMPTS - self.attempt(),
    {
        let ghost draft = self.draft();
        let ghost first = self.attempt();
        let name = self.file_name();
        let outcome = create(name.as_str(), self.contents());
        let ghost tried = outcome;
        proof {
            assert(is_outcome(*create, name@, draft.contents, tried));
        }
        match self.after(outcome) {
            NoteStep::Done(note) => {
                proof {
                    let outcomes = seq![tried];
                    assert(tries_in_turn(draft, first, outcomes));
                }
                Ok(note)
            },
            NoteStep::GaveUp(error) => {
                proof {
                    let outcomes = seq![tried];
                    assert(tries_in_turn(draft, first, outcomes));
                }
                Err(error)
            },
            NoteStep::Retry(next) => {
                let ghost second = next.attempt();
                let r = next.file(create);
                proof {
                    let rest = choose|rest: Seq<CreateOutcome>|
                        {
                            &&& #[trigger] tries_in_turn(draft, second, rest)
                            &&& forall|i: int|
                                0 <= i < rest.len() ==> is_outcome(
                                    *create,
                                    note_name(draft.seconds, draft.slug, (second + i) as u32),
                                    draft.contents,
                                    #[trigger] rest[i],
                                )
                            &&& match step_after(
                                draft,
                                (second + rest.len() - 1) as u32,
                                rest.last(),
                            ) {
                                StepModel::Done(note) => r matches Ok(created) && created@ == note,
                                StepModel::GaveUp(error) => r matches Err(reason) && reason
                                    == error,
                                StepModel::Retry(_) => false,
                            }
                        };
                    let outcomes = seq![tried] + rest;
                    assert forall|i: int| 0 <= i < outcomes.len() implies (step_after(
                        draft,
                        (first + i) as u32,
                        #[trigger] outcomes[i],
                    ) is Retry) == (i < outcomes.len() - 1) && is_outcome(
                        *create,
                        note_name(draft.seconds, draft.slug, (first + i) as u32),
                        draft.contents,
                        outcomes[i],
                    ) by {
                        if i > 0 {
                            assert(outcomes[i] == rest[i - 1]);
                            assert((first + i) as u32 == (second + (i - 1)) as u32);
                        }
                    }
                    assert(tries_in_turn(draft, first, outcomes));
                    assert(outcomes.last() == rest.last());
                }
                r
            },
        }
    }
}

/// Different attempts try different names.
pub proof fn lemma_attempts_differ(seconds: int, slug: Seq<char>, a: u32, b: u32)
    requires
        note_name(seconds, slug, a) == note_name(seconds, slug, b),
    ensures
        a == b,
{
    let front = file_stamp(seconds) + "-"@ + slug;
    let x = note_name(seconds, slug, a);
    let y = note_name(seconds, slug, b);
    let sa = name_suffix(a);
    let sb = name_suffix(b);
    assert(x.len() == front.len() + sa.len() + ".md"@.len());
    assert(y.len() == front.len() + sb.len() + ".md"@.len());
    assert(sa =~= x.subrange(front.len() as int, front.len() as int + sa.len()));
    assert(sb =~= y.subrange(front.len() as int, front.len() as int + sb.len()));
    assert(sa == sb);
    reveal_strlit("-");
    if a > 0 && b > 0 {
        let da = decimal((a + 1) as nat);
        let db = decimal((b + 1) as nat);
        assert(da =~= sa.skip(1));
        assert(db =~= sb.skip(1));
        crate::format::lemma_decimal_injective((a + 1) as nat, (b + 1) as nat);
    }
}

/// From 1970 up to the end of the year 9999 names sort by time, whatever the
/// titles and attempts.
pub proof fn lemma_names_sort_by_time(
    seconds: int,
    slug: Seq<char>,
    attempt: u32,
    later: int,
    later_slug: Seq<char>,
    later_attempt: u32,
)
    requires
        0 <= seconds < later < 253_402_300_800,
    ensures
        text_less(
            note_name(seconds, slug, attempt),
            note_name(later, later_slug, later_attempt),
        ),
{
    let x = "-"@ + slug + name_suffix(attempt) + ".md"@;
    let y = "-"@ + later_slug + name_suffix(later_attempt) + ".md"@;
    lemma_file_stamps_ascend(seconds, later);
    assert(note_name(seconds, slug, attempt) =~= file_stamp(seconds) + x);
    assert(note_name(later, later_slug, later_attempt) =~= file_stamp(later) + y);
    lemma_text_less_by_front(file_stamp(seconds), file_stamp(later), x, y);
}

/// As long as fewer names are taken than are tried, one of those that are tried
/// is free.
pub proof fn lemma_a_free_name_is_tried(seconds: int, slug: Seq<char>, taken: Set<Seq<char>>)
    requires
        taken.finite(),
        taken.len() < MAX_NAME_ATTEMPTS,
    ensures
        exists|attempt: u32|
            attempt < MAX_NAME_ATTEMPTS && !taken.contains(
                #[trigger] note_name(seconds, slug, attempt),
            ),
{
    let tried = set_int_range(0, MAX_NAME_ATTEMPTS as int);
    let name = |i: int| note_name(seconds, slug, i as u32);
    let names = tried.map(name);
    lemma_int_range(0, MAX_NAME_ATTEMPTS as int);
    assert forall|i: int, j: int|
        tried.contains(i) && tried.contains(j) && #[trigger] name(i) == #[trigger] name(
            j,
        ) implies i == j by {
        lemma_attempts_differ(seconds, slug, i as u32, j as u32);
    }
    lemma_map_size(tried, names, name);
    if names.subset_of(taken) {
        lemma_len_subset(names, taken);
    } else {
        let free = choose|n: Seq<char>| names.contains(n) && !taken.contains(n);
        let i = choose|i: int| tried.contains(i) && free == name(i);
        assert(!taken.contains(note_name(seconds, slug, i as u32)));
    }
}

/// A note is seen by nobody through the store of documents, under any name that
/// it can get, as long as the inbox is neither a public nor a private directory.
pub proof fn lemma_notes_stay_out_of_sight(
    directories: DirectoriesModel,
    scope: AccessScope,
    name: Seq<char>,
)
    requires
        is_safe_name(name),
        !directories.public.contains(INBOX_ID_PREFIX@),
        !directories.private.contains(INBOX_ID_PREFIX@),
    ensures
        !is_visible(directories, scope, INBOX_ID_PREFIX@ + "/"@ + name),
{
    let id = INBOX_ID_PREFIX@ + "/"@ + name;
    reveal_strlit("99_inbox");
    reveal_strlit("/");
    reveal_strlit(".md");
    reveal_strlit("INDEX.md");
    assert("/"@ =~= seq!['/']);
    assert forall|i: int| 0 <= i < name.len() implies name[i] != '/' by {
        assert(is_name_char(name[i]));
    }
    lemma_path_through(INBOX_ID_PREFIX@, name);
    assert(id[0] == '9');
    assert(INDEX_ID@[0] == 'I');
    lemma_other_directories_are_hidden(directories, scope, id);
}

/// One entry of the inbox directory.
pub enum InboxEntry {
    /// It could not be read.
    Unreadable,
    /// Its name, and, where it could be looked at, whether it is a regular file
    /// and its size.
    Named { name: Vec<u8>, stat: Option<(bool, i64)> },
}

/// Whether a name stands for the directory itself or its parent.
pub open spec fn is_dots(name: Seq<u8>) -> bool {
    name == seq![46u8] || name == seq![46u8, 46u8]
}

/// What an entry adds to the bytes in use.
pub open spec fn entry_bytes(entry: InboxEntry) -> Option<nat> {
    match entry {
        InboxEntry::Unreadable => None,
        InboxEntry::Named { name, stat } => if is_dots(name@) {
            Some(0)
        } else {
            match stat {
                None => None,
                Some((regular, size)) => if regular && size > 0 {
                    Some(size as nat)
                } else {
                    Some(0)
                },
            }
        },
    }
}

/// The sum of two counts, or the largest there is.
pub open spec fn capped_sum(a: nat, b: nat) -> nat {
    if a + b > u64::MAX {
        u64::MAX as nat
    } else {
        a + b
    }
}

/// The bytes of the regular files among entries; nothing where one of them
/// could not be looked at.
pub open spec fn used_by(entries: Seq<InboxEntry>) -> Option<nat>
    decreases entries.len(),
{
    if entries.len() == 0 {
        Some(0)
    } else {
        match (used_by(entries.drop_last()), entry_bytes(entries.last())) {
            (Some(total), Some(more)) => Some(capped_sum(total, more)),
            _ => None,
        }
    }
}

proof fn lemma_used_needs_all(entries: Seq<InboxEntry>, i: int)
    requires
        0 <= i < entries.len(),
        entry_bytes(entries[i]) is None,
    ensures
        used_by(entries) is None,
    decreases entries.len(),
{
    if i < entries.len() - 1 {
        lemma_used_needs_all(entries.drop_last(), i);
    }
}

/// The bytes of the regular files directly in the inbox. Notes are always flat,
/// so this bounds what this server can add.
pub fn used_bytes(entries: &Vec<InboxEntry>) -> (r: Result<u64, InboxError>)
    ensures
        match r {
            Ok(total) => used_by(entries@) == Some(total as nat),
            Err(error) => error is Io && used_by(entries@) is None,
        },
{
    let mut total: u64 = 0;
    let mut i: usize = 0;
    proof {
        assert(entries@.take(0) =~= Seq::empty());
    }
    while i < entries.len()
        invariant
            i <= entries@.len(),
            used_by(entries@.take(i as int)) == Some(total as nat),
        decreases entries@.len() - i,
    {
        proof {
            assert(entries@.take(i + 1).drop_last() =~= entries@.take(i as int));
            assert(entries@.take(i + 1).last() == entries@[i as int]);
            if entry_bytes(entries@[i as int]) is None {
                lemma_used_needs_all(entries@, i as int);
            }
        }
        match &entries[i] {
            InboxEntry::Unreadable => {
                return Err(InboxError::Io);
            },
            InboxEntry::Named { name, stat } => {
                if !dots(name) {
                    match stat {
                        None => {
                            return Err(InboxError::Io);
                        },
                        Some((regular, size)) => {
                            if *regular && *size > 0 {
                                total = total.saturating_add(*size as u64);
                            }
                        },
                    }
                }
            },
        }
        i = i + 1;
    }
    proof {
        assert(entries@.take(entries@.len() as int) =~= entries@);
    }
    Ok(total)
}

fn dots(name: &Vec<u8>) -> (r: bool)
    ensures
        r == is_dots(name@),
{
    let r = (name.len() == 1 && name[0] == 46) || (name.len() == 2 && name[0] == 46 && name[1]
        == 46);
    proof {
        if name@.len() == 1 && name@[0] == 46 {
            assert(name@ =~= seq![46u8]);
        }
        if name@.len() == 2 && name@[0] == 46 && name@[1] == 46 {
            assert(name@ =~= seq![46u8, 46u8]);
        }
    }
    r
}

/// What was found where the inbox should be.
pub enum InboxDirectory {
    /// It could not be looked at.
    Unavailable,
    NotADirectory,
    /// Its canonical path, that of the knowledge base where it has one, whether
    /// this process can write to it, and whether it could be opened.
    Found { root: String, kb_root: Option<String>, writable: bool, opened: bool },
}

/// Whether a path lies in a directory or is it.
pub open spec fn lies_in(path: Seq<char>, directory: Seq<char>) -> bool {
    path_names(directory).is_prefix_of(path_names(path))
}

fn is_in(path: &str, directory: &str) -> (r: bool)
    ensures
        r == lies_in(path@, directory@),
{
    let names = split_path(path);
    let front = split_path(directory);
    let ghost all = texts(names@);
    let ghost start = texts(front@);
    if front.len() > names.len() {
        return false;
    }
    let mut i: usize = 0;
    while i < front.len()
        invariant
            i <= front@.len() <= names@.len(),
            all == texts(names@),
            start == texts(front@),
            all == path_names(path@),
            start == path_names(directory@),
            forall|j: int| 0 <= j < i ==> all[j] == start[j],
        decreases front@.len() - i,
    {
        proof {
            assert(all[i as int] == names@[i as int]@);
            assert(start[i as int] == front@[i as int]@);
        }
        if !same_text(names[i].as_str(), front[i].as_str()) {
            proof {
                assert(all.subrange(0, start.len() as int)[i as int] != start[i as int]);
            }
            return false;
        }
        i = i + 1;
    }
    proof {
        assert(all.subrange(0, start.len() as int) =~= start);
    }
    true
}

/// The inbox of a knowledge base.
pub struct InboxStore {
    root: String,
    max_note_bytes: usize,
    max_total_bytes: u64,
}

/// An inbox as mathematical values.
pub struct InboxModel {
    pub root: Seq<char>,
    pub max_note_bytes: usize,
    pub max_total_bytes: u64,
}

impl View for InboxStore {
    type V = InboxModel;

    closed spec fn view(&self) -> InboxModel {
        InboxModel {
            root: self.root@,
            max_note_bytes: self.max_note_bytes,
            max_total_bytes: self.max_total_bytes,
        }
    }
}

/// Why an inbox is not used.
pub open spec fn inbox_refusal(directory: InboxDirectory) -> Option<InboxError> {
    match directory {
        InboxDirectory::Unavailable => Some(InboxError::Io),
        InboxDirectory::NotADirectory => Some(InboxError::Unavailable),
        InboxDirectory::Found { root, kb_root, writable, opened } => if kb_root is Some && lies_in(
            kb_root->Some_0@,
            root@,
        ) {
            Some(InboxError::Unavailable)
        } else if !writable {
            Some(InboxError::Unavailable)
        } else if !opened {
            Some(InboxError::Io)
        } else {
            None
        },
    }
}

impl InboxStore {
    /// Opens the inbox, given what was found. It fails, rather than degrading
    /// silently, where the directory is missing, is no directory, cannot be
    /// written to, or holds the knowledge base, which would put canonical
    /// documents within reach of a writer. Callers take the failure as "no write
    /// tool", never as a startup error.
    pub fn open(directory: InboxDirectory, max_note_bytes: usize, max_total_bytes: u64) -> (r:
        Result<InboxStore, InboxError>)
        ensures
            match r {
                Ok(store) => inbox_refusal(directory) is None && (
                directory matches InboxDirectory::Found { root, .. } && store@ == (InboxModel {
                    root: root@,
                    max_note_bytes,
                    max_total_bytes,
                })),
                Err(error) => inbox_refusal(directory) == Some(error),
            },
    {
        match directory {
            InboxDirectory::Unavailable => Err(InboxError::Io),
            InboxDirectory::NotADirectory => Err(InboxError::Unavailable),
            InboxDirectory::Found { root, kb_root, writable, opened } => {
                let exposes = match &kb_root {
                    Some(kb_root) => is_in(kb_root.as_str(), root.as_str()),
                    None => false,
                };
                if exposes || !writable {
                    return Err(InboxError::Unavailable);
                }
                if !opened {
                    return Err(InboxError::Io);
                }
                Ok(InboxStore { root, max_note_bytes, max_total_bytes })
            },
        }
    }

    pub fn root(&self) -> (r: &str)
        ensures
            r@ == self@.root,
    {
        self.root.as_str()
    }

    pub fn max_note_bytes(&self) -> (r: usize)
        ensures
            r == self@.max_note_bytes,
    {
        self.max_note_bytes
    }

    /// Drafts one note. `fingerprint` is the audit fingerprint of the credential
    /// that asked for the write; it is recorded in the note so that a later
    /// reader can tie the file back to an audit record.
    pub fn create_note(
        &self,
        title: &str,
        body: &str,
        occurred: Option<&str>,
        fingerprint: &str,
        seconds: i64,
    ) -> (r: Result<NoteDraft, InboxError>)
        ensures
            match r {
                Ok(draft) => drafted(
                    title@,
                    body@,
                    str_option(occurred),
                    fingerprint@,
                    seconds as int,
                    self@.max_note_bytes as nat,
                ) == Ok::<_, InboxError>(draft@),
                Err(error) => drafted(
                    title@,
                    body@,
                    str_option(occurred),
                    fingerprint@,
                    seconds as int,
                    self@.max_note_bytes as nat,
                ) == Err::<DraftModel, _>(error),
            },
    {
        let title = normalize_title(title)?;
        validate_body(body, self.max_note_bytes)?;
        let occurred = match occurred {
            Some(date) => Some(validate_occurred(date)?),
            None => None,
        };
        let created = rfc3339_utc(seconds);
        let contents = render_note(title.as_str(), created.as_str(), occurred, fingerprint, body)?;
        let slug = slug(title.as_str());
        Ok(NoteDraft { contents, created, slug, seconds })
    }

    /// Admits a note where the inbox has room for it, given what is in use.
    pub fn admit_note(&self, draft: NoteDraft, used: u64) -> (r: Result<NoteAttempt, InboxError>)
        ensures
            match r {
                Ok(attempt) => capped_sum(used as nat, byte_len(draft@.contents))
                    <= self@.max_total_bytes && attempt.draft() == draft@ && attempt.attempt() == 0,
                Err(error) => error is QuotaExceeded && capped_sum(
                    used as nat,
                    byte_len(draft@.contents),
                ) > self@.max_total_bytes,
            },
    {
        let size: u64 = text_bytes_len(draft.contents.as_str()) as u64;
        if used.saturating_add(size) > self.max_total_bytes {
            return Err(InboxError::QuotaExceeded);
        }
        Ok(NoteAttempt { draft, attempt: 0 })
    }
}

} // verus!
