//! What is kept of a note, and what its author is told.
use vstd::prelude::*;
use vstd::utf8::encode_utf8;

use crate::audit::AuditContext;
use crate::auth::AccessScope;
use crate::calendar::{file_stamp, time_stamp};
use crate::document::path_names;
use crate::format::decimal;
use crate::inbox::{
    bare_yaml, body_error, capped_sum, drafted, inbox_refusal, is_name_char, is_occurred_date,
    is_safe_name, lemma_slugs, note_fields, note_name, note_title, slug_of, step_after, used_by,
    CreateOutcome, CreatedNote, DraftModel, InboxDirectory, InboxEntry, InboxError, StepModel,
};
use crate::json::{holds, lemma_holds, JsonTree};
use crate::laws::documents::{answered_value, refused_value, tells_who_asked};
use crate::laws::settings::{all_white, lemma_blank};
use crate::laws::texts::lemma_trimmed;
use crate::limits::{admits, after_request};
use crate::oauth::signing::opened;
use crate::scan::{is_char, trimmed, trimmed_end_by};
use crate::server::{
    after_write_request, answers_append, error_fields_with, is_append_step, is_invalid,
    write_bucket, AppendStep, ServerModel, ToolOutcome,
};
use crate::text::{is_alphanumeric, is_control_code, is_white_space};
use crate::yaml::yaml_text_of;

verus! {

/// Whether front matter has one field of a name, and this in it.
pub open spec fn says(
    fields: Seq<(Seq<char>, Seq<char>)>,
    name: Seq<char>,
    value: Seq<char>,
) -> bool {
    &&& fields.contains((name, value))
    &&& forall|i: int|
        0 <= i < fields.len() && (#[trigger] fields[i]).0 == name ==> fields[i].1 == value
}

/// Whether front matter has no field of a name.
pub open spec fn says_nothing_of(fields: Seq<(Seq<char>, Seq<char>)>, name: Seq<char>) -> bool {
    forall|i: int| 0 <= i < fields.len() ==> (#[trigger] fields[i]).0 != name
}

/// Whether front matter says of a note what it should: its title, when it was
/// filed, what day it is about where its author said so, and who filed it.
pub open spec fn tells_of_a_note(
    fields: Seq<(Seq<char>, Seq<char>)>,
    title: Seq<char>,
    filed: Seq<char>,
    occurred: Option<Seq<char>>,
    fingerprint: Seq<char>,
) -> bool {
    &&& says(fields, "title"@, title)
    &&& says(fields, "created"@, filed)
    &&& match occurred {
        Some(date) => says(fields, "occurred"@, date),
        None => says_nothing_of(fields, "occurred"@),
    }
    &&& says(fields, "source"@, "mcp:append_note"@)
    &&& says(fields, "fingerprint"@, fingerprint)
}

/// The front matter of a note says under `created` when it was filed, whatever day
/// it is about, and under `occurred` the day that its author gave, where one was
/// given.
pub proof fn lemma_front_matter_of_a_note(
    title: Seq<char>,
    filed: Seq<char>,
    occurred: Option<Seq<char>>,
    fingerprint: Seq<char>,
)
    ensures
        tells_of_a_note(
            note_fields(title, filed, occurred, fingerprint),
            title,
            filed,
            occurred,
            fingerprint,
        ),
{
    reveal_strlit("title");
    reveal_strlit("created");
    reveal_strlit("occurred");
    reveal_strlit("source");
    reveal_strlit("fingerprint");
    assert("title"@.len() == 5);
    assert("created"@.len() == 7);
    assert("occurred"@.len() == 8);
    assert("source"@.len() == 6);
    assert("fingerprint"@.len() == 11);
    let f = note_fields(title, filed, occurred, fingerprint);
    assert(f[0] == ("title"@, title));
    assert(f[1] == ("created"@, filed));
    match occurred {
        Some(date) => {
            assert(f.len() == 5);
            assert(f[2] == ("occurred"@, date));
            assert(f[3] == ("source"@, "mcp:append_note"@));
            assert(f[4] == ("fingerprint"@, fingerprint));
        },
        None => {
            assert(f.len() == 4);
            assert(f[2] == ("source"@, "mcp:append_note"@));
            assert(f[3] == ("fingerprint"@, fingerprint));
        },
    }
}

/// Whether a text is YAML as it stands between two lines of dashes: without a line
/// of dashes of its own in front, and without the line feeds at its end.
pub open spec fn is_bare(front: Seq<char>, yaml: Seq<char>) -> bool {
    exists|opening: Seq<char>, closing: Seq<char>|
        {
            &&& yaml == #[trigger] (opening + front + closing)
            &&& opening == ""@ || opening == "---\n"@
            &&& forall|i: int| 0 <= i < closing.len() ==> #[trigger] closing[i] == '\n'
            &&& front.len() > 0 ==> front.last() != '\n'
        }
}

proof fn lemma_line_feeds_fall_away(s: Seq<char>)
    ensures
        trimmed_end_by(s, is_char('\n')).is_prefix_of(s),
        forall|i: int|
            trimmed_end_by(s, is_char('\n')).len() <= i < s.len() ==> #[trigger] s[i] == '\n',
        trimmed_end_by(s, is_char('\n')).len() > 0 ==> trimmed_end_by(s, is_char('\n')).last()
            != '\n',
    decreases s.len(),
{
    if s.len() > 0 && s.last() == '\n' {
        let t = s.drop_last();
        lemma_line_feeds_fall_away(t);
        assert forall|i: int|
            trimmed_end_by(s, is_char('\n')).len() <= i < s.len() implies #[trigger] s[i]
            == '\n' by {
            if i < t.len() {
                assert(t[i] == '\n');
            }
        }
    }
}

proof fn lemma_bare_yaml(yaml: Seq<char>)
    ensures
        is_bare(bare_yaml(yaml), yaml),
{
    reveal_strlit("");
    assert(""@ =~= Seq::<char>::empty());
    let opening = if "---\n"@.is_prefix_of(yaml) {
        "---\n"@
    } else {
        ""@
    };
    let rest = yaml.skip(opening.len() as int);
    assert(yaml.skip(0) =~= yaml);
    let front = bare_yaml(yaml);
    lemma_line_feeds_fall_away(rest);
    assert(front == trimmed_end_by(rest, is_char('\n')));
    let closing = rest.skip(front.len() as int);
    assert forall|i: int| 0 <= i < closing.len() implies #[trigger] closing[i] == '\n' by {
        assert(closing[i] == rest[i + front.len()]);
    }
    assert(rest =~= front + closing);
    assert(yaml =~= opening + front + closing);
}

/// Whether a file is a note with this front matter and this body: the front matter
/// between two lines of dashes, an empty line, and the body as its author wrote it,
/// with a line feed at the end.
pub open spec fn is_note(contents: Seq<char>, front: Seq<char>, body: Seq<char>) -> bool {
    let whole = "---\n"@ + front + "\n---\n\n"@ + body;
    contents == if body.last() == '\n' {
        whole
    } else {
        whole + seq!['\n']
    }
}

/// What is filed of a note: front matter that says its title without white space
/// around it, the time of filing and the day it is about, and its body as it was
/// written. The time is the one that the draft goes by.
pub proof fn lemma_what_is_filed(
    title: Seq<char>,
    body: Seq<char>,
    occurred: Option<Seq<char>>,
    fingerprint: Seq<char>,
    seconds: int,
    max_note_bytes: nat,
    draft: DraftModel,
)
    requires
        drafted(title, body, occurred, fingerprint, seconds, max_note_bytes) == Ok::<
            DraftModel,
            InboxError,
        >(draft),
    ensures
        draft.created == time_stamp(seconds),
        draft.seconds == seconds,
        exists|fields: Seq<(Seq<char>, Seq<char>)>, front: Seq<char>|
            {
                &&& #[trigger] is_note(draft.contents, front, body)
                &&& yaml_text_of(fields) is Some
                &&& is_bare(front, yaml_text_of(fields)->Some_0)
                &&& #[trigger] tells_of_a_note(
                    fields,
                    trimmed(title),
                    draft.created,
                    occurred,
                    fingerprint,
                )
            },
{
    let filed = time_stamp(seconds);
    let fields = note_fields(trimmed(title), filed, occurred, fingerprint);
    lemma_front_matter_of_a_note(trimmed(title), filed, occurred, fingerprint);
    let yaml = yaml_text_of(fields)->Some_0;
    lemma_bare_yaml(yaml);
    let front = bare_yaml(yaml);
    assert(body.len() > 0) by {
        if body.len() == 0 {
            assert(trimmed(body).len() == 0);
        }
    }
    let whole = "---\n"@ + front + "\n---\n\n"@ + body;
    assert(whole.last() == body.last());
    assert(whole.push('\n') =~= whole + seq!['\n']);
    assert(is_note(draft.contents, front, body));
}

/// What an author is told of a note under each name.
pub open spec fn tells_note(tree: JsonTree, note: CreatedNote) -> bool {
    &&& holds(tree, "id"@, JsonTree::Text(note.id@))
    &&& holds(tree, "created"@, JsonTree::Text(note.created@))
    &&& holds(tree, "bytes"@, JsonTree::Number(note.bytes))
}

/// Every stored note is told of with each part under its own name.
pub proof fn lemma_told_note(note: CreatedNote)
    ensures
        tells_note(JsonTree::Object(crate::server::note_fields(note)), note),
{
    reveal_strlit("id");
    reveal_strlit("created");
    reveal_strlit("bytes");
    assert("id"@.len() == 2);
    assert("created"@.len() == 7);
    assert("bytes"@.len() == 5);
    let f = crate::server::note_fields(note);
    lemma_holds(f, 0);
    lemma_holds(f, 1);
    lemma_holds(f, 2);
}

/// The author of a note is told under `created` the time of filing, which is what
/// the note itself says under `created`, whatever day it is about; under `bytes` how
/// long the file is, and under `id` where it lies.
pub proof fn lemma_author_is_told_when_the_note_was_filed(
    title: Seq<char>,
    body: Seq<char>,
    occurred: Option<Seq<char>>,
    fingerprint: Seq<char>,
    seconds: int,
    max_note_bytes: nat,
    draft: DraftModel,
    attempt: u32,
    note: CreatedNote,
    context: AuditContext,
    attempted: u64,
    outcome: ToolOutcome,
)
    requires
        drafted(title, body, occurred, fingerprint, seconds, max_note_bytes) == Ok::<
            DraftModel,
            InboxError,
        >(draft),
        step_after(draft, attempt, CreateOutcome::Written) == StepModel::Done(note@),
        answers_append(context, Ok(note), attempted, max_note_bytes as usize, outcome),
    ensures
        match answered_value(outcome) {
            Some(tree) => {
                &&& holds(tree, "created"@, JsonTree::Text(time_stamp(seconds)))
                &&& holds(tree, "bytes"@, JsonTree::Number(encode_utf8(draft.contents).len() as u64))
                &&& exists|name: Seq<char>|
                    holds(tree, "id"@, JsonTree::Text("99_inbox/"@ + name)) && name
                        == #[trigger] note_name(seconds, draft.slug, attempt)
                &&& exists|fields: Seq<(Seq<char>, Seq<char>)>, front: Seq<char>|
                    {
                        &&& #[trigger] is_note(draft.contents, front, body)
                        &&& yaml_text_of(fields) is Some
                        &&& is_bare(front, yaml_text_of(fields)->Some_0)
                        &&& #[trigger] tells_of_a_note(
                            fields,
                            trimmed(title),
                            time_stamp(seconds),
                            occurred,
                            fingerprint,
                        )
                    }
            },
            None => false,
        },
{
    lemma_what_is_filed(title, body, occurred, fingerprint, seconds, max_note_bytes, draft);
    lemma_told_note(note);
    reveal_strlit("99_inbox");
    reveal_strlit("/");
    reveal_strlit("99_inbox/");
    let name = note_name(seconds, draft.slug, attempt);
    assert("99_inbox"@ + "/"@ =~= "99_inbox/"@);
    assert("99_inbox"@ + "/"@ + name =~= "99_inbox/"@ + name);
    assert(note@.id == "99_inbox/"@ + name);
    assert(note.id@ == "99_inbox/"@ + name);
    assert(note_name(seconds, draft.slug, attempt) == name);
}

/// Which titles are taken: with one to two hundred characters besides the white space
/// around them, none of which is a control character. White space around a title does
/// not matter.
pub proof fn lemma_which_titles_are_taken(before: Seq<char>, title: Seq<char>, behind: Seq<char>)
    requires
        all_white(before),
        all_white(behind),
        title.len() > 0,
        !is_white_space(title[0]),
        !is_white_space(title.last()),
    ensures
        note_title(before + title + behind) == (if title.len() <= 200 && forall|i: int|
            0 <= i < title.len() ==> !is_control_code(#[trigger] title[i]) {
            Some(title)
        } else {
            None
        }),
        note_title(before) is None,
{
    lemma_trimmed(before, title, behind);
    lemma_blank(before);
}

/// Which bodies are taken: with something besides white space in them, no null
/// character, and not too long.
pub proof fn lemma_which_bodies_are_taken(body: Seq<char>, max_note_bytes: nat)
    ensures
        all_white(body) || body.contains('\0') ==> body_error(body, max_note_bytes) == Some(
            InboxError::InvalidBody,
        ),
        !all_white(body) && !body.contains('\0') && encode_utf8(body).len() > max_note_bytes
            ==> body_error(body, max_note_bytes) == Some(InboxError::NoteTooLarge),
        !all_white(body) && !body.contains('\0') && encode_utf8(body).len() <= max_note_bytes
            ==> body_error(body, max_note_bytes) is None,
{
    lemma_blank(body);
}

/// Which notes are taken, and what is said of those that are not: of the title before
/// the body, and of the body before the day.
pub proof fn lemma_which_notes_are_taken(
    title: Seq<char>,
    body: Seq<char>,
    occurred: Option<Seq<char>>,
    fingerprint: Seq<char>,
    seconds: int,
    max_note_bytes: nat,
)
    ensures
        ({
            let draft = drafted(title, body, occurred, fingerprint, seconds, max_note_bytes);
            let trimmed_title = trimmed(title);
            let title_is_taken = 1 <= trimmed_title.len() <= 200 && forall|i: int|
                0 <= i < trimmed_title.len() ==> !is_control_code(#[trigger] trimmed_title[i]);
            let body_is_taken = !all_white(body) && !body.contains('\0');
            &&& !title_is_taken ==> draft == Err::<DraftModel, _>(InboxError::InvalidTitle)
            &&& title_is_taken && !body_is_taken ==> draft == Err::<DraftModel, _>(
                InboxError::InvalidBody,
            )
            &&& title_is_taken && body_is_taken && encode_utf8(body).len() > max_note_bytes ==> draft
                == Err::<DraftModel, _>(InboxError::NoteTooLarge)
            &&& title_is_taken && body_is_taken && encode_utf8(body).len() <= max_note_bytes && (
            occurred matches Some(day) && !is_occurred_date(day)) ==> draft == Err::<DraftModel, _>(
                InboxError::InvalidOccurred,
            )
        }),
{
    lemma_which_bodies_are_taken(body, max_note_bytes);
}

/// What is answered where a note is not taken. A reason that lies in the call is
/// named; a note that is too large is told how large one may be; that there is no
/// room is said without a figure; and any other failure goes by the number of the
/// request.
pub proof fn lemma_refused_notes(
    context: AuditContext,
    error: InboxError,
    attempted: u64,
    max_note_bytes: usize,
    outcome: ToolOutcome,
)
    requires
        answers_append(context, Err(error), attempted, max_note_bytes, outcome),
    ensures
        error is InvalidTitle ==> is_invalid(outcome.answer, "invalid note title"@),
        error is InvalidBody ==> is_invalid(outcome.answer, "invalid note body"@),
        error is InvalidOccurred ==> is_invalid(
            outcome.answer,
            "invalid occurred date; use YYYY-MM-DD"@,
        ),
        error is NoteTooLarge ==> (refused_value(outcome) matches Some(tree) && holds(
            tree,
            "error"@,
            JsonTree::Text("note_too_large"@),
        ) && holds(tree, "max_bytes"@, JsonTree::Number(max_note_bytes as u64))),
        error is QuotaExceeded ==> refused_value(outcome) == Some(
            JsonTree::Object(seq![("error"@, JsonTree::Text("quota_exceeded"@))]),
        ),
        error is Io || error is Unavailable || error is NameExhausted ==> (refused_value(outcome) matches Some(
            tree,
        ) && holds(tree, "error"@, JsonTree::Text("internal_error"@)) && holds(
            tree,
            "request_id"@,
            JsonTree::Number(context.request_id),
        )),
        match outcome.record {
            Some(record) => {
                &&& record.operation@ == "append_note"@
                &&& record.bytes == Some(attempted)
                &&& record.document_id@ == ""@
                &&& record.request_id == context.request_id
                &&& record.credential_fingerprint@ == context.credential_fingerprint@
                &&& error is QuotaExceeded ==> record.outcome@ == "quota_exceeded"@
                &&& error is NoteTooLarge ==> record.outcome@ == "note_too_large"@
                &&& error is InvalidTitle ==> record.outcome@ == "invalid_title"@
                &&& error is InvalidBody ==> record.outcome@ == "invalid_body"@
                &&& error is InvalidOccurred ==> record.outcome@ == "invalid_occurred"@
                &&& error is Io || error is Unavailable || error is NameExhausted ==> record.outcome@
                    == "internal_error"@
            },
            None => false,
        },
{
    reveal_strlit("error");
    reveal_strlit("max_bytes");
    reveal_strlit("request_id");
    reveal_strlit("");
    assert("error"@.len() == 5 && "max_bytes"@.len() == 9 && "request_id"@.len() == 10);
    assert(""@ =~= Seq::<char>::empty());
    let large = error_fields_with("note_too_large"@, "max_bytes"@, max_note_bytes as u64);
    lemma_holds(large, 0);
    lemma_holds(large, 1);
    let internal = error_fields_with("internal_error"@, "request_id"@, context.request_id);
    lemma_holds(internal, 0);
    lemma_holds(internal, 1);
}

/// A note is let in exactly where it fits into what is left: what is in use and what
/// it takes together are no more than there may be.
pub proof fn lemma_what_fits(used: nat, size: nat, most: nat)
    requires
        used <= u64::MAX,
        most < u64::MAX,
    ensures
        capped_sum(used, size) <= most <==> used + size <= most,
{
}

/// What is in use is what the regular files take, each as many bytes as it has; other
/// entries take nothing, nor do the directory itself and its parent, and nothing is
/// known where an entry could not be looked at.
pub proof fn lemma_what_is_in_use(entries: Seq<InboxEntry>, entry: InboxEntry, used: nat)
    requires
        used_by(entries) == Some(used),
    ensures
        used_by(Seq::empty()) == Some(0nat),
        entry is Unreadable ==> used_by(entries.push(entry)) is None,
        entry matches InboxEntry::Named { name, stat } ==> {
            let dots = name@ == seq![46u8] || name@ == seq![46u8, 46u8];
            &&& dots ==> used_by(entries.push(entry)) == Some(used)
            &&& !dots && stat is None ==> used_by(entries.push(entry)) is None
            &&& !dots ==> (stat matches Some((regular, size)) ==> {
                &&& regular && size > 0 && used + size <= u64::MAX ==> used_by(entries.push(entry))
                    == Some((used + size) as nat)
                &&& !regular ==> used_by(entries.push(entry)) == Some(used)
            })
        },
    decreases entries.len(),
{
    assert(entries.push(entry).drop_last() =~= entries);
    lemma_used_is_counted(entries);
}

proof fn lemma_used_is_counted(entries: Seq<InboxEntry>)
    ensures
        used_by(entries) matches Some(used) ==> used <= u64::MAX,
    decreases entries.len(),
{
    if entries.len() > 0 {
        lemma_used_is_counted(entries.drop_last());
    }
}

/// Where a note is filed: under the time, the slug of its title and, from the second
/// attempt on, a number, which counts the attempts. A name that is taken leads to the
/// next attempt, up to the sixty-fourth.
pub proof fn lemma_names_that_are_tried(draft: DraftModel, attempt: u32)
    requires
        attempt < 64,
    ensures
        note_name(draft.seconds, draft.slug, 0) == file_stamp(draft.seconds) + "-"@ + draft.slug
            + ".md"@,
        attempt > 0 ==> note_name(draft.seconds, draft.slug, attempt) == file_stamp(draft.seconds)
            + "-"@ + draft.slug + "-"@ + decimal((attempt + 1) as nat) + ".md"@,
        attempt < 63 ==> step_after(draft, attempt, CreateOutcome::Taken) == StepModel::Retry(
            (attempt + 1) as u32,
        ),
        attempt == 63 ==> step_after(draft, attempt, CreateOutcome::Taken) == StepModel::GaveUp(
            InboxError::NameExhausted,
        ),
        step_after(draft, attempt, CreateOutcome::Failed) == StepModel::GaveUp(InboxError::Io),
        step_after(draft, attempt, CreateOutcome::Unavailable) == StepModel::GaveUp(
            InboxError::Unavailable,
        ),
{
    let front = file_stamp(draft.seconds) + "-"@ + draft.slug;
    assert(front + Seq::<char>::empty() =~= front);
    let number = decimal((attempt + 1) as nat);
    assert(front + ("-"@ + number) =~= front + "-"@ + number);
}

/// The slug of a title has at most forty characters; a title without letters and
/// digits goes by the word note.
pub proof fn lemma_slugs_are_short(title: Seq<char>)
    ensures
        1 <= slug_of(title).len() <= 40,
        (forall|i: int|
            0 <= i < title.len() ==> !is_alphanumeric(#[trigger] title[i])) ==> slug_of(title)
            == "note"@,
{
    lemma_slugs(title);
}

/// An inbox is used exactly where it is a directory that can be opened and written to,
/// and the knowledge base does not lie in it.
pub proof fn lemma_which_inboxes_are_used(directory: InboxDirectory)
    ensures
        inbox_refusal(directory) is None <==> (directory matches InboxDirectory::Found {
            root,
            kb_root,
            writable,
            opened,
        } && writable && opened && (kb_root matches Some(kb) ==> !path_names(root@).is_prefix_of(
            path_names(kb@),
        ))),
        directory is Unavailable ==> inbox_refusal(directory) == Some(InboxError::Io),
        directory is NotADirectory ==> inbox_refusal(directory) == Some(InboxError::Unavailable),
        directory matches InboxDirectory::Found { root, kb_root, writable, opened } ==> {
            &&& !writable ==> inbox_refusal(directory) == Some(InboxError::Unavailable)
            &&& inbox_refusal(directory) == Some(InboxError::Io) ==> writable && !opened
        },
{
}

/// What becomes of a request to append a note. A caller who is not offered the tool is
/// told that there is none, and nothing is recorded. One who comes too soon is told
/// so, which is recorded with the bytes of the body. Else the note is drafted, under
/// the fingerprint of the caller and with the time of the request.
pub proof fn lemma_what_becomes_of_a_note(
    m: ServerModel,
    scope: AccessScope,
    context: AuditContext,
    title: Seq<char>,
    body: Seq<char>,
    occurred: Option<Seq<char>>,
    seconds: int,
    now: u64,
    step: AppendStep,
)
    requires
        is_append_step(m, scope, context, title, body, occurred, seconds, now, step),
        encode_utf8(body).len() <= u64::MAX,
    ensures
        scope is Tech || m.inbox is None ==> (step matches AppendStep::Answer(outcome) && is_invalid(
            outcome.answer,
            "tool not found"@,
        ) && outcome.record is None),
        step matches AppendStep::Store(draft) ==> {
            &&& scope is Private
            &&& m.inbox matches Some(inbox) && drafted(
                title,
                body,
                occurred,
                context.credential_fingerprint@,
                seconds,
                inbox.store.max_note_bytes as nat,
            ) == Ok::<DraftModel, InboxError>(draft@) && admits(
                inbox.limiter.limit,
                write_bucket(inbox.limiter, now),
                now,
            )
        },
        scope is Private ==> (m.inbox matches Some(inbox) && !admits(
            inbox.limiter.limit,
            write_bucket(inbox.limiter, now),
            now,
        ) ==> (step matches AppendStep::Answer(outcome) && refused_value(outcome) == Some(
            JsonTree::Object(seq![("error"@, JsonTree::Text("rate_limited"@))]),
        ) && (outcome.record matches Some(record) && record.operation@ == "append_note"@
            && record.outcome@ == "rate_limited"@ && record.bytes == Some(
            encode_utf8(body).len() as u64,
        )))),
{
}

/// A request to append a note counts against the limit of writes, whatever becomes of
/// it, and against nothing else.
pub proof fn lemma_requests_to_write_count(m: ServerModel, now: u64)
    requires
        m.inbox is Some,
    ensures
        ({
            let after = after_write_request(m, now);
            &&& after.store == m.store
            &&& after.max_search_response_bytes == m.max_search_response_bytes
            &&& after.inbox is Some
            &&& after.inbox->Some_0.store == m.inbox->Some_0.store
            &&& after.inbox->Some_0.limiter.limit == m.inbox->Some_0.limiter.limit
            &&& after.inbox->Some_0.limiter.bucket == Some(
                after_request(
                    m.inbox->Some_0.limiter.limit,
                    write_bucket(m.inbox->Some_0.limiter, now),
                    now,
                ),
            )
        }),
{
}

/// What is recorded of a note that was stored: where it lies and how long it is.
pub proof fn lemma_notes_are_recorded(
    context: AuditContext,
    note: CreatedNote,
    attempted: u64,
    max_note_bytes: usize,
    outcome: ToolOutcome,
)
    requires
        answers_append(context, Ok(note), attempted, max_note_bytes, outcome),
    ensures
        match outcome.record {
            Some(record) => {
                &&& tells_who_asked(record, context)
                &&& record.operation@ == "append_note"@
                &&& record.outcome@ == "ok"@
                &&& record.document_id@ == note.id@
                &&& record.bytes == Some(note.bytes)
            },
            None => false,
        },
{
}

/// Whether a name is that of a single visible Markdown file, in lower case letters,
/// digits, dashes and dots.
pub proof fn lemma_which_file_names_are_safe(name: Seq<char>)
    ensures
        is_safe_name(name) <==> {
            &&& 1 <= name.len()
            &&& encode_utf8(name).len() <= 255
            &&& name[0] != '.'
            &&& ".md"@.is_suffix_of(name)
            &&& forall|i: int|
                0 <= i < name.len() ==> {
                    ||| 'a' <= #[trigger] name[i] <= 'z'
                    ||| '0' <= name[i] <= '9'
                    ||| name[i] == '-'
                    ||| name[i] == '.'
                }
        },
{
    if is_safe_name(name) {
        assert forall|i: int| 0 <= i < name.len() implies ({
            ||| 'a' <= #[trigger] name[i] <= 'z'
            ||| '0' <= name[i] <= '9'
            ||| name[i] == '-'
            ||| name[i] == '.'
        }) by {
            assert(is_name_char(name[i]));
        }
    }
}

} // verus!
