//! What storing a note does to the files of the inbox.
use vstd::prelude::*;

use crate::inbox::{
    capped_sum, drafted, note_name, step_after, tries_in_turn, CreateOutcome, DraftModel,
    InboxError, InboxModel, NoteModel, StepModel, INBOX_ID_PREFIX, MAX_NAME_ATTEMPTS,
};
use crate::text::byte_len;

verus! {

/// What trying to create a file does. Only a name that is free gets a file: with
/// the contents, or with a part of them where writing failed.
pub open spec fn creates(
    files: Map<Seq<char>, Seq<char>>,
    name: Seq<char>,
    contents: Seq<char>,
    outcome: CreateOutcome,
    next: Map<Seq<char>, Seq<char>>,
) -> bool {
    match outcome {
        CreateOutcome::Written => !files.dom().contains(name) && next == files.insert(
            name,
            contents,
        ),
        CreateOutcome::Taken => files.dom().contains(name) && next == files,
        CreateOutcome::Failed => next == files || (!files.dom().contains(name) && exists|
            part: Seq<char>,
        |
            part.is_prefix_of(contents) && next == #[trigger] files.insert(name, part)),
        CreateOutcome::Unavailable => next == files,
    }
}

/// The files before a name is tried, given those after each.
pub open spec fn files_before(
    files: Map<Seq<char>, Seq<char>>,
    states: Seq<Map<Seq<char>, Seq<char>>>,
    i: int,
) -> Map<Seq<char>, Seq<char>> {
    if i == 0 {
        files
    } else {
        states[i - 1]
    }
}

/// Whether these are the outcomes of trying one name after the other, until no
/// further one is to be tried, and the states of the files after each.
pub open spec fn is_filing(
    files: Map<Seq<char>, Seq<char>>,
    draft: DraftModel,
    outcomes: Seq<CreateOutcome>,
    states: Seq<Map<Seq<char>, Seq<char>>>,
) -> bool {
    &&& tries_in_turn(draft, 0, outcomes)
    &&& states.len() == outcomes.len()
    &&& forall|i: int|
        0 <= i < outcomes.len() ==> creates(
            files_before(files, states, i),
            note_name(draft.seconds, draft.slug, i as u32),
            draft.contents,
            #[trigger] outcomes[i],
            states[i],
        )
}

/// What the names that were tried come to.
pub open spec fn filed(draft: DraftModel, outcomes: Seq<CreateOutcome>) -> Result<
    NoteModel,
    InboxError,
> {
    match step_after(draft, (outcomes.len() - 1) as u32, outcomes.last()) {
        StepModel::Done(note) => Ok(note),
        StepModel::GaveUp(error) => Err(error),
        StepModel::Retry(_) => Err(InboxError::NameExhausted),
    }
}

/// Every name that is tried but the last was taken, and up to the last try the
/// files are as they were.
proof fn lemma_taken_names(
    files: Map<Seq<char>, Seq<char>>,
    draft: DraftModel,
    outcomes: Seq<CreateOutcome>,
    states: Seq<Map<Seq<char>, Seq<char>>>,
    i: int,
)
    requires
        is_filing(files, draft, outcomes, states),
        0 <= i < outcomes.len(),
    ensures
        files_before(files, states, i) == files,
        creates(
            files,
            note_name(draft.seconds, draft.slug, i as u32),
            draft.contents,
            outcomes[i],
            states[i],
        ),
        i < outcomes.len() - 1 ==> files.dom().contains(
            note_name(draft.seconds, draft.slug, i as u32),
        ),
    decreases i,
{
    if i > 0 {
        lemma_taken_names(files, draft, outcomes, states, i - 1);
        assert((step_after(draft, (i - 1) as u32, outcomes[i - 1]) is Retry) == (i - 1
            < outcomes.len() - 1));
    }
    assert(creates(
        files_before(files, states, i),
        note_name(draft.seconds, draft.slug, i as u32),
        draft.contents,
        outcomes[i],
        states[i],
    ));
    assert((step_after(draft, i as u32, outcomes[i]) is Retry) == (i < outcomes.len() - 1));
}

/// Whether the first names to try are taken.
pub open spec fn names_taken(
    files: Map<Seq<char>, Seq<char>>,
    draft: DraftModel,
    count: int,
) -> bool {
    forall|i: u32|
        i < count ==> files.dom().contains(#[trigger] note_name(draft.seconds, draft.slug, i))
}

/// What filing a note does to the inbox. The files that are there stay as they
/// are, whatever it comes to. Where it succeeds, one file is added, with the
/// contents of the draft, under the first of the names to try that is free; and
/// the answer gives that name, the length and the time. Where all those names are
/// taken, no file is added, and the answer says so unless a file could not be
/// created for another reason.
pub open spec fn files_one_note(
    files: Map<Seq<char>, Seq<char>>,
    draft: DraftModel,
    at: u32,
    outcome: CreateOutcome,
    last: Map<Seq<char>, Seq<char>>,
    result: Result<NoteModel, InboxError>,
) -> bool {
    let name = note_name(draft.seconds, draft.slug, at);
    let exhausted = Err::<NoteModel, _>(InboxError::NameExhausted);
    &&& files.submap_of(last)
    &&& result matches Ok(note) ==> {
        &&& at < MAX_NAME_ATTEMPTS
        &&& names_taken(files, draft, at as int)
        &&& !files.dom().contains(name)
        &&& last == files.insert(name, draft.contents)
        &&& note.id == INBOX_ID_PREFIX@ + "/"@ + name
        &&& note.bytes == byte_len(draft.contents)
        &&& note.created == draft.created
    }
    &&& result == exhausted ==> last == files && names_taken(
        files,
        draft,
        MAX_NAME_ATTEMPTS as int,
    )
    &&& names_taken(files, draft, MAX_NAME_ATTEMPTS as int) ==> last == files && (result
        == exhausted || outcome is Failed || outcome is Unavailable)
}

proof fn lemma_last_try(
    files: Map<Seq<char>, Seq<char>>,
    draft: DraftModel,
    at: u32,
    outcome: CreateOutcome,
    last: Map<Seq<char>, Seq<char>>,
    result: Result<NoteModel, InboxError>,
)
    requires
        at < MAX_NAME_ATTEMPTS,
        names_taken(files, draft, at as int),
        creates(
            files,
            note_name(draft.seconds, draft.slug, at),
            draft.contents,
            outcome,
            last,
        ),
        match step_after(draft, at, outcome) {
            StepModel::Done(note) => result == Ok::<_, InboxError>(note),
            StepModel::GaveUp(error) => result == Err::<NoteModel, _>(error),
            StepModel::Retry(_) => false,
        },
    ensures
        files_one_note(files, draft, at, outcome, last, result),
{
    let name = note_name(draft.seconds, draft.slug, at);
    if result == Err::<NoteModel, _>(InboxError::NameExhausted) {
        assert forall|i: u32| i < MAX_NAME_ATTEMPTS implies files.dom().contains(
            #[trigger] note_name(draft.seconds, draft.slug, i),
        ) by {
            if i == at {
                assert(files.dom().contains(name));
            }
        }
    }
    if names_taken(files, draft, MAX_NAME_ATTEMPTS as int) {
        assert(files.dom().contains(name));
    }
}

/// Names that are tried as a draft asks for file one note, or none.
pub proof fn lemma_filing_a_note(
    files: Map<Seq<char>, Seq<char>>,
    draft: DraftModel,
    outcomes: Seq<CreateOutcome>,
    states: Seq<Map<Seq<char>, Seq<char>>>,
)
    requires
        is_filing(files, draft, outcomes, states),
    ensures
        files_one_note(
            files,
            draft,
            (outcomes.len() - 1) as u32,
            outcomes.last(),
            states.last(),
            filed(draft, outcomes),
        ),
{
    let at = outcomes.len() - 1;
    lemma_taken_names(files, draft, outcomes, states, at);
    assert((step_after(draft, at as u32, outcomes[at]) is Retry) == (at < outcomes.len() - 1));
    assert forall|i: u32| i < at implies files.dom().contains(
        #[trigger] note_name(draft.seconds, draft.slug, i),
    ) by {
        lemma_taken_names(files, draft, outcomes, states, i as int);
    }
    lemma_last_try(files, draft, at as u32, outcomes[at], states[at], filed(draft, outcomes));
}

/// Whether a request to append a note comes to a result and leaves these files:
/// it is refused without a try, or filed.
pub open spec fn appends(
    inbox: InboxModel,
    files: Map<Seq<char>, Seq<char>>,
    draft: Result<DraftModel, InboxError>,
    used: Result<u64, InboxError>,
    outcomes: Seq<CreateOutcome>,
    states: Seq<Map<Seq<char>, Seq<char>>>,
    last: Map<Seq<char>, Seq<char>>,
    result: Result<NoteModel, InboxError>,
) -> bool {
    match (draft, used) {
        (Err(error), _) => last == files && result == Err::<NoteModel, _>(error),
        (Ok(_), Err(error)) => last == files && result == Err::<NoteModel, _>(error),
        (Ok(draft), Ok(used)) => if capped_sum(used as nat, byte_len(draft.contents))
            > inbox.max_total_bytes {
            last == files && result == Err::<NoteModel, _>(InboxError::QuotaExceeded)
        } else {
            is_filing(files, draft, outcomes, states) && last == states.last() && result == filed(
                draft,
                outcomes,
            )
        },
    }
}

/// Whatever comes of a request to append a note, the files that were there are
/// still there as they were. An answer that a note was stored means one more
/// file, and no answer about the title, the body, the date, the size, the quota or
/// the names means one.
pub proof fn lemma_appending_a_note(
    inbox: InboxModel,
    files: Map<Seq<char>, Seq<char>>,
    title: Seq<char>,
    body: Seq<char>,
    occurred: Option<Seq<char>>,
    fingerprint: Seq<char>,
    seconds: int,
    used: Result<u64, InboxError>,
    outcomes: Seq<CreateOutcome>,
    states: Seq<Map<Seq<char>, Seq<char>>>,
    last: Map<Seq<char>, Seq<char>>,
    result: Result<NoteModel, InboxError>,
)
    requires
        appends(
            inbox,
            files,
            drafted(title, body, occurred, fingerprint, seconds, inbox.max_note_bytes as nat),
            used,
            outcomes,
            states,
            last,
            result,
        ),
    ensures
        files.submap_of(last),
        result matches Ok(note) ==> exists|name: Seq<char>, contents: Seq<char>|
            {
                &&& !files.dom().contains(name)
                &&& last == #[trigger] files.insert(name, contents)
                &&& note.id == INBOX_ID_PREFIX@ + "/"@ + name
                &&& note.bytes == byte_len(contents)
            },
        result matches Err(error) && !(error is Io) ==> last == files,
{
    let draft = drafted(title, body, occurred, fingerprint, seconds, inbox.max_note_bytes as nat);
    if draft is Ok && used is Ok && capped_sum(used->Ok_0 as nat, byte_len(draft->Ok_0.contents))
        <= inbox.max_total_bytes {
        let draft = draft->Ok_0;
        lemma_filing_a_note(files, draft, outcomes, states);
        lemma_taken_names(files, draft, outcomes, states, outcomes.len() - 1);
    }
}

} // verus!
