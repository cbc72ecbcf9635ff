//! The tools of the server: which a caller is offered, and what calling them is
//! answered.
use vstd::prelude::*;
use vstd::utf8::encode_utf8;

use crate::audit::{records_tool, tool, tool_write, AuditContext, ToolRecord};
use crate::auth::AccessScope;
use crate::document::{
    is_document_id, is_reading, is_visible, DocumentId, DocumentModel, DocumentStore,
    FetchedDocument, FileOutcome, FrontMatter, StoreError, StoreModel,
};
use crate::inbox::{
    drafted, CreatedNote, InboxError, InboxModel, InboxStore, NoteAttempt, NoteDraft,
};
use crate::json::{
    distinct_names, field_trees, json_bytes, json_depth, json_tree, json_value, json_write,
    optional_text, plain, with_field, with_flag, with_number, with_optional_text, with_text, Json,
    JsonTree,
};
use crate::laws::documents::{lemma_fetched_document, tells_document};
use crate::limits::{admits, after_request, full_bucket, WriteLimiterModel, WriteRateLimiter};
use crate::search::{
    is_listed_search, lemma_response_plain, response_fields, result_views, SearchResponse,
};
use crate::text::{byte_len, same_text, str_option, text_bytes_len, text_from_utf8};

verus! {

/// What is left of a search response for the parts of an answer around it.
pub const SEARCH_RESPONSE_WRAPPER_BYTES: usize = 1_024;

pub const SEARCH: &'static str = "search";

pub const FETCH: &'static str = "fetch";

pub const APPEND_NOTE: &'static str = "append_note";

/// What a call of a tool is answered.
pub enum ToolAnswer {
    /// A result, and the same as text: clients show text to the model and not
    /// what is structured.
    Structured { value: serde_json::Value, text: String },
    /// The tool ran, and says why it did not do what was asked.
    StructuredError(serde_json::Value),
    /// The call was not one that could be made.
    InvalidParams(&'static str),
    InternalError(&'static str),
}

/// An answer and what is recorded of it.
pub struct ToolOutcome {
    pub answer: ToolAnswer,
    pub record: Option<ToolRecord>,
}

/// Whether an answer carries a value, and its JSON text.
pub open spec fn carries(answer: ToolAnswer, tree: JsonTree) -> bool {
    answer matches ToolAnswer::Structured { value, text } && json_tree(value) == tree
        && encode_utf8(text@) == json_bytes(tree)
}

fn structured(value: serde_json::Value) -> (r: ToolAnswer)
    requires
        plain(json_tree(value), json_depth()),
    ensures
        carries(r, json_tree(value)),
{
    match json_write(&value) {
        Some(bytes) => match text_from_utf8(bytes) {
            Some(text) => ToolAnswer::Structured { value, text },
            None => ToolAnswer::InternalError("failed to serialize tool result"),
        },
        None => ToolAnswer::InternalError("failed to serialize tool result"),
    }
}

/// A refusal that names its reason.
pub open spec fn error_fields(reason: Seq<char>) -> Seq<(Seq<char>, JsonTree)> {
    seq![("error"@, JsonTree::Text(reason))]
}

/// A refusal that names its reason and a number.
pub open spec fn error_fields_with(reason: Seq<char>, name: Seq<char>, number: u64) -> Seq<
    (Seq<char>, JsonTree),
> {
    seq![("error"@, JsonTree::Text(reason)), (name, JsonTree::Number(number))]
}

fn error_value(reason: &str) -> (r: serde_json::Value)
    ensures
        json_tree(r) == JsonTree::Object(error_fields(reason@)),
{
    let fields: Vec<(String, serde_json::Value)> = Vec::new();
    proof {
        assert(field_trees(fields@) =~= Seq::empty());
    }
    let fields = with_text(fields, "error", reason);
    proof {
        assert(field_trees(fields@) =~= error_fields(reason@));
    }
    json_value(Json::Object(fields))
}

fn error_value_with(reason: &str, name: &str, number: u64) -> (r: serde_json::Value)
    requires
        name@ != "error"@,
    ensures
        json_tree(r) == JsonTree::Object(error_fields_with(reason@, name@, number)),
{
    let fields: Vec<(String, serde_json::Value)> = Vec::new();
    proof {
        assert(field_trees(fields@) =~= Seq::empty());
    }
    let fields = with_text(fields, "error", reason);
    let fields = with_number(fields, name, number);
    proof {
        assert(field_trees(fields@) =~= error_fields_with(reason@, name@, number));
    }
    json_value(Json::Object(fields))
}

/// Whether an answer is a refusal for a reason.
pub open spec fn refuses(answer: ToolAnswer, fields: Seq<(Seq<char>, JsonTree)>) -> bool {
    answer matches ToolAnswer::StructuredError(value) && json_tree(value) == JsonTree::Object(
        fields,
    )
}

/// Whether an answer says that the call was not one that could be made.
pub open spec fn is_invalid(answer: ToolAnswer, message: Seq<char>) -> bool {
    answer matches ToolAnswer::InvalidParams(given) && given@ == message
}

fn internal_error(context: &AuditContext) -> (r: ToolAnswer)
    ensures
        refuses(r, error_fields_with("internal_error"@, "request_id"@, context.request_id)),
{
    proof {
        reveal_strlit("error");
        reveal_strlit("request_id");
        assert("error"@.len() == 5);
        assert("request_id"@.len() == 10);
    }
    ToolAnswer::StructuredError(
        error_value_with("internal_error", "request_id", context.request_id),
    )
}

/// What travels with a request once it has been let through: who is asking, and
/// for the records.
pub struct RequestParts {
    pub scope: Option<AccessScope>,
    pub context: Option<AuditContext>,
}

/// Who is asking, or what a request is answered that did not come through where
/// that is established.
pub fn request_context(parts: Option<RequestParts>) -> (r: Result<
    (AccessScope, AuditContext),
    ToolAnswer,
>)
    ensures
        match parts {
            None => r matches Err(ToolAnswer::InternalError(message)) && message@
                == "request context unavailable"@,
            Some(parts) => match (parts.scope, parts.context) {
                (None, _) => r matches Err(ToolAnswer::InternalError(message)) && message@
                    == "authorization context unavailable"@,
                (Some(_), None) => r matches Err(ToolAnswer::InternalError(message)) && message@
                    == "audit context unavailable"@,
                (Some(scope), Some(context)) => r == Ok::<_, ToolAnswer>((scope, context)),
            },
        },
{
    let parts = match parts {
        Some(parts) => parts,
        None => {
            return Err(ToolAnswer::InternalError("request context unavailable"));
        },
    };
    let scope = match parts.scope {
        Some(scope) => scope,
        None => {
            return Err(ToolAnswer::InternalError("authorization context unavailable"));
        },
    };
    match parts.context {
        Some(context) => Ok((scope, context)),
        None => Err(ToolAnswer::InternalError("audit context unavailable")),
    }
}

/// What a name that no tool has is answered. A tool that a caller may not use is
/// answered in the same way, so that it cannot be told from one that is not
/// there.
pub fn tool_not_found() -> (r: ToolOutcome)
    ensures
        is_invalid(r.answer, "tool not found"@),
        r.record is None,
{
    ToolOutcome { answer: ToolAnswer::InvalidParams("tool not found"), record: None }
}

/// Whether a search is answered as it should be, given what it came to.
pub open spec fn answers_search(
    context: AuditContext,
    result: Result<SearchResponse, StoreError>,
    outcome: ToolOutcome,
) -> bool {
    match result {
        Ok(response) => carries(
            outcome.answer,
            JsonTree::Object(response_fields(result_views(response.results@), response.truncated)),
        ) && (outcome.record matches Some(record) && records_tool(
            record,
            context,
            SEARCH@,
            "ok"@,
            None,
            None,
        )),
        Err(StoreError::InvalidQuery) => is_invalid(outcome.answer, "invalid search query"@) && (
        outcome.record matches Some(record) && records_tool(
            record,
            context,
            SEARCH@,
            "invalid_query"@,
            None,
            None,
        )),
        Err(_) => refuses(
            outcome.answer,
            error_fields_with("internal_error"@, "request_id"@, context.request_id),
        ) && (outcome.record matches Some(record) && records_tool(
            record,
            context,
            SEARCH@,
            "internal_error"@,
            None,
            None,
        )),
    }
}

pub fn search_outcome(context: &AuditContext, result: Result<SearchResponse, StoreError>) -> (r:
    ToolOutcome)
    ensures
        answers_search(*context, result, r),
{
    match result {
        Ok(response) => {
            proof {
                lemma_response_plain(result_views(response.results@), response.truncated);
            }
            ToolOutcome {
                answer: structured(response.to_json()),
                record: Some(tool(context, SEARCH, "ok", None)),
            }
        },
        Err(StoreError::InvalidQuery) => ToolOutcome {
            answer: ToolAnswer::InvalidParams("invalid search query"),
            record: Some(tool(context, SEARCH, "invalid_query", None)),
        },
        Err(_) => ToolOutcome {
            answer: internal_error(context),
            record: Some(tool(context, SEARCH, "internal_error", None)),
        },
    }
}

pub open spec fn fetch_metadata_fields(d: DocumentModel) -> Seq<(Seq<char>, JsonTree)> {
    seq![
        ("path"@, JsonTree::Text(d.id)),
        ("description"@, JsonTree::Text(d.metadata.description)),
        ("updated"@, optional_text(d.metadata.updated)),
    ]
}

/// A fetched document as JSON.
pub open spec fn fetch_fields(d: DocumentModel) -> Seq<(Seq<char>, JsonTree)> {
    seq![
        ("id"@, JsonTree::Text(d.id)),
        ("title"@, JsonTree::Text(d.metadata.title)),
        ("text"@, JsonTree::Text(d.text)),
        ("metadata"@, JsonTree::Object(fetch_metadata_fields(d))),
        ("truncated"@, JsonTree::Bool(d.truncated)),
    ]
}

pub proof fn lemma_fetch_names(d: DocumentModel)
    ensures
        distinct_names(fetch_metadata_fields(d)),
        distinct_names(fetch_fields(d)),
        plain(JsonTree::Object(fetch_fields(d)), json_depth()),
{
    reveal_strlit("path");
    reveal_strlit("description");
    reveal_strlit("updated");
    reveal_strlit("id");
    reveal_strlit("title");
    reveal_strlit("text");
    reveal_strlit("metadata");
    reveal_strlit("truncated");
    assert("path"@.len() == 4);
    assert("description"@.len() == 11);
    assert("updated"@.len() == 7);
    assert("id"@.len() == 2);
    assert("title"@.len() == 5);
    assert("text"@.len() == 4);
    assert("metadata"@.len() == 8);
    assert("truncated"@.len() == 9);
    let inner = fetch_metadata_fields(d);
    let fields = fetch_fields(d);
    assert forall|i: int| 0 <= i < inner.len() implies plain((#[trigger] inner[i]).1, 125) by {}
    assert(plain(JsonTree::Object(inner), 126));
    assert forall|i: int| 0 <= i < fields.len() implies plain((#[trigger] fields[i]).1, 126) by {}
}

/// A fetched document as it is answered.
pub fn fetch_response(document: &FetchedDocument) -> (r: serde_json::Value)
    ensures
        json_tree(r) == JsonTree::Object(fetch_fields(document@)),
        tells_document(json_tree(r), document@),
        plain(json_tree(r), json_depth()),
{
    let inner: Vec<(String, serde_json::Value)> = Vec::new();
    let fields: Vec<(String, serde_json::Value)> = Vec::new();
    proof {
        assert(field_trees(inner@) =~= Seq::empty());
        assert(field_trees(fields@) =~= Seq::empty());
        lemma_fetch_names(document@);
    }
    let inner = with_text(inner, "path", document.id.as_str());
    let inner = with_text(inner, "description", document.metadata.description.as_str());
    let inner = with_optional_text(inner, "updated", &document.metadata.updated);
    proof {
        assert(field_trees(inner@) =~= fetch_metadata_fields(document@));
    }
    let fields = with_text(fields, "id", document.id.as_str());
    let fields = with_text(fields, "title", document.metadata.title.as_str());
    let fields = with_text(fields, "text", document.text.as_str());
    let fields = with_field(fields, "metadata", Json::Object(inner));
    let fields = with_flag(fields, "truncated", document.truncated);
    proof {
        assert(field_trees(fields@) =~= fetch_fields(document@));
        lemma_fetched_document(document@);
    }
    json_value(Json::Object(fields))
}

/// The document that a fetch asks for, or what it is answered where it asks for
/// none.
pub fn fetch_target(id: &str) -> (r: Result<DocumentId, ToolOutcome>)
    ensures
        match r {
            Ok(target) => is_document_id(id@) && target@ == id@,
            Err(outcome) => !is_document_id(id@) && is_invalid(
                outcome.answer,
                "invalid document id"@,
            ) && outcome.record is None,
        },
{
    match DocumentId::parse(id) {
        Ok(target) => Ok(target),
        Err(_) => Err(
            ToolOutcome { answer: ToolAnswer::InvalidParams("invalid document id"), record: None },
        ),
    }
}

/// Whether a fetch is answered as it should be, given what it came to.
pub open spec fn answers_fetch(
    context: AuditContext,
    id: Seq<char>,
    result: Result<FetchedDocument, StoreError>,
    outcome: ToolOutcome,
) -> bool {
    match result {
        Ok(document) => carries(outcome.answer, JsonTree::Object(fetch_fields(document@))) && (
        outcome.record matches Some(record) && records_tool(
            record,
            context,
            FETCH@,
            "ok"@,
            Some(id),
            None,
        )),
        Err(StoreError::NotFound) => refuses(outcome.answer, error_fields("not_found"@)) && (
        outcome.record matches Some(record) && records_tool(
            record,
            context,
            FETCH@,
            "not_found"@,
            Some(id),
            None,
        )),
        Err(_) => refuses(
            outcome.answer,
            error_fields_with("internal_error"@, "request_id"@, context.request_id),
        ) && (outcome.record matches Some(record) && records_tool(
            record,
            context,
            FETCH@,
            "internal_error"@,
            Some(id),
            None,
        )),
    }
}

pub fn fetch_outcome(
    context: &AuditContext,
    id: &DocumentId,
    result: Result<FetchedDocument, StoreError>,
) -> (r: ToolOutcome)
    ensures
        answers_fetch(*context, id@, result, r),
{
    match result {
        Ok(document) => ToolOutcome {
            answer: structured(fetch_response(&document)),
            record: Some(tool(context, FETCH, "ok", Some(id.as_str()))),
        },
        Err(StoreError::NotFound) => ToolOutcome {
            answer: ToolAnswer::StructuredError(error_value("not_found")),
            record: Some(tool(context, FETCH, "not_found", Some(id.as_str()))),
        },
        Err(_) => ToolOutcome {
            answer: internal_error(context),
            record: Some(tool(context, FETCH, "internal_error", Some(id.as_str()))),
        },
    }
}

/// A stored note as JSON.
pub open spec fn note_fields(note: CreatedNote) -> Seq<(Seq<char>, JsonTree)> {
    seq![
        ("id"@, JsonTree::Text(note.id@)),
        ("created"@, JsonTree::Text(note.created@)),
        ("bytes"@, JsonTree::Number(note.bytes)),
    ]
}

fn append_note_response(note: &CreatedNote) -> (r: serde_json::Value)
    ensures
        json_tree(r) == JsonTree::Object(note_fields(*note)),
        plain(json_tree(r), json_depth()),
{
    let fields: Vec<(String, serde_json::Value)> = Vec::new();
    proof {
        assert(field_trees(fields@) =~= Seq::empty());
        reveal_strlit("id");
        reveal_strlit("created");
        reveal_strlit("bytes");
        assert("id"@.len() == 2);
        assert("created"@.len() == 7);
        assert("bytes"@.len() == 5);
    }
    let fields = with_text(fields, "id", note.id.as_str());
    let fields = with_text(fields, "created", note.created.as_str());
    let fields = with_number(fields, "bytes", note.bytes);
    proof {
        let all = note_fields(*note);
        assert(field_trees(fields@) =~= all);
        assert forall|i: int| 0 <= i < all.len() implies plain((#[trigger] all[i]).1, 126) by {}
    }
    json_value(Json::Object(fields))
}

/// How a refused note is recorded.
pub open spec fn refusal_name(error: InboxError) -> Seq<char> {
    match error {
        InboxError::InvalidTitle => "invalid_title"@,
        InboxError::InvalidBody => "invalid_body"@,
        InboxError::InvalidOccurred => "invalid_occurred"@,
        InboxError::NoteTooLarge => "note_too_large"@,
        InboxError::QuotaExceeded => "quota_exceeded"@,
        _ => "internal_error"@,
    }
}

/// Whether an answer is the one to a refused note. It names the reason and
/// nothing else: no path, no usage figure, no remaining budget.
pub open spec fn refuses_note(
    context: AuditContext,
    error: InboxError,
    max_note_bytes: usize,
    answer: ToolAnswer,
) -> bool {
    match error {
        InboxError::InvalidTitle => is_invalid(answer, "invalid note title"@),
        InboxError::InvalidBody => is_invalid(answer, "invalid note body"@),
        InboxError::InvalidOccurred => is_invalid(answer, "invalid occurred date; use YYYY-MM-DD"@),
        InboxError::NoteTooLarge => refuses(
            answer,
            error_fields_with("note_too_large"@, "max_bytes"@, max_note_bytes as u64),
        ),
        InboxError::QuotaExceeded => refuses(answer, error_fields("quota_exceeded"@)),
        _ => refuses(
            answer,
            error_fields_with("internal_error"@, "request_id"@, context.request_id),
        ),
    }
}

/// Whether appending a note is answered as it should be, given what it came to.
pub open spec fn answers_append(
    context: AuditContext,
    result: Result<CreatedNote, InboxError>,
    attempted: u64,
    max_note_bytes: usize,
    outcome: ToolOutcome,
) -> bool {
    match result {
        Ok(note) => carries(outcome.answer, JsonTree::Object(note_fields(note))) && (
        outcome.record matches Some(record) && records_tool(
            record,
            context,
            APPEND_NOTE@,
            "ok"@,
            Some(note.id@),
            Some(note.bytes),
        )),
        Err(error) => refuses_note(context, error, max_note_bytes, outcome.answer) && (
        outcome.record matches Some(record) && records_tool(
            record,
            context,
            APPEND_NOTE@,
            refusal_name(error),
            None,
            Some(attempted),
        )),
    }
}

fn refuse_note(context: &AuditContext, error: InboxError, max_note_bytes: usize) -> (r: (
    &'static str,
    ToolAnswer,
))
    ensures
        r.0@ == refusal_name(error),
        refuses_note(*context, error, max_note_bytes, r.1),
{
    proof {
        reveal_strlit("error");
        reveal_strlit("max_bytes");
        assert("error"@.len() == 5);
        assert("max_bytes"@.len() == 9);
    }
    match error {
        InboxError::InvalidTitle => (
            "invalid_title",
            ToolAnswer::InvalidParams("invalid note title"),
        ),
        InboxError::InvalidBody => ("invalid_body", ToolAnswer::InvalidParams("invalid note body")),
        InboxError::InvalidOccurred => (
            "invalid_occurred",
            ToolAnswer::InvalidParams("invalid occurred date; use YYYY-MM-DD"),
        ),
        InboxError::NoteTooLarge => (
            "note_too_large",
            ToolAnswer::StructuredError(
                error_value_with("note_too_large", "max_bytes", max_note_bytes as u64),
            ),
        ),
        InboxError::QuotaExceeded => (
            "quota_exceeded",
            ToolAnswer::StructuredError(error_value("quota_exceeded")),
        ),
        _ => ("internal_error", internal_error(context)),
    }
}

/// The inbox and the limit on writes to it.
pub struct InboxSupport {
    store: InboxStore,
    limiter: WriteRateLimiter,
}

/// An inbox with its limit, as mathematical values.
pub struct SupportModel {
    pub store: InboxModel,
    pub limiter: WriteLimiterModel,
}

impl View for InboxSupport {
    type V = SupportModel;

    closed spec fn view(&self) -> SupportModel {
        SupportModel { store: self.store@, limiter: self.limiter@ }
    }
}

/// The server: a store of documents, and an inbox where there is one to write
/// to. The tools that read do not look at the inbox, so losing it never costs
/// the server its ability to serve documents.
pub struct KnowledgeBaseServer {
    store: DocumentStore,
    max_search_response_bytes: usize,
    inbox: Option<InboxSupport>,
}

/// The server as mathematical values.
pub struct ServerModel {
    pub store: StoreModel,
    pub max_search_response_bytes: usize,
    pub inbox: Option<SupportModel>,
}

impl View for KnowledgeBaseServer {
    type V = ServerModel;

    closed spec fn view(&self) -> ServerModel {
        ServerModel {
            store: self.store@,
            max_search_response_bytes: self.max_search_response_bytes,
            inbox: match self.inbox {
                Some(inbox) => Some(inbox@),
                None => None,
            },
        }
    }
}

/// The bytes that a search response may take.
pub open spec fn search_budget_of(m: ServerModel) -> int {
    if m.max_search_response_bytes > SEARCH_RESPONSE_WRAPPER_BYTES {
        m.max_search_response_bytes - SEARCH_RESPONSE_WRAPPER_BYTES
    } else {
        0
    }
}

/// Whether a caller is offered the tool that writes: it takes the private scope
/// and somewhere to write.
pub open spec fn append_visible(m: ServerModel, scope: Option<AccessScope>) -> bool {
    m.inbox is Some && scope == Some(AccessScope::Private)
}

/// The tools that a caller is offered.
pub open spec fn offered_tools(m: ServerModel, scope: Option<AccessScope>) -> Seq<Seq<char>> {
    if append_visible(m, scope) {
        seq![SEARCH@, FETCH@, APPEND_NOTE@]
    } else {
        seq![SEARCH@, FETCH@]
    }
}

/// The bucket of writes at `now`.
pub open spec fn write_bucket(m: WriteLimiterModel, now: u64) -> crate::limits::BucketModel {
    match m.bucket {
        Some(bucket) => bucket,
        None => full_bucket(m.limit, now),
    }
}

/// The server after a write was asked for at `now`.
pub open spec fn after_write_request(m: ServerModel, now: u64) -> ServerModel {
    let inbox = m.inbox->Some_0;
    ServerModel {
        inbox: Some(
            SupportModel {
                store: inbox.store,
                limiter: WriteLimiterModel {
                    limit: inbox.limiter.limit,
                    bucket: Some(
                        after_request(
                            inbox.limiter.limit,
                            write_bucket(inbox.limiter, now),
                            now,
                        ),
                    ),
                },
            },
        ),
        ..m
    }
}

/// What comes of a request to append a note: an answer, or a draft to be stored.
pub enum AppendStep {
    Answer(ToolOutcome),
    Store(NoteDraft),
}

/// Whether a step is the right one on a request to append a note.
pub open spec fn is_append_step(
    m: ServerModel,
    scope: AccessScope,
    context: AuditContext,
    title: Seq<char>,
    body: Seq<char>,
    occurred: Option<Seq<char>>,
    seconds: int,
    now: u64,
    step: AppendStep,
) -> bool {
    if !append_visible(m, Some(scope)) {
        step matches AppendStep::Answer(outcome) && is_invalid(outcome.answer, "tool not found"@)
            && outcome.record is None
    } else {
        let inbox = m.inbox->Some_0;
        if !admits(inbox.limiter.limit, write_bucket(inbox.limiter, now), now) {
            step matches AppendStep::Answer(outcome) && refuses(
                outcome.answer,
                error_fields("rate_limited"@),
            ) && (outcome.record matches Some(record) && records_tool(
                record,
                context,
                APPEND_NOTE@,
                "rate_limited"@,
                None,
                Some(byte_len(body) as u64),
            ))
        } else {
            match drafted(
                title,
                body,
                occurred,
                context.credential_fingerprint@,
                seconds,
                inbox.store.max_note_bytes as nat,
            ) {
                Ok(draft) => step matches AppendStep::Store(given) && given@ == draft,
                Err(error) => step matches AppendStep::Answer(outcome) && answers_append(
                    context,
                    Err(error),
                    byte_len(body) as u64,
                    inbox.store.max_note_bytes,
                    outcome,
                ),
            }
        }
    }
}

/// A document outside the caller's scope is answered as one that is not there,
/// whatever became of its file.
pub proof fn lemma_hidden_document_is_not_found<P: Fn(&str) -> Option<FrontMatter>>(
    parse: P,
    m: ServerModel,
    scope: AccessScope,
    context: AuditContext,
    id: Seq<char>,
    file: FileOutcome,
    result: Result<FetchedDocument, StoreError>,
    outcome: ToolOutcome,
)
    requires
        !is_visible(m.store.directories, scope, id),
        is_reading(
            parse,
            m.store.directories,
            scope,
            id,
            file,
            m.store.max_read_bytes as nat,
            result,
        ),
        answers_fetch(context, id, result, outcome),
    ensures
        refuses(outcome.answer, error_fields("not_found"@)),
{
}

/// A caller without the private scope is answered the same whether there is an
/// inbox or not, whatever is asked: it cannot tell that the tool exists.
pub proof fn lemma_hidden_tool_is_not_found(
    m: ServerModel,
    context: AuditContext,
    title: Seq<char>,
    body: Seq<char>,
    occurred: Option<Seq<char>>,
    seconds: int,
    now: u64,
    step: AppendStep,
)
    requires
        is_append_step(m, AccessScope::Tech, context, title, body, occurred, seconds, now, step),
    ensures
        step matches AppendStep::Answer(outcome) && is_invalid(outcome.answer, "tool not found"@)
            && outcome.record is None,
        offered_tools(m, Some(AccessScope::Tech)) == seq![SEARCH@, FETCH@],
        offered_tools(m, None) == seq![SEARCH@, FETCH@],
{
}

impl KnowledgeBaseServer {
    pub fn new(
        store: DocumentStore,
        max_search_response_bytes: usize,
        inbox: Option<(InboxStore, WriteRateLimiter)>,
    ) -> (r: KnowledgeBaseServer)
        ensures
            r@ == (ServerModel {
                store: store@,
                max_search_response_bytes,
                inbox: match inbox {
                    Some((store, limiter)) => Some(
                        SupportModel { store: store@, limiter: limiter@ },
                    ),
                    None => None,
                },
            }),
    {
        KnowledgeBaseServer {
            store,
            max_search_response_bytes,
            inbox: match inbox {
                Some((store, limiter)) => Some(InboxSupport { store, limiter }),
                None => None,
            },
        }
    }

    pub fn store(&self) -> (r: &DocumentStore)
        ensures
            r@ == self@.store,
    {
        &self.store
    }

    /// The bytes that a search response may take.
    pub fn search_budget(&self) -> (r: usize)
        ensures
            r == search_budget_of(self@),
    {
        self.max_search_response_bytes.saturating_sub(SEARCH_RESPONSE_WRAPPER_BYTES)
    }

    /// Searches documents, given how they are listed and how their files are
    /// opened.
    pub fn search<
        L: Fn() -> Result<Vec<DocumentId>, StoreError>,
        O: Fn(&DocumentId) -> FileOutcome,
        P: Fn(&str) -> Option<FrontMatter>,
    >(
        &self,
        scope: AccessScope,
        context: &AuditContext,
        query: &str,
        limit: Option<usize>,
        list: &L,
        open: &O,
        parse: &P,
    ) -> (r: ToolOutcome)
        requires
            call_requires(*list, ()),
            forall|id: &DocumentId| call_requires(*open, (id,)),
            forall|block: &str| call_requires(*parse, (block,)),
        ensures
            exists|result: Result<SearchResponse, StoreError>| #[trigger]
                answers_search(*context, result, r) && is_listed_search(
                    *list,
                    *open,
                    *parse,
                    self@.store,
                    scope,
                    query@,
                    limit,
                    search_budget_of(self@) as nat,
                    result,
                ),
    {
        let result = self.store.search(
            scope,
            query,
            limit,
            self.search_budget(),
            list,
            open,
            parse,
        );
        let ghost answered = result;
        let outcome = search_outcome(context, result);
        proof {
            assert(answers_search(*context, answered, outcome));
        }
        outcome
    }

    /// Fetches a document, given what became of opening its file.
    pub fn fetch<P: Fn(&str) -> Option<FrontMatter>>(
        &self,
        scope: AccessScope,
        context: &AuditContext,
        id: &DocumentId,
        file: FileOutcome,
        parse: &P,
    ) -> (r: ToolOutcome)
        requires
            forall|block: &str| call_requires(*parse, (block,)),
        ensures
            exists|result: Result<FetchedDocument, StoreError>| #[trigger]
                answers_fetch(*context, id@, result, r) && is_reading(
                    *parse,
                    self@.store.directories,
                    scope,
                    id@,
                    file,
                    self@.store.max_read_bytes as nat,
                    result,
                ),
    {
        let result = self.store.read(scope, id, file, parse);
        let ghost answered = result;
        let outcome = fetch_outcome(context, id, result);
        proof {
            assert(answers_fetch(*context, id@, answered, outcome));
        }
        outcome
    }

    /// `append_note` exists only for callers that hold the private scope and only
    /// when there is somewhere to write. Everyone else is served a server that
    /// has never heard of it.
    pub fn append_note_is_visible(&self, scope: Option<AccessScope>) -> (r: bool)
        ensures
            r == append_visible(self@, scope),
    {
        self.inbox.is_some() && match scope {
            Some(scope) => scope.allows_private(),
            None => false,
        }
    }

    /// The names of the tools that a caller is offered.
    pub fn tool_names(&self, scope: Option<AccessScope>) -> (r: Vec<&'static str>)
        ensures
            r@.map_values(|s: &str| s@) =~= offered_tools(self@, scope),
    {
        let mut names: Vec<&'static str> = Vec::new();
        names.push(SEARCH);
        names.push(FETCH);
        if self.append_note_is_visible(scope) {
            names.push(APPEND_NOTE);
        }
        names
    }

    /// Whether a call is to be refused before its arguments are looked at:
    /// otherwise a caller could tell that the tool exists by sending bad
    /// arguments.
    pub fn refuses_call(&self, name: &str, scope: Option<AccessScope>) -> (r: bool)
        ensures
            r == (name@ == APPEND_NOTE@ && !append_visible(self@, scope)),
    {
        same_text(name, APPEND_NOTE) && !self.append_note_is_visible(scope)
    }

    /// Takes a request to append a note, at a time in seconds since the start of
    /// 1970 and in nanoseconds of a clock that does not go back.
    pub fn append_note(
        &mut self,
        scope: AccessScope,
        context: &AuditContext,
        title: &str,
        body: &str,
        occurred: Option<&str>,
        seconds: i64,
        now: u64,
    ) -> (r: AppendStep)
        ensures
            is_append_step(
                old(self)@,
                scope,
                *context,
                title@,
                body@,
                str_option(occurred),
                seconds as int,
                now,
                r,
            ),
            final(self)@ == (if append_visible(old(self)@, Some(scope)) {
                after_write_request(old(self)@, now)
            } else {
                old(self)@
            }),
    {
        if !scope.allows_private() {
            return AppendStep::Answer(tool_not_found());
        }
        let attempted: u64 = text_bytes_len(body) as u64;
        match self.inbox.take() {
            None => AppendStep::Answer(tool_not_found()),
            Some(support) => {
                let InboxSupport { store, mut limiter } = support;
                let admitted = limiter.check(now);
                let step = if admitted.is_err() {
                    AppendStep::Answer(
                        ToolOutcome {
                            answer: ToolAnswer::StructuredError(error_value("rate_limited")),
                            record: Some(
                                tool_write(context, APPEND_NOTE, "rate_limited", None, attempted),
                            ),
                        },
                    )
                } else {
                    match store.create_note(
                        title,
                        body,
                        occurred,
                        context.credential_fingerprint.as_str(),
                        seconds,
                    ) {
                        Ok(draft) => AppendStep::Store(draft),
                        Err(error) => AppendStep::Answer(
                            append_outcome(context, Err(error), attempted, store.max_note_bytes()),
                        ),
                    }
                };
                self.inbox = Some(InboxSupport { store, limiter });
                step
            },
        }
    }

    /// Admits a drafted note where the inbox has room for it, given what is in
    /// use or why that is not known.
    pub fn admit_note(&self, draft: NoteDraft, used: Result<u64, InboxError>) -> (r: Result<
        NoteAttempt,
        InboxError,
    >)
        ensures
            match (self@.inbox, used) {
                (None, _) => r == Err::<NoteAttempt, _>(InboxError::Unavailable),
                (Some(_), Err(error)) => r == Err::<NoteAttempt, _>(error),
                (Some(inbox), Ok(used)) => match r {
                    Ok(attempt) => crate::inbox::capped_sum(
                        used as nat,
                        byte_len(draft@.contents),
                    ) <= inbox.store.max_total_bytes && attempt.draft() == draft@
                        && attempt.attempt() == 0,
                    Err(error) => error is QuotaExceeded && crate::inbox::capped_sum(
                        used as nat,
                        byte_len(draft@.contents),
                    ) > inbox.store.max_total_bytes,
                },
            },
    {
        match &self.inbox {
            None => Err(InboxError::Unavailable),
            Some(inbox) => {
                let used: u64 = used?;
                inbox.store.admit_note(draft, used)
            },
        }
    }

    /// The answer to a request to append a note, given what it came to.
    pub fn append_note_outcome(
        &self,
        context: &AuditContext,
        result: Result<CreatedNote, InboxError>,
        attempted: u64,
    ) -> (r: ToolOutcome)
        ensures
            answers_append(
                *context,
                result,
                attempted,
                match self@.inbox {
                    Some(inbox) => inbox.store.max_note_bytes,
                    None => 0,
                },
                r,
            ),
    {
        let max_note_bytes: usize = match &self.inbox {
            Some(inbox) => inbox.store.max_note_bytes(),
            None => 0,
        };
        append_outcome(context, result, attempted, max_note_bytes)
    }
}

fn append_outcome(
    context: &AuditContext,
    result: Result<CreatedNote, InboxError>,
    attempted: u64,
    max_note_bytes: usize,
) -> (r: ToolOutcome)
    ensures
        answers_append(*context, result, attempted, max_note_bytes, r),
{
    match result {
        Ok(note) => ToolOutcome {
            record: Some(
                tool_write(context, APPEND_NOTE, "ok", Some(note.id.as_str()), note.bytes),
            ),
            answer: structured(append_note_response(&note)),
        },
        Err(error) => {
            let (outcome, answer) = refuse_note(context, error, max_note_bytes);
            ToolOutcome {
                answer,
                record: Some(tool_write(context, APPEND_NOTE, outcome, None, attempted)),
            }
        },
    }
}

} // verus!
