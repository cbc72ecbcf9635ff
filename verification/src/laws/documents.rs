//! What a caller is told of a document that is fetched.
use vstd::prelude::*;
use vstd::utf8::{encode_utf8, valid_utf8};

use crate::audit::{records_tool, AuditContext, ToolRecord};
use crate::auth::AccessScope;
use crate::config::DirectoriesModel;
use crate::document::{
    candidates, front_matter_of, is_document_id, is_hidden, is_reading, is_visible, limited_text,
    longest_text, metadata_by, names_something, path_names, scope_roots, DocumentModel,
    FetchedDocument, FileOutcome, FrontMatter, StoreError, WalkEntry,
};
use crate::json::{holds, json_bytes, json_tree, lemma_holds, JsonTree};
use crate::laws::search::{lemma_search_response, tells_results};
use crate::laws::texts::lemma_joined_is_cut_again;
use crate::oauth::answers::names;
use crate::order::{ascending, lemma_ascending};
use crate::scan::{contains_text, joined_by, lemma_first_place, lemma_prefix_falls_away, occurs_at};
use crate::search::{result_views, SearchResponse};
use crate::server::{
    answers_fetch, answers_search, error_fields_with, fetch_fields, fetch_metadata_fields,
    is_invalid, lemma_fetch_names, ToolAnswer, ToolOutcome,
};
use crate::text::{text_option, texts};

verus! {

/// The value that an answer carries.
pub open spec fn answered_value(outcome: ToolOutcome) -> Option<JsonTree> {
    match outcome.answer {
        ToolAnswer::Structured { value, text } => Some(json_tree(value)),
        _ => None,
    }
}

/// The value that a refusal carries.
pub open spec fn refused_value(outcome: ToolOutcome) -> Option<JsonTree> {
    match outcome.answer {
        ToolAnswer::StructuredError(value) => Some(json_tree(value)),
        _ => None,
    }
}

/// What a fetched document says under each name.
pub open spec fn tells_document(tree: JsonTree, d: DocumentModel) -> bool {
    &&& holds(tree, "id"@, JsonTree::Text(d.id))
    &&& holds(tree, "title"@, JsonTree::Text(d.metadata.title))
    &&& holds(tree, "text"@, JsonTree::Text(d.text))
    &&& holds(tree, "truncated"@, JsonTree::Bool(d.truncated))
    &&& exists|more: JsonTree|
        {
            &&& #[trigger] holds(tree, "metadata"@, more)
            &&& holds(more, "path"@, JsonTree::Text(d.id))
            &&& holds(more, "description"@, JsonTree::Text(d.metadata.description))
            &&& match d.metadata.updated {
                Some(updated) => holds(more, "updated"@, JsonTree::Text(updated)),
                None => holds(more, "updated"@, JsonTree::Null),
            }
        }
}

/// Every fetched document says each of its parts under its own name.
pub proof fn lemma_fetched_document(d: DocumentModel)
    ensures
        tells_document(JsonTree::Object(fetch_fields(d)), d),
{
    lemma_fetch_names(d);
    let f = fetch_fields(d);
    let g = fetch_metadata_fields(d);
    lemma_holds(f, 0);
    lemma_holds(f, 1);
    lemma_holds(f, 2);
    lemma_holds(f, 3);
    lemma_holds(f, 4);
    lemma_holds(g, 0);
    lemma_holds(g, 1);
    lemma_holds(g, 2);
    assert(holds(JsonTree::Object(f), "metadata"@, JsonTree::Object(g)));
}

proof fn lemma_longest_text(bytes: Seq<u8>, k: int)
    ensures
        longest_text(bytes).is_prefix_of(bytes),
        valid_utf8(longest_text(bytes)),
        longest_text(bytes).len() < k <= bytes.len() ==> !valid_utf8(bytes.take(k)),
    decreases bytes.len(),
{
    if bytes.len() == 0 || valid_utf8(bytes) {
        if bytes.len() == 0 {
            assert(bytes =~= encode_utf8(Seq::<char>::empty()));
            vstd::utf8::encode_utf8_valid_utf8(Seq::<char>::empty());
        }
    } else {
        lemma_longest_text(bytes.drop_last(), k);
        if longest_text(bytes).len() < k < bytes.len() {
            assert(bytes.drop_last().take(k) =~= bytes.take(k));
        } else if k == bytes.len() {
            assert(bytes.take(k) =~= bytes);
        }
    }
}

/// Whether a text is what is read of a file of which no more than `max_bytes` are
/// wanted: all of it where it is no longer than that, and else as much of its first
/// bytes as is text.
pub open spec fn is_read_of(text: Seq<char>, bytes: Seq<u8>, max_bytes: nat) -> bool {
    let read = encode_utf8(text);
    &&& bytes.len() <= max_bytes ==> read == bytes
    &&& read.len() <= max_bytes
    &&& read.is_prefix_of(bytes)
    &&& forall|k: int|
        read.len() < k <= max_bytes && k <= bytes.len() ==> !valid_utf8(#[trigger] bytes.take(k))
}

proof fn lemma_read_text(bytes: Seq<u8>, max_bytes: nat, text: Seq<char>, truncated: bool)
    requires
        limited_text(bytes, max_bytes) == Some((text, truncated)),
    ensures
        truncated == (bytes.len() > max_bytes),
        is_read_of(text, bytes, max_bytes),
{
    if bytes.len() > max_bytes {
        let read = bytes.take(max_bytes as int);
        lemma_longest_text(read, 0);
        vstd::utf8::decode_utf8_encode_utf8(longest_text(read));
        assert(longest_text(read) =~= bytes.take(longest_text(read).len() as int));
        assert forall|k: int|
            longest_text(read).len() < k <= max_bytes && k <= bytes.len() implies !valid_utf8(
            #[trigger] bytes.take(k),
        ) by {
            lemma_longest_text(read, k);
            assert(read.take(k) =~= bytes.take(k));
        }
    } else {
        vstd::utf8::decode_utf8_encode_utf8(bytes);
    }
}

proof fn lemma_reading<P: Fn(&str) -> Option<FrontMatter>>(
    parse: P,
    directories: DirectoriesModel,
    scope: AccessScope,
    id: Seq<char>,
    bytes: Vec<u8>,
    max_bytes: nat,
    document: FetchedDocument,
)
    requires
        is_reading(
            parse,
            directories,
            scope,
            id,
            FileOutcome::Contents(bytes),
            max_bytes,
            Ok(document),
        ),
    ensures
        document@.id == id,
        limited_text(bytes@, max_bytes) == Some((document@.text, document@.truncated)),
{
}

proof fn lemma_fetch_answer(
    context: AuditContext,
    id: Seq<char>,
    document: FetchedDocument,
    outcome: ToolOutcome,
)
    requires
        answers_fetch(context, id, Ok(document), outcome),
    ensures
        answered_value(outcome) is Some,
        tells_document(answered_value(outcome)->Some_0, document@),
{
    lemma_fetched_document(document@);
}

/// The answer to a fetch says `truncated` exactly where the file has more bytes than
/// are read of one, and its text is the file's: all of it where it is not
/// truncated, and else as much of what is read as is text. It says the path that was
/// asked for, twice.
pub proof fn lemma_fetch_says_what_was_left_out<P: Fn(&str) -> Option<FrontMatter>>(
    parse: P,
    directories: DirectoriesModel,
    scope: AccessScope,
    id: Seq<char>,
    bytes: Vec<u8>,
    max_bytes: nat,
    context: AuditContext,
    document: FetchedDocument,
    outcome: ToolOutcome,
)
    requires
        is_reading(
            parse,
            directories,
            scope,
            id,
            FileOutcome::Contents(bytes),
            max_bytes,
            Ok(document),
        ),
        answers_fetch(context, id, Ok(document), outcome),
    ensures
        match answered_value(outcome) {
            Some(tree) => {
                &&& holds(tree, "truncated"@, JsonTree::Bool(bytes@.len() > max_bytes))
                &&& holds(tree, "id"@, JsonTree::Text(id))
                &&& exists|more: JsonTree| #[trigger]
                    holds(tree, "metadata"@, more) && holds(more, "path"@, JsonTree::Text(id))
                &&& exists|text: Seq<char>| #[trigger]
                    holds(tree, "text"@, JsonTree::Text(text)) && is_read_of(
                        text,
                        bytes@,
                        max_bytes,
                    )
            },
            None => false,
        },
{
    lemma_fetch_answer(context, id, document, outcome);
    lemma_reading(parse, directories, scope, id, bytes, max_bytes, document);
    lemma_read_text(bytes@, max_bytes, document@.text, document@.truncated);
    let tree = answered_value(outcome)->Some_0;
    assert(holds(tree, "text"@, JsonTree::Text(document@.text)));
}

/// A document that the scope does not see is answered like one that is not there,
/// like one behind a link and like what is no file: that it was not found, and
/// nothing else. Any other failure is answered as an internal error, with the number
/// of the request.
pub proof fn lemma_fetch_refusals<P: Fn(&str) -> Option<FrontMatter>>(
    parse: P,
    directories: DirectoriesModel,
    scope: AccessScope,
    id: Seq<char>,
    file: FileOutcome,
    max_bytes: nat,
    context: AuditContext,
    result: Result<FetchedDocument, StoreError>,
    outcome: ToolOutcome,
)
    requires
        is_reading(parse, directories, scope, id, file, max_bytes, result),
        answers_fetch(context, id, result, outcome),
        !is_visible(directories, scope, id) || !(file is Contents),
    ensures
        ({
            let hidden = !is_visible(directories, scope, id) || file is NotRegular || (
            file matches FileOutcome::OpenFailed(error) && !(error is Other));
            match refused_value(outcome) {
                Some(tree) => if hidden {
                    &&& tree == JsonTree::Object(seq![("error"@, JsonTree::Text("not_found"@))])
                } else {
                    &&& holds(tree, "error"@, JsonTree::Text("internal_error"@))
                    &&& holds(tree, "request_id"@, JsonTree::Number(context.request_id))
                },
                None => false,
            }
        }),
        match outcome.record {
            Some(record) => {
                &&& record.operation@ == "fetch"@
                &&& record.document_id@ == id
                &&& record.request_id == context.request_id
                &&& record.bytes is None
            },
            None => false,
        },
{
    reveal_strlit("error");
    reveal_strlit("request_id");
    assert("error"@.len() == 5 && "request_id"@.len() == 10);
    let f = error_fields_with("internal_error"@, "request_id"@, context.request_id);
    lemma_holds(f, 0);
    lemma_holds(f, 1);
}

/// Who sees a document: everyone the index, and what lies below a public directory;
/// the private scope also what lies below a private one. The other scope sees
/// nothing that the private one does not.
pub proof fn lemma_who_sees_a_document(directories: DirectoriesModel, id: Seq<char>, first: Seq<char>)
    requires
        path_names(id).len() > 0,
        first == path_names(id)[0],
    ensures
        is_visible(directories, AccessScope::Tech, "INDEX.md"@),
        is_visible(directories, AccessScope::Private, "INDEX.md"@),
        directories.public.contains(first) ==> is_visible(directories, AccessScope::Tech, id)
            && is_visible(directories, AccessScope::Private, id),
        directories.private.contains(first) ==> is_visible(directories, AccessScope::Private, id),
        id != "INDEX.md"@ && !directories.public.contains(first) ==> !is_visible(
            directories,
            AccessScope::Tech,
            id,
        ),
        id != "INDEX.md"@ && !directories.public.contains(first) && !directories.private.contains(
            first,
        ) ==> !is_visible(directories, AccessScope::Private, id),
        is_visible(directories, AccessScope::Tech, id) ==> is_visible(
            directories,
            AccessScope::Private,
            id,
        ),
{
}

/// The title and the description of a document are those of its front matter. One
/// without a title there goes by the name of its file without the extension, and one
/// without a description by none.
pub proof fn lemma_metadata_come_from_the_front_matter(id: Seq<char>, said: FrontMatter)
    requires
        path_names(id).len() > 0,
        ".md"@.is_suffix_of(path_names(id).last()),
    ensures
        said.title is Some ==> metadata_by(id, Some(said)).title == said.title->Some_0@,
        said.title is None ==> metadata_by(id, Some(said)).title + ".md"@ == path_names(id).last(),
        said.description is Some ==> metadata_by(id, Some(said)).description
            == said.description->Some_0@,
        said.description is None ==> metadata_by(id, Some(said)).description == ""@,
        said.updated is Some ==> metadata_by(id, Some(said)).updated == Some(
            said.updated->Some_0@,
        ),
        said.updated is None ==> metadata_by(id, Some(said)).updated is None,
        metadata_by(id, None).title + ".md"@ == path_names(id).last(),
        metadata_by(id, None).description == ""@,
        metadata_by(id, None).updated is None,
{
    reveal_strlit(".md");
    reveal_strlit("");
    let name = path_names(id).last();
    assert(".md"@.len() == 3);
    assert(name.take(name.len() - 3) + ".md"@ =~= name);
    assert(""@ =~= Seq::<char>::empty());
}

/// The front matter of a text stands at its very front, between a line of three
/// dashes and the next such line.
pub proof fn lemma_front_matter_stands_at_the_front(block: Seq<char>, rest: Seq<char>)
    requires
        forall|at: int|
            0 <= at < block.len() ==> !occurs_at(block + "\n---\n"@ + rest, "\n---\n"@, at),
    ensures
        front_matter_of("---\n"@ + block + "\n---\n"@ + rest) == Some(block),
{
    let text = "---\n"@ + block + "\n---\n"@ + rest;
    let inner = block + "\n---\n"@ + rest;
    assert(text =~= "---\n"@ + inner);
    lemma_prefix_falls_away("---\n"@, inner);
    let close = "\n---\n"@;
    assert(inner.subrange(block.len() as int, (block.len() + close.len()) as int) =~= close);
    assert(occurs_at(inner, "\n---\n"@, block.len() as int));
    lemma_first_place(inner, "\n---\n"@, block.len() as int);
    assert(inner.take(block.len() as int) =~= block);
}

/// A text that does not begin with a line of three dashes has no front matter, nor
/// has one in which that line is not closed.
pub proof fn lemma_no_front_matter(text: Seq<char>)
    requires
        !"---\n"@.is_prefix_of(text) || !contains_text(
            text.skip("---\n"@.len() as int),
            "\n---\n"@,
        ),
    ensures
        front_matter_of(text) is None,
{
}

/// The answer to a search says what was found, each result with its parts under their
/// own names, as a value and as text. A query that cannot be searched for is named as
/// such, and any other failure is answered with the number of the request. Each is
/// recorded, without the query.
pub proof fn lemma_search_answers(
    context: AuditContext,
    result: Result<SearchResponse, StoreError>,
    outcome: ToolOutcome,
)
    requires
        answers_search(context, result, outcome),
    ensures
        match result {
            Ok(response) => match outcome.answer {
                ToolAnswer::Structured { value, text } => {
                    &&& tells_results(
                        json_tree(value),
                        result_views(response.results@),
                        response.truncated,
                    )
                    &&& encode_utf8(text@) == json_bytes(json_tree(value))
                },
                _ => false,
            },
            Err(StoreError::InvalidQuery) => is_invalid(
                outcome.answer,
                "invalid search query"@,
            ),
            Err(_) => match refused_value(outcome) {
                Some(tree) => {
                    &&& holds(tree, "error"@, JsonTree::Text("internal_error"@))
                    &&& holds(tree, "request_id"@, JsonTree::Number(context.request_id))
                },
                None => false,
            },
        },
        match outcome.record {
            Some(record) => {
                &&& record.operation@ == "search"@
                &&& record.document_id@ == ""@
                &&& record.bytes is None
                &&& tells_who_asked(record, context)
                &&& result is Ok ==> record.outcome@ == "ok"@
                &&& result == Err::<SearchResponse, _>(StoreError::InvalidQuery) ==> record.outcome@
                    == "invalid_query"@
            },
            None => false,
        },
{
    reveal_strlit("error");
    reveal_strlit("request_id");
    reveal_strlit("");
    assert("error"@.len() == 5 && "request_id"@.len() == 10);
    assert(""@ =~= Seq::<char>::empty());
    let f = error_fields_with("internal_error"@, "request_id"@, context.request_id);
    lemma_holds(f, 0);
    lemma_holds(f, 1);
    if let Ok(response) = result {
        lemma_search_response(result_views(response.results@), response.truncated);
    }
}

/// Whether a record says who asked: the number of the request, the fingerprint of the
/// credential, and what it may see.
pub open spec fn tells_who_asked(record: ToolRecord, context: AuditContext) -> bool {
    &&& record.event@ == "mcp_tool"@
    &&& record.request_id == context.request_id
    &&& record.credential_fingerprint@ == context.credential_fingerprint@
    &&& context.scope is Tech ==> record.scope@ == "tech"@
    &&& context.scope is Private ==> record.scope@ == "private"@
    &&& record.client_type@ == "api_key"@
}

/// Every record says who asked, what for, what came of it, of which document and how
/// many bytes.
pub proof fn lemma_records_tell_who_asked(
    record: ToolRecord,
    context: AuditContext,
    operation: Seq<char>,
    outcome: Seq<char>,
    document_id: Option<Seq<char>>,
    bytes: Option<u64>,
)
    requires
        records_tool(record, context, operation, outcome, document_id, bytes),
    ensures
        tells_who_asked(record, context),
        record.operation@ == operation,
        record.outcome@ == outcome,
        document_id matches Some(id) ==> record.document_id@ == id,
        document_id is None ==> record.document_id@ == ""@,
        record.bytes == bytes,
{
    reveal_strlit("");
    assert(""@ =~= Seq::<char>::empty());
}

/// What is recorded of a fetch that was answered.
pub proof fn lemma_fetches_are_recorded(
    context: AuditContext,
    id: Seq<char>,
    result: Result<FetchedDocument, StoreError>,
    outcome: ToolOutcome,
)
    requires
        answers_fetch(context, id, result, outcome),
    ensures
        match outcome.record {
            Some(record) => {
                &&& tells_who_asked(record, context)
                &&& record.operation@ == "fetch"@
                &&& record.document_id@ == id
                &&& result is Ok ==> record.outcome@ == "ok"@
                &&& result == Err::<FetchedDocument, _>(StoreError::NotFound) ==> record.outcome@
                    == "not_found"@
            },
            None => false,
        },
{
}

/// Whether a name can stand on the way to a document: it is visible, and holds nothing
/// that would make it more than one name somewhere.
pub open spec fn is_plain_name(name: Seq<char>) -> bool {
    &&& name.len() > 0
    &&& name[0] != '.'
    &&& !name.contains('/')
    &&& !name.contains('\\')
    &&& !name.contains('\0')
    &&& !name.contains(':')
}

proof fn lemma_no_such_character(list: Seq<Seq<char>>, c: char)
    requires
        c != '/',
        forall|i: int| 0 <= i < list.len() ==> !(#[trigger] list[i]).contains(c),
    ensures
        !joined_by(list, seq!['/']).contains(c),
    decreases list.len(),
{
    if list.len() == 1 {
        assert(!list[0].contains(c));
    } else if list.len() > 1 {
        let front = list.drop_last();
        assert forall|i: int| 0 <= i < front.len() implies !(#[trigger] front[i]).contains(c) by {
            assert(front[i] == list[i]);
        }
        lemma_no_such_character(front, c);
        assert(!list[list.len() - 1].contains(c));
        let s = joined_by(list, seq!['/']);
        let before = joined_by(front, seq!['/']);
        if s.contains(c) {
            let j = choose|j: int| 0 <= j < s.len() && s[j] == c;
            if j < before.len() {
                assert(before[j] == c);
            } else if j > before.len() {
                assert(list.last()[j - before.len() - 1] == c);
            }
        }
    }
}

proof fn lemma_begins_with_the_first(list: Seq<Seq<char>>)
    requires
        list.len() > 0,
        list[0].len() > 0,
    ensures
        joined_by(list, seq!['/']).len() > 0,
        joined_by(list, seq!['/'])[0] == list[0][0],
    decreases list.len(),
{
    if list.len() > 1 {
        lemma_begins_with_the_first(list.drop_last());
    }
}

/// A path through plain names to a Markdown file, of at most 512 bytes, is the
/// identifier of a document, and goes through those names.
pub proof fn lemma_plain_paths_are_identifiers(list: Seq<Seq<char>>)
    requires
        list.len() > 0,
        forall|i: int| 0 <= i < list.len() ==> is_plain_name(#[trigger] list[i]),
        ".md"@.is_suffix_of(list.last()),
        encode_utf8(joined_by(list, seq!['/'])).len() <= 512,
    ensures
        is_document_id(joined_by(list, seq!['/'])),
        path_names(joined_by(list, seq!['/'])) == list,
{
    let value = joined_by(list, seq!['/']);
    assert(is_plain_name(list[0]));
    lemma_joined_is_cut_again(list, '/');
    lemma_no_such_character(list, '\0');
    lemma_no_such_character(list, '\\');
    lemma_no_such_character(list, ':');
    lemma_begins_with_the_first(list);
    assert(list[0].contains(list[0][0]));
    assert(value.len() >= 2 ==> value.contains(value[1]));
    assert forall|i: int| 0 <= i < list.len() implies names_something()(#[trigger] list[i]) by {
        assert(is_plain_name(list[i]));
    }
    lemma_all_are_kept(list);
    assert(path_names(value) == list);
    assert forall|i: int| 0 <= i < path_names(value).len() implies !is_hidden(
        #[trigger] path_names(value)[i],
    ) by {
        assert(is_plain_name(list[i]));
    }
}

proof fn lemma_all_are_kept(list: Seq<Seq<char>>)
    requires
        forall|i: int| 0 <= i < list.len() ==> names_something()(#[trigger] list[i]),
    ensures
        list.filter(names_something()) == list,
    decreases list.len(),
{
    reveal(Seq::filter);
    if list.len() > 0 {
        let front = list.drop_last();
        assert forall|i: int| 0 <= i < front.len() implies names_something()(
            #[trigger] front[i],
        ) by {
            assert(front[i] == list[i]);
        }
        lemma_all_are_kept(front);
        assert(names_something()(list[list.len() - 1]));
        assert(front.push(list.last()) =~= list);
    } else {
        assert(list.filter(names_something()) =~= list);
    }
}

/// What is no identifier: an empty path or a longer one than 512 bytes; one from the
/// root, from a drive or from a dot; one with a backslash or a null character; one
/// through a hidden name or to the parent directory; and one to anything but a
/// Markdown file.
pub proof fn lemma_what_is_no_identifier(value: Seq<char>, i: int)
    ensures
        value.len() == 0 ==> !is_document_id(value),
        encode_utf8(value).len() > 512 ==> !is_document_id(value),
        value.len() > 0 && (value[0] == '/' || value[0] == '.') ==> !is_document_id(value),
        value.len() > 1 && ('a' <= value[0] <= 'z' || 'A' <= value[0] <= 'Z') && value[1] == ':'
            ==> !is_document_id(value),
        value.contains('\\') || value.contains('\0') ==> !is_document_id(value),
        0 <= i < path_names(value).len() && path_names(value)[i][0] == '.' && path_names(
            value,
        )[i].len() > 0 ==> !is_document_id(value),
        path_names(value).len() > 0 && !".md"@.is_suffix_of(path_names(value).last())
            ==> !is_document_id(value),
{
    if 0 <= i < path_names(value).len() && path_names(value)[i].len() > 0 && path_names(value)[i][0]
        == '.' {
        assert(is_hidden(path_names(value)[i]));
    }
}

/// Which directories are walked through: the public ones for everyone, and the private
/// ones for the private scope.
pub proof fn lemma_which_directories_are_walked(directories: DirectoriesModel, name: Seq<char>)
    requires
        directories.public.finite(),
        directories.private.finite(),
    ensures
        scope_roots(directories, AccessScope::Tech).contains(name)
            <==> directories.public.contains(name),
        scope_roots(directories, AccessScope::Private).contains(name)
            <==> directories.public.contains(name) || directories.private.contains(name),
{
    let public = ascending(directories.public);
    let private = ascending(directories.private);
    lemma_ascending(directories.public);
    lemma_ascending(directories.private);
    assert(public.to_set().contains(name) <==> public.contains(name));
    assert(private.to_set().contains(name) <==> private.contains(name));
    let all = public + private;
    if public.contains(name) {
        let i = choose|i: int| 0 <= i < public.len() && public[i] == name;
        assert(all[i] == name);
        assert((public + Seq::<Seq<char>>::empty())[i] == name);
    }
    if private.contains(name) {
        let i = choose|i: int| 0 <= i < private.len() && private[i] == name;
        assert(all[i + public.len()] == name);
    }
    if all.contains(name) {
        let i = choose|i: int| 0 <= i < all.len() && all[i] == name;
        if i < public.len() {
            assert(public[i] == name);
        } else {
            assert(private[i - public.len()] == name);
        }
    }
    assert(public + Seq::<Seq<char>>::empty() =~= public);
}

/// Whether an entry is the file of a document of that name.
pub open spec fn is_file_of(entry: WalkEntry, id: Seq<char>) -> bool {
    match entry {
        WalkEntry::File { extension, names } => text_option(extension) == Some("md"@) && (
        names matches Some(names) && joined_by(texts(names@), "/"@) == id),
        _ => false,
    }
}

/// The documents that are searched are the index, where there is one, and the Markdown
/// files among what was found.
pub proof fn lemma_which_documents_are_searched(
    index_is_file: bool,
    entries: Seq<WalkEntry>,
    documents: Set<Seq<char>>,
    id: Seq<char>,
)
    requires
        candidates(index_is_file, entries) == Ok::<Set<Seq<char>>, StoreError>(documents),
    ensures
        documents.contains(id) <==> (index_is_file && id == "INDEX.md"@) || exists|i: int|
            0 <= i < entries.len() && is_file_of(#[trigger] entries[i], id),
        forall|i: int| 0 <= i < entries.len() ==> !(#[trigger] entries[i] is Failed),
    decreases entries.len(),
{
    if entries.len() > 0 {
        let rest = entries.drop_last();
        let before = candidates(index_is_file, rest)->Ok_0;
        lemma_which_documents_are_searched(index_is_file, rest, before, id);
        let last = entries.last();
        assert(entries[entries.len() - 1] == last);
        if exists|i: int| 0 <= i < rest.len() && is_file_of(#[trigger] rest[i], id) {
            let i = choose|i: int| 0 <= i < rest.len() && is_file_of(#[trigger] rest[i], id);
            assert(is_file_of(entries[i], id));
        }
        if exists|i: int| 0 <= i < entries.len() && is_file_of(#[trigger] entries[i], id) {
            let i = choose|i: int| 0 <= i < entries.len() && is_file_of(#[trigger] entries[i], id);
            if i < rest.len() {
                assert(is_file_of(rest[i], id));
            }
        }
        if is_file_of(last, id) {
            assert(is_file_of(entries[entries.len() - 1], id));
        }
        assert forall|i: int| 0 <= i < entries.len() implies !(#[trigger] entries[i] is Failed) by {
            if i < rest.len() {
                assert(rest[i] == entries[i]);
            }
        }
    }
}

} // verus!
