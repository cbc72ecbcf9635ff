//! How documents are found, weighed and put in order.
use vstd::prelude::*;

use crate::document::{DocumentModel, FetchedDocument, StoreError};
use crate::json::{holds, lemma_holds, JsonTree};
use crate::laws::texts::lemma_solid_characters;
use crate::order::text_less;
use crate::scan::{contains_text, joined_by, lines_of, occurs_at, words};
use crate::search::{
    answer_of, document_score, found_documents, kept_results, lemma_kept, lemma_ranked,
    lemma_result_names, matches_all, matching_line, places_of, query_terms, query_valid, ranked,
    ranks_before, response_fields, response_of, response_size, result_fields,
    result_metadata_fields, result_of, result_trees, scored_documents, search_answer,
    stands_somewhere, unscored, with_document, with_reading, ResultModel, ScoredModel, SearchModel,
};
use crate::text::{is_white_space, lowercase};

verus! {

/// Whether a term stands in a text, without regard to case.
pub open spec fn stands_in(text: Seq<char>, term: Seq<char>) -> bool {
    exists|at: int|
        0 <= at <= lowercase(text).len() - term.len() && #[trigger] lowercase(text).subrange(
            at,
            at + term.len(),
        ) == term
}

proof fn lemma_stands_in(text: Seq<char>, term: Seq<char>)
    ensures
        contains_text(lowercase(text), term) == stands_in(text, term),
{
    let hay = lowercase(text);
    if contains_text(hay, term) {
        let at = choose|at: int| occurs_at(hay, term, at);
        assert(hay.subrange(at, at + term.len()) =~= term);
    }
    if stands_in(text, term) {
        let at = choose|at: int|
            0 <= at <= hay.len() - term.len() && #[trigger] hay.subrange(at, at + term.len())
                == term;
        assert(occurs_at(hay, term, at));
    }
}

/// How many of the terms stand in a text.
pub open spec fn standing(terms: Seq<Seq<char>>, text: Seq<char>) -> nat {
    terms.filter(|t: Seq<char>| stands_in(text, t)).len()
}

/// The score of a document counts, for each place, the terms that stand there: 100
/// for one in the path, 80 in the title, 50 in the description, 10 in the text.
pub proof fn lemma_score_counts_the_terms_of_each_place(terms: Seq<Seq<char>>, d: DocumentModel)
    ensures
        document_score(terms, d) == 100 * standing(terms, d.id) + 80 * standing(
            terms,
            d.metadata.title,
        ) + 50 * standing(terms, d.metadata.description) + 10 * standing(terms, d.text),
    decreases terms.len(),
{
    reveal(Seq::filter);
    if terms.len() > 0 {
        lemma_score_counts_the_terms_of_each_place(terms.drop_last(), d);
        lemma_stands_in(d.id, terms.last());
        lemma_stands_in(d.metadata.title, terms.last());
        lemma_stands_in(d.metadata.description, terms.last());
        lemma_stands_in(d.text, terms.last());
    }
}

/// A term that stands in one place alone counts 100 in the path, 80 in the title,
/// 50 in the description and 10 in the text.
pub proof fn lemma_what_a_term_counts(term: Seq<char>, d: DocumentModel)
    ensures
        ({
            let path = stands_in(d.id, term);
            let title = stands_in(d.metadata.title, term);
            let description = stands_in(d.metadata.description, term);
            let text = stands_in(d.text, term);
            let score = document_score(seq![term], d);
            &&& path && !title && !description && !text ==> score == 100
            &&& title && !path && !description && !text ==> score == 80
            &&& description && !path && !title && !text ==> score == 50
            &&& text && !path && !title && !description ==> score == 10
            &&& !path && !title && !description && !text ==> score == 0
            &&& path && title && description && text ==> score == 240
        }),
{
    let terms = seq![term];
    assert(terms.drop_last() =~= Seq::<Seq<char>>::empty());
    assert(document_score(terms.drop_last(), d) == 0);
    lemma_stands_in(d.id, term);
    lemma_stands_in(d.metadata.title, term);
    lemma_stands_in(d.metadata.description, term);
    lemma_stands_in(d.text, term);
}

/// The scored result of a document.
pub open spec fn scored_document(terms: Seq<Seq<char>>, d: DocumentModel) -> ScoredModel {
    ScoredModel { score: document_score(terms, d), result: result_of(terms, d) }
}

/// For one term, a document that has it in the path comes before one that has it in
/// the text alone. So does one that has it in the title or the description.
pub proof fn lemma_path_comes_before_text(term: Seq<char>, a: DocumentModel, b: DocumentModel)
    requires
        stands_in(a.id, term) || stands_in(a.metadata.title, term) || stands_in(
            a.metadata.description,
            term,
        ),
        !stands_in(b.id, term),
        !stands_in(b.metadata.title, term),
        !stands_in(b.metadata.description, term),
    ensures
        ranks_before(scored_document(seq![term], a), scored_document(seq![term], b)),
        stands_in(a.id, term) ==> document_score(seq![term], a) >= 100,
        document_score(seq![term], b) <= 10,
{
    let terms = seq![term];
    assert(terms.drop_last() =~= Seq::<Seq<char>>::empty());
    assert(document_score(terms.drop_last(), a) == 0);
    assert(document_score(terms.drop_last(), b) == 0);
    lemma_stands_in(a.id, term);
    lemma_stands_in(a.metadata.title, term);
    lemma_stands_in(a.metadata.description, term);
    lemma_stands_in(a.text, term);
    lemma_stands_in(b.id, term);
    lemma_stands_in(b.metadata.title, term);
    lemma_stands_in(b.metadata.description, term);
    lemma_stands_in(b.text, term);
}

/// Whether every term stands in the path, the title, the description or the text.
pub open spec fn is_match(terms: Seq<Seq<char>>, d: DocumentModel) -> bool {
    forall|i: int|
        0 <= i < terms.len() ==> stands_in(d.id, #[trigger] terms[i]) || stands_in(
            d.metadata.title,
            terms[i],
        ) || stands_in(d.metadata.description, terms[i]) || stands_in(d.text, terms[i])
}

proof fn lemma_is_match(terms: Seq<Seq<char>>, d: DocumentModel)
    ensures
        matches_all(terms, d) == is_match(terms, d),
{
    assert forall|i: int| 0 <= i < terms.len() implies stands_somewhere(
        places_of(#[trigger] terms[i], d),
    ) == (stands_in(d.id, terms[i]) || stands_in(d.metadata.title, terms[i]) || stands_in(
        d.metadata.description,
        terms[i],
    ) || stands_in(d.text, terms[i])) by {
        lemma_stands_in(d.id, terms[i]);
        lemma_stands_in(d.metadata.title, terms[i]);
        lemma_stands_in(d.metadata.description, terms[i]);
        lemma_stands_in(d.text, terms[i]);
    }
}

/// The documents that a search finds.
pub open spec fn found(terms: Seq<Seq<char>>, documents: Seq<DocumentModel>) -> Seq<DocumentModel> {
    documents.filter(|d: DocumentModel| is_match(terms, d))
}

proof fn lemma_scored_documents(terms: Seq<Seq<char>>, documents: Seq<DocumentModel>)
    ensures
        scored_documents(terms, documents) == found(terms, documents).map_values(
            |d: DocumentModel| scored_document(terms, d),
        ),
    decreases documents.len(),
{
    reveal(Seq::filter);
    let f = |d: DocumentModel| scored_document(terms, d);
    if documents.len() == 0 {
        assert(scored_documents(terms, documents) =~= found(terms, documents).map_values(f));
    } else {
        let rest = documents.drop_last();
        lemma_scored_documents(terms, rest);
        lemma_is_match(terms, documents.last());
        assert(scored_documents(terms, documents) =~= found(terms, documents).map_values(f));
    }
}

/// How many results a request asks for: ten where it does not say.
pub open spec fn asked_for(limit: Option<usize>) -> nat {
    match limit {
        Some(n) => n as nat,
        None => 10,
    }
}

/// Whether an answer lists, each time, the better documents first: by the higher
/// score, and among equal ones by the smaller path.
pub open spec fn lists_the_better_first(
    terms: Seq<Seq<char>>,
    matching: Seq<DocumentModel>,
    results: Seq<ResultModel>,
) -> bool {
    exists|order: Seq<DocumentModel>|
        {
            &&& order.to_multiset() == matching.to_multiset()
            &&& results.len() <= order.len()
            &&& forall|k: int|
                0 <= k < results.len() ==> #[trigger] results[k] == result_of(terms, order[k])
            &&& #[trigger] is_best_first(terms, order)
        }
}

/// Whether of two documents the one with the higher score comes first, or of equal
/// ones not the one with the greater path.
pub open spec fn is_best_first(terms: Seq<Seq<char>>, order: Seq<DocumentModel>) -> bool {
    forall|i: int, j: int|
        0 <= i < j < order.len() ==> {
            let a = document_score(terms, #[trigger] order[i]);
            let b = document_score(terms, #[trigger] order[j]);
            a > b || (a == b && !text_less(order[j].id, order[i].id))
        }
}

proof fn lemma_order_of(
    terms: Seq<Seq<char>>,
    matching: Seq<DocumentModel>,
    scored: Seq<ScoredModel>,
) -> (order: Seq<DocumentModel>)
    requires
        scored.to_multiset() == matching.map_values(
            |d: DocumentModel| scored_document(terms, d),
        ).to_multiset(),
    ensures
        order.to_multiset() == matching.to_multiset(),
        order.map_values(|d: DocumentModel| scored_document(terms, d)) == scored,
    decreases scored.len(),
{
    broadcast use vstd::seq_lib::group_to_multiset_ensures;

    let f = |d: DocumentModel| scored_document(terms, d);
    let mapped = matching.map_values(f);
    assert(scored.len() == scored.to_multiset().len());
    assert(mapped.len() == mapped.to_multiset().len());
    if scored.len() == 0 {
        assert(matching.len() == 0);
        let order = Seq::<DocumentModel>::empty();
        assert(matching =~= order);
        assert(order.map_values(f) =~= scored);
        order
    } else {
        let last = scored.last();
        assert(scored.contains(last));
        assert(scored.to_multiset().count(last) > 0);
        assert(mapped.contains(last));
        let i = choose|i: int| 0 <= i < mapped.len() && mapped[i] == last;
        let rest = matching.remove(i);
        assert(rest.map_values(f) =~= mapped.remove(i));
        vstd::seq_lib::to_multiset_remove(mapped, i);
        assert(scored =~= scored.drop_last().push(last));
        assert(scored.drop_last().to_multiset() =~= scored.to_multiset().remove(last));
        let before = lemma_order_of(terms, rest, scored.drop_last());
        let order = before.push(matching[i]);
        vstd::seq_lib::to_multiset_remove(matching, i);
        assert(order.to_multiset() =~= matching.to_multiset());
        assert(order.map_values(f) =~= scored);
        order
    }
}

/// What a search answers: of the documents in which every word of the query stands,
/// without regard to case, the best first; no more than were asked for, ten where
/// nothing was said and never more than twenty; and whether that leaves some out.
pub proof fn lemma_answer_lists_the_best_matches(
    query: Seq<char>,
    limit: Option<usize>,
    readings: Seq<Result<FetchedDocument, StoreError>>,
    max_bytes: nat,
    documents: Seq<DocumentModel>,
)
    requires
        query_valid(query, limit),
        found_documents(readings) == Ok::<Seq<DocumentModel>, StoreError>(documents),
    ensures
        ({
            let terms = words(query).map_values(|w: Seq<char>| lowercase(w));
            let matching = found(terms, documents);
            match search_answer(query, limit, readings, max_bytes) {
                Ok((results, truncated)) => {
                    &&& lists_the_better_first(terms, matching, results)
                    &&& results.len() <= asked_for(limit) <= 20
                    &&& truncated == (results.len() < matching.len())
                },
                Err(_) => false,
            }
        }),
{
    broadcast use vstd::seq_lib::group_to_multiset_ensures;

    let terms = words(query).map_values(|w: Seq<char>| lowercase(w));
    let f = |d: DocumentModel| scored_document(terms, d);
    let matching = found(terms, documents);
    let scored = scored_documents(terms, documents);
    lemma_scored_documents(terms, documents);
    lemma_ranked(scored);
    let order = lemma_order_of(terms, matching, ranked(scored));
    let all = unscored(ranked(scored));
    let n = asked_for(limit);
    assert(order.map_values(f).len() == order.len());
    assert(all.len() == order.len());
    assert(order.len() == order.to_multiset().len());
    assert(matching.len() == matching.to_multiset().len());
    let top = if all.len() > n {
        n
    } else {
        all.len()
    };
    lemma_kept(all, 0, top, all.len() > n, max_bytes);
    let (results, truncated) = response_of(scored, n, max_bytes);
    assert forall|k: int| 0 <= k < results.len() implies #[trigger] results[k] == result_of(
        terms,
        order[k],
    ) by {
        assert(ranked(scored)[k] == order.map_values(f)[k]);
    }
    assert forall|i: int, j: int| 0 <= i < j < order.len() implies ({
        let a = document_score(terms, #[trigger] order[i]);
        let b = document_score(terms, #[trigger] order[j]);
        a > b || (a == b && !text_less(order[j].id, order[i].id))
    }) by {
        assert(ranked(scored)[i] == order.map_values(f)[i]);
        assert(ranked(scored)[j] == order.map_values(f)[j]);
        assert(!ranks_before(ranked(scored)[j], ranked(scored)[i]));
    }
    assert(is_best_first(terms, order));
}

/// In an answer for one term, a document that has it in the path stands before one
/// that has it in the text alone.
pub proof fn lemma_path_is_listed_before_text(
    term: Seq<char>,
    order: Seq<DocumentModel>,
    i: int,
    j: int,
)
    requires
        is_best_first(seq![term], order),
        0 <= i < order.len(),
        0 <= j < order.len(),
        stands_in(order[i].id, term),
        !stands_in(order[j].id, term),
        !stands_in(order[j].metadata.title, term),
        !stands_in(order[j].metadata.description, term),
    ensures
        i < j,
{
    lemma_path_comes_before_text(term, order[i], order[j]);
}

/// No result is left out that was asked for and would still fit.
pub proof fn lemma_answer_is_as_long_as_fits(
    scored: Seq<ScoredModel>,
    limit: nat,
    max_bytes: nat,
    k: int,
)
    requires
        response_of(scored, limit, max_bytes).0.len() == k,
        k < limit,
        k < scored.len(),
    ensures
        response_size(unscored(ranked(scored)).take(k + 1), scored.len() > limit) > max_bytes,
{
    broadcast use vstd::seq_lib::group_to_multiset_ensures;

    lemma_ranked(scored);
    let all = unscored(ranked(scored));
    assert(ranked(scored).len() == ranked(scored).to_multiset().len());
    assert(scored.len() == scored.to_multiset().len());
    let n = if all.len() > limit {
        limit
    } else {
        all.len()
    };
    lemma_kept(all, 0, n, all.len() > limit, max_bytes);
    lemma_kept_is_full(all, 0, n, all.len() > limit, max_bytes);
}

proof fn lemma_kept_is_full(
    results: Seq<ResultModel>,
    k: nat,
    n: nat,
    truncated: bool,
    max_bytes: nat,
)
    requires
        k <= n <= results.len(),
        kept_results(results, k, n, truncated, max_bytes) < n,
    ensures
        response_size(
            results.take(kept_results(results, k, n, truncated, max_bytes) as int + 1),
            truncated,
        ) > max_bytes,
    decreases n - k,
{
    if k < n && response_size(results.take(k as int + 1), truncated) <= max_bytes {
        lemma_kept_is_full(results, k + 1, n, truncated, max_bytes);
    }
}

proof fn lemma_matching_line(lines: Seq<Seq<char>>, term: Seq<char>, from: int, at: int)
    requires
        0 <= from <= at < lines.len(),
        stands_in(lines[at], term),
        forall|i: int| from <= i < at ==> !stands_in(#[trigger] lines[i], term),
    ensures
        matching_line(lines, term, from) == at,
    decreases at - from,
{
    lemma_stands_in(lines[from], term);
    if from < at {
        assert(!stands_in(lines[from], term));
        lemma_matching_line(lines, term, from + 1, at);
    }
}

proof fn lemma_no_matching_line(lines: Seq<Seq<char>>, term: Seq<char>, from: int)
    requires
        0 <= from <= lines.len(),
        forall|i: int| from <= i < lines.len() ==> !stands_in(#[trigger] lines[i], term),
    ensures
        matching_line(lines, term, from) == 0,
    decreases lines.len() - from,
{
    if from < lines.len() {
        assert(!stands_in(lines[from], term));
        lemma_stands_in(lines[from], term);
        lemma_no_matching_line(lines, term, from + 1);
    }
}

/// What a result says of its document: the path by which it can be fetched, its
/// title and description, and the lines around the first one that holds the first
/// term: that line, counted from one, with up to two before it and two behind, and
/// where they stand. Where no line holds it they are the first three.
pub proof fn lemma_result_shows_the_first_matching_line(
    terms: Seq<Seq<char>>,
    d: DocumentModel,
    at: int,
)
    requires
        terms.len() > 0,
        lines_of(d.text).len() <= usize::MAX,
        0 <= at < lines_of(d.text).len(),
        forall|i: int| 0 <= i < at ==> !stands_in(#[trigger] lines_of(d.text)[i], terms[0]),
        stands_in(lines_of(d.text)[at], terms[0]) || (at == 0 && forall|i: int|
            0 <= i < lines_of(d.text).len() ==> !stands_in(
                #[trigger] lines_of(d.text)[i],
                terms[0],
            )),
    ensures
        ({
            let r = result_of(terms, d);
            let lines = lines_of(d.text);
            let shown = joined_by(lines.subrange(r.line_start - 1, r.line_end as int), "\n"@);
            &&& r.id == d.id && r.path == d.id
            &&& r.title == d.metadata.title
            &&& r.description == d.metadata.description
            &&& 1 <= r.line_start <= at + 1 <= r.line_end <= lines.len()
            &&& r.line_start == at - 1 || (r.line_start == 1 && at < 2)
            &&& r.line_end == at + 3 || (r.line_end == lines.len() && lines.len() < at + 3)
            &&& shown.len() <= 600 ==> r.snippet == shown
            &&& shown.len() > 600 ==> r.snippet.len() == 601 && r.snippet.last() == '…'
                && r.snippet.drop_last() == shown.take(600)
        }),
{
    let lines = lines_of(d.text);
    if stands_in(lines[at], terms[0]) {
        lemma_matching_line(lines, terms[0], 0, at);
    } else {
        lemma_no_matching_line(lines, terms[0], 0);
    }
    let r = result_of(terms, d);
    let shown = joined_by(lines.subrange(r.line_start - 1, r.line_end as int), "\n"@);
    if shown.len() > 600 {
        assert(r.snippet.drop_last() =~= shown.take(600));
    }
}

/// What a search response says under each name.
pub open spec fn tells_results(tree: JsonTree, results: Seq<ResultModel>, truncated: bool) -> bool {
    &&& holds(tree, "truncated"@, JsonTree::Bool(truncated))
    &&& exists|items: Seq<JsonTree>|
        holds(tree, "results"@, JsonTree::List(items)) && #[trigger] items.len() == results.len()
            && forall|k: int|
            0 <= k < results.len() ==> tells_result(#[trigger] items[k], results[k])
}

/// What one result says under each name.
pub open spec fn tells_result(tree: JsonTree, r: ResultModel) -> bool {
    &&& holds(tree, "id"@, JsonTree::Text(r.id))
    &&& holds(tree, "title"@, JsonTree::Text(r.title))
    &&& holds(tree, "snippet"@, JsonTree::Text(r.snippet))
    &&& exists|more: JsonTree|
        {
            &&& #[trigger] holds(tree, "metadata"@, more)
            &&& holds(more, "path"@, JsonTree::Text(r.path))
            &&& holds(more, "description"@, JsonTree::Text(r.description))
            &&& holds(more, "line_start"@, JsonTree::Number(r.line_start as u64))
            &&& holds(more, "line_end"@, JsonTree::Number(r.line_end as u64))
        }
}

proof fn lemma_result(r: ResultModel)
    ensures
        tells_result(JsonTree::Object(result_fields(r)), r),
{
    lemma_result_names(r);
    let f = result_fields(r);
    let g = result_metadata_fields(r);
    lemma_holds(f, 0);
    lemma_holds(f, 1);
    lemma_holds(f, 2);
    lemma_holds(f, 3);
    lemma_holds(g, 0);
    lemma_holds(g, 1);
    lemma_holds(g, 2);
    lemma_holds(g, 3);
    assert(holds(JsonTree::Object(f), "metadata"@, JsonTree::Object(g)));
}

/// A search response says each result, with its parts under their own names, in
/// the order of the answer, and whether some were left out.
pub proof fn lemma_search_response(results: Seq<ResultModel>, truncated: bool)
    ensures
        tells_results(JsonTree::Object(response_fields(results, truncated)), results, truncated),
{
    reveal_strlit("results");
    reveal_strlit("truncated");
    assert("results"@.len() == 7);
    assert("truncated"@.len() == 9);
    let f = response_fields(results, truncated);
    lemma_holds(f, 0);
    lemma_holds(f, 1);
    let items = result_trees(results);
    assert forall|k: int| 0 <= k < results.len() implies tells_result(
        #[trigger] items[k],
        results[k],
    ) by {
        lemma_result(results[k]);
    }
    assert(items.len() == results.len());
}

/// Which searches are taken up: for at least one word, with at most 256 characters
/// besides white space, and for one to twenty results.
pub proof fn lemma_which_queries_are_searched_for(query: Seq<char>, limit: Option<usize>)
    ensures
        query_valid(query, limit) <==> {
            &&& words(query).len() > 0
            &&& query.filter(|c: char| !is_white_space(c)).len() <= 256
            &&& 1 <= asked_for(limit) <= 20
        },
        query_valid(query, limit) ==> query_terms(query) == Some(
            words(query).map_values(|w: Seq<char>| lowercase(w)),
        ),
{
    lemma_solid_characters(query);
}

/// A search that does not answer with as many results as were asked for, though there
/// are more, has no room for the next.
pub proof fn lemma_answer_has_as_many_as_were_asked_for(
    query: Seq<char>,
    limit: Option<usize>,
    readings: Seq<Result<FetchedDocument, StoreError>>,
    max_bytes: nat,
    documents: Seq<DocumentModel>,
)
    requires
        query_valid(query, limit),
        found_documents(readings) == Ok::<Seq<DocumentModel>, StoreError>(documents),
    ensures
        ({
            let terms = words(query).map_values(|w: Seq<char>| lowercase(w));
            let count = found(terms, documents).len();
            match search_answer(query, limit, readings, max_bytes) {
                Ok((results, truncated)) => results.len() < asked_for(limit) && results.len() < count
                    ==> exists|more: Seq<ResultModel>|
                    {
                        &&& more.len() == results.len() + 1
                        &&& #[trigger] more.drop_last() == results
                        &&& response_size(more, count > asked_for(limit)) > max_bytes
                    },
                Err(_) => false,
            }
        }),
{
    let terms = words(query).map_values(|w: Seq<char>| lowercase(w));
    let scored = scored_documents(terms, documents);
    lemma_scored_documents(terms, documents);
    assert(scored.len() == found(terms, documents).len());
    let n = asked_for(limit);
    let (results, truncated) = response_of(scored, n, max_bytes);
    if results.len() < n && results.len() < scored.len() {
        broadcast use vstd::seq_lib::group_to_multiset_ensures;

        lemma_ranked(scored);
        assert(ranked(scored).len() == ranked(scored).to_multiset().len());
        assert(scored.len() == scored.to_multiset().len());
        let k = results.len() as int;
        lemma_answer_is_as_long_as_fits(scored, n, max_bytes, k);
        let all = unscored(ranked(scored));
        let top = if all.len() > n {
            n
        } else {
            all.len()
        };
        lemma_kept(all, 0, top, all.len() > n, max_bytes);
        let more = all.take(k + 1);
        assert(more.drop_last() =~= results);
        assert(response_size(more, scored.len() > n) > max_bytes);
    }
}

/// What is found among readings: the documents that were read, in their order. One
/// that is not there is passed over, and any other failure ends the search.
pub proof fn lemma_what_is_found_among_readings(
    readings: Seq<Result<FetchedDocument, StoreError>>,
    next: Result<FetchedDocument, StoreError>,
    documents: Seq<DocumentModel>,
)
    requires
        found_documents(readings) == Ok::<Seq<DocumentModel>, StoreError>(documents),
    ensures
        found_documents(Seq::empty()) == Ok::<Seq<DocumentModel>, StoreError>(Seq::empty()),
        match next {
            Ok(document) => found_documents(readings.push(next)) == Ok::<_, StoreError>(
                documents.push(document@),
            ),
            Err(StoreError::NotFound) => found_documents(readings.push(next)) == Ok::<
                _,
                StoreError,
            >(documents),
            Err(error) => forall|rest: Seq<Result<FetchedDocument, StoreError>>|
                found_documents(#[trigger] (readings.push(next) + rest)) == Err::<
                    Seq<DocumentModel>,
                    _,
                >(error),
        },
{
    assert(readings.push(next).drop_last() =~= readings);
    if let Err(error) = next {
        if error !is NotFound {
            assert forall|rest: Seq<Result<FetchedDocument, StoreError>>|
                found_documents(#[trigger] (readings.push(next) + rest)) == Err::<
                    Seq<DocumentModel>,
                    _,
                >(error) by {
                lemma_first_failure_stays(readings.push(next), rest, error);
            }
        }
    }
}

proof fn lemma_first_failure_stays(
    readings: Seq<Result<FetchedDocument, StoreError>>,
    rest: Seq<Result<FetchedDocument, StoreError>>,
    error: StoreError,
)
    requires
        found_documents(readings) == Err::<Seq<DocumentModel>, _>(error),
    ensures
        found_documents(readings + rest) == Err::<Seq<DocumentModel>, _>(error),
    decreases rest.len(),
{
    if rest.len() == 0 {
        assert(readings + rest =~= readings);
    } else {
        lemma_first_failure_stays(readings, rest.drop_last(), error);
        assert((readings + rest).drop_last() =~= readings + rest.drop_last());
    }
}

/// Reading documents one after the other comes to the same as scoring all of them at
/// once.
pub proof fn lemma_documents_come_one_by_one(
    m: SearchModel,
    documents: Seq<DocumentModel>,
    d: DocumentModel,
    max_bytes: nat,
)
    requires
        m.ranked == ranked(scored_documents(m.terms, documents)),
    ensures
        with_document(m, d).ranked == ranked(scored_documents(m.terms, documents.push(d))),
        with_document(m, d).terms == m.terms,
        with_document(m, d).limit == m.limit,
        answer_of(m, max_bytes) == response_of(
            scored_documents(m.terms, documents),
            m.limit,
            max_bytes,
        ),
        !is_match(m.terms, d) ==> with_document(m, d) == m,
        with_reading(m, Err(StoreError::NotFound)) == Ok::<SearchModel, StoreError>(m),
        with_reading(m, Err(StoreError::Io)) == Err::<SearchModel, _>(StoreError::Io),
        with_reading(m, Err(StoreError::InvalidUtf8)) == Err::<SearchModel, _>(
            StoreError::InvalidUtf8,
        ),
        with_reading(m, Err(StoreError::SafeOpenUnavailable)) == Err::<SearchModel, _>(
            StoreError::SafeOpenUnavailable,
        ),
        forall|document: FetchedDocument|
            #[trigger] document@ == d ==> with_reading(m, Ok(document)) == Ok::<_, StoreError>(
                with_document(m, d),
            ),
{
    lemma_is_match(m.terms, d);
    assert(documents.push(d).drop_last() =~= documents);
    let scored = scored_document(m.terms, d);
    let rest = scored_documents(m.terms, documents);
    assert(rest.push(scored).drop_last() =~= rest);
}

} // verus!
