//! Searching documents: which match, in what order they come, and how much of
//! that is answered.
use vstd::prelude::*;

use crate::auth::AccessScope;
use crate::document::{
    is_reading, is_visible, DocumentId, DocumentModel, DocumentStore, FetchedDocument, FileOutcome,
    FrontMatter, OpenError, StoreError, StoreModel,
};
use crate::json::{
    distinct_names, field_trees, json_bytes, json_depth, json_tree, json_value, json_write,
    list_trees, plain, with_field, with_flag, with_last, with_number, with_text, Json, JsonTree,
};
use crate::laws::search::{lemma_search_response, tells_results};
use crate::order::{comes_before, text_less};
use crate::scan::{
    chars_contain, contains_text, has_at_most_solid, join_texts, joined_by, lemma_word_count,
    lines_of, solid_count, split_lines, split_words, words,
};
use crate::text::{chars_of, lowercase, text_between, texts, to_lowercase};

verus! {

/// The most results that can be asked for.
pub const MAX_LIMIT: usize = 20;

/// The results that are given where nothing is asked.
pub const DEFAULT_LIMIT: usize = 10;

/// The characters of a snippet.
pub const MAX_SNIPPET_CHARS: usize = 600;

pub struct SearchMetadata {
    pub path: String,
    pub description: String,
    pub line_start: usize,
    pub line_end: usize,
}

pub struct SearchResult {
    pub id: DocumentId,
    pub title: String,
    pub snippet: String,
    pub metadata: SearchMetadata,
}

pub struct SearchResponse {
    pub results: Vec<SearchResult>,
    pub truncated: bool,
}

/// A result as mathematical values.
pub struct ResultModel {
    pub id: Seq<char>,
    pub title: Seq<char>,
    pub snippet: Seq<char>,
    pub path: Seq<char>,
    pub description: Seq<char>,
    pub line_start: usize,
    pub line_end: usize,
}

impl View for SearchResult {
    type V = ResultModel;

    open spec fn view(&self) -> ResultModel {
        ResultModel {
            id: self.id@,
            title: self.title@,
            snippet: self.snippet@,
            path: self.metadata.path@,
            description: self.metadata.description@,
            line_start: self.metadata.line_start,
            line_end: self.metadata.line_end,
        }
    }
}

pub open spec fn result_views(results: Seq<SearchResult>) -> Seq<ResultModel> {
    results.map_values(|r: SearchResult| r@)
}

/// The most characters of a query that are not white space.
pub const MAX_QUERY_CHARS: usize = 256;

/// The terms of a query: its words in lower case. A query has none where it has no
/// words, or more characters than are allowed besides white space.
pub open spec fn query_terms(query: Seq<char>) -> Option<Seq<Seq<char>>> {
    let terms = words(query).map_values(|w: Seq<char>| lowercase(w));
    if solid_count(query) > MAX_QUERY_CHARS || terms.len() == 0 {
        None
    } else {
        Some(terms)
    }
}

pub fn parse_terms(query: &str) -> (r: Result<Vec<String>, StoreError>)
    ensures
        match r {
            Ok(terms) => query_terms(query@) == Some(texts(terms@)),
            Err(error) => error is InvalidQuery && query_terms(query@) is None,
        },
{
    if !has_at_most_solid(query, MAX_QUERY_CHARS) {
        return Err(StoreError::InvalidQuery);
    }
    let list = split_words(query);
    let ghost all = texts(list@);
    let ghost low = |w: Seq<char>| lowercase(w);
    let mut terms: Vec<String> = Vec::new();
    let mut i: usize = 0;
    while i < list.len()
        invariant
            i <= list@.len(),
            all == texts(list@),
            low == (|w: Seq<char>| lowercase(w)),
            texts(terms@) == all.map_values(low).take(i as int),
        decreases list@.len() - i,
    {
        let ghost before = texts(terms@);
        let term = to_lowercase(list[i].as_str());
        proof {
            assert(all[i as int] == list@[i as int]@);
        }
        terms.push(term);
        proof {
            assert(texts(terms@) =~= before.push(term@));
            assert(all.map_values(low).take(i + 1) =~= all.map_values(low).take(i as int).push(
                all.map_values(low)[i as int],
            ));
        }
        i = i + 1;
    }
    proof {
        assert(all.map_values(low).take(all.len() as int) =~= all.map_values(low));
    }
    if terms.is_empty() {
        return Err(StoreError::InvalidQuery);
    }
    Ok(terms)
}

/// How many results are wanted; nothing where that is none or too many.
pub open spec fn wanted_results(limit: Option<usize>) -> Option<nat> {
    let n = match limit {
        Some(n) => n,
        None => DEFAULT_LIMIT,
    };
    if 1 <= n <= MAX_LIMIT {
        Some(n as nat)
    } else {
        None
    }
}

/// Whether a request to search can be taken up.
pub open spec fn query_valid(query: Seq<char>, limit: Option<usize>) -> bool {
    query_terms(query) is Some && wanted_results(limit) is Some
}

/// Checks a request to search before any file is touched.
pub fn check_query(query: &str, limit: Option<usize>) -> (r: Result<
    (Vec<String>, usize),
    StoreError,
>)
    ensures
        match r {
            Ok((terms, n)) => query_terms(query@) == Some(texts(terms@)) && wanted_results(limit)
                == Some(n as nat),
            Err(error) => error is InvalidQuery && !query_valid(query@, limit),
        },
{
    let terms = parse_terms(query)?;
    let n: usize = match limit {
        Some(n) => n,
        None => DEFAULT_LIMIT,
    };
    if n < 1 || n > MAX_LIMIT {
        return Err(StoreError::InvalidQuery);
    }
    Ok((terms, n))
}

/// Where a term stands: in path, title, description and text, each without
/// regard to case.
pub struct Places {
    pub path: bool,
    pub title: bool,
    pub description: bool,
    pub text: bool,
}

pub open spec fn places_of(term: Seq<char>, d: DocumentModel) -> Places {
    Places {
        path: contains_text(lowercase(d.id), term),
        title: contains_text(lowercase(d.metadata.title), term),
        description: contains_text(lowercase(d.metadata.description), term),
        text: contains_text(lowercase(d.text), term),
    }
}

pub open spec fn stands_somewhere(p: Places) -> bool {
    p.path || p.title || p.description || p.text
}

pub open spec fn places_score(p: Places) -> nat {
    ((if p.path {
        100nat
    } else {
        0
    }) + (if p.title {
        80nat
    } else {
        0
    }) + (if p.description {
        50nat
    } else {
        0
    }) + (if p.text {
        10nat
    } else {
        0
    })) as nat
}

/// Whether every term stands somewhere in a document.
pub open spec fn matches_all(terms: Seq<Seq<char>>, d: DocumentModel) -> bool {
    forall|i: int| 0 <= i < terms.len() ==> stands_somewhere(places_of(#[trigger] terms[i], d))
}

/// The score of a document: each term counts by where it stands.
pub open spec fn document_score(terms: Seq<Seq<char>>, d: DocumentModel) -> nat
    decreases terms.len(),
{
    if terms.len() == 0 {
        0
    } else {
        document_score(terms.drop_last(), d) + places_score(places_of(terms.last(), d))
    }
}

/// The first line that holds a term, without regard to case; the first of all
/// where none does.
pub open spec fn matching_line(lines: Seq<Seq<char>>, term: Seq<char>, from: int) -> int
    decreases lines.len() - from,
{
    if from < 0 || from >= lines.len() {
        0
    } else if contains_text(lowercase(lines[from]), term) {
        from
    } else {
        matching_line(lines, term, from + 1)
    }
}

/// A text cut to the length of a snippet.
pub open spec fn snippet_text(text: Seq<char>) -> Seq<char> {
    if text.len() > MAX_SNIPPET_CHARS {
        text.take(MAX_SNIPPET_CHARS as int).push('…')
    } else {
        text
    }
}

/// The lines around the first that holds a term: two before it and two behind.
pub open spec fn snippet_of(text: Seq<char>, term: Seq<char>) -> (Seq<char>, int, int) {
    let lines = lines_of(text);
    let at = matching_line(lines, term, 0);
    let start = if at > 2 {
        at - 2
    } else {
        0
    };
    let end = if at + 3 < lines.len() {
        at + 3
    } else {
        lines.len() as int
    };
    (snippet_text(joined_by(lines.subrange(start, end), "\n"@)), start + 1, end)
}

pub fn snippet(text: &str, first_term: &str) -> (r: (String, usize, usize))
    ensures
        snippet_of(text@, first_term@) == (r.0@, r.1 as int, r.2 as int),
{
    let lines = split_lines(text);
    let term = chars_of(first_term);
    let ghost all = texts(lines@);
    let mut at: usize = 0;
    let mut i: usize = 0;
    let mut found = false;
    while i < lines.len() && !found
        invariant
            i <= lines@.len(),
            all == texts(lines@),
            term@ == first_term@,
            !found ==> at == 0 && matching_line(all, first_term@, 0) == matching_line(
                all,
                first_term@,
                i as int,
            ),
            found ==> at < lines@.len() && matching_line(all, first_term@, 0) == at,
        decreases lines@.len() - i + (if found { 0int } else { 1int }),
    {
        proof {
            assert(all[i as int] == lines@[i as int]@);
        }
        if chars_contain(&chars_of(to_lowercase(lines[i].as_str()).as_str()), &term) {
            at = i;
            found = true;
        } else {
            i = i + 1;
        }
    }
    proof {
        assert(at == matching_line(all, first_term@, 0));
        assert(at < lines@.len() || (at == 0 && lines@.len() == 0));
    }
    let n: usize = lines.len();
    let start: usize = if at > 2 {
        at - 2
    } else {
        0
    };
    let end: usize = if n > 3 && at < n - 3 {
        at + 3
    } else {
        n
    };
    let joined = join_texts(&lines, start, end, "\n");
    let chars = chars_of(joined.as_str());
    let cut = if chars.len() > MAX_SNIPPET_CHARS {
        let mut cut = text_between(&chars, 0, MAX_SNIPPET_CHARS);
        proof {
            assert(cut@ =~= joined@.take(MAX_SNIPPET_CHARS as int));
        }
        cut.push('…');
        cut
    } else {
        joined
    };
    (cut, start + 1, end)
}

/// The result that a document gives.
pub open spec fn result_of(terms: Seq<Seq<char>>, d: DocumentModel) -> ResultModel {
    let (snippet, line_start, line_end) = snippet_of(d.text, terms[0]);
    ResultModel {
        id: d.id,
        title: d.metadata.title,
        snippet,
        path: d.id,
        description: d.metadata.description,
        line_start: line_start as usize,
        line_end: line_end as usize,
    }
}

/// A result with its score.
pub struct ScoredResult {
    pub score: u32,
    pub result: SearchResult,
}

pub struct ScoredModel {
    pub score: nat,
    pub result: ResultModel,
}

impl View for ScoredResult {
    type V = ScoredModel;

    open spec fn view(&self) -> ScoredModel {
        ScoredModel { score: self.score as nat, result: self.result@ }
    }
}

pub open spec fn scored_views(scored: Seq<ScoredResult>) -> Seq<ScoredModel> {
    scored.map_values(|s: ScoredResult| s@)
}

fn bounded_places(
    term: &str,
    path: &Vec<char>,
    title: &Vec<char>,
    description: &Vec<char>,
    text: &Vec<char>,
) -> (r: Places)
    ensures
        r == (Places {
            path: contains_text(path@, term@),
            title: contains_text(title@, term@),
            description: contains_text(description@, term@),
            text: contains_text(text@, term@),
        }),
{
    let needle = chars_of(term);
    Places {
        path: chars_contain(path, &needle),
        title: chars_contain(title, &needle),
        description: chars_contain(description, &needle),
        text: chars_contain(text, &needle),
    }
}

fn score_places(p: &Places) -> (r: u32)
    ensures
        r == places_score(*p),
        r <= 240,
{
    let mut score: u32 = 0;
    if p.path {
        score = score + 100;
    }
    if p.title {
        score = score + 80;
    }
    if p.description {
        score = score + 50;
    }
    if p.text {
        score = score + 10;
    }
    score
}

/// The scored result of a document; nothing where a term stands nowhere in it.
pub fn score_document(terms: &Vec<String>, document: FetchedDocument) -> (r: Option<ScoredResult>)
    requires
        1 <= terms@.len(),
        240 * terms@.len() <= u32::MAX,
    ensures
        match r {
            Some(scored) => matches_all(texts(terms@), document@) && scored@ == (ScoredModel {
                score: document_score(texts(terms@), document@),
                result: result_of(texts(terms@), document@),
            }),
            None => !matches_all(texts(terms@), document@),
        },
{
    let path = chars_of(to_lowercase(document.id.as_str()).as_str());
    let title = chars_of(to_lowercase(document.metadata.title.as_str()).as_str());
    let description = chars_of(to_lowercase(document.metadata.description.as_str()).as_str());
    let text = chars_of(to_lowercase(document.text.as_str()).as_str());
    let ghost all = texts(terms@);
    let ghost d = document@;
    let mut score: u32 = 0;
    let mut i: usize = 0;
    proof {
        assert(all.take(0) =~= Seq::empty());
    }
    while i < terms.len()
        invariant
            i <= terms@.len(),
            240 * terms@.len() <= u32::MAX,
            all == texts(terms@),
            d == document@,
            path@ == lowercase(d.id),
            title@ == lowercase(d.metadata.title),
            description@ == lowercase(d.metadata.description),
            text@ == lowercase(d.text),
            score <= 240 * i,
            score == document_score(all.take(i as int), d),
            forall|j: int| 0 <= j < i ==> stands_somewhere(places_of(#[trigger] all[j], d)),
        decreases terms@.len() - i,
    {
        let places = bounded_places(terms[i].as_str(), &path, &title, &description, &text);
        proof {
            assert(all[i as int] == terms@[i as int]@);
            assert(places == places_of(all[i as int], d));
            assert(all.take(i + 1).drop_last() =~= all.take(i as int));
            assert(all.take(i + 1).last() == all[i as int]);
        }
        if !(places.path || places.title || places.description || places.text) {
            return None;
        }
        score = score + score_places(&places);
        i = i + 1;
    }
    proof {
        assert(all.take(all.len() as int) =~= all);
        assert(all[0] == terms@[0]@);
    }
    let (snippet, line_start, line_end) = snippet(document.text.as_str(), terms[0].as_str());
    let path = document.id.as_str().to_owned();
    Some(
        ScoredResult {
            score,
            result: SearchResult {
                id: document.id,
                title: document.metadata.title,
                snippet,
                metadata: SearchMetadata {
                    path,
                    description: document.metadata.description,
                    line_start,
                    line_end,
                },
            },
        },
    )
}

/// Whether a result comes before another: by the higher score, then by the
/// smaller identifier.
pub open spec fn ranks_before(a: ScoredModel, b: ScoredModel) -> bool {
    a.score > b.score || (a.score == b.score && text_less(a.result.id, b.result.id))
}

/// Where a new result goes among ranked ones: before the first that it comes
/// before.
pub open spec fn rank_place(ranked: Seq<ScoredModel>, new: ScoredModel) -> int
    decreases ranked.len(),
{
    if ranked.len() == 0 {
        0
    } else if ranks_before(new, ranked.last()) {
        rank_place(ranked.drop_last(), new)
    } else {
        ranked.len() as int
    }
}

/// Results in their order.
pub open spec fn ranked(scored: Seq<ScoredModel>) -> Seq<ScoredModel>
    decreases scored.len(),
{
    if scored.len() == 0 {
        Seq::empty()
    } else {
        let rest = ranked(scored.drop_last());
        rest.insert(rank_place(rest, scored.last()), scored.last())
    }
}

proof fn lemma_rank_place(list: Seq<ScoredModel>, new: ScoredModel)
    ensures
        0 <= rank_place(list, new) <= list.len(),
        forall|j: int| rank_place(list, new) <= j < list.len() ==> ranks_before(new, list[j]),
        rank_place(list, new) > 0 ==> !ranks_before(new, list[rank_place(list, new) - 1]),
    decreases list.len(),
{
    if list.len() > 0 && ranks_before(new, list.last()) {
        let rest = list.drop_last();
        lemma_rank_place(rest, new);
        assert forall|j: int| rank_place(list, new) <= j < list.len() implies ranks_before(
            new,
            list[j],
        ) by {
            if j < rest.len() {
                assert(rest[j] == list[j]);
            }
        }
    }
}

proof fn lemma_ranks_transitive(a: ScoredModel, b: ScoredModel, c: ScoredModel)
    requires
        !ranks_before(b, a),
        !ranks_before(c, b),
    ensures
        !ranks_before(c, a),
{
    if ranks_before(c, a) {
        crate::order::lemma_text_less_total(a.result.id, b.result.id);
        crate::order::lemma_text_less_total(b.result.id, c.result.id);
        if a.score == b.score && b.score == c.score {
            if text_less(a.result.id, b.result.id) {
                if text_less(b.result.id, c.result.id) {
                    crate::order::lemma_text_less_transitive(
                        a.result.id,
                        b.result.id,
                        c.result.id,
                    );
                    crate::order::lemma_text_less_transitive(
                        a.result.id,
                        c.result.id,
                        a.result.id,
                    );
                    crate::order::lemma_text_less_irreflexive(a.result.id);
                } else {
                    crate::order::lemma_text_less_transitive(
                        a.result.id,
                        c.result.id,
                        a.result.id,
                    );
                    crate::order::lemma_text_less_irreflexive(a.result.id);
                }
            }
        }
    }
}

/// The order holds what was scored, no more and no less, and no result in it
/// comes before an earlier one.
pub proof fn lemma_ranked(scored: Seq<ScoredModel>)
    ensures
        ranked(scored).to_multiset() == scored.to_multiset(),
        forall|i: int, j: int|
            0 <= i < j < ranked(scored).len() ==> !ranks_before(
                ranked(scored)[j],
                ranked(scored)[i],
            ),
    decreases scored.len(),
{
    broadcast use vstd::seq_lib::group_to_multiset_ensures;

    if scored.len() > 0 {
        let before = scored.drop_last();
        let new = scored.last();
        let rest = ranked(before);
        lemma_ranked(before);
        lemma_rank_place(rest, new);
        let at = rank_place(rest, new);
        let all = rest.insert(at, new);
        assert(scored =~= before.push(new));
        assert(all.to_multiset() =~= rest.to_multiset().insert(new)) by {
            vstd::seq_lib::to_multiset_insert(rest, at, new);
        }
        assert forall|i: int, j: int| 0 <= i < j < all.len() implies !ranks_before(
            all[j],
            all[i],
        ) by {
            if i == at {
                assert(all[j] == rest[j - 1]);
                lemma_ranks_asymmetric(new, rest[j - 1]);
            } else if j == at {
                assert(all[i] == rest[i]);
                if i < at - 1 {
                    lemma_ranks_transitive(rest[i], rest[at - 1], new);
                }
            } else {
                let a = if i < at {
                    i
                } else {
                    i - 1
                };
                let b = if j < at {
                    j
                } else {
                    j - 1
                };
                assert(all[i] == rest[a]);
                assert(all[j] == rest[b]);
            }
        }
    } else {
        assert(ranked(scored) =~= scored);
    }
}

proof fn lemma_ranks_asymmetric(a: ScoredModel, b: ScoredModel)
    requires
        ranks_before(a, b),
    ensures
        !ranks_before(b, a),
{
    if ranks_before(b, a) {
        crate::order::lemma_text_less_transitive(a.result.id, b.result.id, a.result.id);
        crate::order::lemma_text_less_irreflexive(a.result.id);
    }
}

/// A result goes to its place among ranked ones.
fn rank(list: Vec<ScoredResult>, new: ScoredResult) -> (r: Vec<ScoredResult>)
    ensures
        scored_views(r@) == scored_views(list@).insert(
            rank_place(scored_views(list@), new@),
            new@,
        ),
{
    let mut out = list;
    let ghost all = scored_views(out@);
    let mut at: usize = out.len();
    proof {
        assert(all.take(at as int) =~= all);
    }
    while at > 0 && (new.score > out[at - 1].score || (new.score == out[at - 1].score
        && comes_before(new.result.id.as_str(), out[at - 1].result.id.as_str())))
        invariant
            at <= out@.len(),
            all == scored_views(out@),
            rank_place(all, new@) == rank_place(all.take(at as int), new@),
        decreases at,
    {
        proof {
            assert(all.take(at as int).last() == out@[at - 1]@);
            assert(all.take(at as int).drop_last() =~= all.take(at - 1));
        }
        at = at - 1;
    }
    proof {
        if at > 0 {
            assert(all.take(at as int).last() == out@[at - 1]@);
        }
        assert(rank_place(all, new@) == at);
    }
    let ghost added = new@;
    out.insert(at, new);
    proof {
        assert(scored_views(out@) =~= all.insert(at as int, added));
    }
    out
}

pub open spec fn result_metadata_fields(r: ResultModel) -> Seq<(Seq<char>, JsonTree)> {
    seq![
        ("path"@, JsonTree::Text(r.path)),
        ("description"@, JsonTree::Text(r.description)),
        ("line_start"@, JsonTree::Number(r.line_start as u64)),
        ("line_end"@, JsonTree::Number(r.line_end as u64)),
    ]
}

pub open spec fn result_fields(r: ResultModel) -> Seq<(Seq<char>, JsonTree)> {
    seq![
        ("id"@, JsonTree::Text(r.id)),
        ("title"@, JsonTree::Text(r.title)),
        ("snippet"@, JsonTree::Text(r.snippet)),
        ("metadata"@, JsonTree::Object(result_metadata_fields(r))),
    ]
}

pub open spec fn result_trees(results: Seq<ResultModel>) -> Seq<JsonTree> {
    results.map_values(|r: ResultModel| JsonTree::Object(result_fields(r)))
}

/// A response as JSON.
pub open spec fn response_fields(results: Seq<ResultModel>, truncated: bool) -> Seq<
    (Seq<char>, JsonTree),
> {
    seq![
        ("results"@, JsonTree::List(result_trees(results))),
        ("truncated"@, JsonTree::Bool(truncated)),
    ]
}

/// The bytes that a response takes as JSON.
pub open spec fn response_size(results: Seq<ResultModel>, truncated: bool) -> nat {
    json_bytes(JsonTree::Object(response_fields(results, truncated))).len()
}

/// Whether a response that has results takes no more than `max_bytes` as JSON.
pub open spec fn response_fits(response: SearchResponse, max_bytes: nat) -> bool {
    response.results@.len() > 0 ==> response_size(
        result_views(response.results@),
        response.truncated,
    ) <= max_bytes
}

/// How many results are kept, of those from `k` up to `n`: as many as fit into
/// `max_bytes`.
pub open spec fn kept_results(
    results: Seq<ResultModel>,
    k: nat,
    n: nat,
    truncated: bool,
    max_bytes: nat,
) -> nat
    decreases n - k,
{
    if k >= n {
        n
    } else if response_size(results.take(k as int + 1), truncated) > max_bytes {
        k
    } else {
        kept_results(results, k + 1, n, truncated, max_bytes)
    }
}

/// The results without their scores.
pub open spec fn unscored(scored: Seq<ScoredModel>) -> Seq<ResultModel> {
    scored.map_values(|s: ScoredModel| s.result)
}

/// What is answered: the first results in order, no more than are wanted and
/// than fit, and whether there were more.
pub open spec fn response_of(scored: Seq<ScoredModel>, limit: nat, max_bytes: nat) -> (
    Seq<ResultModel>,
    bool,
) {
    let all = unscored(ranked(scored));
    let more = all.len() > limit;
    let n = if more {
        limit
    } else {
        all.len()
    };
    let kept = kept_results(all, 0, n, more, max_bytes);
    (all.take(kept as int), more || kept < n)
}

pub proof fn lemma_kept(
    results: Seq<ResultModel>,
    k: nat,
    n: nat,
    truncated: bool,
    max_bytes: nat,
)
    requires
        k <= n <= results.len(),
    ensures
        k <= kept_results(results, k, n, truncated, max_bytes) <= n,
        kept_results(results, k, n, truncated, max_bytes) > k ==> response_size(
            results.take(kept_results(results, k, n, truncated, max_bytes) as int),
            truncated,
        ) <= max_bytes,
    decreases n - k,
{
    if k < n && response_size(results.take((k + 1) as int), truncated) <= max_bytes {
        lemma_kept(results, k + 1, n, truncated, max_bytes);
    }
}

/// No more results are answered than are wanted and than fit, and none are made
/// up: each is the result of something that was scored.
pub proof fn lemma_response_is_bounded(scored: Seq<ScoredModel>, limit: nat, max_bytes: nat)
    ensures
        response_of(scored, limit, max_bytes).0.len() <= limit,
        response_of(scored, limit, max_bytes).0.len() > 0 ==> response_size(
            response_of(scored, limit, max_bytes).0,
            scored.len() > limit,
        ) <= max_bytes,
        forall|i: int|
            #![trigger response_of(scored, limit, max_bytes).0[i]]
            0 <= i < response_of(scored, limit, max_bytes).0.len() ==> exists|j: int|
                0 <= j < scored.len() && (#[trigger] scored[j]).result == response_of(
                    scored,
                    limit,
                    max_bytes,
                ).0[i],
{
    let order = ranked(scored);
    let all = unscored(order);
    let n = if all.len() > limit {
        limit
    } else {
        all.len()
    };
    lemma_kept(all, 0, n, all.len() > limit, max_bytes);
    lemma_ranked(scored);
    broadcast use vstd::seq_lib::group_to_multiset_ensures;

    assert(order.len() == order.to_multiset().len());
    assert(scored.len() == scored.to_multiset().len());
    let results = response_of(scored, limit, max_bytes).0;
    assert forall|i: int| #![trigger results[i]] 0 <= i < results.len() implies exists|j: int|
        0 <= j < scored.len() && (#[trigger] scored[j]).result == results[i] by {
        assert(results[i] == order[i].result);
        assert(order.contains(order[i]));
        assert(order.to_multiset().count(order[i]) > 0);
        assert(scored.to_multiset().count(order[i]) > 0);
        assert(scored.contains(order[i]));
        let j = choose|j: int| 0 <= j < scored.len() && scored[j] == order[i];
        assert(scored[j].result == results[i]);
    }
}

pub proof fn lemma_result_names(r: ResultModel)
    ensures
        distinct_names(result_metadata_fields(r)),
        distinct_names(result_fields(r)),
        plain(JsonTree::Object(result_fields(r)), 2),
{
    reveal_strlit("path");
    reveal_strlit("description");
    reveal_strlit("line_start");
    reveal_strlit("line_end");
    reveal_strlit("id");
    reveal_strlit("title");
    reveal_strlit("snippet");
    reveal_strlit("metadata");
    assert("path"@.len() == 4);
    assert("description"@.len() == 11);
    assert("line_start"@.len() == 10);
    assert("line_end"@.len() == 8);
    assert("id"@.len() == 2);
    assert("title"@.len() == 5);
    assert("snippet"@.len() == 7);
    assert("metadata"@.len() == 8);
    let inner = result_metadata_fields(r);
    let fields = result_fields(r);
    assert forall|i: int| 0 <= i < inner.len() implies plain((#[trigger] inner[i]).1, 0) by {}
    assert(plain(JsonTree::Object(inner), 1));
    assert forall|i: int| 0 <= i < fields.len() implies plain((#[trigger] fields[i]).1, 1) by {}
}

pub proof fn lemma_response_plain(results: Seq<ResultModel>, truncated: bool)
    ensures
        distinct_names(response_fields(results, truncated)),
        plain(JsonTree::Object(response_fields(results, truncated)), json_depth()),
{
    reveal_strlit("results");
    reveal_strlit("truncated");
    assert("results"@.len() == 7);
    assert("truncated"@.len() == 9);
    let items = result_trees(results);
    let fields = response_fields(results, truncated);
    assert forall|i: int| 0 <= i < items.len() implies plain(#[trigger] items[i], 125) by {
        lemma_result_names(results[i]);
        crate::json::lemma_plain_deeper(items[i], 2, 125);
    }
    assert(plain(JsonTree::List(items), 126));
    assert forall|i: int| 0 <= i < fields.len() implies plain((#[trigger] fields[i]).1, 126) by {}
}

impl SearchResult {
    fn to_layer(&self) -> (r: Json)
        ensures
            r@ == JsonTree::Object(result_fields(self@)),
            distinct_names(result_fields(self@)),
            r is Object,
    {
        let inner: Vec<(String, serde_json::Value)> = Vec::new();
        let fields: Vec<(String, serde_json::Value)> = Vec::new();
        proof {
            assert(field_trees(inner@) =~= Seq::empty());
            assert(field_trees(fields@) =~= Seq::empty());
            lemma_result_names(self@);
        }
        let inner = with_text(inner, "path", self.metadata.path.as_str());
        let inner = with_text(inner, "description", self.metadata.description.as_str());
        let inner = with_number(inner, "line_start", self.metadata.line_start as u64);
        let inner = with_number(inner, "line_end", self.metadata.line_end as u64);
        proof {
            assert(field_trees(inner@) =~= result_metadata_fields(self@));
        }
        let fields = with_text(fields, "id", self.id.as_str());
        let fields = with_text(fields, "title", self.title.as_str());
        let fields = with_text(fields, "snippet", self.snippet.as_str());
        let fields = with_field(fields, "metadata", Json::Object(inner));
        proof {
            assert(field_trees(fields@) =~= result_fields(self@));
        }
        Json::Object(fields)
    }
}

impl SearchResponse {
    /// The response as JSON.
    pub fn to_json(&self) -> (r: serde_json::Value)
        ensures
            json_tree(r) == JsonTree::Object(
                response_fields(result_views(self.results@), self.truncated),
            ),
            tells_results(json_tree(r), result_views(self.results@), self.truncated),
    {
        proof {
            lemma_search_response(result_views(self.results@), self.truncated);
        }
        response_json(&self.results, self.truncated)
    }
}

fn response_json(results: &Vec<SearchResult>, truncated: bool) -> (r: serde_json::Value)
    ensures
        json_tree(r) == JsonTree::Object(response_fields(result_views(results@), truncated)),
{
    let mut items: Vec<serde_json::Value> = Vec::new();
    let ghost wanted = result_trees(result_views(results@));
    let mut i: usize = 0;
    while i < results.len()
        invariant
            i <= results@.len(),
            wanted == result_trees(result_views(results@)),
            list_trees(items@) == wanted.take(i as int),
        decreases results@.len() - i,
    {
        let ghost before = list_trees(items@);
        let layer = results[i].to_layer();
        items.push(json_value(layer));
        proof {
            assert(wanted[i as int] == JsonTree::Object(result_fields(results@[i as int]@)));
            assert(list_trees(items@) =~= before.push(wanted[i as int]));
            assert(wanted.take(i + 1) =~= wanted.take(i as int).push(wanted[i as int]));
        }
        i = i + 1;
    }
    let fields: Vec<(String, serde_json::Value)> = Vec::new();
    proof {
        assert(wanted.take(wanted.len() as int) =~= wanted);
        assert(field_trees(fields@) =~= Seq::empty());
        lemma_response_plain(result_views(results@), truncated);
    }
    let fields = with_field(fields, "results", Json::List(items));
    let fields = with_flag(fields, "truncated", truncated);
    proof {
        assert(field_trees(fields@) =~= response_fields(result_views(results@), truncated));
    }
    json_value(Json::Object(fields))
}

fn response_bytes(results: &Vec<SearchResult>, truncated: bool) -> (r: Option<usize>)
    ensures
        r matches Some(n) && n == response_size(result_views(results@), truncated) && n
            >= response_size(result_views(results@), true),
{
    let value = response_json(results, truncated);
    proof {
        lemma_response_plain(result_views(results@), truncated);
        let fields = response_fields(result_views(results@), truncated);
        assert(with_last(fields, JsonTree::Bool(true)) =~= response_fields(
            result_views(results@),
            true,
        ));
    }
    match json_write(&value) {
        Some(bytes) => Some(bytes.len()),
        None => None,
    }
}

/// Answers with the first of ranked results, no more than `limit` of them and
/// than fit into `max_response_bytes`.
fn respond(ranked_results: Vec<ScoredResult>, limit: usize, max_response_bytes: usize) -> (r: Result<
    SearchResponse,
    StoreError,
>)
    ensures
        ({
            let all = unscored(scored_views(ranked_results@));
            let more = all.len() > limit;
            let n = if more {
                limit as nat
            } else {
                all.len()
            };
            let kept = kept_results(all, 0, n, more, max_response_bytes as nat);
            r matches Ok(response) && result_views(response.results@) == all.take(kept as int)
                && response.truncated == (more || kept < n) && response_fits(
                response,
                max_response_bytes as nat,
            )
        }),
{
    let available: usize = ranked_results.len();
    let more = available > limit;
    let n: usize = if more {
        limit
    } else {
        available
    };
    let ghost all = unscored(scored_views(ranked_results@));
    let mut source = ranked_results;
    source.truncate(n);
    let mut rest = reversed(source);
    let mut results: Vec<SearchResult> = Vec::new();
    let mut k: usize = 0;
    proof {
        lemma_kept(all, 0, n as nat, more, max_response_bytes as nat);
        assert(result_views(results@) =~= all.take(0));
    }
    while k < n
        invariant
            all == unscored(scored_views(ranked_results@)),
            more == (all.len() > limit),
            n == (if more {
                limit as nat
            } else {
                all.len()
            }),
            k <= n <= all.len(),
            rest@.len() == n - k,
            forall|j: int| 0 <= j < rest@.len() ==> (#[trigger] rest@[j])@.result == all[n - 1 - j],
            result_views(results@) == all.take(k as int),
            k > 0 ==> response_size(all.take(k as int), more) <= max_response_bytes
                && response_size(all.take(k as int), true) <= max_response_bytes,
            kept_results(all, 0, n as nat, more, max_response_bytes as nat) == kept_results(
                all,
                k as nat,
                n as nat,
                more,
                max_response_bytes as nat,
            ),
        decreases n - k,
    {
        proof {
            assert(rest@.last()@.result == all[k as int]);
        }
        let next = match rest.pop() {
            Some(next) => next,
            None => {
                return Err(StoreError::InvalidQuery);
            },
        };
        let ghost before = result_views(results@);
        results.push(next.result);
        proof {
            assert(result_views(results@) =~= before.push(all[k as int]));
            assert(all.take(k + 1) =~= all.take(k as int).push(all[k as int]));
        }
        let size: usize = match response_bytes(&results, more) {
            Some(size) => size,
            None => {
                return Err(StoreError::InvalidQuery);
            },
        };
        if size > max_response_bytes {
            results.truncate(k);
            proof {
                assert(result_views(results@) =~= all.take(k as int));
            }
            return Ok(SearchResponse { results, truncated: true });
        }
        k = k + 1;
    }
    Ok(SearchResponse { results, truncated: more })
}

/// A list the other way round, so that its first item is taken first.
fn reversed<T>(list: Vec<T>) -> (r: Vec<T>)
    ensures
        r@ == list@.reverse(),
{
    let mut source = list;
    let ghost all = source@;
    let mut out: Vec<T> = Vec::new();
    while source.len() > 0
        invariant
            source@.len() <= all.len(),
            source@ == all.take(source@.len() as int),
            out@ == all.skip(source@.len() as int).reverse(),
        decreases source@.len(),
    {
        let ghost n = source@.len();
        match source.pop() {
            Some(item) => {
                out.push(item);
                proof {
                    assert(source@ =~= all.take(n - 1));
                    assert(out@ =~= all.skip(n - 1).reverse());
                }
            },
            None => {},
        }
    }
    proof {
        assert(all.skip(0) =~= all);
    }
    out
}

/// The documents among readings that were found, or the first error but not
/// having been found.
pub open spec fn found_documents(readings: Seq<Result<FetchedDocument, StoreError>>) -> Result<
    Seq<DocumentModel>,
    StoreError,
>
    decreases readings.len(),
{
    if readings.len() == 0 {
        Ok(Seq::empty())
    } else {
        match found_documents(readings.drop_last()) {
            Err(error) => Err(error),
            Ok(found) => match readings.last() {
                Ok(document) => Ok(found.push(document@)),
                Err(StoreError::NotFound) => Ok(found),
                Err(error) => Err(error),
            },
        }
    }
}

/// The scored results of documents, in their order.
pub open spec fn scored_documents(terms: Seq<Seq<char>>, documents: Seq<DocumentModel>) -> Seq<
    ScoredModel,
>
    decreases documents.len(),
{
    if documents.len() == 0 {
        Seq::empty()
    } else {
        let rest = scored_documents(terms, documents.drop_last());
        let d = documents.last();
        if matches_all(terms, d) {
            rest.push(ScoredModel { score: document_score(terms, d), result: result_of(terms, d) })
        } else {
            rest
        }
    }
}

/// What searching these readings is answered.
pub open spec fn search_answer(
    query: Seq<char>,
    limit: Option<usize>,
    readings: Seq<Result<FetchedDocument, StoreError>>,
    max_bytes: nat,
) -> Result<(Seq<ResultModel>, bool), StoreError> {
    match (query_terms(query), wanted_results(limit)) {
        (Some(terms), Some(n)) => match found_documents(readings) {
            Err(error) => Err(error),
            Ok(documents) => Ok(response_of(scored_documents(terms, documents), n, max_bytes)),
        },
        _ => Err(StoreError::InvalidQuery),
    }
}

/// A search in progress.
pub struct Search {
    terms: Vec<String>,
    limit: usize,
    ranked: Vec<ScoredResult>,
}

/// A search as mathematical values.
pub struct SearchModel {
    pub terms: Seq<Seq<char>>,
    pub limit: nat,
    /// The results so far, in their order.
    pub ranked: Seq<ScoredModel>,
}

impl View for Search {
    type V = SearchModel;

    closed spec fn view(&self) -> SearchModel {
        SearchModel {
            terms: texts(self.terms@),
            limit: self.limit as nat,
            ranked: scored_views(self.ranked@),
        }
    }
}

/// A search after a document was read.
pub open spec fn with_document(m: SearchModel, d: DocumentModel) -> SearchModel {
    let scored = ScoredModel {
        score: document_score(m.terms, d),
        result: result_of(m.terms, d),
    };
    SearchModel {
        ranked: if matches_all(m.terms, d) {
            m.ranked.insert(rank_place(m.ranked, scored), scored)
        } else {
            m.ranked
        },
        ..m
    }
}

/// A search after a document was tried to be read: one that is not found is
/// passed over, any other error ends the search.
pub open spec fn with_reading(m: SearchModel, reading: Result<FetchedDocument, StoreError>) -> Result<
    SearchModel,
    StoreError,
> {
    match reading {
        Ok(document) => Ok(with_document(m, document@)),
        Err(StoreError::NotFound) => Ok(m),
        Err(error) => Err(error),
    }
}

/// What a search is answered: the first results, no more than are wanted and
/// than fit, and whether there were more.
pub open spec fn answer_of(m: SearchModel, max_bytes: nat) -> (Seq<ResultModel>, bool) {
    let all = unscored(m.ranked);
    let more = all.len() > m.limit;
    let n = if more {
        m.limit
    } else {
        all.len()
    };
    let kept = kept_results(all, 0, n, more, max_bytes);
    (all.take(kept as int), more || kept < n)
}

impl Search {
    #[verifier::type_invariant]
    closed spec fn has_terms(&self) -> bool {
        1 <= self.terms@.len() <= 256
    }

    /// Begins a search, before any file is touched.
    pub fn begin(query: &str, limit: Option<usize>) -> (r: Result<Search, StoreError>)
        ensures
            match r {
                Ok(search) => query_terms(query@) == Some(search@.terms) && wanted_results(limit)
                    == Some(search@.limit) && search@.ranked == Seq::<ScoredModel>::empty(),
                Err(error) => error is InvalidQuery && !query_valid(query@, limit),
            },
    {
        let (terms, n) = check_query(query, limit)?;
        let none: Vec<ScoredResult> = Vec::new();
        proof {
            lemma_few_terms(query@);
            assert(scored_views(none@) =~= Seq::empty());
        }
        Ok(Search { terms, limit: n, ranked: none })
    }

    /// Takes in what became of reading a document.
    pub fn add_reading(self, reading: Result<FetchedDocument, StoreError>) -> (r: Result<
        Search,
        StoreError,
    >)
        ensures
            match r {
                Ok(search) => with_reading(self@, reading) == Ok::<_, StoreError>(search@),
                Err(error) => with_reading(self@, reading) == Err::<SearchModel, _>(error),
            },
    {
        proof {
            use_type_invariant(&self);
        }
        match reading {
            Ok(document) => {
                let Search { terms, limit, ranked: list } = self;
                let list = match score_document(&terms, document) {
                    Some(scored) => rank(list, scored),
                    None => list,
                };
                Ok(Search { terms, limit, ranked: list })
            },
            Err(StoreError::NotFound) => Ok(self),
            Err(error) => Err(error),
        }
    }

    /// Answers the search.
    pub fn finish(self, max_response_bytes: usize) -> (r: Result<SearchResponse, StoreError>)
        ensures
            r matches Ok(response) && answer_of(self@, max_response_bytes as nat) == (
                result_views(response.results@),
                response.truncated,
            ) && response_fits(response, max_response_bytes as nat),
    {
        respond(self.ranked, self.limit, max_response_bytes)
    }
}

/// A query that is short enough has few terms.
proof fn lemma_few_terms(query: Seq<char>)
    requires
        query_terms(query) is Some,
    ensures
        1 <= query_terms(query)->Some_0.len() <= 256,
{
    lemma_word_count(query);
}

/// Whether a document is answered as it should be. The file of one that the scope
/// sees is opened; one that it does not see is answered without that.
pub open spec fn is_candidate_reading<
    O: Fn(&DocumentId) -> FileOutcome,
    P: Fn(&str) -> Option<FrontMatter>,
>(
    open: O,
    parse: P,
    m: StoreModel,
    scope: AccessScope,
    id: DocumentId,
    reading: Result<FetchedDocument, StoreError>,
) -> bool {
    exists|file: FileOutcome|
        (is_visible(m.directories, scope, id@) ==> call_ensures(open, (&id,), file))
            && #[trigger] is_reading(
            parse,
            m.directories,
            scope,
            id@,
            file,
            m.max_search_file_bytes as nat,
            reading,
        )
}

/// Whether answers to requests for documents are the right ones, each in its
/// turn, up to where the requests end.
pub open spec fn are_readings<
    O: Fn(&DocumentId) -> FileOutcome,
    P: Fn(&str) -> Option<FrontMatter>,
>(
    open: O,
    parse: P,
    m: StoreModel,
    scope: AccessScope,
    ids: Seq<DocumentId>,
    readings: Seq<Result<FetchedDocument, StoreError>>,
) -> bool {
    &&& readings.len() <= ids.len()
    &&& forall|i: int|
        0 <= i < readings.len() ==> #[trigger] is_candidate_reading(
            open,
            parse,
            m,
            scope,
            ids[i],
            readings[i],
        )
    &&& readings.len() < ids.len() ==> found_documents(readings) is Err
}

/// Whether an answer to a search is the right one: what the search finds among
/// the documents that the scope sees, no larger than it may be, or the first
/// error.
pub open spec fn is_search_answer<
    O: Fn(&DocumentId) -> FileOutcome,
    P: Fn(&str) -> Option<FrontMatter>,
>(
    open: O,
    parse: P,
    m: StoreModel,
    scope: AccessScope,
    query: Seq<char>,
    limit: Option<usize>,
    max_bytes: nat,
    candidates: Result<Vec<DocumentId>, StoreError>,
    answer: Result<SearchResponse, StoreError>,
) -> bool {
    if !query_valid(query, limit) {
        answer == Err::<SearchResponse, _>(StoreError::InvalidQuery)
    } else {
        match candidates {
            Err(error) => answer == Err::<SearchResponse, _>(error),
            Ok(ids) => exists|readings: Seq<Result<FetchedDocument, StoreError>>|
                {
                    &&& are_readings(open, parse, m, scope, ids@, readings)
                    &&& match answer {
                        Ok(response) => #[trigger] search_answer(query, limit, readings, max_bytes)
                            == Ok::<_, StoreError>(
                            (result_views(response.results@), response.truncated),
                        ) && response_fits(response, max_bytes),
                        Err(error) => search_answer(query, limit, readings, max_bytes) == Err::<
                            (Seq<ResultModel>, bool),
                            _,
                        >(error),
                    }
                },
        }
    }
}

/// Whether an answer to a search is the right one for the documents that are
/// listed. They are listed only for a query that is valid.
pub open spec fn is_listed_search<
    L: Fn() -> Result<Vec<DocumentId>, StoreError>,
    O: Fn(&DocumentId) -> FileOutcome,
    P: Fn(&str) -> Option<FrontMatter>,
>(
    list: L,
    open: O,
    parse: P,
    m: StoreModel,
    scope: AccessScope,
    query: Seq<char>,
    limit: Option<usize>,
    max_bytes: nat,
    answer: Result<SearchResponse, StoreError>,
) -> bool {
    exists|candidates: Result<Vec<DocumentId>, StoreError>|
        (query_valid(query, limit) ==> call_ensures(list, (), candidates))
            && #[trigger] is_search_answer(
            open,
            parse,
            m,
            scope,
            query,
            limit,
            max_bytes,
            candidates,
            answer,
        )
}

/// Documents that were found are among those that were read.
proof fn lemma_found(readings: Seq<Result<FetchedDocument, StoreError>>, k: int)
    requires
        found_documents(readings) matches Ok(documents) && 0 <= k < documents.len(),
    ensures
        exists|i: int|
            0 <= i < readings.len() && (#[trigger] readings[i] matches Ok(document) && document@
                == found_documents(readings)->Ok_0[k]),
    decreases readings.len(),
{
    if readings.len() > 0 {
        let rest = readings.drop_last();
        let found = found_documents(rest)->Ok_0;
        if k < found.len() {
            lemma_found(rest, k);
            let i = choose|i: int|
                0 <= i < rest.len() && (#[trigger] rest[i] matches Ok(document) && document@
                    == found[k]);
            assert(readings[i] == rest[i]);
        } else {
            assert(readings[readings.len() - 1] is Ok);
        }
    }
}

/// Scored results are of documents that were scored.
proof fn lemma_scored(terms: Seq<Seq<char>>, documents: Seq<DocumentModel>, k: int)
    requires
        0 <= k < scored_documents(terms, documents).len(),
    ensures
        exists|i: int|
            0 <= i < documents.len() && scored_documents(terms, documents)[k].result.id == (
            #[trigger] documents[i]).id,
    decreases documents.len(),
{
    if documents.len() > 0 {
        let rest = documents.drop_last();
        if k < scored_documents(terms, rest).len() {
            lemma_scored(terms, rest, k);
            let i = choose|i: int|
                0 <= i < rest.len() && scored_documents(terms, rest)[k].result.id == (
                #[trigger] rest[i]).id;
            assert(documents[i] == rest[i]);
        } else {
            assert(documents[documents.len() - 1] == documents.last());
        }
    }
}

/// A search never answers with a document that the scope does not see.
pub proof fn lemma_results_are_visible<
    L: Fn() -> Result<Vec<DocumentId>, StoreError>,
    O: Fn(&DocumentId) -> FileOutcome,
    P: Fn(&str) -> Option<FrontMatter>,
>(
    list: L,
    open: O,
    parse: P,
    m: StoreModel,
    scope: AccessScope,
    query: Seq<char>,
    limit: Option<usize>,
    max_bytes: nat,
    answer: Result<SearchResponse, StoreError>,
    k: int,
)
    requires
        is_listed_search(list, open, parse, m, scope, query, limit, max_bytes, answer),
        answer matches Ok(response) && 0 <= k < response.results@.len(),
    ensures
        is_visible(m.directories, scope, answer->Ok_0.results@[k].id@),
{
    let candidates = choose|candidates: Result<Vec<DocumentId>, StoreError>|
        (query_valid(query, limit) ==> call_ensures(list, (), candidates))
            && #[trigger] is_search_answer(
            open,
            parse,
            m,
            scope,
            query,
            limit,
            max_bytes,
            candidates,
            answer,
        );
    let ids = candidates->Ok_0;
    let response = answer->Ok_0;
    let readings = choose|readings: Seq<Result<FetchedDocument, StoreError>>|
        {
            &&& are_readings(open, parse, m, scope, ids@, readings)
            &&& #[trigger] search_answer(query, limit, readings, max_bytes) == Ok::<_, StoreError>(
                (result_views(response.results@), response.truncated),
            )
        };
    let terms = query_terms(query)->Some_0;
    let n = wanted_results(limit)->Some_0;
    let documents = found_documents(readings)->Ok_0;
    let scored = scored_documents(terms, documents);
    lemma_response_is_bounded(scored, n, max_bytes);
    let results = result_views(response.results@);
    assert(results[k] == response.results@[k]@);
    let j = choose|j: int|
        0 <= j < scored.len() && (#[trigger] scored[j]).result == response_of(
            scored,
            n,
            max_bytes,
        ).0[k];
    lemma_scored(terms, documents, j);
    let d = choose|d: int| 0 <= d < documents.len() && scored[j].result.id == (#[trigger] documents[
    d]).id;
    lemma_found(readings, d);
    let i = choose|i: int|
        0 <= i < readings.len() && (#[trigger] readings[i] matches Ok(document) && document@
            == documents[d]);
    assert(is_candidate_reading(open, parse, m, scope, ids@[i], readings[i]));
}

impl DocumentStore {
    /// Searches documents, given how they are listed and how their files are
    /// opened.
    pub fn search<
        L: Fn() -> Result<Vec<DocumentId>, StoreError>,
        O: Fn(&DocumentId) -> FileOutcome,
        P: Fn(&str) -> Option<FrontMatter>,
    >(
        &self,
        scope: AccessScope,
        query: &str,
        limit: Option<usize>,
        max_response_bytes: usize,
        list: &L,
        open: &O,
        parse: &P,
    ) -> (r: Result<SearchResponse, StoreError>)
        requires
            call_requires(*list, ()),
            forall|id: &DocumentId| call_requires(*open, (id,)),
            forall|block: &str| call_requires(*parse, (block,)),
        ensures
            is_listed_search(
                *list,
                *open,
                *parse,
                self@,
                scope,
                query@,
                limit,
                max_response_bytes as nat,
                r,
            ),
    {
        let candidates = match check_query(query, limit) {
            Ok(_) => list(),
            Err(error) => Err(error),
        };
        self.search_among(scope, query, limit, max_response_bytes, candidates, open, parse)
    }

    /// Searches documents, given which there are and how their files are opened.
    fn search_among<O: Fn(&DocumentId) -> FileOutcome, P: Fn(&str) -> Option<FrontMatter>>(
        &self,
        scope: AccessScope,
        query: &str,
        limit: Option<usize>,
        max_response_bytes: usize,
        candidates: Result<Vec<DocumentId>, StoreError>,
        open: &O,
        parse: &P,
    ) -> (r: Result<SearchResponse, StoreError>)
        requires
            forall|id: &DocumentId| call_requires(*open, (id,)),
            forall|block: &str| call_requires(*parse, (block,)),
        ensures
            is_search_answer(
                *open,
                *parse,
                self@,
                scope,
                query@,
                limit,
                max_response_bytes as nat,
                candidates,
                r,
            ),
    {
        let mut search = Search::begin(query, limit)?;
        let ids = candidates?;
        let ghost all = ids@;
        let ghost terms = search@.terms;
        let ghost mut readings: Seq<Result<FetchedDocument, StoreError>> = Seq::empty();
        let mut rest = reversed(ids);
        proof {
            assert(scored_documents(terms, Seq::<DocumentModel>::empty()) =~= Seq::empty());
        }
        while rest.len() > 0
            invariant
                forall|id: &DocumentId| call_requires(*open, (id,)),
                forall|block: &str| call_requires(*parse, (block,)),
                candidates == Ok::<Vec<DocumentId>, StoreError>(ids),
                all == ids@,
                query_terms(query@) == Some(terms),
                wanted_results(limit) == Some(search@.limit),
                search@.terms == terms,
                readings.len() + rest@.len() == all.len(),
                rest@ == all.skip(readings.len() as int).reverse(),
                forall|i: int|
                    0 <= i < readings.len() ==> #[trigger] is_candidate_reading(
                        *open,
                        *parse,
                        self@,
                        scope,
                        all[i],
                        readings[i],
                    ),
                found_documents(readings) matches Ok(documents) && search@.ranked == ranked(
                    scored_documents(terms, documents),
                ),
            decreases rest@.len(),
        {
            let ghost n = readings.len() as int;
            let ghost documents = found_documents(readings)->Ok_0;
            proof {
                assert(rest@.last() == all[n]);
            }
            let id = match rest.pop() {
                Some(next) => next,
                None => {
                    return Err(StoreError::InvalidQuery);
                },
            };
            proof {
                assert(rest@ =~= all.skip(n + 1).reverse());
            }
            let file = if self.is_allowed(scope, &id) {
                open(&id)
            } else {
                FileOutcome::OpenFailed(OpenError::NotFound)
            };
            let ghost opened = file;
            let reading = self.read_for_search(scope, &id, file, parse);
            let ghost before = readings;
            proof {
                assert(is_reading(
                    *parse,
                    self@.directories,
                    scope,
                    id@,
                    opened,
                    self@.max_search_file_bytes as nat,
                    reading,
                ));
                assert(is_candidate_reading(*open, *parse, self@, scope, id, reading));
                readings = readings.push(reading);
                assert(readings.drop_last() =~= before);
                assert(readings.last() == reading);
                assert(found_documents(readings.drop_last()) == Ok::<_, StoreError>(documents));
                if reading is Ok {
                    let d = reading->Ok_0@;
                    let longer = documents.push(d);
                    assert(longer.drop_last() =~= documents);
                    let scored = scored_documents(terms, documents);
                    let new = ScoredModel {
                        score: document_score(terms, d),
                        result: result_of(terms, d),
                    };
                    assert(scored.push(new).drop_last() =~= scored);
                    assert(scored.push(new).last() == new);
                }
            }
            search = match search.add_reading(reading) {
                Ok(search) => search,
                Err(error) => {
                    proof {
                        assert(are_readings(*open, *parse, self@, scope, ids@, readings));
                        let a = search_answer(
                            query@,
                            limit,
                            readings,
                            max_response_bytes as nat,
                        );
                    }
                    return Err(error);
                },
            };
        }
        proof {
            assert(are_readings(*open, *parse, self@, scope, ids@, readings));
            let a = search_answer(query@, limit, readings, max_response_bytes as nat);
        }
        search.finish(max_response_bytes)
    }
}

} // verus!
