//! Searching, splitting and trimming of texts.
use vstd::prelude::*;
use vstd::string::*;

use crate::text::{chars_of, is_white_space, text_between, texts, white_space};

verus! {

/// Whether `needle` stands in `hay` at position `at`.
pub open spec fn occurs_at(hay: Seq<char>, needle: Seq<char>, at: int) -> bool {
    &&& 0 <= at
    &&& at + needle.len() <= hay.len()
    &&& hay.subrange(at, at + needle.len()) == needle
}

/// Whether `needle` stands anywhere in `hay`.
pub open spec fn contains_text(hay: Seq<char>, needle: Seq<char>) -> bool {
    exists|at: int| occurs_at(hay, needle, at)
}

fn matches_at(hay: &Vec<char>, needle: &Vec<char>, at: usize) -> (r: bool)
    requires
        at + needle@.len() <= hay@.len(),
    ensures
        r == occurs_at(hay@, needle@, at as int),
{
    let end: usize = hay.len();
    let mut i: usize = 0;
    while i < needle.len()
        invariant
            i <= needle@.len(),
            end == hay@.len(),
            at + needle@.len() <= end,
            forall|j: int| 0 <= j < i ==> hay@[at + j] == needle@[j],
        decreases needle@.len() - i,
    {
        if hay[at + i] != needle[i] {
            proof {
                assert(hay@.subrange(at as int, at + needle@.len())[i as int] != needle@[i as int]);
            }
            return false;
        }
        i = i + 1;
    }
    proof {
        assert(hay@.subrange(at as int, at + needle@.len()) =~= needle@);
    }
    true
}

/// The first place where `needle` stands in `hay`.
pub fn find_chars(hay: &Vec<char>, needle: &Vec<char>) -> (r: Option<usize>)
    ensures
        match r {
            Some(at) => occurs_at(hay@, needle@, at as int) && forall|j: int|
                0 <= j < at ==> !occurs_at(hay@, needle@, j),
            None => !contains_text(hay@, needle@),
        },
{
    if needle.len() > hay.len() {
        return None;
    }
    let last: usize = hay.len() - needle.len();
    let mut at: usize = 0;
    while at < last
        invariant
            last == hay@.len() - needle@.len(),
            at <= last,
            forall|j: int| 0 <= j < at ==> !occurs_at(hay@, needle@, j),
        decreases last - at,
    {
        if matches_at(hay, needle, at) {
            return Some(at);
        }
        at = at + 1;
    }
    if matches_at(hay, needle, at) {
        return Some(at);
    }
    None
}

pub fn chars_contain(hay: &Vec<char>, needle: &Vec<char>) -> (r: bool)
    ensures
        r == contains_text(hay@, needle@),
{
    match find_chars(hay, needle) {
        Some(_) => true,
        None => false,
    }
}

pub fn text_contains(hay: &str, needle: &str) -> (r: bool)
    ensures
        r == contains_text(hay@, needle@),
{
    chars_contain(&chars_of(hay), &chars_of(needle))
}

pub fn text_contains_char(s: &str, wanted: char) -> (r: bool)
    ensures
        r == s@.contains(wanted),
{
    for c in it: s.chars()
        invariant
            it.seq() == s@,
            forall|j: int| 0 <= j < it.index() ==> s@[j] != wanted,
    {
        if c == wanted {
            proof {
                assert(s@[it.index()] == wanted);
            }
            return true;
        }
    }
    false
}

/// The rest of `s` behind `prefix`, where `s` begins with it.
pub open spec fn without_prefix(s: Seq<char>, prefix: Seq<char>) -> Option<Seq<char>> {
    if prefix.is_prefix_of(s) {
        Some(s.skip(prefix.len() as int))
    } else {
        None
    }
}

/// A prefix falls away from what it stands before.
pub proof fn lemma_prefix_falls_away(prefix: Seq<char>, text: Seq<char>)
    ensures
        without_prefix(prefix + text, prefix) == Some(text),
{
    assert(prefix.is_prefix_of(prefix + text));
    assert((prefix + text).skip(prefix.len() as int) =~= text);
}

pub fn strip_text_prefix(s: &str, prefix: &str) -> (r: Option<String>)
    ensures
        crate::text::text_option(r) == without_prefix(s@, prefix@),
{
    let hay = chars_of(s);
    let needle = chars_of(prefix);
    if needle.len() > hay.len() {
        return None;
    }
    if matches_at(&hay, &needle, 0) {
        proof {
            assert(s@.subrange(0, prefix@.len() as int) == prefix@);
            assert(s@.skip(prefix@.len() as int) =~= s@.subrange(
                prefix@.len() as int,
                s@.len() as int,
            ));
            assert(prefix@.is_prefix_of(s@));
        }
        Some(text_between(&hay, needle.len(), hay.len()))
    } else {
        proof {
            assert(s@.subrange(0, prefix@.len() as int) != prefix@);
        }
        None
    }
}

pub fn text_starts_with(s: &str, prefix: &str) -> (r: bool)
    ensures
        r == prefix@.is_prefix_of(s@),
{
    match strip_text_prefix(s, prefix) {
        Some(_) => true,
        None => false,
    }
}

pub fn text_ends_with(s: &str, suffix: &str) -> (r: bool)
    ensures
        r == suffix@.is_suffix_of(s@),
{
    let hay = chars_of(s);
    let needle = chars_of(suffix);
    if needle.len() > hay.len() {
        return false;
    }
    let at: usize = hay.len() - needle.len();
    matches_at(&hay, &needle, at)
}

/// The position of the first `c` in `s`, or the length of `s` where there is none.
pub open spec fn position_of(s: Seq<char>, c: char) -> int
    decreases s.len(),
{
    if s.len() == 0 {
        0
    } else if s[0] == c {
        0
    } else {
        1 + position_of(s.drop_first(), c)
    }
}

pub proof fn lemma_position(s: Seq<char>, c: char)
    ensures
        0 <= position_of(s, c) <= s.len(),
        forall|i: int| 0 <= i < position_of(s, c) ==> s[i] != c,
        position_of(s, c) < s.len() ==> s[position_of(s, c)] == c,
    decreases s.len(),
{
    if s.len() > 0 && s[0] != c {
        lemma_position(s.drop_first(), c);
        let p = position_of(s.drop_first(), c);
        assert forall|i: int| 0 <= i < 1 + p implies s[i] != c by {
            if i > 0 {
                assert(s.drop_first()[i - 1] == s[i]);
            }
        }
    }
}

pub proof fn lemma_position_unique(s: Seq<char>, c: char, p: int)
    requires
        0 <= p <= s.len(),
        forall|i: int| 0 <= i < p ==> s[i] != c,
        p < s.len() ==> s[p] == c,
    ensures
        position_of(s, c) == p,
{
    lemma_position(s, c);
}

fn find_char(chars: &Vec<char>, wanted: char) -> (r: usize)
    ensures
        r == position_of(chars@, wanted),
{
    let mut i: usize = 0;
    while i < chars.len() && chars[i] != wanted
        invariant
            i <= chars@.len(),
            forall|j: int| 0 <= j < i ==> chars@[j] != wanted,
        decreases chars@.len() - i,
    {
        i = i + 1;
    }
    proof {
        lemma_position_unique(chars@, wanted, i as int);
    }
    i
}

/// A text cut at the first `c`, which falls away.
pub open spec fn cut_at(s: Seq<char>, c: char) -> Option<(Seq<char>, Seq<char>)> {
    let p = position_of(s, c);
    if p < s.len() {
        Some((s.take(p), s.skip(p + 1)))
    } else {
        None
    }
}

/// The two parts with the character between them are the text.
pub proof fn lemma_cut_at(s: Seq<char>, c: char)
    requires
        cut_at(s, c) is Some,
    ensures
        s == cut_at(s, c)->Some_0.0 + seq![c] + cut_at(s, c)->Some_0.1,
{
    lemma_position(s, c);
    assert(s =~= cut_at(s, c)->Some_0.0 + seq![c] + cut_at(s, c)->Some_0.1);
}

/// What is appended to a text that is cut goes to its second part.
pub proof fn lemma_cut_at_appended(s: Seq<char>, c: char, tail: Seq<char>)
    requires
        cut_at(s, c) is Some,
    ensures
        cut_at(s + tail, c) == Some((cut_at(s, c)->Some_0.0, cut_at(s, c)->Some_0.1 + tail)),
{
    let p = position_of(s, c);
    lemma_position(s, c);
    assert forall|i: int| 0 <= i < p implies (s + tail)[i] != c by {
        assert((s + tail)[i] == s[i]);
    }
    lemma_position_unique(s + tail, c, p);
    assert((s + tail).take(p) =~= s.take(p));
    assert((s + tail).skip(p + 1) =~= s.skip(p + 1) + tail);
}

/// What is appended to a text stays behind its prefix.
pub proof fn lemma_prefix_of_appended(s: Seq<char>, prefix: Seq<char>, tail: Seq<char>)
    requires
        without_prefix(s, prefix) is Some,
    ensures
        without_prefix(s + tail, prefix) == Some(without_prefix(s, prefix)->Some_0 + tail),
{
    assert((s + tail).take(prefix.len() as int) =~= s.take(prefix.len() as int));
    assert(prefix.is_prefix_of(s + tail));
    assert((s + tail).skip(prefix.len() as int) =~= s.skip(prefix.len() as int) + tail);
}

pub fn split_text_once(s: &str, c: char) -> (r: Option<(String, String)>)
    ensures
        match r {
            Some((a, b)) => cut_at(s@, c) == Some((a@, b@)),
            None => cut_at(s@, c) is None,
        },
{
    let chars = chars_of(s);
    let at = find_char(&chars, c);
    if at < chars.len() {
        let left = text_between(&chars, 0, at);
        let right = text_between(&chars, at + 1, chars.len());
        proof {
            assert(left@ =~= s@.take(at as int));
            assert(right@ =~= s@.skip(at + 1));
        }
        Some((left, right))
    } else {
        proof {
            lemma_position(s@, c);
        }
        None
    }
}

/// The pieces of a text between the characters that `cut` picks out: one more
/// than there are such characters.
pub open spec fn pieces_by(s: Seq<char>, cut: spec_fn(char) -> bool) -> Seq<Seq<char>>
    decreases s.len(),
{
    if s.len() == 0 {
        seq![Seq::<char>::empty()]
    } else {
        let before = pieces_by(s.drop_last(), cut);
        if cut(s.last()) {
            before.push(Seq::<char>::empty())
        } else {
            before.drop_last().push(before.last().push(s.last()))
        }
    }
}

pub proof fn lemma_pieces_not_empty(s: Seq<char>, cut: spec_fn(char) -> bool)
    ensures
        pieces_by(s, cut).len() > 0,
    decreases s.len(),
{
    if s.len() > 0 {
        lemma_pieces_not_empty(s.drop_last(), cut);
    }
}

/// The test for one character.
pub open spec fn is_char(c: char) -> spec_fn(char) -> bool {
    |x: char| x == c
}

/// The pieces of a text between occurrences of one character.
pub open spec fn pieces(s: Seq<char>, c: char) -> Seq<Seq<char>> {
    pieces_by(s, is_char(c))
}

/// The maximal runs of characters that are not white space.
pub open spec fn words(s: Seq<char>) -> Seq<Seq<char>> {
    pieces_by(s, |x: char| is_white_space(x)).filter(|w: Seq<char>| w.len() > 0)
}

pub fn split_text(s: &str, c: char) -> (r: Vec<String>)
    ensures
        texts(r@) == pieces(s@, c),
{
    let ghost cut = is_char(c);
    let mut done: Vec<String> = Vec::new();
    let mut current = String::new();
    proof {
        assert(s@.take(0) =~= Seq::<char>::empty());
        assert(texts(done@).push(current@) =~= seq![Seq::<char>::empty()]);
    }
    for x in it: s.chars()
        invariant
            it.seq() == s@,
            cut == is_char(c),
            texts(done@).push(current@) == pieces_by(s@.take(it.index()), cut),
    {
        let ghost seen = s@.take(it.index());
        let ghost longer = s@.take(it.index() + 1);
        proof {
            assert(longer.drop_last() =~= seen);
            assert(longer.last() == x);
            assert(texts(done@).push(current@).drop_last() =~= texts(done@));
        }
        if x == c {
            let ghost old_done = texts(done@);
            let piece = current;
            done.push(piece);
            current = String::new();
            proof {
                assert(texts(done@) =~= old_done.push(piece@));
            }
        } else {
            current.push(x);
        }
        proof {
            assert(texts(done@).push(current@) =~= pieces_by(longer, cut));
        }
    }
    let ghost before = texts(done@);
    let ghost rest = current@;
    done.push(current);
    proof {
        assert(s@.take(s@.len() as int) =~= s@);
        assert(texts(done@) =~= before.push(rest));
    }
    done
}

pub fn split_words(s: &str) -> (r: Vec<String>)
    ensures
        texts(r@) == words(s@),
{
    let ghost cut = |x: char| is_white_space(x);
    let ghost full = |w: Seq<char>| w.len() > 0;
    let mut done: Vec<String> = Vec::new();
    let mut current = String::new();
    let ghost mut all: Seq<Seq<char>> = Seq::empty();
    proof {
        assert(s@.take(0) =~= Seq::<char>::empty());
        assert(all.push(current@) =~= seq![Seq::<char>::empty()]);
        assert(texts(done@) =~= all.filter(full)) by {
            reveal(Seq::filter);
        }
    }
    for x in it: s.chars()
        invariant
            it.seq() == s@,
            cut == (|x: char| is_white_space(x)),
            full == (|w: Seq<char>| w.len() > 0),
            all.push(current@) == pieces_by(s@.take(it.index()), cut),
            texts(done@) == all.filter(full),
    {
        let ghost longer = s@.take(it.index() + 1);
        proof {
            assert(longer.drop_last() =~= s@.take(it.index()));
            assert(longer.last() == x);
            assert(all.push(current@).drop_last() =~= all);
        }
        if white_space(x) {
            let ghost old_done = texts(done@);
            let ghost old_all = all;
            let piece = current;
            proof {
                old_all.lemma_filter_push(piece@, full);
                all = all.push(piece@);
            }
            if !piece.as_str().is_empty() {
                done.push(piece);
                proof {
                    assert(texts(done@) =~= old_done.push(piece@));
                }
            }
            current = String::new();
        } else {
            current.push(x);
        }
        proof {
            assert(all.push(current@) =~= pieces_by(longer, cut));
        }
    }
    proof {
        assert(s@.take(s@.len() as int) =~= s@);
        all.lemma_filter_push(current@, full);
    }
    let ghost before = texts(done@);
    if !current.as_str().is_empty() {
        done.push(current);
        proof {
            assert(texts(done@) =~= before.push(current@));
        }
    }
    done
}

/// A text without the white space at its front.
pub open spec fn trimmed_start(s: Seq<char>) -> Seq<char>
    decreases s.len(),
{
    if s.len() > 0 && is_white_space(s[0]) {
        trimmed_start(s.drop_first())
    } else {
        s
    }
}

/// A text without the trailing characters that `strip` picks out.
pub open spec fn trimmed_end_by(s: Seq<char>, strip: spec_fn(char) -> bool) -> Seq<char>
    decreases s.len(),
{
    if s.len() > 0 && strip(s.last()) {
        trimmed_end_by(s.drop_last(), strip)
    } else {
        s
    }
}

/// A text without the white space around it.
pub open spec fn trimmed(s: Seq<char>) -> Seq<char> {
    trimmed_end_by(trimmed_start(s), |c: char| is_white_space(c))
}

pub fn trim_text(s: &str) -> (r: String)
    ensures
        r@ == trimmed(s@),
{
    let chars = chars_of(s);
    let mut from: usize = 0;
    let ghost strip = |c: char| is_white_space(c);
    proof {
        assert(chars@.skip(0) =~= chars@);
    }
    while from < chars.len() && white_space(chars[from])
        invariant
            from <= chars@.len(),
            trimmed_start(chars@.skip(from as int)) == trimmed_start(chars@),
        decreases chars@.len() - from,
    {
        proof {
            assert(chars@.skip(from as int).drop_first() =~= chars@.skip(from + 1));
        }
        from = from + 1;
    }
    let mut to: usize = chars.len();
    proof {
        assert(chars@.subrange(from as int, to as int) =~= chars@.skip(from as int));
        assert(trimmed_start(chars@) == chars@.skip(from as int));
    }
    while from < to && white_space(chars[to - 1])
        invariant
            from <= to <= chars@.len(),
            strip == (|c: char| is_white_space(c)),
            trimmed_end_by(chars@.subrange(from as int, to as int), strip) == trimmed_end_by(
                trimmed_start(chars@),
                strip,
            ),
        decreases to - from,
    {
        proof {
            assert(chars@.subrange(from as int, to as int).drop_last() =~= chars@.subrange(
                from as int,
                to - 1,
            ));
        }
        to = to - 1;
    }
    text_between(&chars, from, to)
}

/// Whether a text holds nothing but white space.
pub fn is_blank(s: &str) -> (r: bool)
    ensures
        r == (trimmed(s@).len() == 0),
{
    trim_text(s).as_str().is_empty()
}

pub fn trim_end_char(s: &str, c: char) -> (r: String)
    ensures
        r@ == trimmed_end_by(s@, is_char(c)),
{
    let chars = chars_of(s);
    let mut to: usize = chars.len();
    let ghost strip = is_char(c);
    proof {
        assert(chars@.subrange(0, to as int) =~= s@);
    }
    while 0 < to && chars[to - 1] == c
        invariant
            to <= chars@.len(),
            strip == is_char(c),
            trimmed_end_by(chars@.subrange(0, to as int), strip) == trimmed_end_by(s@, strip),
        decreases to,
    {
        proof {
            assert(chars@.subrange(0, to as int).drop_last() =~= chars@.subrange(0, to - 1));
        }
        to = to - 1;
    }
    text_between(&chars, 0, to)
}

/// A line without the carriage return that ends it.
pub open spec fn without_carriage_return(s: Seq<char>) -> Seq<char> {
    if s.len() > 0 && s.last() == '\r' {
        s.drop_last()
    } else {
        s
    }
}

/// The lines of a text. A line ends at a line feed, with a carriage return
/// before it falling away too; the last line needs no line feed.
pub open spec fn lines_of(s: Seq<char>) -> Seq<Seq<char>> {
    let all = pieces(s, '\n');
    let ended = all.drop_last().map_values(|line: Seq<char>| without_carriage_return(line));
    if all.last().len() == 0 {
        ended
    } else {
        ended.push(all.last())
    }
}

pub fn split_lines(s: &str) -> (r: Vec<String>)
    ensures
        texts(r@) == lines_of(s@),
{
    let all = split_text(s, '\n');
    let ghost raw = texts(all@);
    proof {
        lemma_pieces_not_empty(s@, is_char('\n'));
        assert(raw.len() == all@.len());
    }
    let mut out: Vec<String> = Vec::new();
    let last: usize = all.len() - 1;
    let mut i: usize = 0;
    let ghost strip = |line: Seq<char>| without_carriage_return(line);
    while i < last
        invariant
            i <= last,
            last == all@.len() - 1,
            raw == texts(all@),
            strip == (|line: Seq<char>| without_carriage_return(line)),
            texts(out@) == raw.take(i as int).map_values(strip),
        decreases last - i,
    {
        let chars = chars_of(all[i].as_str());
        let n: usize = if chars.len() > 0 && chars[chars.len() - 1] == '\r' {
            chars.len() - 1
        } else {
            chars.len()
        };
        let line = text_between(&chars, 0, n);
        let ghost before = texts(out@);
        proof {
            assert(raw[i as int] == all@[i as int]@);
            assert(line@ =~= without_carriage_return(raw[i as int]));
        }
        out.push(line);
        proof {
            assert(texts(out@) =~= before.push(line@));
            assert(raw.take(i + 1).map_values(strip) =~= raw.take(i as int).map_values(strip).push(
                line@,
            ));
        }
        i = i + 1;
    }
    proof {
        assert(raw.take(last as int) =~= raw.drop_last());
        assert(raw.last() == all@[last as int]@);
    }
    if !all[last].as_str().is_empty() {
        let ghost before = texts(out@);
        out.push(all[last].clone());
        proof {
            assert(texts(out@) =~= before.push(raw.last()));
        }
    }
    out
}

/// The first place where `needle` stands in `hay`.
pub open spec fn first_place(hay: Seq<char>, needle: Seq<char>) -> Option<int> {
    if contains_text(hay, needle) {
        Some(
            choose|at: int|
                occurs_at(hay, needle, at) && forall|j: int|
                    0 <= j < at ==> !occurs_at(hay, needle, j),
        )
    } else {
        None
    }
}

/// There is one first place.
pub proof fn lemma_first_place(hay: Seq<char>, needle: Seq<char>, at: int)
    requires
        occurs_at(hay, needle, at),
        forall|j: int| 0 <= j < at ==> !occurs_at(hay, needle, j),
    ensures
        first_place(hay, needle) == Some(at),
{
    let other = first_place(hay, needle)->Some_0;
    assert(occurs_at(hay, needle, at) && forall|j: int|
        0 <= j < at ==> !occurs_at(hay, needle, j));
    if other < at {
        assert(!occurs_at(hay, needle, other));
    }
    if at < other {
        assert(!occurs_at(hay, needle, at));
    }
}

/// What stands before the first `needle`.
pub open spec fn before_text(hay: Seq<char>, needle: Seq<char>) -> Option<Seq<char>> {
    match first_place(hay, needle) {
        Some(at) => Some(hay.take(at)),
        None => None,
    }
}

pub fn text_before(hay: &str, needle: &str) -> (r: Option<String>)
    ensures
        crate::text::text_option(r) == before_text(hay@, needle@),
{
    let chars = chars_of(hay);
    match find_chars(&chars, &chars_of(needle)) {
        Some(at) => {
            proof {
                lemma_first_place(hay@, needle@, at as int);
                assert(hay@.subrange(0, at as int) =~= hay@.take(at as int));
            }
            Some(text_between(&chars, 0, at))
        },
        None => None,
    }
}

/// Texts one behind the other, with a separator between them.
pub open spec fn joined_by(list: Seq<Seq<char>>, separator: Seq<char>) -> Seq<char>
    decreases list.len(),
{
    if list.len() == 0 {
        Seq::empty()
    } else if list.len() == 1 {
        list[0]
    } else {
        joined_by(list.drop_last(), separator) + separator + list.last()
    }
}

/// The texts from `from` up to, not including, `to`, joined.
pub fn join_texts(list: &Vec<String>, from: usize, to: usize, separator: &str) -> (r: String)
    requires
        from <= to <= list@.len(),
    ensures
        r@ == joined_by(texts(list@).subrange(from as int, to as int), separator@),
{
    let ghost all = texts(list@);
    let mut out = String::new();
    let mut i: usize = from;
    proof {
        assert(all.subrange(from as int, from as int) =~= Seq::empty());
    }
    while i < to
        invariant
            from <= i <= to <= list@.len(),
            all == texts(list@),
            out@ == joined_by(all.subrange(from as int, i as int), separator@),
        decreases to - i,
    {
        let ghost longer = all.subrange(from as int, i + 1);
        proof {
            assert(longer.drop_last() =~= all.subrange(from as int, i as int));
            assert(longer.last() == list@[i as int]@);
        }
        if i > from {
            out.append(separator);
        }
        out.append(list[i].as_str());
        proof {
            if i == from {
                assert(out@ =~= list@[i as int]@);
                assert(longer[0] == list@[i as int]@);
            }
        }
        i = i + 1;
    }
    out
}

/// How many characters of a text are not white space.
pub open spec fn solid_count(s: Seq<char>) -> nat
    decreases s.len(),
{
    if s.len() == 0 {
        0
    } else if is_white_space(s.last()) {
        solid_count(s.drop_last())
    } else {
        solid_count(s.drop_last()) + 1
    }
}

/// Whether no more than `max` characters of a text are not white space.
pub fn has_at_most_solid(s: &str, max: usize) -> (r: bool)
    requires
        max < usize::MAX,
    ensures
        r == (solid_count(s@) <= max),
{
    let mut count: usize = 0;
    for c in it: s.chars()
        invariant
            it.seq() == s@,
            count == solid_count(s@.take(it.index())),
            count <= max < usize::MAX,
    {
        let ghost longer = s@.take(it.index() + 1);
        proof {
            assert(longer.drop_last() =~= s@.take(it.index()));
            assert(longer.last() == c);
        }
        if !white_space(c) {
            count = count + 1;
            if count > max {
                proof {
                    lemma_solid_count_grows(s@, it.index() + 1);
                }
                return false;
            }
        }
    }
    proof {
        assert(s@.take(s@.len() as int) =~= s@);
    }
    true
}

proof fn lemma_solid_count_grows(s: Seq<char>, n: int)
    requires
        0 <= n <= s.len(),
    ensures
        solid_count(s.take(n)) <= solid_count(s),
    decreases s.len() - n,
{
    if n < s.len() {
        lemma_solid_count_grows(s, n + 1);
        assert(s.take(n + 1).drop_last() =~= s.take(n));
    } else {
        assert(s.take(n) =~= s);
    }
}

/// A text has no more words than characters that are not white space.
pub proof fn lemma_word_count(s: Seq<char>)
    ensures
        words(s).len() <= solid_count(s),
{
    lemma_words_and_rest(s);
}

/// What holds no character that cuts goes to the last piece.
proof fn lemma_pieces_of_appended(s: Seq<char>, w: Seq<char>, cut: spec_fn(char) -> bool)
    requires
        forall|i: int| 0 <= i < w.len() ==> !cut(#[trigger] w[i]),
    ensures
        pieces_by(s + w, cut) == pieces_by(s, cut).drop_last().push(
            pieces_by(s, cut).last() + w,
        ),
    decreases w.len(),
{
    let before = pieces_by(s, cut);
    lemma_pieces_not_empty(s, cut);
    if w.len() == 0 {
        assert(s + w =~= s);
        assert(before.last() + w =~= before.last());
        assert(before =~= before.drop_last().push(before.last() + w));
    } else {
        let shorter = w.drop_last();
        assert forall|i: int| 0 <= i < shorter.len() implies !cut(#[trigger] shorter[i]) by {
            assert(shorter[i] == w[i]);
        }
        lemma_pieces_of_appended(s, shorter, cut);
        let inner = pieces_by(s + shorter, cut);
        assert((s + w).drop_last() =~= s + shorter);
        assert((s + w).last() == w[w.len() - 1]);
        assert(!cut((s + w).last()));
        assert(inner.drop_last() =~= before.drop_last());
        assert(inner.last().push(w.last()) =~= before.last() + w);
    }
}

/// Whether a text is one word.
pub open spec fn is_word(w: Seq<char>) -> bool {
    w.len() > 0 && forall|i: int| 0 <= i < w.len() ==> !is_white_space(#[trigger] w[i])
}

/// The words of a word, and of two with a space between them.
pub proof fn lemma_words_of_words(a: Seq<char>, b: Seq<char>)
    requires
        is_word(a),
        is_word(b),
    ensures
        words(a) == seq![a],
        words(a + seq![' '] + b) == seq![a, b],
{
    let cut = |x: char| is_white_space(x);
    let full = |w: Seq<char>| w.len() > 0;
    let none = Seq::<char>::empty();
    lemma_pieces_of_appended(none, a, cut);
    assert(none + a =~= a);
    assert(pieces_by(none, cut) =~= seq![none]);
    assert(pieces_by(a, cut) =~= seq![a]);
    let spaced = a + seq![' '];
    assert(spaced.drop_last() =~= a);
    assert(cut(' '));
    assert(pieces_by(spaced, cut) =~= seq![a, none]);
    lemma_pieces_of_appended(spaced, b, cut);
    assert(none + b =~= b);
    assert(pieces_by(spaced + b, cut) =~= seq![a, b]);
    reveal(Seq::filter);
    let empty = Seq::<Seq<char>>::empty();
    empty.lemma_filter_push(a, full);
    assert(empty.push(a) =~= seq![a]);
    assert(empty.filter(full) =~= empty);
    seq![a].lemma_filter_push(b, full);
    assert(seq![a].push(b) =~= seq![a, b]);
}

proof fn lemma_words_and_rest(s: Seq<char>)
    ensures
        ({
            let all = pieces_by(s, |x: char| is_white_space(x));
            let full = |w: Seq<char>| w.len() > 0;
            &&& all.len() > 0
            &&& all.drop_last().filter(full).len() + all.last().len() <= solid_count(s)
            &&& all.filter(full).len() <= solid_count(s)
        }),
    decreases s.len(),
{
    let cut = |x: char| is_white_space(x);
    let full = |w: Seq<char>| w.len() > 0;
    let all = pieces_by(s, cut);
    if s.len() == 0 {
        assert(all =~= seq![Seq::<char>::empty()]);
        assert(all.drop_last() =~= Seq::empty());
        reveal(Seq::filter);
        assert(all.drop_last().filter(full) =~= Seq::empty());
    } else {
        lemma_words_and_rest(s.drop_last());
        let before = pieces_by(s.drop_last(), cut);
        if cut(s.last()) {
            assert(all.drop_last() =~= before);
        } else {
            assert(all.drop_last() =~= before.drop_last());
        }
    }
    assert(all =~= all.drop_last().push(all.last()));
    all.drop_last().lemma_filter_push(all.last(), full);
}

} // verus!
