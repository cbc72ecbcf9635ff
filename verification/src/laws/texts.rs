//! How numbers, bytes, days and texts are written and taken apart.
use vstd::prelude::*;

use crate::calendar::{
    date_of, day_number, days_before_month, days_in_month, epoch_seconds, file_stamp, is_date,
    lemma_days_have_dates, lemma_four_digit_years, lemma_year_length, signed_seconds, time_stamp,
    ClockReading,
};
use crate::format::{
    all_digits, decimal, digit_char, digits_value, hex, hex_digit, lemma_decimal_digits,
    lemma_hex_len, padded, parsed_number, zeros,
};
use crate::inbox::is_occurred_date;
use crate::laws::settings::all_white;
use crate::order::text_less;
use crate::scan::{
    is_char, joined_by, lemma_pieces_not_empty, lines_of, pieces, pieces_by, solid_count, trimmed,
    trimmed_end_by, trimmed_start, without_carriage_return, words,
};
use crate::text::{ascii_lower_text, is_alphanumeric, is_control_code, is_digit, is_white_space};

verus! {

proof fn lemma_digit(n: int)
    requires
        0 <= n <= 9,
    ensures
        is_digit(digit_char(n)),
        digit_char(n) as u32 - 48 == n,
{
}

/// A number is written so that it reads as itself.
pub proof fn lemma_decimal_reads_back(n: nat)
    ensures
        digits_value(decimal(n)) == n,
        all_digits(decimal(n)),
        decimal(n).len() >= 1,
    decreases n,
{
    lemma_decimal_digits(n);
    if n < 10 {
        lemma_digit(n as int);
        assert(decimal(n).drop_last() =~= Seq::<char>::empty());
        assert(digits_value(decimal(n).drop_last()) == 0);
    } else {
        lemma_decimal_reads_back(n / 10);
        lemma_digit((n % 10) as int);
        assert(decimal(n).drop_last() =~= decimal(n / 10));
    }
}

/// A number that is written is parsed as itself, with a plus sign or without, as long
/// as it is not too large.
pub proof fn lemma_parsed_number(n: nat, max: nat)
    ensures
        parsed_number(decimal(n), max) == (if n <= max {
            Some(n)
        } else {
            None
        }),
        parsed_number(seq!['+'] + decimal(n), max) == parsed_number(decimal(n), max),
{
    lemma_decimal_reads_back(n);
    assert(is_digit(decimal(n)[0]));
    assert((seq!['+'] + decimal(n)).drop_first() =~= decimal(n));
}

/// A text with anything but digits in it, behind a sign, is no number.
pub proof fn lemma_no_number_with_other_characters(s: Seq<char>, i: int, max: nat)
    requires
        0 <= i < s.len(),
        !is_digit(s[i]),
        i > 0 || s[i] != '+',
    ensures
        parsed_number(s, max) is None,
        parsed_number(Seq::empty(), max) is None,
        parsed_number(seq!['+'], max) is None,
{
    if s[0] == '+' {
        assert(s.drop_first()[i - 1] == s[i]);
    }
    assert(seq!['+'].drop_first() =~= Seq::<char>::empty());
}

proof fn lemma_leading_zeros(k: nat, s: Seq<char>)
    ensures
        digits_value(zeros(k as int) + s) == digits_value(s),
    decreases s.len(), k,
{
    if s.len() == 0 {
        assert(zeros(k as int) + s =~= zeros(k as int));
        if k > 0 {
            assert(zeros(k as int).drop_last() =~= zeros(k - 1));
            assert(zeros(k as int).last() == '0');
            lemma_leading_zeros((k - 1) as nat, s);
            assert(zeros(k - 1) + s =~= zeros(k - 1));
        }
    } else {
        assert((zeros(k as int) + s).drop_last() =~= zeros(k as int) + s.drop_last());
        lemma_leading_zeros(k, s.drop_last());
    }
}

/// A number with zeros in front reads as the number.
pub proof fn lemma_padded_reads_back(n: nat, width: int)
    ensures
        digits_value(padded(n, width)) == n,
        all_digits(padded(n, width)),
        padded(n, width).len() >= width,
        decimal(n).len() <= width ==> padded(n, width).len() == width,
{
    lemma_decimal_reads_back(n);
    let k: nat = if width - decimal(n).len() > 0 {
        (width - decimal(n).len()) as nat
    } else {
        0
    };
    assert(zeros(width - decimal(n).len()) =~= zeros(k as int));
    lemma_leading_zeros(k, decimal(n));
}

proof fn lemma_short_number(n: nat)
    ensures
        n < 100 ==> decimal(n).len() <= 2,
        n < 10_000 ==> decimal(n).len() <= 4,
{
    reveal_with_fuel(decimal, 5);
}

/// The value of a digit in hexadecimal, in lower case.
pub open spec fn hex_value(c: char) -> int {
    if '0' <= c <= '9' {
        c as int - '0' as int
    } else if 'a' <= c <= 'f' {
        c as int - 'a' as int + 10
    } else {
        -1
    }
}

/// Bytes in hexadecimal are two digits each, the higher first, in lower case.
pub proof fn lemma_hex_reads_back(bytes: Seq<u8>, i: int)
    requires
        0 <= i < bytes.len(),
    ensures
        hex(bytes).len() == 2 * bytes.len(),
        0 <= hex_value(hex(bytes)[2 * i]) <= 15,
        0 <= hex_value(hex(bytes)[2 * i + 1]) <= 15,
        16 * hex_value(hex(bytes)[2 * i]) + hex_value(hex(bytes)[2 * i + 1]) == bytes[i],
    decreases bytes.len(),
{
    lemma_hex_len(bytes);
    lemma_hex_len(bytes.drop_last());
    let rest = hex(bytes.drop_last());
    let high = hex_digit(bytes.last() as int / 16);
    let low = hex_digit(bytes.last() as int % 16);
    assert(hex(bytes) == rest.push(high).push(low));
    if i < bytes.len() - 1 {
        lemma_hex_reads_back(bytes.drop_last(), i);
        assert(hex(bytes)[2 * i] == rest[2 * i]);
        assert(hex(bytes)[2 * i + 1] == rest[2 * i + 1]);
    } else {
        assert(hex(bytes)[2 * i] == high);
        assert(hex(bytes)[2 * i + 1] == low);
    }
}

/// A text with white space on both sides is trimmed to what stands between.
pub proof fn lemma_trimmed(before: Seq<char>, text: Seq<char>, behind: Seq<char>)
    requires
        all_white(before),
        all_white(behind),
        text.len() > 0,
        !is_white_space(text[0]),
        !is_white_space(text.last()),
    ensures
        trimmed(before + text + behind) == text,
{
    lemma_trimmed_front(before, text + behind);
    assert(before + text + behind =~= before + (text + behind));
    lemma_trimmed_back(text, behind);
}

proof fn lemma_trimmed_front(before: Seq<char>, rest: Seq<char>)
    requires
        all_white(before),
        rest.len() > 0,
        !is_white_space(rest[0]),
    ensures
        trimmed_start(before + rest) == rest,
    decreases before.len(),
{
    if before.len() == 0 {
        assert(before + rest =~= rest);
    } else {
        assert(is_white_space(before[0]));
        assert((before + rest).drop_first() =~= before.drop_first() + rest);
        assert forall|i: int| 0 <= i < before.drop_first().len() implies is_white_space(
            #[trigger] before.drop_first()[i],
        ) by {
            assert(is_white_space(before[i + 1]));
        }
        lemma_trimmed_front(before.drop_first(), rest);
    }
}

proof fn lemma_trimmed_back(text: Seq<char>, behind: Seq<char>)
    requires
        all_white(behind),
        text.len() > 0,
        !is_white_space(text.last()),
    ensures
        trimmed_end_by(text + behind, |c: char| is_white_space(c)) == text,
    decreases behind.len(),
{
    if behind.len() == 0 {
        assert(text + behind =~= text);
    } else {
        assert(is_white_space(behind[behind.len() - 1]));
        assert((text + behind).drop_last() =~= text + behind.drop_last());
        assert forall|i: int| 0 <= i < behind.drop_last().len() implies is_white_space(
            #[trigger] behind.drop_last()[i],
        ) by {
            assert(is_white_space(behind[i]));
        }
        lemma_trimmed_back(text, behind.drop_last());
    }
}

/// The pieces of a text between the characters at which it is cut: none of them holds
/// such a character, and with one between each two they are the text.
pub proof fn lemma_pieces(s: Seq<char>, c: char)
    ensures
        joined_by(pieces(s, c), seq![c]) == s,
        pieces(s, c).len() >= 1,
        forall|i: int| 0 <= i < pieces(s, c).len() ==> !(#[trigger] pieces(s, c)[i]).contains(c),
    decreases s.len(),
{
    let all = pieces(s, c);
    if s.len() == 0 {
        assert(all =~= seq![Seq::<char>::empty()]);
        assert(joined_by(all, seq![c]) =~= s);
    } else {
        let before = pieces(s.drop_last(), c);
        lemma_pieces(s.drop_last(), c);
        if s.last() == c {
            assert(all == before.push(Seq::<char>::empty()));
            assert(all.drop_last() =~= before);
            assert(joined_by(all, seq![c]) =~= joined_by(before, seq![c]) + seq![c]
                + Seq::<char>::empty());
            assert(joined_by(all, seq![c]) =~= s);
        } else {
            let longer = before.last().push(s.last());
            assert(all == before.drop_last().push(longer));
            assert(all.drop_last() =~= before.drop_last());
            assert(s.drop_last().push(s.last()) =~= s);
            if before.len() == 1 {
                assert(all.len() == 1 && all[0] == longer);
                assert(joined_by(before, seq![c]) == before[0]);
                assert(before.last() == s.drop_last());
                assert(joined_by(all, seq![c]) == longer);
            } else {
                assert(joined_by(before, seq![c]) =~= joined_by(before.drop_last(), seq![c]) + seq![
                    c,
                ] + before.last());
                assert(joined_by(all, seq![c]) =~= joined_by(before.drop_last(), seq![c]) + seq![c]
                    + longer);
            }
            assert(joined_by(all, seq![c]) =~= s);
            assert forall|i: int| 0 <= i < all.len() implies !(#[trigger] all[i]).contains(c) by {
                if i < all.len() - 1 {
                    assert(all[i] == before[i]);
                } else {
                    assert(!before[before.len() - 1].contains(c));
                    if longer.contains(c) {
                        let j = choose|j: int| 0 <= j < longer.len() && longer[j] == c;
                        if j < longer.len() - 1 {
                            assert(before.last()[j] == c);
                        }
                    }
                }
            }
        }
    }
}

/// The lines of a text have no line feed in them, and each line but the last ends with
/// one. A text that ends with a line feed has no empty line behind it.
pub proof fn lemma_lines(s: Seq<char>, line: Seq<char>)
    requires
        !line.contains('\n'),
        line.len() > 0 ==> line.last() != '\r',
    ensures
        lines_of(Seq::empty()).len() == 0,
        line.len() > 0 ==> lines_of(line) == seq![line],
        lines_of(line + seq!['\n']) == seq![line],
        lines_of(line + seq!['\r', '\n']) == seq![line],
{
    let none = Seq::<char>::empty();
    assert(pieces(none, '\n') =~= seq![none]);
    assert(lines_of(none) =~= Seq::<Seq<char>>::empty());
    lemma_uncut(line, '\n');
    assert(seq![line].drop_last() =~= Seq::<Seq<char>>::empty());
    if line.len() > 0 {
        assert(lines_of(line) =~= seq![line]);
    }
    let ended = line + seq!['\n'];
    assert(ended.drop_last() =~= line);
    assert(pieces(ended, '\n') =~= seq![line, none]);
    assert(lines_of(ended) =~= seq![line]);
    let returned = line.push('\r');
    assert(returned + seq!['\n'] =~= line + seq!['\r', '\n']);
    assert(!returned.contains('\n')) by {
        if returned.contains('\n') {
            let j = choose|j: int| 0 <= j < returned.len() && returned[j] == '\n';
            assert(line[j] == '\n');
        }
    }
    lemma_uncut(returned, '\n');
    assert((returned + seq!['\n']).drop_last() =~= returned);
    assert(pieces(returned + seq!['\n'], '\n') =~= seq![returned, none]);
    assert(returned.drop_last() =~= line);
    assert(lines_of(returned + seq!['\n']) =~= seq![line]);
}

proof fn lemma_uncut(s: Seq<char>, c: char)
    requires
        !s.contains(c),
    ensures
        pieces(s, c) == seq![s],
    decreases s.len(),
{
    if s.len() == 0 {
        assert(s =~= Seq::<char>::empty());
        assert(pieces(s, c) =~= seq![s]);
    } else {
        assert(s.drop_last().push(s.last()) =~= s);
        assert(s.contains(s[s.len() - 1]));
        assert(!s.drop_last().contains(c)) by {
            if s.drop_last().contains(c) {
                let j = choose|j: int| 0 <= j < s.drop_last().len() && s.drop_last()[j] == c;
                assert(s[j] == c);
            }
        }
        lemma_uncut(s.drop_last(), c);
        assert(seq![s.drop_last()].drop_last().push(s.drop_last().push(s.last())) =~= seq![s]);
    }
}

/// Cutting a text leaves what stands before the first cut, and the pieces of what
/// stands behind it.
pub proof fn lemma_pieces_from_the_front(
    front: Seq<char>,
    c: char,
    rest: Seq<char>,
    cut: spec_fn(char) -> bool,
)
    requires
        forall|i: int| 0 <= i < front.len() ==> !cut(#[trigger] front[i]),
        cut(c),
    ensures
        pieces_by(front, cut) == seq![front],
        pieces_by(front + seq![c] + rest, cut) == seq![front] + pieces_by(rest, cut),
    decreases front.len() + rest.len(),
{
    if rest.len() > 0 {
        let whole = front + seq![c] + rest;
        lemma_pieces_from_the_front(front, c, rest.drop_last(), cut);
        assert(whole.drop_last() =~= front + seq![c] + rest.drop_last());
        lemma_pieces_not_empty(rest.drop_last(), cut);
        let before = pieces_by(rest.drop_last(), cut);
        let all = seq![front] + before;
        assert(all.last() == before.last());
        assert(all.drop_last() =~= seq![front] + before.drop_last());
        assert(pieces_by(whole, cut) =~= seq![front] + pieces_by(rest, cut));
    } else {
        if front.len() == 0 {
            assert(front =~= Seq::<char>::empty());
            assert(pieces_by(front, cut) =~= seq![front]);
        } else {
            let less = front.drop_last();
            assert forall|i: int| 0 <= i < less.len() implies !cut(#[trigger] less[i]) by {
                assert(less[i] == front[i]);
            }
            lemma_pieces_from_the_front(less, c, rest, cut);
            assert(!cut(front[front.len() - 1]));
            assert(less.push(front.last()) =~= front);
            assert(pieces_by(less, cut) == seq![less]);
            assert(pieces_by(front, cut) == seq![less].drop_last().push(less.push(front.last())));
            assert(seq![less].drop_last().push(front) =~= seq![front]);
        }
        assert(pieces_by(front, cut) == seq![front]);
        let whole = front + seq![c] + rest;
        assert(rest =~= Seq::<char>::empty());
        assert(whole.drop_last() =~= front);
        assert(whole.last() == c);
        assert(pieces_by(whole.drop_last(), cut) == seq![front]);
        assert(pieces_by(whole, cut) == pieces_by(whole.drop_last(), cut).push(
            Seq::<char>::empty(),
        ));
        assert(pieces_by(rest, cut) =~= seq![Seq::<char>::empty()]);
        assert(pieces_by(whole, cut) =~= seq![front] + pieces_by(rest, cut));
    }
}

/// The words of a text: the first of them, up to white space, and the words of the
/// rest. White space in front does not matter.
pub proof fn lemma_words_from_the_front(word: Seq<char>, space: char, rest: Seq<char>)
    requires
        is_white_space(space),
        word.len() > 0,
        forall|i: int| 0 <= i < word.len() ==> !is_white_space(#[trigger] word[i]),
    ensures
        words(Seq::empty()) == Seq::<Seq<char>>::empty(),
        words(word) == seq![word],
        words(word + seq![space] + rest) == seq![word] + words(rest),
        words(seq![space] + rest) == words(rest),
{
    reveal(Seq::filter);
    let cut = |x: char| is_white_space(x);
    let kept = |w: Seq<char>| w.len() > 0;
    let none = Seq::<char>::empty();
    lemma_pieces_from_the_front(word, space, rest, cut);
    lemma_pieces_from_the_front(none, space, rest, cut);
    assert(none + seq![space] + rest =~= seq![space] + rest);
    let inner = pieces_by(rest, cut);
    Seq::filter_distributes_over_add(seq![word], inner, kept);
    Seq::filter_distributes_over_add(seq![none], inner, kept);
    assert(seq![word].drop_last() =~= Seq::<Seq<char>>::empty());
    assert(seq![none].drop_last() =~= Seq::<Seq<char>>::empty());
    assert(Seq::<Seq<char>>::empty().filter(kept) =~= Seq::<Seq<char>>::empty());
    assert(seq![word].filter(kept) =~= seq![word]);
    assert(seq![none].filter(kept) =~= Seq::<Seq<char>>::empty());
    assert(Seq::<Seq<char>>::empty() + inner.filter(kept) =~= inner.filter(kept));
    assert(pieces_by(none, cut) =~= seq![none]);
}

/// The lines of a text: what stands before the first line feed, without a carriage
/// return at its end, and the lines of the rest.
pub proof fn lemma_lines_from_the_front(line: Seq<char>, rest: Seq<char>)
    requires
        forall|i: int| 0 <= i < line.len() ==> #[trigger] line[i] != '\n',
    ensures
        lines_of(line + seq!['\n'] + rest) == seq![
            if line.len() > 0 && line.last() == '\r' {
                line.drop_last()
            } else {
                line
            },
        ] + lines_of(rest),
{
    let cut = is_char('\n');
    lemma_pieces_from_the_front(line, '\n', rest, cut);
    lemma_pieces_not_empty(rest, cut);
    let inner = pieces(rest, '\n');
    let all = seq![line] + inner;
    let f = |l: Seq<char>| without_carriage_return(l);
    assert(all.last() == inner.last());
    assert(all.drop_last() =~= seq![line] + inner.drop_last());
    assert(all.drop_last().map_values(f) =~= seq![without_carriage_return(line)]
        + inner.drop_last().map_values(f));
    assert(lines_of(line + seq!['\n'] + rest) =~= seq![without_carriage_return(line)] + lines_of(
        rest,
    ));
}

/// Days are numbered one after the other, from the first of 1970; months have the
/// lengths that they have, and every fourth year a day more, but for three centuries
/// of four.
pub proof fn lemma_days_follow_each_other(year: int, month: int, day: int)
    requires
        is_date(year, month, day),
    ensures
        day_number(1970, 1, 1) == 0,
        day < days_in_month(year, month) ==> is_date(year, month, day + 1) && day_number(
            year,
            month,
            day + 1,
        ) == day_number(year, month, day) + 1,
        day == days_in_month(year, month) && month < 12 ==> is_date(year, month + 1, 1)
            && day_number(year, month + 1, 1) == day_number(year, month, day) + 1,
        day == 31 && month == 12 ==> day_number(year + 1, 1, 1) == day_number(year, month, day) + 1,
        days_in_month(year, 1) == 31 && days_in_month(year, 3) == 31 && days_in_month(year, 5) == 31
            && days_in_month(year, 7) == 31 && days_in_month(year, 8) == 31 && days_in_month(
            year,
            10,
        ) == 31 && days_in_month(year, 12) == 31,
        days_in_month(year, 4) == 30 && days_in_month(year, 6) == 30 && days_in_month(year, 9) == 30
            && days_in_month(year, 11) == 30,
        days_in_month(year, 2) == (if year % 400 == 0 {
            29int
        } else if year % 100 == 0 {
            28
        } else if year % 4 == 0 {
            29
        } else {
            28
        }),
{
    reveal_with_fuel(days_before_month, 14);
    lemma_year_length(year);
}

proof fn lemma_clock(seconds: int)
    requires
        0 <= seconds,
    ensures
        ({
            let time = seconds % 86_400;
            &&& 0 <= time / 3_600 < 24
            &&& 0 <= time / 60 % 60 < 60
            &&& 0 <= time % 60 < 60
            &&& seconds == seconds / 86_400 * 86_400 + time / 3_600 * 3_600 + time / 60 % 60 * 60
                + time % 60
        }),
{
}

/// A time stamp is the date and the time of day, each part in as many digits as it
/// has, and reads as the second that it stands for, in universal time.
pub proof fn lemma_time_stamp_reads_back(seconds: int)
    requires
        0 <= seconds < 253_402_300_800,
    ensures
        ({
            let t = time_stamp(seconds);
            let year = digits_value(t.subrange(0, 4));
            let month = digits_value(t.subrange(5, 7));
            let day = digits_value(t.subrange(8, 10));
            let hour = digits_value(t.subrange(11, 13));
            let minute = digits_value(t.subrange(14, 16));
            let second = digits_value(t.subrange(17, 19));
            &&& t.len() == 20
            &&& t[4] == '-' && t[7] == '-' && t[10] == 'T' && t[13] == ':' && t[16] == ':' && t[19]
                == 'Z'
            &&& is_date(year as int, month as int, day as int)
            &&& hour < 24 && minute < 60 && second < 60
            &&& seconds == day_number(year as int, month as int, day as int) * 86_400 + hour * 3_600
                + minute * 60 + second
        }),
{
    let days = seconds / 86_400;
    let time = seconds % 86_400;
    lemma_clock(seconds);
    lemma_days_have_dates(days);
    lemma_four_digit_years(days);
    let (year, month, day) = date_of(days);
    let (h, m, s) = ((time / 3_600) as nat, (time / 60 % 60) as nat, (time % 60) as nat);
    lemma_short_number(year as nat);
    lemma_short_number(month as nat);
    lemma_short_number(day as nat);
    lemma_short_number(h);
    lemma_short_number(m);
    lemma_short_number(s);
    lemma_padded_reads_back(year as nat, 4);
    lemma_padded_reads_back(month as nat, 2);
    lemma_padded_reads_back(day as nat, 2);
    lemma_padded_reads_back(h, 2);
    lemma_padded_reads_back(m, 2);
    lemma_padded_reads_back(s, 2);
    let t = time_stamp(seconds);
    assert(t.subrange(0, 4) =~= padded(year as nat, 4));
    assert(t.subrange(5, 7) =~= padded(month as nat, 2));
    assert(t.subrange(8, 10) =~= padded(day as nat, 2));
    assert(t.subrange(11, 13) =~= padded(h, 2));
    assert(t.subrange(14, 16) =~= padded(m, 2));
    assert(t.subrange(17, 19) =~= padded(s, 2));
}

/// The front of a file name holds the same date and time of day, with dashes between
/// the parts of the date and none between those of the time.
pub proof fn lemma_file_stamp_reads_back(seconds: int)
    requires
        0 <= seconds < 253_402_300_800,
    ensures
        ({
            let f = file_stamp(seconds);
            let t = time_stamp(seconds);
            &&& f.len() == 17
            &&& f.take(10) == t.take(10)
            &&& f[10] == '-'
            &&& f.subrange(11, 13) == t.subrange(11, 13)
            &&& f.subrange(13, 15) == t.subrange(14, 16)
            &&& f.subrange(15, 17) == t.subrange(17, 19)
        }),
{
    let days = seconds / 86_400;
    let time = seconds % 86_400;
    lemma_clock(seconds);
    lemma_days_have_dates(days);
    lemma_four_digit_years(days);
    let (year, month, day) = date_of(days);
    let (h, m, s) = ((time / 3_600) as nat, (time / 60 % 60) as nat, (time % 60) as nat);
    lemma_short_number(year as nat);
    lemma_short_number(month as nat);
    lemma_short_number(day as nat);
    lemma_short_number(h);
    lemma_short_number(m);
    lemma_short_number(s);
    lemma_padded_reads_back(year as nat, 4);
    lemma_padded_reads_back(month as nat, 2);
    lemma_padded_reads_back(day as nat, 2);
    lemma_padded_reads_back(h, 2);
    lemma_padded_reads_back(m, 2);
    lemma_padded_reads_back(s, 2);
    let f = file_stamp(seconds);
    let t = time_stamp(seconds);
    assert(f.take(10) =~= t.take(10));
    assert(f.subrange(11, 13) =~= t.subrange(11, 13));
    assert(f.subrange(13, 15) =~= t.subrange(14, 16));
    assert(f.subrange(15, 17) =~= t.subrange(17, 19));
}

/// A day is written as year, month and day in four, two and two digits. Such a text is
/// taken for a day exactly where there is such a month, and the day is one that a
/// month can have.
pub proof fn lemma_which_days_are_taken(year: nat, month: nat, day: nat)
    requires
        year < 10_000,
        month < 100,
        day < 100,
    ensures
        is_occurred_date(
            padded(year, 4) + seq!['-'] + padded(month, 2) + seq!['-'] + padded(day, 2),
        ) <==> 1 <= month <= 12 && 1 <= day <= 31,
{
    lemma_short_number(year);
    lemma_short_number(month);
    lemma_short_number(day);
    lemma_padded_reads_back(year, 4);
    lemma_padded_reads_back(month, 2);
    lemma_padded_reads_back(day, 2);
    let (y, m, d) = (padded(year, 4), padded(month, 2), padded(day, 2));
    let text = y + seq!['-'] + m + seq!['-'] + d;
    assert(text.subrange(5, 7) =~= m);
    assert(text.subrange(8, 10) =~= d);
    assert(is_digit(y[0]) && is_digit(y[1]) && is_digit(y[2]) && is_digit(y[3]));
    assert(is_digit(m[0]) && is_digit(m[1]) && is_digit(d[0]) && is_digit(d[1]));
}

/// Nothing else is taken for a day.
pub proof fn lemma_days_have_their_form(value: Seq<char>)
    requires
        is_occurred_date(value),
    ensures
        value.len() == 10,
        value[4] == '-' && value[7] == '-',
        forall|i: int| 0 <= i < 10 && i != 4 && i != 7 ==> '0' <= #[trigger] value[i] <= '9',
        value.subrange(5, 7) != "00"@,
        value.subrange(8, 10) != "00"@,
{
    reveal_strlit("00");
    reveal_with_fuel(digits_value, 3);
    assert("00"@.drop_last() =~= "0"@.take(1)) by {
        reveal_strlit("0");
    }
    assert("00"@.drop_last().drop_last() =~= Seq::<char>::empty());
    assert(digits_value("00"@) == 0);
}

/// Texts are ordered as in a dictionary: by the first character in which they differ,
/// the smaller before the greater, and a text before what continues it.
pub proof fn lemma_texts_are_ordered_as_in_a_dictionary(
    front: Seq<char>,
    c: char,
    d: char,
    x: Seq<char>,
    y: Seq<char>,
)
    ensures
        c != d ==> (text_less(front + seq![c] + x, front + seq![d] + y) <==> c < d),
        text_less(front, front + seq![c] + x),
        !text_less(front + seq![c] + x, front),
        !text_less(front, front),
    decreases front.len(),
{
    let a = front + seq![c] + x;
    let b = front + seq![d] + y;
    if front.len() > 0 {
        let rest = front.drop_first();
        lemma_texts_are_ordered_as_in_a_dictionary(rest, c, d, x, y);
        assert(a.drop_first() =~= rest + seq![c] + x);
        assert(b.drop_first() =~= rest + seq![d] + y);
        assert(a[0] == front[0] && b[0] == front[0]);
    } else {
        assert(a[0] == c && b[0] == d);
    }
}

/// What is white space and what is not, among the plain characters; and which of them
/// are control characters.
pub proof fn lemma_plain_characters(c: char)
    requires
        (c as u32) < 128,
    ensures
        is_white_space(c) <==> c == ' ' || c == '\t' || c == '\n' || c == '\r' || c as u32 == 11
            || c as u32 == 12,
        is_control_code(c) <==> !(' ' <= c <= '~'),
        is_alphanumeric(c) <==> ('0' <= c <= '9' || 'a' <= c <= 'z' || 'A' <= c <= 'Z'),
{
}

/// The lower case of a plain letter; other characters stay as they are.
pub proof fn lemma_lower_case(s: Seq<char>, i: int)
    requires
        0 <= i < s.len(),
    ensures
        ascii_lower_text(s).len() == s.len(),
        'A' <= s[i] <= 'Z' ==> ascii_lower_text(s)[i] as u32 - 'a' as u32 == s[i] as u32 - 'A' as u32,
        !('A' <= s[i] <= 'Z') ==> ascii_lower_text(s)[i] == s[i],
{
}

/// How many characters of a text are not white space.
pub proof fn lemma_solid_characters(s: Seq<char>)
    ensures
        solid_count(s) == s.filter(|c: char| !is_white_space(c)).len(),
    decreases s.len(),
{
    reveal(Seq::filter);
    if s.len() > 0 {
        lemma_solid_characters(s.drop_last());
    }
}

/// A list of names, each without the character that is put between them, is what the
/// joined text is cut into.
pub proof fn lemma_joined_is_cut_again(list: Seq<Seq<char>>, c: char)
    requires
        list.len() > 0,
        forall|i: int| 0 <= i < list.len() ==> !(#[trigger] list[i]).contains(c),
    ensures
        pieces(joined_by(list, seq![c]), c) == list,
    decreases list.len(),
{
    if list.len() == 1 {
        lemma_uncut(list[0], c);
        assert(seq![list[0]] =~= list);
    } else {
        let front = list.drop_last();
        assert forall|i: int| 0 <= i < front.len() implies !(#[trigger] front[i]).contains(c) by {
            assert(front[i] == list[i]);
        }
        lemma_joined_is_cut_again(front, c);
        assert(!list[list.len() - 1].contains(c));
        lemma_cut_behind(joined_by(front, seq![c]), c, list.last());
        assert(front.push(list.last()) =~= list);
    }
}

proof fn lemma_cut_behind(s: Seq<char>, c: char, last: Seq<char>)
    requires
        !last.contains(c),
    ensures
        pieces(s + seq![c] + last, c) == pieces(s, c).push(last),
    decreases last.len(),
{
    let whole = s + seq![c] + last;
    if last.len() == 0 {
        assert(last =~= Seq::<char>::empty());
        assert(whole.drop_last() =~= s);
        assert(whole.last() == c);
    } else {
        let less = last.drop_last();
        assert(last.contains(last[last.len() - 1]));
        assert(!less.contains(c)) by {
            if less.contains(c) {
                let j = choose|j: int| 0 <= j < less.len() && less[j] == c;
                assert(last[j] == c);
            }
        }
        lemma_cut_behind(s, c, less);
        assert(whole.drop_last() =~= s + seq![c] + less);
        assert(less.push(last.last()) =~= last);
        assert(pieces(s, c).push(less).drop_last() =~= pieces(s, c));
    }
}

/// What the clock says: seconds since the first of 1970. Where it stands before, they
/// are negative where that can be said, and none where it cannot.
pub proof fn lemma_what_the_clock_says(seconds: u64)
    ensures
        epoch_seconds(ClockReading::Since(seconds)) == seconds,
        epoch_seconds(ClockReading::Before(seconds)) == 0,
        seconds <= i64::MAX ==> signed_seconds(ClockReading::Since(seconds)) == seconds
            && signed_seconds(ClockReading::Before(seconds)) == -(seconds as int),
        seconds > i64::MAX ==> signed_seconds(ClockReading::Since(seconds)) == i64::MAX
            && signed_seconds(ClockReading::Before(seconds)) == -(i64::MAX as int),
{
}

} // verus!
