//! The proleptic Gregorian calendar in UTC, as far as file names and time
//! stamps need it.
use vstd::prelude::*;
use vstd::string::*;

use crate::format::{
    decimal, digit_char, lemma_decimal_digits, lemma_decimal_len, padded, padded_int,
    padded_int_text, padded_text, zeros,
};
use crate::order::{lemma_text_less_by_front, lemma_text_less_by_rest, text_less};
use crate::text::is_digit;

verus! {

pub open spec fn is_leap_year(year: int) -> bool {
    year % 4 == 0 && (year % 100 != 0 || year % 400 == 0)
}

/// The number of leap years from the year 1 up to `year`, counted on backwards
/// for years before.
pub open spec fn leap_years_until(year: int) -> int {
    year / 4 - year / 100 + year / 400
}

/// The days from 1 January 1970 to 1 January of `year`.
pub open spec fn days_before_year(year: int) -> int {
    365 * (year - 1970) + leap_years_until(year - 1) - leap_years_until(1969)
}

pub open spec fn days_in_month(year: int, month: int) -> int {
    if month == 2 {
        if is_leap_year(year) {
            29
        } else {
            28
        }
    } else if month == 4 || month == 6 || month == 9 || month == 11 {
        30
    } else {
        31
    }
}

/// The days of the months of `year` before `month`.
pub open spec fn days_before_month(year: int, month: int) -> int
    decreases month,
{
    if month <= 1 {
        0
    } else {
        days_before_month(year, month - 1) + days_in_month(year, month - 1)
    }
}

pub open spec fn is_date(year: int, month: int, day: int) -> bool {
    1 <= month <= 12 && 1 <= day <= days_in_month(year, month)
}

/// The days from 1 January 1970 to a date.
pub open spec fn day_number(year: int, month: int, day: int) -> int {
    days_before_year(year) + days_before_month(year, month) + day - 1
}

/// A year follows the one before it by 365 days, or by 366 if that is a leap
/// year.
pub proof fn lemma_year_length(year: int)
    ensures
        days_before_year(year + 1) - days_before_year(year) == (if is_leap_year(year) {
            366int
        } else {
            365int
        }),
        days_before_year(1970) == 0,
{
}

/// Two dates of the calendar with the same day number are the same date.
pub proof fn lemma_day_number_unique(
    year: int,
    month: int,
    day: int,
    other_year: int,
    other_month: int,
    other_day: int,
)
    requires
        is_date(year, month, day),
        is_date(other_year, other_month, other_day),
        day_number(year, month, day) == day_number(other_year, other_month, other_day),
    ensures
        year == other_year,
        month == other_month,
        day == other_day,
{
    lemma_months(year);
    lemma_months(other_year);
    lemma_day_of_year(year, month, day);
    lemma_day_of_year(other_year, other_month, other_day);
    if year < other_year {
        lemma_years_ascend(year + 1, other_year);
        lemma_year_length(year);
    } else if other_year < year {
        lemma_years_ascend(other_year + 1, year);
        lemma_year_length(other_year);
    }
}

/// The year, month and day of a day counted from 1 January 1970.
pub open spec fn date_of(days: int) -> (int, int, int) {
    choose|date: (int, int, int)|
        is_date(date.0, date.1, date.2) && #[trigger] day_number(date.0, date.1, date.2) == days
}

/// A date is the date of its own day number.
pub proof fn lemma_date_of(year: int, month: int, day: int)
    requires
        is_date(year, month, day),
    ensures
        date_of(day_number(year, month, day)) == (year, month, day),
{
    let days = day_number(year, month, day);
    let given = (year, month, day);
    assert(is_date(given.0, given.1, given.2) && day_number(given.0, given.1, given.2) == days);
    let chosen = date_of(days);
    lemma_day_number_unique(chosen.0, chosen.1, chosen.2, year, month, day);
}

proof fn lemma_years_ascend(a: int, b: int)
    requires
        a <= b,
    ensures
        days_before_year(a) <= days_before_year(b),
{
}

proof fn lemma_months(year: int)
    ensures
        days_before_month(year, 1) == 0,
        days_before_month(year, 2) == 31,
        days_before_month(year, 3) == 31 + days_in_month(year, 2),
        days_before_month(year, 4) == 62 + days_in_month(year, 2),
        days_before_month(year, 5) == 92 + days_in_month(year, 2),
        days_before_month(year, 6) == 123 + days_in_month(year, 2),
        days_before_month(year, 7) == 153 + days_in_month(year, 2),
        days_before_month(year, 8) == 184 + days_in_month(year, 2),
        days_before_month(year, 9) == 215 + days_in_month(year, 2),
        days_before_month(year, 10) == 245 + days_in_month(year, 2),
        days_before_month(year, 11) == 276 + days_in_month(year, 2),
        days_before_month(year, 12) == 306 + days_in_month(year, 2),
{
    reveal_with_fuel(days_before_month, 13);
}

proof fn lemma_day_of_year(year: int, month: int, day: int)
    requires
        is_date(year, month, day),
    ensures
        0 <= days_before_month(year, month) + day - 1 < (if is_leap_year(year) {
            366int
        } else {
            365int
        }),
{
    lemma_months(year);
}

/// The quotient rounded down.
fn floor_div(n: i64, d: u64) -> (r: i64)
    requires
        1 < d <= 1_000_000,
    ensures
        r == n as int / d as int,
{
    if n >= 0 {
        ((n as u64) / d) as i64
    } else {
        let m: u64 = (-(n + 1)) as u64;
        let q: u64 = m / d;
        proof {
            assert(n as int / d as int == -(m as int / d as int) - 1) by (nonlinear_arith)
                requires
                    m == -(n + 1),
                    d > 1,
                    n < 0,
            ;
            assert(q <= m);
        }
        -(q as i64) - 1
    }
}

/// The seconds since midnight.
fn seconds_of_day(n: i64) -> (r: u32)
    ensures
        r == n as int % 86_400,
{
    if n >= 0 {
        ((n as u64) % 86_400) as u32
    } else {
        let m: u64 = (-(n + 1)) as u64;
        (86_399 - m % 86_400) as u32
    }
}

/// The days of the years of a 400-year cycle before one of them, the years
/// beginning in March.
spec fn days_in_cycle(year: int) -> int {
    365 * year + year / 4 - year / 100 + year / 400
}

/// The year of a century that a day of the century lies in.
proof fn lemma_year_of_century(century: int, day: int, year: int)
    requires
        0 <= century < 4,
        0 <= day < 36_524,
        year == (day - (24 * century + day) / 1_460) / 365,
    ensures
        0 <= year < 100,
        365 * year + year / 4 <= day,
        year < 99 ==> day < 365 * (year + 1) + (year + 1) / 4,
{
    let skipped = (24 * century + day) / 1_460;
    let rest = day - skipped - 365 * year;
    assert(1_460 * skipped <= 24 * century + day < 1_460 * skipped + 1_460);
    assert(0 <= rest < 365);
    assert(0 <= skipped <= 25);
    let quarter = year / 4;
    assert(4 * quarter <= year);
    if quarter > rest + skipped {
        assert(false);
    }
    let next = (year + 1) / 4;
    assert(4 * next <= year + 1 <= 4 * next + 3);
    if year < 99 && rest + skipped >= 365 + next {
        assert(skipped >= 1 + next);
        assert(false);
    }
}

proof fn lemma_year_of_cycle(day: int, year: int)
    requires
        0 <= day <= 146_096,
        year == (day - day / 1_460 + day / 36_524 - day / 146_096) / 365,
    ensures
        0 <= year < 400,
        days_in_cycle(year) <= day < days_in_cycle(year + 1),
{
    if day == 146_096 {
        assert(year == 399);
    } else {
        let century = day / 36_524;
        let day_of_century = day - 36_524 * century;
        let year_of_century = (day_of_century - (24 * century + day_of_century) / 1_460) / 365;
        assert(0 <= century < 4);
        assert(0 <= day_of_century < 36_524);
        lemma_year_of_century(century, day_of_century, year_of_century);
        assert(day / 1_460 == 25 * century + (24 * century + day_of_century) / 1_460);
        assert(year == 100 * century + year_of_century);
        assert(year / 100 == century);
        assert(year / 4 == 25 * century + year_of_century / 4);
        assert((year + 1) / 4 == 25 * century + (year_of_century + 1) / 4);
        assert(year / 400 == 0);
    }
}

/// A year of a 400-year cycle has the leap years of its place in the cycle.
proof fn lemma_cycles(era: int, year: int)
    requires
        0 <= year < 400,
    ensures
        leap_years_until(year + era * 400) == era * 97 + leap_years_until(year),
        leap_years_until(year + 1 + era * 400) == era * 97 + leap_years_until(year + 1),
        is_leap_year(year + 1 + era * 400) == is_leap_year(year + 1),
        days_in_cycle(year + 1) - days_in_cycle(year) == 365 + (if is_leap_year(year + 1) {
            1int
        } else {
            0int
        }),
{
    let far = year + era * 400;
    assert(far / 4 == year / 4 + era * 100);
    assert(far / 100 == year / 100 + era * 4);
    assert(far / 400 == year / 400 + era);
    assert((far + 1) / 4 == (year + 1) / 4 + era * 100);
    assert((far + 1) / 100 == (year + 1) / 100 + era * 4);
    assert((far + 1) / 400 == (year + 1) / 400 + era);
    assert((far + 1) % 4 == (year + 1) % 4);
    assert((far + 1) % 100 == (year + 1) % 100);
    assert((far + 1) % 400 == (year + 1) % 400);
}

/// The month, counted from March, and the day of a day of the year.
proof fn lemma_month_of_year(day_of_year: int, shifted_month: int, day: int)
    requires
        0 <= day_of_year <= 365,
        shifted_month == (5 * day_of_year + 2) / 153,
        day == day_of_year - (153 * shifted_month + 2) / 5 + 1,
    ensures
        0 <= shifted_month <= 11,
        1 <= day <= 31,
        shifted_month == 1 || shifted_month == 3 || shifted_month == 6 || shifted_month == 8
            ==> day <= 30,
        shifted_month == 11 ==> day == day_of_year - 336 && day <= 29,
{
}

/// The day number of the date that lies `day_of_year` days behind 1 March of
/// `year`.
proof fn lemma_march_year(year: int, day_of_year: int, shifted_month: int, day: int)
    requires
        0 <= day_of_year <= 364 || (day_of_year == 365 && is_leap_year(year + 1)),
        shifted_month == (5 * day_of_year + 2) / 153,
        day == day_of_year - (153 * shifted_month + 2) / 5 + 1,
    ensures
        ({
            let month = if shifted_month < 10 {
                shifted_month + 3
            } else {
                shifted_month - 9
            };
            let civil_year = if month <= 2 {
                year + 1
            } else {
                year
            };
            &&& is_date(civil_year, month, day)
            &&& day_number(civil_year, month, day) == 365 * year + leap_years_until(year)
                + day_of_year - 719_468
        }),
{
    lemma_month_of_year(day_of_year, shifted_month, day);
    lemma_months(year);
    lemma_months(year + 1);
    lemma_year_length(year);
    assert(leap_years_until(year) - leap_years_until(year - 1) == (if is_leap_year(year) {
        1int
    } else {
        0int
    }));
    let start = (153 * shifted_month + 2) / 5;
    assert(day_of_year == start + day - 1);
    if shifted_month == 0 {
        assert(start == 0);
    } else if shifted_month == 1 {
        assert(start == 31);
    } else if shifted_month == 2 {
        assert(start == 61);
    } else if shifted_month == 3 {
        assert(start == 92);
    } else if shifted_month == 4 {
        assert(start == 122);
    } else if shifted_month == 5 {
        assert(start == 153);
    } else if shifted_month == 6 {
        assert(start == 184);
    } else if shifted_month == 7 {
        assert(start == 214);
    } else if shifted_month == 8 {
        assert(start == 245);
    } else if shifted_month == 9 {
        assert(start == 275);
    } else if shifted_month == 10 {
        assert(start == 306);
    } else {
        assert(start == 337);
    }
}

/// The date of a day counted from 1 January 1970.
pub fn civil_from_days(days: i64) -> (r: (i64, u32, u32))
    requires
        days <= i64::MAX - 719_468,
    ensures
        is_date(r.0 as int, r.1 as int, r.2 as int),
        day_number(r.0 as int, r.1 as int, r.2 as int) == days,
        date_of(days as int) == (r.0 as int, r.1 as int, r.2 as int),
{
    let shifted: i64 = days + 719_468;
    let era: i64 = floor_div(shifted, 146_097);
    let day_of_era: u32 = (shifted - era * 146_097) as u32;
    let year_of_era: u32 = (day_of_era - day_of_era / 1_460 + day_of_era / 36_524 - day_of_era
        / 146_096) / 365;
    let ghost cycle_year = year_of_era as int;
    proof {
        lemma_year_of_cycle(day_of_era as int, cycle_year);
        lemma_cycles(era as int, cycle_year);
        assert(cycle_year / 400 == 0);
    }
    let year: i64 = year_of_era as i64 + era * 400;
    let day_of_year: u32 = day_of_era - (365 * year_of_era + year_of_era / 4 - year_of_era / 100);
    let ghost year_day = day_of_year as int;
    proof {
        assert(year_day == day_of_era - days_in_cycle(cycle_year));
    }
    let shifted_month: u32 = (5 * day_of_year + 2) / 153;
    proof {
        lemma_month_of_year(
            year_day,
            shifted_month as int,
            year_day - (153 * shifted_month as int + 2) / 5 + 1,
        );
    }
    let day: u32 = day_of_year - (153 * shifted_month + 2) / 5 + 1;
    let month: u32 = if shifted_month < 10 {
        shifted_month + 3
    } else {
        shifted_month - 9
    };
    proof {
        lemma_march_year(year as int, year_day, shifted_month as int, day as int);
        let civil_year = if month <= 2 {
            year + 1
        } else {
            year as int
        };
        lemma_date_of(civil_year, month as int, day as int);
    }
    (
        if month <= 2 {
            year + 1
        } else {
            year
        },
        month,
        day,
    )
}

/// The year, month, day, hour, minute and second of a count of seconds from the
/// start of 1970.
pub fn utc_parts(seconds: i64) -> (r: (i64, u32, u32, u32, u32, u32))
    ensures
        date_of(seconds as int / 86_400) == (r.0 as int, r.1 as int, r.2 as int),
        is_date(r.0 as int, r.1 as int, r.2 as int),
        r.3 < 24 && r.4 < 60 && r.5 < 60,
        day_number(r.0 as int, r.1 as int, r.2 as int) * 86_400 + r.3 * 3_600 + r.4 * 60 + r.5
            == seconds,
        -300_000_000_000 < r.0 < 300_000_000_000,
{
    let days: i64 = floor_div(seconds, 86_400);
    let time_of_day: u32 = seconds_of_day(seconds);
    let (year, month, day) = civil_from_days(days);
    proof {
        lemma_day_of_year(year as int, month as int, day as int);
        lemma_year_bound(year as int, days as int);
    }
    (year, month, day, time_of_day / 3_600, (time_of_day / 60) % 60, time_of_day % 60)
}

proof fn lemma_year_bound(year: int, days: int)
    requires
        days_before_year(year) <= days < days_before_year(year) + 366,
        -106_751_991_167_301 <= days <= 106_751_991_167_301,
    ensures
        -300_000_000_000 < year < 300_000_000_000,
{
}

/// A count of seconds as a time stamp such as `2026-08-13T03:45:00Z`.
pub open spec fn time_stamp(seconds: int) -> Seq<char> {
    let date = date_of(seconds / 86_400);
    let time = seconds % 86_400;
    padded_int(date.0, 4) + seq!['-'] + padded(date.1 as nat, 2) + seq!['-'] + padded(
        date.2 as nat,
        2,
    ) + seq!['T'] + padded((time / 3_600) as nat, 2) + seq![':'] + padded(
        (time / 60 % 60) as nat,
        2,
    ) + seq![':'] + padded((time % 60) as nat, 2) + seq!['Z']
}

/// A count of seconds as the front of a file name such as `2026-08-13-034500`.
pub open spec fn file_stamp(seconds: int) -> Seq<char> {
    let date = date_of(seconds / 86_400);
    let time = seconds % 86_400;
    padded_int(date.0, 4) + seq!['-'] + padded(date.1 as nat, 2) + seq!['-'] + padded(
        date.2 as nat,
        2,
    ) + seq!['-'] + padded((time / 3_600) as nat, 2) + padded((time / 60 % 60) as nat, 2) + padded(
        (time % 60) as nat,
        2,
    )
}

/// The time of day of the parts that `utc_parts` gives.
proof fn lemma_time_of_day(seconds: int, days: int, hour: int, minute: int, second: int)
    requires
        days * 86_400 + hour * 3_600 + minute * 60 + second == seconds,
        0 <= hour < 24,
        0 <= minute < 60,
        0 <= second < 60,
    ensures
        seconds % 86_400 / 3_600 == hour,
        seconds % 86_400 / 60 % 60 == minute,
        seconds % 86_400 % 60 == second,
{
    assert(seconds % 86_400 == hour * 3_600 + minute * 60 + second);
}

pub fn rfc3339_utc(seconds: i64) -> (r: String)
    ensures
        r@ == time_stamp(seconds as int),
{
    let (year, month, day, hour, minute, second) = utc_parts(seconds);
    proof {
        lemma_time_of_day(
            seconds as int,
            day_number(year as int, month as int, day as int),
            hour as int,
            minute as int,
            second as int,
        );
    }
    let mut out = padded_int_text(year, 4);
    out.push('-');
    out.append(padded_text(month as u64, 2).as_str());
    out.push('-');
    out.append(padded_text(day as u64, 2).as_str());
    out.push('T');
    out.append(padded_text(hour as u64, 2).as_str());
    out.push(':');
    out.append(padded_text(minute as u64, 2).as_str());
    out.push(':');
    out.append(padded_text(second as u64, 2).as_str());
    out.push('Z');
    proof {
        assert(out@ =~= time_stamp(seconds as int));
    }
    out
}

/// Whether a text is made of digits and dashes alone.
pub open spec fn is_digits_and_dashes(s: Seq<char>) -> bool {
    forall|i: int| 0 <= i < s.len() ==> is_digit(#[trigger] s[i]) || s[i] == '-'
}

proof fn lemma_padded_digits(n: nat, width: int, most: nat)
    requires
        most >= 1,
        n < vstd::arithmetic::power::pow(10, most),
        width <= most,
    ensures
        is_digits_and_dashes(padded(n, width)),
        1 <= padded(n, width).len() <= most,
{
    lemma_decimal_digits(n);
    lemma_decimal_len(n, most);
    let digits = decimal(n);
    let front = zeros(width - digits.len());
    assert forall|i: int| 0 <= i < padded(n, width).len() implies is_digit(
        #[trigger] padded(n, width)[i],
    ) by {
        if i >= front.len() {
            assert(padded(n, width)[i] == digits[i - front.len()]);
        }
    }
}

proof fn lemma_digits_and_dashes_add(a: Seq<char>, b: Seq<char>)
    requires
        is_digits_and_dashes(a),
        is_digits_and_dashes(b),
    ensures
        is_digits_and_dashes(a + b),
{
    assert forall|i: int| 0 <= i < (a + b).len() implies is_digit(#[trigger] (a + b)[i]) || (a
        + b)[i] == '-' by {
        if i < a.len() {
            assert((a + b)[i] == a[i]);
        } else {
            assert((a + b)[i] == b[i - a.len()]);
        }
    }
}

proof fn lemma_powers_of_ten()
    ensures
        vstd::arithmetic::power::pow(10, 2) == 100,
        vstd::arithmetic::power::pow(10, 12) == 1_000_000_000_000,
{
    reveal_with_fuel(vstd::arithmetic::power::pow, 13);
}

proof fn lemma_year_digits(year: int)
    requires
        -300_000_000_000 < year < 300_000_000_000,
    ensures
        is_digits_and_dashes(padded_int(year, 4)),
        1 <= padded_int(year, 4).len() <= 13,
{
    lemma_powers_of_ten();
    if year >= 0 {
        lemma_padded_digits(year as nat, 4, 12);
    } else {
        lemma_padded_digits((-year) as nat, 3, 12);
        lemma_digits_and_dashes_add(seq!['-'], padded((-year) as nat, 3));
    }
}

pub fn file_stamp_text(seconds: i64) -> (r: String)
    ensures
        r@ == file_stamp(seconds as int),
        is_digits_and_dashes(r@),
        1 <= r@.len() <= 32,
{
    let (year, month, day, hour, minute, second) = utc_parts(seconds);
    proof {
        lemma_time_of_day(
            seconds as int,
            day_number(year as int, month as int, day as int),
            hour as int,
            minute as int,
            second as int,
        );
    }
    let mut out = padded_int_text(year, 4);
    out.push('-');
    out.append(padded_text(month as u64, 2).as_str());
    out.push('-');
    out.append(padded_text(day as u64, 2).as_str());
    out.push('-');
    out.append(padded_text(hour as u64, 2).as_str());
    out.append(padded_text(minute as u64, 2).as_str());
    out.append(padded_text(second as u64, 2).as_str());
    proof {
        assert(out@ =~= file_stamp(seconds as int));
        let y = padded_int(year as int, 4);
        let dash = seq!['-'];
        let mo = padded(month as nat, 2);
        let d = padded(day as nat, 2);
        let h = padded(hour as nat, 2);
        let mi = padded(minute as nat, 2);
        let se = padded(second as nat, 2);
        lemma_year_digits(year as int);
        lemma_powers_of_ten();
        lemma_padded_digits(month as nat, 2, 2);
        lemma_padded_digits(day as nat, 2, 2);
        lemma_padded_digits(hour as nat, 2, 2);
        lemma_padded_digits(minute as nat, 2, 2);
        lemma_padded_digits(second as nat, 2, 2);
        assert(is_digits_and_dashes(dash));
        lemma_digits_and_dashes_add(y, dash);
        lemma_digits_and_dashes_add(y + dash, mo);
        lemma_digits_and_dashes_add(y + dash + mo, dash);
        lemma_digits_and_dashes_add(y + dash + mo + dash, d);
        lemma_digits_and_dashes_add(y + dash + mo + dash + d, dash);
        lemma_digits_and_dashes_add(y + dash + mo + dash + d + dash, h);
        lemma_digits_and_dashes_add(y + dash + mo + dash + d + dash + h, mi);
        lemma_digits_and_dashes_add(y + dash + mo + dash + d + dash + h + mi, se);
    }
    out
}

/// Every day from 1970 on has a date.
pub proof fn lemma_days_have_dates(days: int)
    requires
        days >= 0,
    ensures
        is_date(date_of(days).0, date_of(days).1, date_of(days).2),
        day_number(date_of(days).0, date_of(days).1, date_of(days).2) == days,
    decreases days,
{
    if days == 0 {
        lemma_months(1970);
        lemma_date_of(1970, 1, 1);
    } else {
        lemma_days_have_dates(days - 1);
        let (year, month, day) = date_of(days - 1);
        lemma_months(year);
        lemma_months(year + 1);
        lemma_year_length(year);
        if day < days_in_month(year, month) {
            lemma_date_of(year, month, day + 1);
        } else if month < 12 {
            assert(days_before_month(year, month + 1) == days_before_month(year, month)
                + days_in_month(year, month));
            lemma_date_of(year, month + 1, 1);
        } else {
            lemma_date_of(year + 1, 1, 1);
        }
    }
}

/// A later day has a later date: a later year, or a later month of the same
/// year, or a later day of the same month.
pub proof fn lemma_dates_ascend(days: int, later: int)
    requires
        0 <= days < later,
    ensures
        ({
            let a = date_of(days);
            let b = date_of(later);
            a.0 < b.0 || (a.0 == b.0 && (a.1 < b.1 || (a.1 == b.1 && a.2 < b.2)))
        }),
{
    lemma_days_have_dates(days);
    lemma_days_have_dates(later);
    let a = date_of(days);
    let b = date_of(later);
    lemma_months(a.0);
    lemma_months(b.0);
    lemma_day_of_year(a.0, a.1, a.2);
    lemma_day_of_year(b.0, b.1, b.2);
    if b.0 < a.0 {
        lemma_years_ascend(b.0 + 1, a.0);
        lemma_year_length(b.0);
    }
}

/// The days up to the end of the year 9999 lie in years of four digits.
pub proof fn lemma_four_digit_years(days: int)
    requires
        0 <= days < 2_932_897,
    ensures
        1_970 <= date_of(days).0 <= 9_999,
{
    lemma_days_have_dates(days);
    let date = date_of(days);
    lemma_day_of_year(date.0, date.1, date.2);
    lemma_year_length(date.0);
    if date.0 < 1_970 {
        lemma_years_ascend(date.0 + 1, 1_970);
    } else if date.0 > 9_999 {
        lemma_years_ascend(10_000, date.0);
        assert(days_before_year(10_000) == 2_932_897);
    }
}

/// A number of two digits.
#[verifier::opaque]
spec fn two_digits(n: int) -> Seq<char> {
    seq![digit_char(n / 10), digit_char(n % 10)]
}

proof fn lemma_two_digits(n: int)
    requires
        0 <= n < 100,
    ensures
        padded(n as nat, 2) == two_digits(n),
        two_digits(n).len() == 2,
{
    reveal(two_digits);
    reveal_with_fuel(decimal, 3);
    assert(padded(n as nat, 2) =~= two_digits(n));
}

proof fn lemma_four_digits(n: int)
    requires
        1_000 <= n <= 9_999,
    ensures
        padded_int(n, 4) == two_digits(n / 100) + two_digits(n % 100),
{
    reveal(two_digits);
    reveal_with_fuel(decimal, 5);
    assert(n / 10 / 10 == n / 100);
    assert(n / 10 / 10 / 10 == n / 100 / 10);
    assert(n / 10 % 10 == n % 100 / 10);
    assert(n % 10 == n % 100 % 10);
    assert(padded_int(n, 4) =~= two_digits(n / 100) + two_digits(n % 100));
}

proof fn lemma_two_digits_ascend(n: int, m: int)
    requires
        0 <= n < m < 100,
    ensures
        text_less(two_digits(n), two_digits(m)),
{
    reveal(two_digits);
    reveal_with_fuel(text_less, 3);
    let a = two_digits(n);
    let b = two_digits(m);
    assert(a.drop_first()[0] == a[1]);
    assert(b.drop_first()[0] == b[1]);
    assert(digit_char(n / 10) as u32 == 48 + n / 10);
    assert(digit_char(m / 10) as u32 == 48 + m / 10);
    assert(digit_char(n % 10) as u32 == 48 + n % 10);
    assert(digit_char(m % 10) as u32 == 48 + m % 10);
}

/// The six parts of a file stamp, with the dashes between them.
spec fn stamp_of(century: int, year: int, month: int, day: int, time: int) -> Seq<char> {
    two_digits(century) + (two_digits(year) + (seq!['-'] + (two_digits(month) + (seq!['-'] + (
    two_digits(day) + (seq!['-'] + (two_digits(time / 3_600) + (two_digits(time / 60 % 60)
        + two_digits(time % 60)))))))))
}

proof fn lemma_grouping(a: Seq<char>, b: Seq<char>, c: Seq<char>)
    ensures
        (a + b) + c == a + (b + c),
{
    assert((a + b) + c =~= a + (b + c));
}

/// The parts of a file stamp, grouped from the end.
proof fn lemma_stamp_grouping(
    century: Seq<char>,
    year: Seq<char>,
    month: Seq<char>,
    day: Seq<char>,
    hour: Seq<char>,
    minute: Seq<char>,
    second: Seq<char>,
)
    ensures
        (century + year) + seq!['-'] + month + seq!['-'] + day + seq!['-'] + hour + minute + second
            == century + (year + (seq!['-'] + (month + (seq!['-'] + (day + (seq!['-'] + (hour + (
        minute + second)))))))),
{
    let dash = seq!['-'];
    let front = century + year;
    lemma_grouping(front + dash + month + dash + day + dash + hour, minute, second);
    lemma_grouping(front + dash + month + dash + day + dash, hour, minute + second);
    let rest = hour + (minute + second);
    lemma_grouping(front + dash + month + dash + day, dash, rest);
    lemma_grouping(front + dash + month + dash, day, dash + rest);
    let rest = day + (dash + rest);
    lemma_grouping(front + dash + month, dash, rest);
    lemma_grouping(front + dash, month, dash + rest);
    let rest = month + (dash + rest);
    lemma_grouping(front, dash, rest);
    lemma_grouping(century, year, dash + rest);
}

proof fn lemma_file_stamp(seconds: int)
    requires
        0 <= seconds < 253_402_300_800,
    ensures
        ({
            let date = date_of(seconds / 86_400);
            file_stamp(seconds) == stamp_of(
                date.0 / 100,
                date.0 % 100,
                date.1,
                date.2,
                seconds % 86_400,
            )
        }),
        file_stamp(seconds).len() == 17,
{
    let days = seconds / 86_400;
    let time = seconds % 86_400;
    let date = date_of(days);
    lemma_days_have_dates(days);
    lemma_four_digit_years(days);
    lemma_four_digits(date.0);
    lemma_two_digits(date.0 / 100);
    lemma_two_digits(date.0 % 100);
    lemma_two_digits(date.1);
    lemma_two_digits(date.2);
    lemma_two_digits(time / 3_600);
    lemma_two_digits(time / 60 % 60);
    lemma_two_digits(time % 60);
    lemma_stamp_grouping(
        two_digits(date.0 / 100),
        two_digits(date.0 % 100),
        two_digits(date.1),
        two_digits(date.2),
        two_digits(time / 3_600),
        two_digits(time / 60 % 60),
        two_digits(time % 60),
    );
}

/// Two numbers of two digits and what stands behind them: the numbers decide,
/// and where they are the same, the rest.
proof fn lemma_stamp_step(n: int, m: int, x: Seq<char>, y: Seq<char>)
    requires
        0 <= n < 100,
        0 <= m < 100,
        n < m || (n == m && text_less(x, y)),
    ensures
        text_less(two_digits(n) + x, two_digits(m) + y),
        text_less(seq!['-'] + (two_digits(n) + x), seq!['-'] + (two_digits(m) + y)),
{
    if n < m {
        lemma_two_digits(n);
        lemma_two_digits(m);
        lemma_two_digits_ascend(n, m);
        lemma_text_less_by_front(two_digits(n), two_digits(m), x, y);
    } else {
        lemma_text_less_by_rest(two_digits(n), x, y);
    }
    lemma_text_less_by_rest(seq!['-'], two_digits(n) + x, two_digits(m) + y);
}

/// The order of two times of day is that of their digits.
proof fn lemma_times_ascend(time: int, later: int)
    requires
        0 <= time < later < 86_400,
    ensures
        text_less(
            two_digits(time / 3_600) + (two_digits(time / 60 % 60) + two_digits(time % 60)),
            two_digits(later / 3_600) + (two_digits(later / 60 % 60) + two_digits(later % 60)),
        ),
{
    let (h, m, s) = (time / 3_600, time / 60 % 60, time % 60);
    let (i, n, t) = (later / 3_600, later / 60 % 60, later % 60);
    assert(time == h * 3_600 + m * 60 + s);
    assert(later == i * 3_600 + n * 60 + t);
    if h == i {
        if m == n {
            lemma_two_digits_ascend(s, t);
        }
        lemma_stamp_step(m, n, two_digits(s), two_digits(t));
    }
    lemma_stamp_step(
        h,
        i,
        two_digits(m) + two_digits(s),
        two_digits(n) + two_digits(t),
    );
}

/// From 1970 up to the end of the year 9999 file stamps have one length, and
/// their order is that of time.
pub proof fn lemma_file_stamps_ascend(seconds: int, later: int)
    requires
        0 <= seconds < later < 253_402_300_800,
    ensures
        file_stamp(seconds).len() == file_stamp(later).len(),
        text_less(file_stamp(seconds), file_stamp(later)),
{
    lemma_file_stamp(seconds);
    lemma_file_stamp(later);
    let (days, time) = (seconds / 86_400, seconds % 86_400);
    let (other_days, other_time) = (later / 86_400, later % 86_400);
    let a = date_of(days);
    let b = date_of(other_days);
    lemma_days_have_dates(days);
    lemma_days_have_dates(other_days);
    lemma_four_digit_years(days);
    lemma_four_digit_years(other_days);
    let x = two_digits(time / 3_600) + (two_digits(time / 60 % 60) + two_digits(time % 60));
    let y = two_digits(other_time / 3_600) + (two_digits(other_time / 60 % 60) + two_digits(
        other_time % 60,
    ));
    if days == other_days {
        lemma_times_ascend(time, other_time);
        lemma_text_less_by_rest(seq!['-'], x, y);
    } else {
        lemma_dates_ascend(days, other_days);
    }
    let (x, y) = (seq!['-'] + x, seq!['-'] + y);
    if a.0 == b.0 && a.1 == b.1 {
        lemma_stamp_step(a.2, b.2, x, y);
    }
    let (x, y) = (seq!['-'] + (two_digits(a.2) + x), seq!['-'] + (two_digits(b.2) + y));
    if a.0 == b.0 {
        lemma_stamp_step(a.1, b.1, x, y);
    }
    let (x, y) = (seq!['-'] + (two_digits(a.1) + x), seq!['-'] + (two_digits(b.1) + y));
    if a.0 / 100 == b.0 / 100 {
        lemma_stamp_step(a.0 % 100, b.0 % 100, x, y);
    }
    lemma_stamp_step(
        a.0 / 100,
        b.0 / 100,
        two_digits(a.0 % 100) + x,
        two_digits(b.0 % 100) + y,
    );
}

/// A reading of the system clock against the start of 1970, in whole seconds.
pub enum ClockReading {
    Since(u64),
    Before(u64),
}

/// `SystemTime::elapsed` on the Unix epoch: the time since then, or the time
/// until then where the clock stands before it. Nothing is claimed of the
/// reading.
#[verifier::external_body]
pub(crate) fn read_clock() -> (r: ClockReading) {
    match std::time::UNIX_EPOCH.elapsed() {
        Ok(elapsed) => ClockReading::Since(elapsed.as_secs()),
        Err(error) => ClockReading::Before(error.duration().as_secs()),
    }
}

/// A clock reading as signed seconds, kept within the signed range.
pub open spec fn signed_seconds(now: ClockReading) -> int {
    match now {
        ClockReading::Since(seconds) => if seconds <= i64::MAX {
            seconds as int
        } else {
            i64::MAX as int
        },
        ClockReading::Before(seconds) => if seconds <= i64::MAX {
            -(seconds as int)
        } else {
            -(i64::MAX as int)
        },
    }
}

pub fn unix_seconds(now: ClockReading) -> (r: i64)
    ensures
        r == signed_seconds(now),
{
    let limit: u64 = 0x7fff_ffff_ffff_ffff;
    match now {
        ClockReading::Since(seconds) => if seconds <= limit {
            seconds as i64
        } else {
            i64::MAX
        },
        ClockReading::Before(seconds) => if seconds <= limit {
            -(seconds as i64)
        } else {
            -i64::MAX
        },
    }
}

/// The seconds since the start of 1970, or zero where the clock stands before.
pub open spec fn epoch_seconds(now: ClockReading) -> u64 {
    match now {
        ClockReading::Since(seconds) => seconds,
        ClockReading::Before(_) => 0,
    }
}

pub fn seconds_of(now: ClockReading) -> (r: u64)
    ensures
        r == epoch_seconds(now),
{
    match now {
        ClockReading::Since(seconds) => seconds,
        ClockReading::Before(_) => 0,
    }
}

} // verus!
