//! Numbers as text: decimal, zero-padded and hexadecimal digits, and the
//! reading of unsigned decimal numbers.
use vstd::prelude::*;
use vstd::string::*;

use crate::text::{chars_of, digit, is_digit, joined};

verus! {

/// The digit character of a number below ten.
pub open spec fn digit_char(n: int) -> char {
    ((48 + n) as u32) as char
}

/// A natural number in decimal.
pub open spec fn decimal(n: nat) -> Seq<char>
    decreases n,
{
    if n < 10 {
        seq![digit_char(n as int)]
    } else {
        decimal(n / 10).push(digit_char((n % 10) as int))
    }
}

/// `n` zeros.
pub open spec fn zeros(n: int) -> Seq<char> {
    Seq::new(
        if n > 0 {
            n as nat
        } else {
            0
        },
        |i: int| '0',
    )
}

/// A natural number in decimal, with zeros in front up to `width` characters.
pub open spec fn padded(n: nat, width: int) -> Seq<char> {
    zeros(width - decimal(n).len()) + decimal(n)
}

/// An integer in decimal with zeros behind the sign, up to `width` characters
/// with the sign.
pub open spec fn padded_int(n: int, width: int) -> Seq<char> {
    if n >= 0 {
        padded(n as nat, width)
    } else {
        seq!['-'] + padded((-n) as nat, width - 1)
    }
}

fn digit_of(n: u64) -> (r: char)
    requires
        n < 10,
    ensures
        r == digit_char(n as int),
{
    (48 + n as u8) as char
}

pub fn decimal_text(n: u64) -> (r: String)
    ensures
        r@ == decimal(n as nat),
    decreases n,
{
    if n < 10 {
        let mut out = String::new();
        out.push(digit_of(n));
        proof {
            assert(out@ =~= seq![digit_char(n as int)]);
        }
        out
    } else {
        let mut out = decimal_text(n / 10);
        out.push(digit_of(n % 10));
        out
    }
}

pub proof fn lemma_decimal_digits(n: nat)
    ensures
        decimal(n).len() >= 1,
        forall|i: int| 0 <= i < decimal(n).len() ==> is_digit(#[trigger] decimal(n)[i]),
    decreases n,
{
    if n >= 10 {
        lemma_decimal_digits(n / 10);
    }
}

/// Different numbers are written differently.
pub proof fn lemma_decimal_injective(a: nat, b: nat)
    requires
        decimal(a) == decimal(b),
    ensures
        a == b,
    decreases a,
{
    lemma_decimal_digits(a / 10);
    lemma_decimal_digits(b / 10);
    let x = decimal(a);
    let y = decimal(b);
    assert(x.last() == digit_char((a % 10) as int));
    assert(y.last() == digit_char((b % 10) as int));
    assert(a % 10 == b % 10);
    if a >= 10 {
        assert(x.len() >= 2);
        assert(b >= 10);
        assert(x.drop_last() =~= decimal(a / 10));
        assert(y.drop_last() =~= decimal(b / 10));
        lemma_decimal_injective(a / 10, b / 10);
    } else {
        assert(x.len() == 1);
        assert(b < 10) by {
            if b >= 10 {
                assert(y.len() >= 2);
            }
        }
    }
}

/// A number below ten to the power of `width` has at most `width` digits.
pub proof fn lemma_decimal_len(n: nat, width: nat)
    requires
        width >= 1,
        n < vstd::arithmetic::power::pow(10, width),
    ensures
        decimal(n).len() <= width,
    decreases width,
{
    reveal(vstd::arithmetic::power::pow);
    if n >= 10 {
        if width == 1 {
            assert(vstd::arithmetic::power::pow(10, 1) == 10) by {
                reveal_with_fuel(vstd::arithmetic::power::pow, 2);
            }
        } else {
            assert(vstd::arithmetic::power::pow(10, width) == 10 * vstd::arithmetic::power::pow(
                10,
                (width - 1) as nat,
            ));
            lemma_decimal_len(n / 10, (width - 1) as nat);
        }
    }
}

pub fn padded_text(n: u64, width: usize) -> (r: String)
    ensures
        r@ == padded(n as nat, width as int),
{
    let digits = decimal_text(n);
    let len: usize = digits.as_str().unicode_len();
    let mut out = String::new();
    let mut i: usize = len;
    while i < width
        invariant
            len == digits@.len(),
            i >= len,
            i <= width || i == len,
            out@ == zeros(i - len),
        decreases width - i,
    {
        out.push('0');
        proof {
            assert(zeros(i + 1 - len) =~= zeros(i - len).push('0'));
        }
        i = i + 1;
    }
    proof {
        assert(zeros(i - len) =~= zeros(width - len));
    }
    joined(out.as_str(), digits.as_str())
}

pub fn padded_int_text(n: i64, width: usize) -> (r: String)
    requires
        width >= 1,
        n > i64::MIN,
    ensures
        r@ == padded_int(n as int, width as int),
{
    if n >= 0 {
        padded_text(n as u64, width)
    } else {
        let magnitude: i64 = -n;
        let mut out = String::new();
        out.push('-');
        proof {
            assert(out@ =~= seq!['-']);
        }
        joined(out.as_str(), padded_text(magnitude as u64, width - 1).as_str())
    }
}

/// The hexadecimal digit of a number below sixteen.
pub open spec fn hex_digit(n: int) -> char {
    if n < 10 {
        ((48 + n) as u32) as char
    } else {
        ((87 + n) as u32) as char
    }
}

/// Bytes as pairs of hexadecimal digits.
pub open spec fn hex(bytes: Seq<u8>) -> Seq<char>
    decreases bytes.len(),
{
    if bytes.len() == 0 {
        Seq::empty()
    } else {
        hex(bytes.drop_last()).push(hex_digit(bytes.last() as int / 16)).push(
            hex_digit(bytes.last() as int % 16),
        )
    }
}

pub proof fn lemma_hex_len(bytes: Seq<u8>)
    ensures
        hex(bytes).len() == 2 * bytes.len(),
    decreases bytes.len(),
{
    if bytes.len() > 0 {
        lemma_hex_len(bytes.drop_last());
    }
}

fn hex_digit_of(n: u8) -> (r: char)
    requires
        n < 16,
    ensures
        r == hex_digit(n as int),
{
    if n < 10 {
        (48 + n) as char
    } else {
        (87 + n) as char
    }
}

/// Bytes in lower-case hexadecimal, two digits each.
pub fn hex_prefix(bytes: &[u8]) -> (r: String)
    ensures
        r@ == hex(bytes@),
{
    let mut out = String::new();
    let mut i: usize = 0;
    while i < bytes.len()
        invariant
            i <= bytes@.len(),
            out@ == hex(bytes@.take(i as int)),
        decreases bytes@.len() - i,
    {
        proof {
            assert(bytes@.take(i + 1).drop_last() =~= bytes@.take(i as int));
            assert(bytes@.take(i + 1).last() == bytes@[i as int]);
        }
        out.push(hex_digit_of(bytes[i] / 16));
        out.push(hex_digit_of(bytes[i] % 16));
        i = i + 1;
    }
    proof {
        assert(bytes@.take(bytes@.len() as int) =~= bytes@);
    }
    out
}

/// The number that a sequence of digits writes in decimal.
pub open spec fn digits_value(s: Seq<char>) -> nat
    decreases s.len(),
{
    if s.len() == 0 {
        0
    } else {
        digits_value(s.drop_last()) * 10 + ((s.last() as u32 - 48) as nat)
    }
}

pub open spec fn all_digits(s: Seq<char>) -> bool {
    forall|i: int| 0 <= i < s.len() ==> is_digit(#[trigger] s[i])
}

/// The number that a text writes: one or more decimal digits, behind a plus
/// sign or not, whose value is at most `max`.
pub open spec fn parsed_number(s: Seq<char>, max: nat) -> Option<nat> {
    let digits = if s.len() > 0 && s[0] == '+' {
        s.drop_first()
    } else {
        s
    };
    if digits.len() > 0 && all_digits(digits) && digits_value(digits) <= max {
        Some(digits_value(digits))
    } else {
        None
    }
}

proof fn lemma_digits_value_grows(s: Seq<char>, n: int)
    requires
        0 <= n <= s.len(),
    ensures
        digits_value(s.take(n)) <= digits_value(s),
    decreases s.len() - n,
{
    if n < s.len() {
        lemma_digits_value_grows(s, n + 1);
        assert(s.take(n + 1).drop_last() =~= s.take(n));
    } else {
        assert(s.take(n) =~= s);
    }
}

/// Reads an unsigned decimal number of at most `max`.
pub fn parse_number(s: &str, max: u64) -> (r: Option<u64>)
    ensures
        match r {
            Some(n) => parsed_number(s@, max as nat) == Some(n as nat),
            None => parsed_number(s@, max as nat) is None,
        },
{
    let chars = chars_of(s);
    let start: usize = if chars.len() > 0 && chars[0] == '+' {
        1
    } else {
        0
    };
    let ghost digits = s@.skip(start as int);
    proof {
        if start == 1 {
            assert(digits =~= s@.drop_first());
        } else {
            assert(digits =~= s@);
        }
    }
    if start == chars.len() {
        return None;
    }
    let mut value: u64 = 0;
    let mut i: usize = start;
    while i < chars.len()
        invariant
            chars@ == s@,
            start <= i <= chars@.len(),
            digits == s@.skip(start as int),
            digits == (if s@.len() > 0 && s@[0] == '+' {
                s@.drop_first()
            } else {
                s@
            }),
            value <= max,
            value == digits_value(digits.take(i - start)),
            all_digits(digits.take(i - start)),
        decreases chars@.len() - i,
    {
        let c = chars[i];
        proof {
            assert(digits[i - start] == c);
        }
        if !digit(c) {
            return None;
        }
        let d: u64 = c as u64 - 48;
        proof {
            let longer = digits.take(i + 1 - start);
            assert(longer.drop_last() =~= digits.take(i - start));
            assert(longer.last() == c);
            assert(digits_value(longer) == value * 10 + d);
            lemma_digits_value_grows(digits, i + 1 - start);
            assert forall|j: int| 0 <= j < longer.len() implies is_digit(#[trigger] longer[j]) by {
                if j < i - start {
                    assert(digits.take(i - start)[j] == longer[j]);
                }
            }
        }
        if value > max / 10 {
            proof {
                assert(value * 10 > max) by (nonlinear_arith)
                    requires
                        value > max / 10,
                ;
            }
            return None;
        }
        let scaled: u64 = value * 10;
        if d > max - scaled {
            return None;
        }
        value = scaled + d;
        i = i + 1;
    }
    proof {
        assert(digits.take(digits.len() as int) =~= digits);
    }
    Some(value)
}

} // verus!
