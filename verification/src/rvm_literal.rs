//! Literal immediates: a decimal number, or digits followed by `|` and a
//! base tag (`h` for 16, `b` for 2, anything else for 10).

use vstd::prelude::*;
use crate::rvm_text::text_chars;

verus! {

/// The position of the first `c` in `s` at or after `from`.
pub open spec fn index_from(s: Seq<char>, c: char, from: int) -> Option<int>
    decreases s.len() - from,
{
    if from < 0 || from >= s.len() {
        None
    } else if s[from] == c {
        Some(from)
    } else {
        index_from(s, c, from + 1)
    }
}

/// The position of the first `c` in `s`.
pub open spec fn index_of(s: Seq<char>, c: char) -> Option<int> {
    index_from(s, c, 0)
}

pub proof fn lemma_index_from(s: Seq<char>, c: char, from: int)
    requires
        0 <= from,
    ensures
        match index_from(s, c, from) {
            Some(i) => from <= i < s.len() && s[i] == c && forall|j: int|
                from <= j < i ==> s[j] != c,
            None => forall|j: int| from <= j < s.len() ==> s[j] != c,
        },
    decreases s.len() - from,
{
    if from < s.len() && s[from] != c {
        lemma_index_from(s, c, from + 1);
    }
}

/// The value of `c` as a digit: `0`-`9`, then the letters of either case
/// from ten on.
pub open spec fn digit_value(c: char) -> Option<int> {
    if '0' <= c <= '9' {
        Some(c as int - '0' as int)
    } else if 'a' <= c <= 'z' {
        Some(c as int - 'a' as int + 10)
    } else if 'A' <= c <= 'Z' {
        Some(c as int - 'A' as int + 10)
    } else {
        None
    }
}

/// Whether `c` is a digit of base `radix`.
pub open spec fn is_digit(c: char, radix: int) -> bool {
    digit_value(c) matches Some(d) && d < radix
}

/// Whether `s` holds digits of base `radix` only.
pub open spec fn all_digits(s: Seq<char>, radix: int) -> bool {
    forall|i: int| 0 <= i < s.len() ==> is_digit(#[trigger] s[i], radix)
}

/// The number that the digits `s` write in base `radix`.
pub open spec fn digits_number(s: Seq<char>, radix: int) -> int
    decreases s.len(),
{
    if s.len() == 0 {
        0
    } else {
        digits_number(s.drop_last(), radix) * radix + digit_value(s.last()).unwrap()
    }
}

/// The 32-bit integer that `s` writes in base `radix`: an optional sign,
/// then at least one digit, nothing else, and a value that fits.
pub open spec fn parse_int(s: Seq<char>, radix: int) -> Option<i32> {
    let negative = s.len() > 0 && s[0] == '-';
    let signed = s.len() > 0 && (s[0] == '-' || s[0] == '+');
    let body = if signed {
        s.skip(1)
    } else {
        s
    };
    let number = if negative {
        -digits_number(body, radix)
    } else {
        digits_number(body, radix)
    };
    if body.len() > 0 && all_digits(body, radix) && i32::MIN <= number <= i32::MAX {
        Some(number as i32)
    } else {
        None
    }
}

/// The base that a tag selects: its first character decides.
pub open spec fn radix_of(tag: Seq<char>) -> int {
    if tag.len() > 0 && tag[0] == 'h' {
        16
    } else if tag.len() > 0 && tag[0] == 'b' {
        2
    } else {
        10
    }
}

/// The value of a literal, where it is well formed.
pub open spec fn parse_literal(s: Seq<char>) -> Option<i32> {
    match index_of(s, '|') {
        Some(bar) => parse_int(s.take(bar), radix_of(s.skip(bar + 1))),
        None => parse_int(s, 10),
    }
}

/// The value that a literal stands for: zero where it is malformed.
pub open spec fn literal_value(s: Seq<char>) -> i32 {
    match parse_literal(s) {
        Some(v) => v,
        None => 0,
    }
}

/// The position of the first `c` in `s[from..]`.
pub(crate) fn find_char(s: &Vec<char>, c: char, from: usize) -> (r: Option<usize>)
    ensures
        match index_from(s@, c, from as int) {
            Some(i) => r == Some(i as usize) && from <= i < s@.len() && s@[i] == c,
            None => r is None,
        },
{
    let mut i: usize = from;
    while i < s.len()
        invariant
            from <= i,
            index_from(s@, c, from as int) == index_from(s@, c, i as int),
        decreases s.len() - i,
    {
        if s[i] == c {
            return Some(i);
        }
        i = i + 1;
    }
    None
}

/// The value of `c` as a digit of base `radix`.
fn digit_in(c: char, radix: u32) -> (r: Option<u32>)
    requires
        2 <= radix <= 36,
    ensures
        r is Some <==> is_digit(c, radix as int),
        r matches Some(d) ==> digit_value(c) == Some(d as int),
{
    let d: u32 = if '0' <= c && c <= '9' {
        c as u32 - '0' as u32
    } else if 'a' <= c && c <= 'z' {
        c as u32 - 'a' as u32 + 10
    } else if 'A' <= c && c <= 'Z' {
        c as u32 - 'A' as u32 + 10
    } else {
        return None;
    };
    if d < radix {
        Some(d)
    } else {
        None
    }
}

/// Parses `s[from..to]` as a 32-bit integer in base `radix`.
#[verifier::loop_isolation(false)]
pub(crate) fn parse_int_range(s: &Vec<char>, from: usize, to: usize, radix: u32) -> (r: Option<i32>)
    requires
        from <= to <= s@.len(),
        2 <= radix <= 36,
    ensures
        r == parse_int(s@.subrange(from as int, to as int), radix as int),
{
    let ghost text = s@.subrange(from as int, to as int);
    let negative = from < to && s[from] == '-';
    let signed = from < to && (s[from] == '-' || s[from] == '+');
    let first: usize = if signed {
        from + 1
    } else {
        from
    };
    let ghost body = s@.subrange(first as int, to as int);
    assert(body =~= if signed {
        text.skip(1)
    } else {
        text
    });
    if first == to {
        return None;
    }
    // one more than the largest magnitude that fits
    let cap: i64 = 0x8000_0001;
    let mut magnitude: i64 = 0;
    let mut i: usize = first;
    while i < to
        invariant
            first <= i <= to <= s@.len(),
            2 <= radix <= 36,
            cap == 0x8000_0001,
            body == s@.subrange(first as int, to as int),
            all_digits(body.take(i - first), radix as int),
            0 <= digits_number(body.take(i - first), radix as int),
            magnitude == if digits_number(body.take(i - first), radix as int) < cap {
                digits_number(body.take(i - first), radix as int)
            } else {
                cap as int
            },
        decreases to - i,
    {
        let ghost seen = body.take(i - first);
        let ghost next = body.take(i + 1 - first);
        assert(next.drop_last() =~= seen);
        assert(next.last() == s@[i as int]);
        match digit_in(s[i], radix) {
            None => {
                assert(!is_digit(body[i - first], radix as int));
                return None;
            },
            Some(d) => {
                let ghost number = digits_number(seen, radix as int);
                assert(digits_number(next, radix as int) == number * radix + d);
                assert(number * radix + d >= number && (number >= cap ==> number * radix + d
                    >= cap)) by (nonlinear_arith)
                    requires
                        number >= 0,
                        radix >= 2,
                        d >= 0,
                ;
                assert(magnitude * radix + d < 0x1_0000_0000_00) by (nonlinear_arith)
                    requires
                        0 <= magnitude <= 0x8000_0001,
                        radix <= 36,
                        d < 36,
                ;
                let grown: i64 = magnitude * (radix as i64) + d as i64;
                magnitude = if grown < cap {
                    grown
                } else {
                    cap
                };
                assert forall|j: int| 0 <= j < next.len() implies is_digit(
                    #[trigger] next[j],
                    radix as int,
                ) by {
                    if j < seen.len() {
                        assert(next[j] == seen[j]);
                    }
                }
            },
        }
        i = i + 1;
    }
    assert(body.take(to - first) =~= body);
    let number: i64 = if negative {
        -magnitude
    } else {
        magnitude
    };
    if number < -0x8000_0000 || number > 0x7fff_ffff {
        None
    } else {
        Some(number as i32)
    }
}

/// Parses `s[from..to]` as a literal.
pub(crate) fn parse_literal_range(s: &Vec<char>, from: usize, to: usize) -> (r: Option<i32>)
    requires
        from <= to <= s@.len(),
    ensures
        r == parse_literal(s@.subrange(from as int, to as int)),
{
    let ghost text = s@.subrange(from as int, to as int);
    let mut bar: usize = from;
    while bar < to && s[bar] != '|'
        invariant
            from <= bar <= to <= s@.len(),
            text == s@.subrange(from as int, to as int),
            index_of(text, '|') == index_from(text, '|', bar - from),
        decreases to - bar,
    {
        bar = bar + 1;
    }
    if bar < to {
        assert(index_of(text, '|') == Some(bar - from));
        let radix = if bar + 1 < to && s[bar + 1] == 'h' {
            16
        } else if bar + 1 < to && s[bar + 1] == 'b' {
            2
        } else {
            10
        };
        assert(text.take(bar - from) =~= s@.subrange(from as int, bar as int));
        parse_int_range(s, from, bar, radix)
    } else {
        parse_int_range(s, from, to, 10)
    }
}

/// Parses a literal.
pub fn rvm_parse_literal(s: &str) -> (r: Option<i32>)
    ensures
        r == parse_literal(s@),
{
    let chars = text_chars(s);
    assert(chars@.subrange(0, chars@.len() as int) =~= chars@);
    parse_literal_range(&chars, 0, chars.len())
}

} // verus!
