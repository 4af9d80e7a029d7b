//! Unsigned decimal numbers as text.

use vstd::prelude::*;
use crate::text::string_of;

verus! {

/// Whether `c` is one of the ten ASCII digits.
pub open spec fn is_digit(c: char) -> bool {
    '0' <= c <= '9'
}

/// The value of the ASCII digit `c`.
pub open spec fn digit_value(c: char) -> nat {
    (c as u32 - '0' as u32) as nat
}

/// The ASCII digit that stands for `d`, for `d` below ten.
pub open spec fn digit_char(d: nat) -> char {
    ('0' as u32 + d) as char
}

/// The number that the digits write in base ten; 0 for no digits.
pub open spec fn digits_value(digits: Seq<char>) -> nat
    decreases digits.len(),
{
    if digits.len() == 0 {
        0
    } else {
        digits_value(digits.drop_last()) * 10 + digit_value(digits.last())
    }
}

/// Every character of `text` is an ASCII digit.
pub open spec fn all_digits(text: Seq<char>) -> bool {
    forall|i: int| 0 <= i < text.len() ==> is_digit(#[trigger] text[i])
}

/// The number that `text` writes, where it writes one that fits 32 bits: an optional `+`, then
/// one or more ASCII digits and nothing else.
pub open spec fn unsigned_of(text: Seq<char>) -> Option<u32> {
    let digits = if text.len() > 0 && text[0] == '+' {
        text.skip(1)
    } else {
        text
    };
    if digits.len() > 0 && all_digits(digits) && digits_value(digits) <= u32::MAX {
        Some(digits_value(digits) as u32)
    } else {
        None
    }
}

/// The number that `text` writes, or 0 where it writes none.
pub open spec fn number_or_zero(text: Seq<char>) -> u32 {
    match unsigned_of(text) {
        Some(n) => n,
        None => 0,
    }
}

/// The decimal text of `n`, without sign or leading zeros.
pub open spec fn decimal(n: nat) -> Seq<char>
    decreases n,
{
    if n < 10 {
        seq![digit_char(n)]
    } else {
        decimal(n / 10).push(digit_char(n % 10))
    }
}

/// More digits never write a smaller number.
pub proof fn lemma_digits_value_grows(digits: Seq<char>, k: int)
    requires
        0 <= k <= digits.len(),
    ensures
        digits_value(digits.take(k)) <= digits_value(digits),
    decreases digits.len() - k,
{
    if k < digits.len() {
        lemma_digits_value_grows(digits.drop_last(), k);
        assert(digits.drop_last().take(k) =~= digits.take(k));
    } else {
        assert(digits.take(k) =~= digits);
    }
}

/// Reads `text` as an unsigned number of 32 bits.
pub fn parse_unsigned(text: &[char]) -> (r: Option<u32>)
    ensures
        r == unsigned_of(text@),
{
    let start: usize = if text.len() > 0 && text[0] == '+' {
        1
    } else {
        0
    };
    let ghost digits = text@.skip(start as int);
    if start == text.len() {
        return None;
    }
    let mut value: u32 = 0;
    let mut i: usize = start;
    while i < text.len()
        invariant
            start <= i <= text.len(),
            start < text.len(),
            start == (if text@.len() > 0 && text@[0] == '+' {
                1int
            } else {
                0int
            }),
            digits == text@.skip(start as int),
            all_digits(digits.take(i - start)),
            value == digits_value(digits.take(i - start)),
        decreases text.len() - i,
    {
        let c = text[i];
        if !('0' <= c && c <= '9') {
            assert(!is_digit(digits[i - start]));
            return None;
        }
        let d: u64 = (c as u32 - '0' as u32) as u64;
        let next: u64 = value as u64 * 10 + d;
        proof {
            assert(digits.take(i + 1 - start).drop_last() =~= digits.take(i - start));
            lemma_digits_value_grows(digits, i + 1 - start);
        }
        if next > u32::MAX as u64 {
            assert(text@.skip(0) =~= text@);
            return None;
        }
        value = next as u32;
        i += 1;
    }
    assert(digits.take(i - start) =~= digits);
    assert(text@.skip(0) =~= text@);
    Some(value)
}

/// Reads `text` as an unsigned number of 32 bits; what does not read as one counts as 0.
pub fn parse_or_zero(text: &[char]) -> (n: u32)
    ensures
        n == number_or_zero(text@),
{
    match parse_unsigned(text) {
        Some(n) => n,
        None => 0,
    }
}

/// The digits of `n` from the last to the first.
fn digits_reversed(n: u32) -> (rev: Vec<char>)
    ensures
        rev@.reverse() == decimal(n as nat),
        rev@.len() > 0,
{
    let mut rev: Vec<char> = Vec::new();
    let mut m: u32 = n;
    loop
        invariant_except_break
            decimal(n as nat) == decimal(m as nat) + rev@.reverse(),
        ensures
            rev@.reverse() == decimal(n as nat),
            rev@.len() > 0,
        decreases m,
    {
        let d: u8 = (m % 10) as u8;
        let c: char = (48u8 + d) as char;
        let ghost before = rev@;
        rev.push(c);
        if m < 10 {
            break;
        }
        proof {
            assert(decimal((m / 10) as nat).push(c) + before.reverse() =~= decimal(
                (m / 10) as nat,
            ) + (seq![c] + before.reverse()));
        }
        m = m / 10;
    }
    rev
}

/// The decimal text of `n`.
pub fn decimal_text(n: u32) -> (text: String)
    ensures
        text@ == decimal(n as nat),
{
    let rev = digits_reversed(n);
    let mut digits: Vec<char> = Vec::new();
    let mut i: usize = rev.len();
    while i > 0
        invariant
            i <= rev@.len(),
            digits@ == rev@.reverse().take(rev@.len() - i),
        decreases i,
    {
        i -= 1;
        digits.push(rev[i]);
    }
    string_of(digits.as_slice())
}

} // verus!
