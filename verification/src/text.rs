//! Small tools for working with text as a sequence of characters.

use vstd::prelude::*;
use vstd::string::*;

verus! {

/// Whether a character has the Unicode property `White_Space`.
pub uninterp spec fn is_white_space(c: char) -> bool;

/// `char::is_whitespace` of the standard library, which decides the Unicode
/// property `White_Space` of a character. The contract gives that decision
/// the name `is_white_space`.
pub assume_specification[ char::is_whitespace ](c: char) -> (white: bool)
    ensures
        white == is_white_space(c),
;

/// `String::push` of the standard library, which appends one character to
/// the end of the string.
pub assume_specification[ String::push ](text: &mut String, c: char)
    ensures
        final(text)@ == old(text)@.push(c),
;

/// The characters of a text, in order.
pub fn chars_of(text: &str) -> (chars: Vec<char>)
    ensures
        chars@ == text@,
{
    let mut chars: Vec<char> = Vec::new();
    for c in it: text.chars()
        invariant
            chars@ == it.seq().take(it.index()),
            it.seq() == text@,
    {
        chars.push(c);
    }
    chars
}

/// One of the ten decimal digits `0` to `9`.
pub open spec fn is_digit(c: char) -> bool {
    '0' <= c && c <= '9'
}

/// The number that a decimal digit stands for.
pub open spec fn digit_value(c: char) -> int {
    c as int - '0' as int
}

/// The decimal digit that stands for `d`, for `0 <= d <= 9`.
pub open spec fn digit_char(d: int) -> char {
    ('0' as int + d) as char
}

/// Decides whether a character is a decimal digit.
pub fn is_digit_char(c: char) -> (digit: bool)
    ensures
        digit == is_digit(c),
{
    '0' <= c && c <= '9'
}

/// A digit stands for a number from 0 to 9, and that number is written with
/// the same digit.
pub proof fn lemma_digit_round_trip(c: char)
    requires
        is_digit(c),
    ensures
        0 <= digit_value(c) <= 9,
        digit_char(digit_value(c)) == c,
{
}

/// A natural number written in decimal, without leading zeros.
pub open spec fn decimal_text(n: nat) -> Seq<char>
    decreases n,
{
    if n < 10 {
        seq![digit_char(n as int)]
    } else {
        decimal_text(n / 10).push(digit_char((n % 10) as int))
    }
}

/// Appends a number, written in decimal, to a text.
pub fn push_decimal(out: &mut String, n: usize)
    ensures
        final(out)@ == old(out)@ + decimal_text(n as nat),
    decreases n,
{
    if n >= 10 {
        push_decimal(out, n / 10);
    }
    let digit: u8 = (n % 10) as u8;
    out.push(('0' as u8 + digit) as char);
    proof {
        let head = old(out)@;
        if n >= 10 {
            assert((head + decimal_text((n / 10) as nat)).push(digit_char((n % 10) as int)) =~= head
                + decimal_text(n as nat));
        } else {
            assert(head.push(digit_char(n as int)) =~= head + decimal_text(n as nat));
        }
    }
}

} // verus!
