//! Writing numbers and dates as text.

use crate::ascii::DIGIT_0;
use crate::ascii::UPPER_A;
use vstd::prelude::*;

verus! {

/// `String::push` of the standard library appends the given character to the
/// end of the string and leaves the characters before it as they are.
pub assume_specification[ String::push ](s: &mut String, c: char)
    ensures
        final(s)@ == old(s)@.push(c),
;

/// The character of a digit, for digits from 0 to 9.
pub open spec fn digit_char(d: int) -> char {
    (DIGIT_0 + d) as char
}

/// The millennium letter of a number from 0 to 25: `A` for 0, `Z` for 25.
pub open spec fn letter_char(n: int) -> char {
    (UPPER_A + n) as char
}

/// A natural number written in decimal, without leading zeros.
pub open spec fn decimal_text(n: int) -> Seq<char>
    decreases n,
{
    if n < 10 {
        seq![digit_char(n)]
    } else {
        decimal_text(n / 10).push(digit_char(n % 10))
    }
}

/// An integer written in decimal, with a minus sign where it is negative.
pub open spec fn integer_text(v: int) -> Seq<char> {
    if v < 0 {
        seq!['-'] + decimal_text(-v)
    } else {
        decimal_text(v)
    }
}

/// A natural number written in decimal with at least two digits.
pub open spec fn two_digit_text(n: int) -> Seq<char> {
    if n < 10 {
        seq!['0', digit_char(n)]
    } else {
        decimal_text(n)
    }
}

/// A number from 0 to 999 written with three digits.
pub open spec fn three_digit_text(n: int) -> Seq<char> {
    seq![digit_char(n / 100), digit_char(n / 10 % 10), digit_char(n % 10)]
}

/// A SAC13 year as it is written: the millennium letter and three digits.
pub open spec fn year_text(y: int) -> Seq<char> {
    seq![letter_char(y / 1000)] + three_digit_text(y % 1000)
}

/// A character written `n` times.
pub open spec fn repeated_char(c: char, n: int) -> Seq<char> {
    Seq::new(n as nat, |i: int| c)
}

/// A natural number written in decimal is a text of digits.
pub proof fn lemma_decimal_text_digits(n: int)
    requires
        0 <= n,
    ensures
        decimal_text(n).len() >= 1,
        forall|i: int|
            0 <= i < decimal_text(n).len() ==> '0' <= #[trigger] decimal_text(n)[i] <= '9',
    decreases n,
{
    if n >= 10 {
        lemma_decimal_text_digits(n / 10);
    }
}

/// Appends a digit.
pub(crate) fn push_digit(s: &mut String, d: u8)
    requires
        d < 10,
    ensures
        final(s)@ == old(s)@.push(digit_char(d as int)),
{
    s.push((DIGIT_0 + d) as char);
}

/// Appends a natural number in decimal.
pub fn push_decimal(s: &mut String, n: u32)
    ensures
        final(s)@ == old(s)@ + decimal_text(n as int),
    decreases n,
{
    if n < 10 {
        push_digit(s, n as u8);
        assert(old(s)@.push(digit_char(n as int)) =~= old(s)@ + decimal_text(n as int));
    } else {
        push_decimal(s, n / 10);
        push_digit(s, (n % 10) as u8);
        assert((old(s)@ + decimal_text(n as int / 10)).push(digit_char(n as int % 10)) =~= old(
            s,
        )@ + decimal_text(n as int));
    }
}

/// Appends an integer in decimal.
pub fn push_integer(s: &mut String, v: i32)
    ensures
        final(s)@ == old(s)@ + integer_text(v as int),
{
    if v < 0 {
        s.push('-');
        let magnitude: u32 = if v == i32::MIN {
            2147483648
        } else {
            (-v) as u32
        };
        push_decimal(s, magnitude);
        assert(old(s)@.push('-') + decimal_text(-(v as int)) =~= old(s)@ + integer_text(v as int));
    } else {
        push_decimal(s, v as u32);
    }
}

/// Appends a natural number in decimal with at least two digits.
pub fn push_two_digits(s: &mut String, n: u8)
    ensures
        final(s)@ == old(s)@ + two_digit_text(n as int),
{
    if n < 10 {
        s.push('0');
        push_digit(s, n);
        assert(old(s)@.push('0').push(digit_char(n as int)) =~= old(s)@ + two_digit_text(
            n as int,
        ));
    } else {
        push_decimal(s, n as u32);
    }
}

/// Appends a SAC13 year: the millennium letter and three digits.
pub(crate) fn push_year(s: &mut String, y: u16)
    requires
        y <= 25999,
    ensures
        final(s)@ == old(s)@ + year_text(y as int),
{
    let millennium: u8 = (y / 1000) as u8;
    let rest: u16 = y % 1000;
    s.push((UPPER_A + millennium) as char);
    push_digit(s, (rest / 100) as u8);
    push_digit(s, (rest / 10 % 10) as u8);
    push_digit(s, (rest % 10) as u8);
    assert(s@ =~= old(s)@ + year_text(y as int));
}

/// Appends a character `n` times.
pub fn push_repeated(s: &mut String, c: char, n: u8)
    ensures
        final(s)@ == old(s)@ + repeated_char(c, n as int),
{
    let mut i: u8 = 0;
    while i < n
        invariant
            i <= n,
            s@ == old(s)@ + repeated_char(c, i as int),
        decreases n - i,
    {
        s.push(c);
        i += 1;
        assert(s@ =~= old(s)@ + repeated_char(c, i as int));
    }
}

} // verus!
