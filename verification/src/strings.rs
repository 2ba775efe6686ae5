//! Building of strings: characters, and numbers in decimal.

use vstd::prelude::*;
use vstd::utf8::{decode_utf8, valid_utf8};
use itertools::join;

verus! {

/// Appends a character to a string: `String::push` of the standard library,
/// which puts the character at the end and changes nothing else.
#[verifier::external_body]
pub(crate) fn push_char(text: &mut String, c: char)
    ensures
        final(text)@ == old(text)@.push(c),
{
    text.push(c);
}

/// Makes a string of bytes: `String::from_utf8_lossy` of the standard
/// library, which returns the string that the bytes encode where they are
/// valid UTF-8. Where they are not, it puts a replacement character for
/// what is invalid, of which nothing is claimed here.
#[verifier::external_body]
pub(crate) fn string_from_bytes(bytes: &[u8]) -> (text: String)
    ensures
        valid_utf8(bytes@) ==> text@ == decode_utf8(bytes@),
{
    String::from_utf8_lossy(bytes).into_owned()
}

/// The texts of `items` in order, with `sep` between each two.
pub open spec fn joined(items: Seq<Seq<char>>, sep: Seq<char>) -> Seq<char>
    decreases items.len(),
{
    if items.len() == 0 {
        Seq::empty()
    } else if items.len() == 1 {
        items[0]
    } else {
        joined(items.drop_last(), sep) + sep + items.last()
    }
}

/// The texts of a row of strings.
pub open spec fn texts_of(items: Seq<String>) -> Seq<Seq<char>> {
    items.map_values(|item: String| item@)
}

/// Joins strings: `join` of the crate itertools, which writes every item
/// of an iterator as `Display` gives it, a string as it stands, and writes
/// `sep` between each two items.
#[verifier::external_body]
pub(crate) fn join_texts(items: &Vec<String>, sep: &str) -> (text: String)
    ensures
        text@ == joined(texts_of(items@), sep@),
{
    join(items.iter(), sep)
}

/// The character that stands for a digit.
pub open spec fn digit_char(digit: nat) -> char {
    if digit == 0 {
        '0'
    } else if digit == 1 {
        '1'
    } else if digit == 2 {
        '2'
    } else if digit == 3 {
        '3'
    } else if digit == 4 {
        '4'
    } else if digit == 5 {
        '5'
    } else if digit == 6 {
        '6'
    } else if digit == 7 {
        '7'
    } else if digit == 8 {
        '8'
    } else {
        '9'
    }
}

/// The decimal digits of a number, the highest first, without leading
/// zeros.
pub open spec fn decimal(n: nat) -> Seq<char>
    decreases n,
{
    if n < 10 {
        seq![digit_char(n)]
    } else {
        decimal(n / 10).push(digit_char(n % 10))
    }
}

/// A whole number in decimal, with a minus sign in front if it is negative.
pub open spec fn signed_decimal(n: int) -> Seq<char> {
    if n < 0 {
        seq!['-'] + decimal((-n) as nat)
    } else {
        decimal(n as nat)
    }
}

/// The character that stands for `digit`.
pub fn digit_of(digit: usize) -> (c: char)
    requires
        digit < 10,
    ensures
        c == digit_char(digit as nat),
{
    if digit == 0 {
        '0'
    } else if digit == 1 {
        '1'
    } else if digit == 2 {
        '2'
    } else if digit == 3 {
        '3'
    } else if digit == 4 {
        '4'
    } else if digit == 5 {
        '5'
    } else if digit == 6 {
        '6'
    } else if digit == 7 {
        '7'
    } else if digit == 8 {
        '8'
    } else {
        '9'
    }
}

/// Appends `n` in decimal to `text`.
pub fn push_decimal(text: &mut String, n: usize)
    ensures
        final(text)@ == old(text)@ + decimal(n as nat),
    decreases n,
{
    if n < 10 {
        push_char(text, digit_of(n));
        assert(text@ =~= old(text)@ + decimal(n as nat));
    } else {
        push_decimal(text, n / 10);
        push_char(text, digit_of(n % 10));
        assert(text@ =~= old(text)@ + decimal(n as nat));
    }
}

/// Appends `n` in decimal to `text`, with a minus sign in front if it is
/// negative.
pub fn push_signed_decimal(text: &mut String, n: isize)
    ensures
        final(text)@ == old(text)@ + signed_decimal(n as int),
{
    if n < 0 {
        let magnitude: usize = ((-(n + 1)) as usize) + 1;
        push_char(text, '-');
        push_decimal(text, magnitude);
        assert(text@ =~= old(text)@ + signed_decimal(n as int));
    } else {
        push_decimal(text, n as usize);
    }
}

/// Appends `tail` to `text`.
pub fn push_text(text: &mut String, tail: &str)
    ensures
        final(text)@ == old(text)@ + tail@,
{
    vstd::string::StringExecFns::append(text, tail);
}

} // verus!
