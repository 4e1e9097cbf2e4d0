//! The text that crosses the machine's border: what the output
//! instructions write, and what the input instructions make of a line.

use vstd::prelude::*;
use vstd::std_specs::iter::IteratorSpec;

verus! {

/// The byte a character is stored as: its code point modulo 256.
pub open spec fn low_byte(c: char) -> u8 {
    ((c as u32) % 256) as u8
}

/// The character of the decimal digit `d`.
pub open spec fn digit(d: u8) -> char
    recommends
        d <= 9,
{
    (0x30 + d) as char
}

/// The decimal numeral of `a`, without leading zeros.
pub open spec fn decimal(a: u8) -> Seq<char> {
    if a < 10 {
        seq![digit(a)]
    } else if a < 100 {
        seq![digit(a / 10), digit(a % 10)]
    } else {
        seq![digit(a / 100), digit(a / 10 % 10), digit(a % 10)]
    }
}

/// The one-character text whose character has the code point `a`.
pub open spec fn letter(a: u8) -> Seq<char> {
    seq![a as char]
}

/// Whether `c` is one of the decimal digits `0` to `9`.
pub open spec fn is_digit(c: char) -> bool {
    0x30 <= c as u32 <= 0x39
}

/// The number that a sequence of decimal digits denotes.
pub open spec fn digits_value(s: Seq<char>) -> nat
    decreases s.len(),
{
    if s.len() == 0 {
        0
    } else {
        (digits_value(s.drop_last()) * 10 + (s.last() as u32 - 0x30)) as nat
    }
}

/// The byte that `s` is the decimal numeral of: an optional `+`, then at
/// least one digit and nothing but digits, the whole worth at most 255.
/// `None` for every other text.
pub open spec fn parse_decimal(s: Seq<char>) -> Option<u8> {
    let d = if s.len() > 0 && s[0] == '+' {
        s.skip(1)
    } else {
        s
    };
    if d.len() > 0 && (forall|i: int| 0 <= i < d.len() ==> is_digit(#[trigger] d[i]))
        && digits_value(d) <= 255 {
        Some(digits_value(d) as u8)
    } else {
        None
    }
}

/// `text` without the white space at its two ends, as `str::trim` leaves
/// it. White space is what Unicode's property `White_Space` says it is.
pub uninterp spec fn trimmed(text: Seq<char>) -> Seq<char>;

/// The byte that a line of input gives to the numeric input instruction:
/// the number written on it, white space around it aside, and 0 where
/// there is none.
pub open spec fn number_of(line: Seq<char>) -> u8 {
    match parse_decimal(trimmed(line)) {
        Some(v) => v,
        None => 0,
    }
}

/// The byte that a line of input gives to the character input
/// instruction: its first character, and 0 where the line is empty.
pub open spec fn char_of(line: Seq<char>) -> u8 {
    if line.len() == 0 {
        0
    } else {
        low_byte(line[0])
    }
}

/// `String::push`: appends one character to the end of the string.
#[verifier::external_body]
pub(crate) fn push_char(s: &mut String, c: char)
    ensures
        final(s)@ == old(s)@.push(c),
{
    s.push(c)
}

/// `str::trim`: the slice without leading and trailing white space. The
/// result is a function of the text alone; `trimmed` is its name.
#[verifier::external_body]
fn trim(s: &str) -> (r: &str)
    ensures
        r@ == trimmed(s@),
{
    s.trim()
}

/// `str::parse::<u8>`: a decimal numeral, with an optional `+` before its
/// digits, parses to its value if that is at most 255; an empty text, a
/// character that is no digit anywhere else, or a larger value is an
/// error, here `None`.
#[verifier::external_body]
fn parse_u8(s: &str) -> (r: Option<u8>)
    ensures
        r == parse_decimal(s@),
{
    s.parse::<u8>().ok()
}

/// The byte a character is stored as.
pub fn byte_of(c: char) -> (b: u8)
    ensures
        b == low_byte(c),
{
    let code: u32 = c as u32;
    (code % 256) as u8
}

/// The text that the numeric output instruction writes for `a`.
pub fn decimal_text(a: u8) -> (text: String)
    ensures
        text@ == decimal(a),
{
    let mut text = String::new();
    if a >= 100 {
        push_char(&mut text, (0x30 + a / 100) as char);
    }
    if a >= 10 {
        push_char(&mut text, (0x30 + a / 10 % 10) as char);
    }
    push_char(&mut text, (0x30 + a % 10) as char);
    assert(text@ =~= decimal(a));
    text
}

/// The text that the character output instruction writes for `a`.
pub fn letter_text(a: u8) -> (text: String)
    ensures
        text@ == letter(a),
{
    let mut text = String::new();
    push_char(&mut text, a as char);
    assert(text@ =~= letter(a));
    text
}

/// What the numeric input instruction pushes for a line of input.
pub fn read_number(line: &str) -> (v: u8)
    ensures
        v == number_of(line@),
{
    match parse_u8(trim(line)) {
        Some(v) => v,
        None => 0,
    }
}

/// What the character input instruction pushes for a line of input.
pub fn read_char(line: &str) -> (v: u8)
    ensures
        v == char_of(line@),
{
    let mut it = line.chars();
    match it.next() {
        Some(c) => byte_of(c),
        None => 0,
    }
}

} // verus!
