//! The classes of characters that the grammar tells apart.

use vstd::prelude::*;

verus! {

/// Whether `c` is a letter or a number in the sense of Unicode: what
/// `char::is_alphanumeric` returns for it.
pub uninterp spec fn alphanumeric(c: char) -> bool;

/// `char::is_alphanumeric` of the standard library. Its answer is a fixed
/// property of the character, which this crate does not spell out: it is
/// known here only by the name `alphanumeric`.
pub assume_specification[ char::is_alphanumeric ](c: char) -> (b: bool)
    ensures
        b == alphanumeric(c),
;

/// `String::push` of the standard library, which appends the character to
/// the end of the string.
pub assume_specification[ String::push ](string: &mut String, c: char)
    ensures
        final(string)@ == old(string)@.push(c),
;

/// White space in the sense of Unicode: one of the twenty-five characters
/// that have the property `White_Space`.
pub open spec fn whitespace(c: char) -> bool {
    ||| '\u{9}' <= c <= '\u{d}'
    ||| c == ' '
    ||| c == '\u{85}'
    ||| c == '\u{a0}'
    ||| c == '\u{1680}'
    ||| '\u{2000}' <= c <= '\u{200a}'
    ||| c == '\u{2028}'
    ||| c == '\u{2029}'
    ||| c == '\u{202f}'
    ||| c == '\u{205f}'
    ||| c == '\u{3000}'
}

/// One of the ten ASCII digits.
pub open spec fn digit(c: char) -> bool {
    '0' <= c <= '9'
}

/// One of the fifty-two ASCII letters.
pub open spec fn letter(c: char) -> bool {
    'a' <= c <= 'z' || 'A' <= c <= 'Z'
}

/// A character that a text identifier is made of: an ASCII letter, an
/// ASCII digit or the underscore.
pub open spec fn identifier_part(c: char) -> bool {
    letter(c) || digit(c) || c == '_'
}

/// One of the thirteen characters that an operator identifier is made of.
pub open spec fn operator(c: char) -> bool {
    c == '*' || c == '+' || c == '-' || c == '/' || c == '<' || c == '>' || c == '=' || c == '!'
        || c == '$' || c == '|' || c == '?' || c == '^' || c == '~'
}

/// Any character but the newline: what the body of a comment is made of.
pub open spec fn within_line(c: char) -> bool {
    c != '\n'
}

/// One of the three brackets that end an expression.
pub open spec fn closing(c: char) -> bool {
    c == '}' || c == ']' || c == ')'
}

pub fn is_whitespace(c: &char) -> (b: bool)
    ensures
        b == whitespace(*c),
{
    match *c {
        '\u{9}'..='\u{d}' | ' ' | '\u{85}' | '\u{a0}' | '\u{1680}' => true,
        '\u{2000}'..='\u{200a}' | '\u{2028}' | '\u{2029}' | '\u{202f}' | '\u{205f}' => true,
        '\u{3000}' => true,
        _ => false,
    }
}

pub fn is_digit(c: &char) -> (b: bool)
    ensures
        b == digit(*c),
{
    '0' <= *c && *c <= '9'
}

pub fn is_letter(c: &char) -> (b: bool)
    ensures
        b == letter(*c),
{
    ('a' <= *c && *c <= 'z') || ('A' <= *c && *c <= 'Z')
}

pub fn is_identifier_part(c: &char) -> (b: bool)
    ensures
        b == identifier_part(*c),
{
    is_letter(c) || is_digit(c) || *c == '_'
}

pub fn is_operator(c: &char) -> (b: bool)
    ensures
        b == operator(*c),
{
    match *c {
        '*' | '+' | '-' | '/' | '<' | '>' | '=' | '!' | '$' | '|' | '?' | '^' | '~' => true,
        _ => false,
    }
}

pub fn is_within_line(c: &char) -> (b: bool)
    ensures
        b == within_line(*c),
{
    *c != '\n'
}

pub fn is_closing(c: &char) -> (b: bool)
    ensures
        b == closing(*c),
{
    *c == '}' || *c == ']' || *c == ')'
}

/// Whether `c` is a letter or a number in the sense of Unicode.
pub fn is_label_part(c: &char) -> (b: bool)
    ensures
        b == alphanumeric(*c),
{
    c.is_alphanumeric()
}

} // verus!
