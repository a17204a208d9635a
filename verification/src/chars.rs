//! Character properties that the standard library and `unicode-width` know.
//!
//! Each property is spelled out for ASCII; beyond it, it is whatever the
//! library's tables say, under a name of its own.
use unicode_width::UnicodeWidthChar;
use vstd::prelude::*;

verus! {

pub open spec fn ascii(c: char) -> bool {
    (c as u32) < 0x80
}

/// The answer of `char::is_whitespace` beyond ASCII.
pub uninterp spec fn white_beyond(c: char) -> bool;

/// The answer of `char::is_alphanumeric` beyond ASCII.
pub uninterp spec fn alnum_beyond(c: char) -> bool;

/// The answer of `char::is_lowercase` beyond ASCII.
pub uninterp spec fn lower_beyond(c: char) -> bool;

/// The answer of `char::is_uppercase` beyond ASCII.
pub uninterp spec fn upper_beyond(c: char) -> bool;

/// What `char::to_lowercase` yields beyond ASCII.
pub uninterp spec fn lowercase_beyond(c: char) -> Seq<char>;

/// What `char::to_uppercase` yields beyond ASCII.
pub uninterp spec fn uppercase_beyond(c: char) -> Seq<char>;

/// The columns that `UnicodeWidthChar::width` gives beyond ASCII; `None` for
/// a control character.
pub uninterp spec fn columns_beyond(c: char) -> Option<usize>;

/// White space: the space, the tab to the carriage return, and what Unicode
/// adds to them.
pub open spec fn white(c: char) -> bool {
    if ascii(c) {
        c == ' ' || 9 <= (c as u32) <= 13
    } else {
        white_beyond(c)
    }
}

/// Letters and digits.
pub open spec fn alnum(c: char) -> bool {
    if ascii(c) {
        '0' <= c <= '9' || 'A' <= c <= 'Z' || 'a' <= c <= 'z'
    } else {
        alnum_beyond(c)
    }
}

/// Lowercase letters.
pub open spec fn lower(c: char) -> bool {
    if ascii(c) {
        'a' <= c <= 'z'
    } else {
        lower_beyond(c)
    }
}

/// Uppercase letters.
pub open spec fn upper(c: char) -> bool {
    if ascii(c) {
        'A' <= c <= 'Z'
    } else {
        upper_beyond(c)
    }
}

/// The lowercase mapping of a character.
pub open spec fn lowercase_of(c: char) -> Seq<char> {
    if ascii(c) {
        seq![if 'A' <= c <= 'Z' { (c as u32 + 32) as char } else { c }]
    } else {
        lowercase_beyond(c)
    }
}

/// The uppercase mapping of a character; one character may map to several.
pub open spec fn uppercase_of(c: char) -> Seq<char> {
    if ascii(c) {
        seq![if 'a' <= c <= 'z' { (c as u32 - 32) as char } else { c }]
    } else {
        uppercase_beyond(c)
    }
}

/// How many columns a character takes up; `None` for a control character.
pub open spec fn columns(c: char) -> Option<usize> {
    if ascii(c) {
        if (c as u32) < 0x20 || c as u32 == 0x7f {
            None
        } else {
            Some(1usize)
        }
    } else {
        columns_beyond(c)
    }
}

/// `char::is_whitespace`: Unicode's `White_Space` property.
#[verifier::external_body]
pub(crate) fn is_white(c: char) -> (b: bool)
    ensures
        b == white(c),
        !ascii(c) ==> b == white_beyond(c),
{
    c.is_whitespace()
}

/// `char::is_alphanumeric`: alphabetic or numeric in Unicode's terms.
#[verifier::external_body]
pub(crate) fn is_alnum(c: char) -> (b: bool)
    ensures
        b == alnum(c),
        !ascii(c) ==> b == alnum_beyond(c),
{
    c.is_alphanumeric()
}

/// `char::is_lowercase`: Unicode's `Lowercase` property.
#[verifier::external_body]
pub(crate) fn is_lower(c: char) -> (b: bool)
    ensures
        b == lower(c),
        !ascii(c) ==> b == lower_beyond(c),
{
    c.is_lowercase()
}

/// `char::is_uppercase`: Unicode's `Uppercase` property.
#[verifier::external_body]
pub(crate) fn is_upper(c: char) -> (b: bool)
    ensures
        b == upper(c),
        !ascii(c) ==> b == upper_beyond(c),
{
    c.is_uppercase()
}

/// `char::to_lowercase`: the characters that its iterator yields.
#[verifier::external_body]
pub(crate) fn char_to_lowercase(c: char) -> (v: Vec<char>)
    ensures
        v@ == lowercase_of(c),
        !ascii(c) ==> v@ == lowercase_beyond(c),
{
    c.to_lowercase().collect()
}

/// `char::to_uppercase`: the characters that its iterator yields.
#[verifier::external_body]
pub(crate) fn char_to_uppercase(c: char) -> (v: Vec<char>)
    ensures
        v@ == uppercase_of(c),
        !ascii(c) ==> v@ == uppercase_beyond(c),
{
    c.to_uppercase().collect()
}

/// `UnicodeWidthChar::width`: the displayed width in columns.
#[verifier::external_body]
pub(crate) fn char_columns(c: char) -> (w: Option<usize>)
    ensures
        w == columns(c),
        !ascii(c) ==> w == columns_beyond(c),
{
    c.width()
}

/// `String::push` appends the character.
pub assume_specification[ String::push ](s: &mut String, c: char)
    ensures
        final(s)@ == old(s)@.push(c),
;

/// `String::push_str` appends the characters of the argument.
pub assume_specification[ String::push_str ](s: &mut String, t: &str)
    ensures
        final(s)@ == old(s)@ + t@,
;

} // verus!
