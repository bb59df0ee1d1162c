//! The character classes of URIs, under the names that RFC 3986 gives them.

use vstd::prelude::*;

verus! {

/// ASCII letters.
pub open spec fn letter(c: char) -> bool {
    'a' <= c <= 'z' || 'A' <= c <= 'Z'
}

/// ASCII decimal digits.
pub open spec fn digit(c: char) -> bool {
    '0' <= c <= '9'
}

/// ASCII hexadecimal digits, in either case.
pub open spec fn hex_digit(c: char) -> bool {
    digit(c) || 'a' <= c <= 'f' || 'A' <= c <= 'F'
}

/// `unreserved`: letters, digits and four marks.
pub open spec fn unreserved(c: char) -> bool {
    letter(c) || digit(c) || c == '-' || c == '.' || c == '_' || c == '~'
}

/// `sub-delims`.
pub open spec fn sub_delim(c: char) -> bool {
    ||| c == '!'
    ||| c == '$'
    ||| c == '&'
    ||| c == '\''
    ||| c == '('
    ||| c == ')'
    ||| c == '*'
    ||| c == '+'
    ||| c == ','
    ||| c == ';'
    ||| c == '='
}

/// `gen-delims`.
pub open spec fn gen_delim(c: char) -> bool {
    c == ':' || c == '/' || c == '?' || c == '#' || c == '[' || c == ']' || c == '@'
}

/// `reserved`: the general delimiters and the sub-delimiters.
pub open spec fn reserved(c: char) -> bool {
    gen_delim(c) || sub_delim(c)
}

/// The character that opens a percent-encoded triplet.
pub open spec fn pct_encoded_start(c: char) -> bool {
    c == '%'
}

/// The classes are disjoint: no character is both reserved and unreserved, none
/// is both a general delimiter and a sub-delimiter, and `%` is in neither.
pub proof fn law_classes_disjoint(c: char)
    ensures
        !(unreserved(c) && reserved(c)),
        !(gen_delim(c) && sub_delim(c)),
        pct_encoded_start(c) ==> !unreserved(c) && !reserved(c),
{
}

/// The classes by code point, in the order of the code table.
pub proof fn law_classes_by_code_point(c: char)
    ensures
        letter(c) <==> 0x41 <= c as u32 <= 0x5a || 0x61 <= c as u32 <= 0x7a,
        digit(c) <==> 0x30 <= c as u32 <= 0x39,
        hex_digit(c) <==> 0x30 <= c as u32 <= 0x39 || 0x41 <= c as u32 <= 0x46 || 0x61 <= c as u32
            <= 0x66,
        unreserved(c) <==> c as u32 == 0x2d || c as u32 == 0x2e || 0x30 <= c as u32 <= 0x39 || 0x41
            <= c as u32 <= 0x5a || c as u32 == 0x5f || 0x61 <= c as u32 <= 0x7a || c as u32 == 0x7e,
        sub_delim(c) <==> c as u32 == 0x21 || c as u32 == 0x24 || 0x26 <= c as u32 <= 0x2c || c
            as u32 == 0x3b || c as u32 == 0x3d,
        gen_delim(c) <==> c as u32 == 0x23 || c as u32 == 0x2f || c as u32 == 0x3a || 0x3f <= c
            as u32 <= 0x40 || c as u32 == 0x5b || c as u32 == 0x5d,
        reserved(c) <==> c as u32 == 0x21 || 0x23 <= c as u32 <= 0x24 || 0x26 <= c as u32 <= 0x2c
            || c as u32 == 0x2f || 0x3a <= c as u32 <= 0x3b || c as u32 == 0x3d || 0x3f <= c as u32
            <= 0x40 || c as u32 == 0x5b || c as u32 == 0x5d,
        pct_encoded_start(c) <==> c as u32 == 0x25,
{
}

/// Whether `ch` is an ASCII letter.
pub(crate) fn is_letter(ch: char) -> (b: bool)
    ensures
        b == letter(ch),
{
    ('a' <= ch && ch <= 'z') || ('A' <= ch && ch <= 'Z')
}

/// Whether `ch` is an ASCII digit.
pub(crate) fn is_digit(ch: char) -> (b: bool)
    ensures
        b == digit(ch),
{
    '0' <= ch && ch <= '9'
}

/// Whether `ch` is an ASCII hexadecimal digit.
pub(crate) fn is_hex_digit(ch: char) -> (b: bool)
    ensures
        b == hex_digit(ch),
{
    is_digit(ch) || ('a' <= ch && ch <= 'f') || ('A' <= ch && ch <= 'F')
}

/// Whether `ch` is unreserved.
pub fn is_unreserved(ch: char) -> (b: bool)
    ensures
        b == unreserved(ch),
{
    is_letter(ch) || is_digit(ch) || ch == '-' || ch == '.' || ch == '_' || ch == '~'
}

/// Whether `ch` is a sub-delimiter.
pub fn is_sub_delim(ch: char) -> (b: bool)
    ensures
        b == sub_delim(ch),
{
    matches!(ch, '!' | '$' | '&' | '\'' | '(' | ')' | '*' | '+' | ',' | ';' | '=')
}

/// Whether `ch` opens a percent-encoded triplet.
pub fn is_pct_encoded_start(ch: char) -> (b: bool)
    ensures
        b == pct_encoded_start(ch),
{
    ch == '%'
}

/// Whether `ch` is a general delimiter.
pub fn is_gen_delim(ch: char) -> (b: bool)
    ensures
        b == gen_delim(ch),
{
    matches!(ch, ':' | '/' | '?' | '#' | '[' | ']' | '@')
}

/// Whether `ch` is reserved.
pub fn is_reserved(ch: char) -> (b: bool)
    ensures
        b == reserved(ch),
{
    is_gen_delim(ch) || is_sub_delim(ch)
}

} // verus!
