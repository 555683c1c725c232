//! Character and string primitives that the lexer and the filter evaluator
//! build on.  The Unicode-dependent operations (whitespace and alphanumeric
//! classification, lowercasing, substring search, UUID syntax) are delegated
//! to std and to the `uuid` crate through trusted wrappers; everything else
//! in the crate is stated and proved in terms of the names introduced here.

use vstd::prelude::*;

verus! {

/// The Unicode `White_Space` classification of a character, as decided by
/// `char::is_whitespace`.  A pure function of the character.
pub uninterp spec fn char_is_whitespace(c: char) -> bool;

/// The Unicode alphanumeric classification of a character, as decided by
/// `char::is_alphanumeric`.  A pure function of the character.
pub uninterp spec fn char_is_alphanumeric(c: char) -> bool;

/// The Unicode lowercase conversion of a character sequence, as computed by
/// `str::to_lowercase`.  A pure function of the characters alone.
pub uninterp spec fn lower_of(s: Seq<char>) -> Seq<char>;

/// Relies on `char::is_whitespace`: true exactly for characters with the
/// Unicode `White_Space` property.
#[verifier::external_body]
pub fn is_whitespace_char(c: char) -> (r: bool)
    ensures
        r == char_is_whitespace(c),
{
    c.is_whitespace()
}

/// Relies on `char::is_alphanumeric`: true exactly for Unicode alphanumeric
/// characters.
#[verifier::external_body]
pub fn is_alphanumeric_char(c: char) -> (r: bool)
    ensures
        r == char_is_alphanumeric(c),
{
    c.is_alphanumeric()
}

/// Relies on `str::to_lowercase`: the result is determined by the input
/// characters alone, and an empty input gives an empty result.
#[verifier::external_body]
pub fn to_lowercase_str(s: &str) -> (r: String)
    ensures
        r@ == lower_of(s@),
        s@.len() == 0 ==> r@.len() == 0,
{
    s.to_lowercase()
}

/// `needle` occurs contiguously inside `hay`.
pub open spec fn spec_contains(hay: Seq<char>, needle: Seq<char>) -> bool {
    exists|i: int|
        0 <= i && i + needle.len() <= hay.len() && #[trigger] hay.subrange(i, i + needle.len())
            == needle
}

/// Relies on `str::contains` with a `&str` pattern: true iff the pattern
/// matches a sub-slice of the haystack.  Because valid UTF-8 is
/// self-synchronizing, a byte-level match always falls on character
/// boundaries, so this coincides with containment of the character sequences.
#[verifier::external_body]
pub fn str_contains(hay: &str, needle: &str) -> (r: bool)
    ensures
        r == spec_contains(hay@, needle@),
{
    hay.contains(needle)
}

/// Relies on `<str as PartialEq>::eq`: two string slices are equal iff they
/// consist of the same characters.
#[verifier::external_body]
pub fn str_eq(a: &str, b: &str) -> (r: bool)
    ensures
        r == (a@ == b@),
{
    a == b
}

/// A hexadecimal digit, either case.
pub open spec fn is_hex_digit_char(c: char) -> bool {
    ('0' as u32 <= c as u32 && c as u32 <= '9' as u32) || ('a' as u32 <= c as u32 && c as u32
        <= 'f' as u32) || ('A' as u32 <= c as u32 && c as u32 <= 'F' as u32)
}

/// The numeric value of a hexadecimal digit.
pub open spec fn hex_digit_value(c: char) -> int {
    if '0' as u32 <= c as u32 && c as u32 <= '9' as u32 {
        c as u32 - '0' as u32
    } else if 'a' as u32 <= c as u32 && c as u32 <= 'f' as u32 {
        c as u32 - 'a' as u32 + 10
    } else {
        c as u32 - 'A' as u32 + 10
    }
}

/// One position of a hyphenated UUID literal: a hyphen at the four fixed
/// separator positions, a hexadecimal digit everywhere else.
pub open spec fn uuid_char_ok(s: Seq<char>, i: int) -> bool {
    if i == 8 || i == 13 || i == 18 || i == 23 {
        s[i] == '-'
    } else {
        is_hex_digit_char(s[i])
    }
}

/// A syntactically valid hyphenated UUID literal: 36 characters, hyphens at
/// positions 8, 13, 18 and 23, hexadecimal digits everywhere else.
pub open spec fn is_uuid_literal(s: Seq<char>) -> bool {
    s.len() == 36 && forall|i: int| 0 <= i < 36 ==> #[trigger] uuid_char_ok(s, i)
}

/// Relies on `uuid::Uuid::parse_str`: for a 36-character input only the
/// hyphenated format can match, so the parse succeeds exactly when the input
/// has hyphens at positions 8, 13, 18 and 23 and hexadecimal digits (either
/// case) everywhere else.
#[verifier::external_body]
pub fn uuid_literal_valid(s: &str) -> (r: bool)
    requires
        s@.len() == 36,
    ensures
        r == is_uuid_literal(s@),
{
    uuid::Uuid::parse_str(s).is_ok()
}

} // verus!
