//! Pieces shared by the two grammars built on the lexer: the parse error
//! taxonomy, numeric and UUID literal values, and the case-insensitive
//! status words.

use vstd::prelude::*;

use crate::task::TaskStatus;
use crate::textops::hex_digit_value;
use crate::textops::is_hex_digit_char;
use crate::textops::is_uuid_literal;
use crate::textops::lower_of;
use crate::textops::to_lowercase_str;
use crate::lexer::is_digit_char;

verus! {

/// A grammar violation: a term was expected but the stream ended or an
/// operator stood there; a parenthesis had no match; two different operator
/// kinds met at one nesting level without parentheses; a status word was not
/// recognized; or a numeric literal was too large to represent.
#[derive(Debug, PartialEq, Eq, Structural, Clone, Copy)]
pub enum ParseError {
    ExpectedTerm,
    UnmatchedParenthesis,
    MixedOperators,
    UnknownStatus,
    NumberTooLarge,
}

/// The decimal value of the first `n` characters (zero when `n` lies
/// outside the sequence).
pub open spec fn dec_value(s: Seq<char>, n: int) -> int
    decreases n,
{
    if n <= 0 || s.len() < n {
        0
    } else {
        dec_value(s, n - 1) * 10 + (s[n - 1] as u32 - 48)
    }
}

/// The numeric value of a decimal literal, when it is one and fits.
pub open spec fn spec_parse_usize(s: Seq<char>) -> Option<usize> {
    if s.len() > 0 && (forall|i: int| 0 <= i < s.len() ==> is_digit_char(#[trigger] s[i]))
        && dec_value(s, s.len() as int) <= usize::MAX {
        Some(dec_value(s, s.len() as int) as usize)
    } else {
        None
    }
}

/// Over digits the running decimal value never shrinks.
proof fn lemma_dec_value_mono(s: Seq<char>, n: int, m: int)
    requires
        0 <= n <= m <= s.len(),
        forall|i: int| 0 <= i < s.len() ==> is_digit_char(#[trigger] s[i]),
    ensures
        0 <= dec_value(s, n) <= dec_value(s, m),
    decreases m,
{
    if m > n {
        lemma_dec_value_mono(s, n, m - 1);
    } else {
        if n > 0 {
            lemma_dec_value_mono(s, 0, n - 1);
        }
    }
}

/// Reads a decimal literal into a `usize`: exactly the value
/// `spec_parse_usize` describes, and an error exactly when the literal is
/// empty, holds a non-digit, or overflows.
#[verifier::loop_isolation(false)]
pub fn parse_usize(s: &str) -> (r: Result<usize, ParseError>)
    ensures
        match r {
            Ok(v) => spec_parse_usize(s@) == Some(v),
            Err(e) => spec_parse_usize(s@) is None && e == ParseError::NumberTooLarge,
        },
{
    let n: usize = s.unicode_len();
    if n == 0 {
        return Err(ParseError::NumberTooLarge);
    }
    let mut acc: usize = 0;
    let mut i: usize = 0;
    while i < n
        invariant
            i <= n,
            forall|j: int| 0 <= j < i ==> is_digit_char(#[trigger] s@[j]),
            acc == dec_value(s@, i as int),
        decreases n - i,
    {
        let c = s.get_char(i);
        let u = c as u32;
        if u < 48 || u > 57 {
            return Err(ParseError::NumberTooLarge);
        }
        let d: usize = (u - 48) as usize;
        let next = match acc.checked_mul(10) {
            Some(m) => m.checked_add(d),
            None => None,
        };
        match next {
            Some(v) => {
                acc = v;
            },
            None => {
                proof {
                    if forall|j: int| 0 <= j < s@.len() ==> is_digit_char(#[trigger] s@[j]) {
                        lemma_dec_value_mono(s@, i + 1, s@.len() as int);
                        assert(dec_value(s@, i + 1) > usize::MAX);
                    }
                }
                return Err(ParseError::NumberTooLarge);
            },
        }
        i = i + 1;
    }
    Ok(acc)
}

/// The value of a hyphenated UUID literal read as 32 hexadecimal digits,
/// hyphens skipped (zero outside the sequence).
pub open spec fn uuid_val(s: Seq<char>, n: int) -> int
    decreases n,
{
    if n <= 0 || s.len() < n {
        0
    } else if s[n - 1] == '-' {
        uuid_val(s, n - 1)
    } else {
        uuid_val(s, n - 1) * 16 + hex_digit_value(s[n - 1])
    }
}

/// The 128-bit value of a hyphenated UUID literal, when it is one.  A
/// syntactically valid literal has exactly 32 hexadecimal digits, so its
/// value always fits.
pub open spec fn spec_parse_uuid(s: Seq<char>) -> Option<u128> {
    if is_uuid_literal(s) && uuid_val(s, s.len() as int) <= u128::MAX {
        Some(uuid_val(s, s.len() as int) as u128)
    } else {
        None
    }
}

/// Over hexadecimal digits and hyphens the running value never shrinks.
proof fn lemma_uuid_val_mono(s: Seq<char>, n: int, m: int)
    requires
        0 <= n <= m <= s.len(),
        forall|i: int| 0 <= i < s.len() ==> (#[trigger] s[i]) == '-' || is_hex_digit_char(s[i]),
    ensures
        0 <= uuid_val(s, n) <= uuid_val(s, m),
    decreases m,
{
    if m > n {
        lemma_uuid_val_mono(s, n, m - 1);
    } else {
        if n > 0 {
            lemma_uuid_val_mono(s, 0, n - 1);
        }
    }
}

/// Reads a hyphenated UUID literal into its 128-bit value: exactly what
/// `spec_parse_uuid` describes.
#[verifier::loop_isolation(false)]
pub fn parse_uuid_value(s: &str) -> (r: Result<u128, ParseError>)
    requires
        is_uuid_literal(s@),
    ensures
        match r {
            Ok(v) => spec_parse_uuid(s@) == Some(v),
            Err(e) => spec_parse_uuid(s@) is None && e == ParseError::NumberTooLarge,
        },
{
    let n: usize = s.unicode_len();
    let mut acc: u128 = 0;
    let mut i: usize = 0;
    while i < n
        invariant
            i <= n,
            n == s@.len(),
            acc == uuid_val(s@, i as int),
        decreases n - i,
    {
        let c = s.get_char(i);
        if c == '-' {
            i = i + 1;
        } else {
            proof {
                assert(crate::textops::uuid_char_ok(s@, i as int));
            }
            let u = c as u32;
            let d: u128 = if 48 <= u && u <= 57 {
                (u - 48) as u128
            } else if 97 <= u && u <= 102 {
                (u - 97 + 10) as u128
            } else {
                (u - 65 + 10) as u128
            };
            let next = match acc.checked_mul(16) {
                Some(m) => m.checked_add(d),
                None => None,
            };
            match next {
                Some(v) => {
                    acc = v;
                },
                None => {
                    proof {
                        assert forall|k: int|
                            0 <= k < s@.len() implies ((#[trigger] s@[k]) == '-'
                            || is_hex_digit_char(s@[k])) by {
                            assert(crate::textops::uuid_char_ok(s@, k));
                        }
                        lemma_uuid_val_mono(s@, i + 1, s@.len() as int);
                        assert(uuid_val(s@, i + 1) > u128::MAX);
                    }
                    return Err(ParseError::NumberTooLarge);
                },
            }
            i = i + 1;
        }
    }
    Ok(acc)
}

/// The tag name carried by a tag token: its literal without the leading
/// `+`/`-` character.
pub open spec fn tag_name_of(lit: Seq<char>) -> Seq<char> {
    if lit.len() >= 1 {
        lit.skip(1)
    } else {
        lit
    }
}

/// Strips the `+`/`-` prefix off a tag literal.
pub fn strip_tag_prefix(lit: &String) -> (r: String)
    ensures
        r@ == tag_name_of(lit@),
{
    let llen = lit.as_str().unicode_len();
    if llen == 0 {
        lit.clone()
    } else {
        let s = lit.as_str().substring_char(1, llen);
        proof {
            assert(s@ =~= lit@.skip(1));
        }
        s.to_owned()
    }
}

pub open spec fn word_pending() -> Seq<char> {
    seq!['p', 'e', 'n', 'd', 'i', 'n', 'g']
}

pub open spec fn word_completed() -> Seq<char> {
    seq!['c', 'o', 'm', 'p', 'l', 'e', 't', 'e', 'd']
}

pub open spec fn word_deleted() -> Seq<char> {
    seq!['d', 'e', 'l', 'e', 't', 'e', 'd']
}

/// The status named by a word, compared case-insensitively; `None` for an
/// unrecognized word.
pub open spec fn status_of_word(w: Seq<char>) -> Option<TaskStatus> {
    if lower_of(w) == word_pending() {
        Some(TaskStatus::Pending)
    } else if lower_of(w) == word_completed() {
        Some(TaskStatus::Completed)
    } else if lower_of(w) == word_deleted() {
        Some(TaskStatus::Deleted)
    } else {
        None
    }
}

/// Decides which status a word names, exactly as `status_of_word` states.
pub fn status_from_word(w: &str) -> (r: Option<TaskStatus>)
    ensures
        r == status_of_word(w@),
{
    proof {
        reveal_strlit("pending");
        reveal_strlit("completed");
        reveal_strlit("deleted");
        assert("pending"@ =~= word_pending());
        assert("completed"@ =~= word_completed());
        assert("deleted"@ =~= word_deleted());
    }
    let l = to_lowercase_str(w);
    if crate::textops::str_eq(l.as_str(), "pending") {
        Some(TaskStatus::Pending)
    } else if crate::textops::str_eq(l.as_str(), "completed") {
        Some(TaskStatus::Completed)
    } else if crate::textops::str_eq(l.as_str(), "deleted") {
        Some(TaskStatus::Deleted)
    } else {
        None
    }
}

} // verus!
