//! The query-language lexer.  It turns raw query or mutation text into typed
//! tokens, one at a time.  `spec_token_at` is the specification of the whole
//! scan: it states, for any input and position, which token starts there and
//! where it ends, following the scanning rules in priority order (whitespace
//! skip, UUID window, digit run, tag prefix, `and`/`or`/`xor` keywords with
//! word lookahead, the `status:` prefix, parentheses, plain word).

use vstd::prelude::*;

use crate::textops::char_is_alphanumeric;
use crate::textops::char_is_whitespace;
use crate::textops::is_alphanumeric_char;
use crate::textops::is_uuid_literal;
use crate::textops::is_whitespace_char;
use crate::textops::str_eq;
use crate::textops::uuid_literal_valid;

verus! {

#[derive(Debug, PartialEq, Eq, Structural, Default, Clone, Copy)]
pub enum TokenType {
    Word,
    TagPlus,
    TagMinus,
    FilterStatus,
    Int,
    Uuid,
    #[default]
    Eof,
    LeftParenthesis,
    RightParenthesis,
    OperatorAnd,
    OperatorOr,
    OperatorXor,
}

/// The display name of a token type.
pub open spec fn spec_token_kind_name(t: TokenType) -> Seq<char> {
    match t {
        TokenType::Word => "Word"@,
        TokenType::TagPlus => "TagPlus"@,
        TokenType::TagMinus => "TagMinus"@,
        TokenType::FilterStatus => "FilterStatus"@,
        TokenType::Int => "Int"@,
        TokenType::Uuid => "Uuid"@,
        TokenType::Eof => "Eof"@,
        TokenType::LeftParenthesis => "LeftParenthesis"@,
        TokenType::RightParenthesis => "RightParenthesis"@,
        TokenType::OperatorAnd => "OperatorAnd"@,
        TokenType::OperatorOr => "OperatorOr"@,
        TokenType::OperatorXor => "OperatorXor"@,
    }
}

impl TokenType {
    /// The token type's name, for messages.
    pub fn kind_name(&self) -> (r: String)
        ensures
            r@ == spec_token_kind_name(*self),
    {
        match self {
            TokenType::Word => "Word".to_owned(),
            TokenType::TagPlus => "TagPlus".to_owned(),
            TokenType::TagMinus => "TagMinus".to_owned(),
            TokenType::FilterStatus => "FilterStatus".to_owned(),
            TokenType::Int => "Int".to_owned(),
            TokenType::Uuid => "Uuid".to_owned(),
            TokenType::Eof => "Eof".to_owned(),
            TokenType::LeftParenthesis => "LeftParenthesis".to_owned(),
            TokenType::RightParenthesis => "RightParenthesis".to_owned(),
            TokenType::OperatorAnd => "OperatorAnd".to_owned(),
            TokenType::OperatorOr => "OperatorOr".to_owned(),
            TokenType::OperatorXor => "OperatorXor".to_owned(),
        }
    }
}

#[derive(Debug, Clone)]
pub struct Token {
    pub token_type: TokenType,
    pub literal: String,
}

/// Scanning a token never fails; the only fallible internal read is the
/// fixed-width UUID window, and that failure only makes the scan fall
/// through to the later rules.
#[derive(Debug, PartialEq, Eq, Structural, Clone, Copy)]
pub enum LexError {
    TruncatedUuidWindow,
}

/// The ghost description of one scanned token: its type, its literal
/// characters, and the character positions where it starts and ends.
#[verifier::ext_equal]
pub ghost struct LexedToken {
    pub typ: TokenType,
    pub lit: Seq<char>,
    pub start: int,
    pub end: int,
}

/// A character that ends a word segment: whitespace, a parenthesis, or NUL.
pub open spec fn is_seg_char(c: char) -> bool {
    char_is_whitespace(c) || c == '(' || c == ')' || c == '\u{0}'
}

/// A character that may appear in a tag or keyword-adjacent word.
pub open spec fn is_word_char(c: char) -> bool {
    char_is_alphanumeric(c) || c == '_'
}

/// A decimal digit.
pub open spec fn is_digit_char(c: char) -> bool {
    '0' as u32 <= c as u32 && c as u32 <= '9' as u32
}

/// The first position at or after `pos` where `p` stops holding (or the end
/// of the input).
pub open spec fn scan_run(s: Seq<char>, pos: int, p: spec_fn(char) -> bool) -> int
    decreases s.len() - pos,
    when 0 <= pos <= s.len()
{
    if pos == s.len() || !p(s[pos]) {
        pos
    } else {
        scan_run(s, pos + 1, p)
    }
}

pub proof fn lemma_scan_run(s: Seq<char>, pos: int, p: spec_fn(char) -> bool)
    requires
        0 <= pos <= s.len(),
    ensures
        pos <= scan_run(s, pos, p) <= s.len(),
        forall|j: int| pos <= j < scan_run(s, pos, p) ==> p(#[trigger] s[j]),
        scan_run(s, pos, p) < s.len() ==> !p(s[scan_run(s, pos, p)]),
    decreases s.len() - pos,
{
    if pos == s.len() || !p(s[pos]) {
    } else {
        lemma_scan_run(s, pos + 1, p);
    }
}

/// The position of the first non-whitespace character at or after `pos`.
pub open spec fn skip_ws(s: Seq<char>, pos: int) -> int {
    scan_run(s, pos, |c: char| char_is_whitespace(c))
}

/// End of a maximal digit run starting at `pos`.
pub open spec fn digits_end(s: Seq<char>, pos: int) -> int {
    scan_run(s, pos, |c: char| is_digit_char(c))
}

/// End of a maximal word-character run starting at `pos`.
pub open spec fn word_chars_end(s: Seq<char>, pos: int) -> int {
    scan_run(s, pos, |c: char| is_word_char(c))
}

/// End of a maximal run of non-segment characters starting at `pos`.
pub open spec fn word_end(s: Seq<char>, pos: int) -> int {
    scan_run(s, pos, |c: char| !is_seg_char(c))
}

/// The word `w` occurs in `s` starting exactly at `pos`.
pub open spec fn starts_with_at(s: Seq<char>, pos: int, w: Seq<char>) -> bool {
    0 <= pos && pos + w.len() <= s.len() && s.subrange(pos, pos + w.len()) == w
}

/// A `+` or `-` immediately followed by a word character.
pub open spec fn spec_is_tag_prefix(s: Seq<char>, pos: int) -> bool {
    0 <= pos && pos < s.len() && (s[pos] == '+' || s[pos] == '-') && pos + 1 < s.len()
        && is_word_char(s[pos + 1])
}

pub open spec fn kw_and() -> Seq<char> {
    seq!['a', 'n', 'd']
}

pub open spec fn kw_or() -> Seq<char> {
    seq!['o', 'r']
}

pub open spec fn kw_xor() -> Seq<char> {
    seq!['x', 'o', 'r']
}

pub open spec fn kw_status() -> Seq<char> {
    seq!['s', 't', 'a', 't', 'u', 's', ':']
}

/// A keyword at `p` of length `klen` is an operator token only when the
/// character right after it ends a segment; otherwise the keyword is just
/// the head of a larger plain word.
pub open spec fn spec_keyword_token(s: Seq<char>, p: int, klen: int, op: TokenType) -> LexedToken {
    let k = p + klen;
    if k < s.len() && !is_seg_char(s[k]) {
        let e = word_end(s, k);
        LexedToken { typ: TokenType::Word, lit: s.subrange(p, e), start: p, end: e }
    } else {
        LexedToken { typ: op, lit: s.subrange(p, k), start: p, end: k }
    }
}

/// The token that starts at or after `from`: skip whitespace, then apply the
/// scanning rules in priority order.  A lone NUL character matches no rule
/// and would form an empty word; it is consumed as a one-character word so
/// that every scan makes progress.
pub open spec fn spec_token_at(s: Seq<char>, from: int) -> LexedToken {
    let p = skip_ws(s, from);
    if p == s.len() {
        LexedToken { typ: TokenType::Eof, lit: Seq::empty(), start: p, end: p }
    } else if p + 36 <= s.len() && is_uuid_literal(s.subrange(p, p + 36)) {
        LexedToken { typ: TokenType::Uuid, lit: s.subrange(p, p + 36), start: p, end: p + 36 }
    } else if is_digit_char(s[p]) {
        let e = digits_end(s, p);
        LexedToken { typ: TokenType::Int, lit: s.subrange(p, e), start: p, end: e }
    } else if spec_is_tag_prefix(s, p) {
        let e = word_chars_end(s, p + 1);
        let t = if s[p] == '+' {
            TokenType::TagPlus
        } else {
            TokenType::TagMinus
        };
        LexedToken { typ: t, lit: s.subrange(p, e), start: p, end: e }
    } else if starts_with_at(s, p, kw_and()) {
        spec_keyword_token(s, p, 3, TokenType::OperatorAnd)
    } else if starts_with_at(s, p, kw_or()) {
        spec_keyword_token(s, p, 2, TokenType::OperatorOr)
    } else if starts_with_at(s, p, kw_xor()) {
        spec_keyword_token(s, p, 3, TokenType::OperatorXor)
    } else if starts_with_at(s, p, kw_status()) {
        LexedToken { typ: TokenType::FilterStatus, lit: s.subrange(p, p + 7), start: p, end: p + 7 }
    } else if s[p] == ')' {
        LexedToken { typ: TokenType::RightParenthesis, lit: seq![')'], start: p, end: p + 1 }
    } else if s[p] == '(' {
        LexedToken { typ: TokenType::LeftParenthesis, lit: seq!['('], start: p, end: p + 1 }
    } else {
        let e = word_end(s, p);
        if e == p {
            LexedToken { typ: TokenType::Word, lit: s.subrange(p, p + 1), start: p, end: p + 1 }
        } else {
            LexedToken { typ: TokenType::Word, lit: s.subrange(p, e), start: p, end: e }
        }
    }
}

/// Position and length facts about `spec_token_at`: tokens lie inside the
/// input, a non-end token is never empty, and the literal is exactly the
/// consumed span.
pub proof fn lemma_token_at_bounds(s: Seq<char>, from: int)
    requires
        0 <= from <= s.len(),
    ensures
        from <= spec_token_at(s, from).start,
        spec_token_at(s, from).start <= spec_token_at(s, from).end <= s.len(),
        spec_token_at(s, from).typ == TokenType::Eof ==> spec_token_at(s, from).start
            == spec_token_at(s, from).end,
        spec_token_at(s, from).typ != TokenType::Eof ==> spec_token_at(s, from).start
            < spec_token_at(s, from).end,
        spec_token_at(s, from).lit =~= s.subrange(
            spec_token_at(s, from).start,
            spec_token_at(s, from).end,
        ),
        spec_token_at(s, from).start == skip_ws(s, from),
{
    lemma_scan_run(s, from, |c: char| char_is_whitespace(c));
    let p = skip_ws(s, from);
    if p < s.len() {
        lemma_scan_run(s, p, |c: char| is_digit_char(c));
        lemma_scan_run(s, p, |c: char| !is_seg_char(c));
        if p + 1 <= s.len() {
            lemma_scan_run(s, p + 1, |c: char| is_word_char(c));
        }
        if p + 2 <= s.len() {
            lemma_scan_run(s, p + 2, |c: char| !is_seg_char(c));
        }
        if p + 3 <= s.len() {
            lemma_scan_run(s, p + 3, |c: char| !is_seg_char(c));
        }
    }
}

/// The whole token stream from `from` on, ending with (and including) the
/// end-of-input token.  The final branch can never be taken (tokens make
/// progress, see `lemma_token_at_bounds`); it only makes the definition
/// well-founded.
pub open spec fn spec_lex(s: Seq<char>, from: int) -> Seq<LexedToken>
    decreases s.len() - from,
    when 0 <= from <= s.len()
{
    let t = spec_token_at(s, from);
    if t.typ == TokenType::Eof {
        seq![t]
    } else if from < t.end <= s.len() {
        seq![t] + spec_lex(s, t.end)
    } else {
        seq![t]
    }
}

/// The scan cursor over one query string.
pub struct Lexer {
    input: String,
    length: usize,
    position: usize,
}

impl Lexer {
    /// The characters being scanned.
    pub closed spec fn text(&self) -> Seq<char> {
        self.input@
    }

    /// The current scan position, in characters.
    pub closed spec fn pos(&self) -> int {
        self.position as int
    }

    pub closed spec fn wf(&self) -> bool {
        self.length == self.input@.len() && self.position <= self.length
    }

    /// Bounds that well-formedness gives a caller outside this module.
    pub proof fn wf_facts(&self)
        requires
            self.wf(),
        ensures
            0 <= self.pos() <= self.text().len(),
            self.text().len() <= usize::MAX,
    {
    }

    pub fn new(input: String) -> (r: Lexer)
        ensures
            r.wf(),
            r.text() == input@,
            r.pos() == 0,
    {
        let length: usize = input.as_str().unicode_len();
        Lexer { input, length, position: 0 }
    }

    /// The character under the cursor, if any.
    fn current(&self) -> (r: Option<char>)
        requires
            self.wf(),
        ensures
            r == if self.pos() < self.text().len() {
                Some(self.text()[self.pos()])
            } else {
                Option::<char>::None
            },
    {
        if self.position < self.length {
            Some(self.input.as_str().get_char(self.position))
        } else {
            None
        }
    }

    /// Advance the cursor by one character.
    fn read_char(&mut self)
        requires
            old(self).wf(),
            old(self).pos() < old(self).text().len(),
        ensures
            final(self).wf(),
            final(self).text() == old(self).text(),
            final(self).pos() == old(self).pos() + 1,
    {
        self.position = self.position + 1;
    }

    /// A copy of the characters in `[from, to)`.
    pub fn span_text(&self, from: usize, to: usize) -> (r: String)
        requires
            self.wf(),
            from <= to <= self.text().len(),
        ensures
            r@ == self.text().subrange(from as int, to as int),
    {
        let s: &str = self.input.as_str().substring_char(from, to);
        s.to_owned()
    }

    /// The current position, in characters, for callers that track spans.
    pub fn cursor(&self) -> (r: usize)
        ensures
            r == self.pos(),
    {
        self.position
    }

    fn is_digit(&self) -> (r: bool)
        requires
            self.wf(),
        ensures
            r == (self.pos() < self.text().len() && is_digit_char(self.text()[self.pos()])),
    {
        match self.current() {
            Some(c) => {
                let u = c as u32;
                48 <= u && u <= 57
            },
            None => false,
        }
    }

    fn read_int(&mut self) -> (r: String)
        requires
            old(self).wf(),
        ensures
            final(self).wf(),
            final(self).text() == old(self).text(),
            final(self).pos() == digits_end(final(self).text(), old(self).pos()),
            r@ == final(self).text().subrange(old(self).pos(), final(self).pos()),
    {
        let ghost s = self.text();
        let ghost p0 = self.pos();
        proof {
            lemma_scan_run(s, p0, |c: char| is_digit_char(c));
        }
        let start: usize = self.position;
        while self.is_digit()
            invariant
                self.wf(),
                self.text() == s,
                start == p0,
                p0 <= self.pos() <= digits_end(s, p0),
                forall|j: int| p0 <= j < self.pos() ==> is_digit_char(#[trigger] s[j]),
            decreases s.len() - self.pos(),
        {
            proof {
                lemma_scan_run(s, self.pos(), |c: char| is_digit_char(c));
            }
            self.read_char();
            proof {
                lemma_scan_run(s, p0, |c: char| is_digit_char(c));
                if self.pos() > digits_end(s, p0) {
                    assert(!is_digit_char(s[digits_end(s, p0)]));
                }
            }
        }
        proof {
            lemma_scan_run(s, p0, |c: char| is_digit_char(c));
            if self.pos() < digits_end(s, p0) {
                assert(is_digit_char(s[self.pos()]));
            }
        }
        self.span_text(start, self.position)
    }

    fn is_uuid(&self) -> (r: bool)
        requires
            self.wf(),
        ensures
            r == (self.pos() + 36 <= self.text().len() && is_uuid_literal(
                self.text().subrange(self.pos(), self.pos() + 36),
            )),
    {
        if self.length - self.position < 36 {
            return false;
        }
        let w: String = self.span_text(self.position, self.position + 36);
        uuid_literal_valid(w.as_str())
    }

    /// Reads the fixed 36-character UUID window.  Fails without moving when
    /// the remaining input is shorter than the window or the window is not a
    /// valid UUID literal; only a failure of the first kind is a read past
    /// the end, and it never aborts the scan as a whole.
    fn read_uuid(&mut self) -> (r: Result<String, LexError>)
        requires
            old(self).wf(),
        ensures
            final(self).wf(),
            final(self).text() == old(self).text(),
            ({
                let ok = old(self).pos() + 36 <= final(self).text().len() && is_uuid_literal(
                    final(self).text().subrange(old(self).pos(), old(self).pos() + 36),
                );
                if ok {
                    final(self).pos() == old(self).pos() + 36 && r is Ok && r.unwrap()@
                        == final(self).text().subrange(old(self).pos(), final(self).pos())
                } else {
                    final(self).pos() == old(self).pos() && r is Err
                }
            }),
    {
        if self.length - self.position < 36 {
            return Err(LexError::TruncatedUuidWindow);
        }
        let w: String = self.span_text(self.position, self.position + 36);
        if uuid_literal_valid(w.as_str()) {
            self.position = self.position + 36;
            Ok(w)
        } else {
            Err(LexError::TruncatedUuidWindow)
        }
    }

    fn is_tag_prefix(&self) -> (r: bool)
        requires
            self.wf(),
        ensures
            r == spec_is_tag_prefix(self.text(), self.pos()),
    {
        match self.current() {
            Some(c) => {
                if c != '+' && c != '-' {
                    return false;
                }
                if self.position + 1 >= self.length {
                    return false;
                }
                let n = self.input.as_str().get_char(self.position + 1);
                is_alphanumeric_char(n) || n == '_'
            },
            None => false,
        }
    }

    fn is_word_character(&self) -> (r: bool)
        requires
            self.wf(),
        ensures
            r == (self.pos() < self.text().len() && is_word_char(self.text()[self.pos()])),
    {
        match self.current() {
            Some(c) => is_alphanumeric_char(c) || c == '_',
            None => false,
        }
    }

    /// Reads a tag token: the `+`/`-` prefix plus the following word
    /// characters; the prefix stays part of the literal.
    fn read_tag(&mut self) -> (r: String)
        requires
            old(self).wf(),
            spec_is_tag_prefix(old(self).text(), old(self).pos()),
        ensures
            final(self).wf(),
            final(self).text() == old(self).text(),
            final(self).pos() == word_chars_end(final(self).text(), old(self).pos() + 1),
            r@ == final(self).text().subrange(old(self).pos(), final(self).pos()),
    {
        let ghost s = self.text();
        let ghost p0 = self.pos();
        let start: usize = self.position;
        self.read_char();
        proof {
            lemma_scan_run(s, p0 + 1, |c: char| is_word_char(c));
        }
        while self.is_word_character()
            invariant
                self.wf(),
                self.text() == s,
                start == p0,
                p0 + 1 <= self.pos() <= word_chars_end(s, p0 + 1),
                forall|j: int| p0 + 1 <= j < self.pos() ==> is_word_char(#[trigger] s[j]),
            decreases s.len() - self.pos(),
        {
            self.read_char();
            proof {
                lemma_scan_run(s, p0 + 1, |c: char| is_word_char(c));
                if self.pos() > word_chars_end(s, p0 + 1) {
                    assert(!is_word_char(s[word_chars_end(s, p0 + 1)]));
                }
            }
        }
        proof {
            lemma_scan_run(s, p0 + 1, |c: char| is_word_char(c));
            if self.pos() < word_chars_end(s, p0 + 1) {
                assert(is_word_char(s[self.pos()]));
            }
        }
        self.span_text(start, self.position)
    }

    fn is_seg_character(c: char) -> (r: bool)
        ensures
            r == is_seg_char(c),
    {
        is_whitespace_char(c) || c == '(' || c == ')' || c == '\u{0}'
    }

    fn match_keyword(&self, word: &str) -> (r: bool)
        requires
            self.wf(),
        ensures
            r == starts_with_at(self.text(), self.pos(), word@),
    {
        let wl: usize = word.unicode_len();
        if self.length - self.position < wl {
            return false;
        }
        let w: String = self.span_text(self.position, self.position + wl);
        str_eq(w.as_str(), word)
    }

    /// Reads the maximal run of non-segment characters under the cursor.
    fn read_next_word(&mut self) -> (r: String)
        requires
            old(self).wf(),
        ensures
            final(self).wf(),
            final(self).text() == old(self).text(),
            final(self).pos() == word_end(final(self).text(), old(self).pos()),
            r@ == final(self).text().subrange(old(self).pos(), final(self).pos()),
    {
        let ghost s = self.text();
        let ghost p0 = self.pos();
        proof {
            lemma_scan_run(s, p0, |c: char| !is_seg_char(c));
        }
        let start: usize = self.position;
        loop
            invariant
                self.wf(),
                self.text() == s,
                start == p0,
                p0 <= self.pos() <= word_end(s, p0),
                forall|j: int| p0 <= j < self.pos() ==> !is_seg_char(#[trigger] s[j]),
            ensures
                self.wf(),
                self.text() == s,
                self.pos() == word_end(s, p0),
            decreases s.len() - self.pos(),
        {
            let stop = match self.current() {
                Some(c) => Self::is_seg_character(c),
                None => true,
            };
            if stop {
                proof {
                    lemma_scan_run(s, p0, |c: char| !is_seg_char(c));
                    if self.pos() < word_end(s, p0) {
                        assert(!is_seg_char(s[self.pos()]));
                    }
                }
                break ;
            }
            self.read_char();
            proof {
                lemma_scan_run(s, p0, |c: char| !is_seg_char(c));
                if self.pos() > word_end(s, p0) {
                    assert(is_seg_char(s[word_end(s, p0)]));
                }
            }
        }
        self.span_text(start, self.position)
    }

    /// Reads a keyword that is known to sit under the cursor.
    fn read_word(&mut self, word: &str) -> (r: String)
        requires
            old(self).wf(),
            starts_with_at(old(self).text(), old(self).pos(), word@),
        ensures
            final(self).wf(),
            final(self).text() == old(self).text(),
            final(self).pos() == old(self).pos() + word@.len(),
            r@ == word@,
    {
        let wl: usize = word.unicode_len();
        let start: usize = self.position;
        self.position = self.position + wl;
        let r = self.span_text(start, self.position);
        proof {
            assert(r@ =~= word@);
        }
        r
    }

    /// Scans the next token.  The returned token and the new cursor position
    /// are exactly the ones `spec_token_at` describes for the old position;
    /// scanning never fails, and at the end of the input it yields the
    /// end-of-input token forever.
    pub fn next_token(&mut self) -> (r: Result<Token, LexError>)
        requires
            old(self).wf(),
        ensures
            final(self).wf(),
            final(self).text() == old(self).text(),
            r is Ok,
            ({
                let t = spec_token_at(old(self).text(), old(self).pos());
                r.unwrap().token_type == t.typ && r.unwrap().literal@ == t.lit
                    && final(self).pos() == t.end
            }),
    {
        let ghost s = self.text();
        let ghost from = self.pos();
        proof {
            lemma_scan_run(s, from, |c: char| char_is_whitespace(c));
            reveal_strlit("and");
            reveal_strlit("or");
            reveal_strlit("xor");
            reveal_strlit("status:");
            assert("and"@ =~= kw_and());
            assert("or"@ =~= kw_or());
            assert("xor"@ =~= kw_xor());
            assert("status:"@ =~= kw_status());
        }
        loop
            invariant
                self.wf(),
                self.text() == s,
                0 <= from <= s.len(),
                from <= self.pos() <= skip_ws(s, from),
            ensures
                self.wf(),
                self.text() == s,
                0 <= from <= s.len(),
                self.pos() == skip_ws(s, from),
            decreases s.len() - self.pos(),
        {
            let go_on = match self.current() {
                Some(c) => is_whitespace_char(c),
                None => false,
            };
            if !go_on {
                proof {
                    lemma_scan_run(s, from, |c: char| char_is_whitespace(c));
                    if self.pos() < skip_ws(s, from) {
                        assert(char_is_whitespace(s[self.pos()]));
                    }
                }
                break ;
            }
            self.read_char();
            proof {
                lemma_scan_run(s, from, |c: char| char_is_whitespace(c));
                if self.pos() > skip_ws(s, from) {
                    assert(!char_is_whitespace(s[skip_ws(s, from)]));
                }
            }
        }
        let ghost p = skip_ws(s, from);
        let token: Token = match self.current() {
            None => Token { token_type: TokenType::Eof, literal: String::new() },
            Some(ch) => {
                if self.is_uuid() {
                    let lit = match self.read_uuid() {
                        Ok(l) => l,
                        Err(e) => {
                            return Err(e);
                        },
                    };
                    proof {
                        assert(lit@ == spec_token_at(s, from).lit);
                    }
                    Token { token_type: TokenType::Uuid, literal: lit }
                } else if self.is_digit() {
                    let lit = self.read_int();
                    proof {
                        assert(lit@ == spec_token_at(s, from).lit);
                    }
                    Token { token_type: TokenType::Int, literal: lit }
                } else if self.is_tag_prefix() {
                    let tag_value = self.read_tag();
                    let t = if ch == '+' {
                        TokenType::TagPlus
                    } else {
                        TokenType::TagMinus
                    };
                    proof {
                        assert(tag_value@ == spec_token_at(s, from).lit);
                    }
                    Token { token_type: t, literal: tag_value }
                } else if self.match_keyword("and") {
                    let tk = self.keyword_token("and", TokenType::OperatorAnd);
                    proof {
                        assert(tk.literal@ == spec_token_at(s, from).lit);
                    }
                    tk
                } else if self.match_keyword("or") {
                    let tk = self.keyword_token("or", TokenType::OperatorOr);
                    proof {
                        assert(tk.literal@ == spec_token_at(s, from).lit);
                    }
                    tk
                } else if self.match_keyword("xor") {
                    let tk = self.keyword_token("xor", TokenType::OperatorXor);
                    proof {
                        assert(tk.literal@ == spec_token_at(s, from).lit);
                    }
                    tk
                } else if self.match_keyword("status:") {
                    proof {
                        reveal_strlit("status:");
                        assert("status:"@ =~= kw_status());
                    }
                    let lit = self.read_word("status:");
                    proof {
                        assert(lit@ =~= s.subrange(p, p + 7));
                    }
                    proof {
                        assert(lit@ == spec_token_at(s, from).lit);
                    }
                    Token { token_type: TokenType::FilterStatus, literal: lit }
                } else if ch == ')' {
                    self.read_char();
                    proof {
                        reveal_strlit(")");
                        assert(")"@ =~= seq![')']);
                    }
                    let lit = ")".to_owned();
                    proof {
                        assert(lit@ == spec_token_at(s, from).lit);
                    }
                    Token { token_type: TokenType::RightParenthesis, literal: lit }
                } else if ch == '(' {
                    self.read_char();
                    proof {
                        reveal_strlit("(");
                        assert("("@ =~= seq!['(']);
                    }
                    let lit = "(".to_owned();
                    proof {
                        assert(lit@ == spec_token_at(s, from).lit);
                    }
                    Token { token_type: TokenType::LeftParenthesis, literal: lit }
                } else {
                    let w = self.read_next_word();
                    if w.as_str().unicode_len() == 0 {
                        // Only a NUL character can head an empty word run;
                        // consume it alone so that the scan advances.
                        let start: usize = self.position;
                        self.read_char();
                        let lit = self.span_text(start, self.position);
                        proof {
                            lemma_scan_run(s, p, |c: char| !is_seg_char(c));
                            assert(lit@ == spec_token_at(s, from).lit);
                        }
                        Token { token_type: TokenType::Word, literal: lit }
                    } else {
                        proof {
                            lemma_scan_run(s, p, |c: char| !is_seg_char(c));
                            assert(w@ == spec_token_at(s, from).lit);
                        }
                        Token { token_type: TokenType::Word, literal: w }
                    }
                }
            },
        };
        Ok(token)
    }

    /// Scans a keyword already matched at the cursor: an operator token when
    /// the next character ends a segment, otherwise the whole adjoining word.
    fn keyword_token(&mut self, word: &str, op: TokenType) -> (r: Token)
        requires
            old(self).wf(),
            starts_with_at(old(self).text(), old(self).pos(), word@),
            word@.len() > 0,
        ensures
            final(self).wf(),
            final(self).text() == old(self).text(),
            ({
                let t = spec_keyword_token(
                    old(self).text(),
                    old(self).pos(),
                    word@.len() as int,
                    op,
                );
                r.token_type == t.typ && r.literal@ == t.lit && final(self).pos() == t.end
            }),
    {
        let ghost s = self.text();
        let ghost p = self.pos();
        let mut literal_value = self.read_word(word);
        let extend = match self.current() {
            Some(c) => !Self::is_seg_character(c),
            None => false,
        };
        if extend {
            let rest = self.read_next_word();
            literal_value.append(rest.as_str());
            proof {
                let wl = word@.len() as int;
                lemma_scan_run(s, p + wl, |c: char| !is_seg_char(c));
                assert(word@ =~= s.subrange(p, p + wl));
                assert(s.subrange(p, p + wl) + s.subrange(p + wl, self.pos()) =~= s.subrange(
                    p,
                    self.pos(),
                ));
                assert(literal_value@ =~= s.subrange(p, self.pos()));
            }
            Token { token_type: TokenType::Word, literal: literal_value }
        } else {
            proof {
                assert(literal_value@ =~= s.subrange(p, p + word@.len()));
            }
            Token { token_type: op, literal: literal_value }
        }
    }

    /// Scans the whole remaining input into tokens, the end-of-input token
    /// included as the final element, and reports each token's starting
    /// position.
    pub fn tokenize(&mut self) -> (r: (Vec<Token>, Vec<usize>))
        requires
            old(self).wf(),
        ensures
            final(self).wf(),
            final(self).text() == old(self).text(),
            spec_lex(old(self).text(), old(self).pos()) == lexed_of(r.0@, r.1@),
            r.0@.len() == r.1@.len(),
            r.0@.len() >= 1,
            r.0@[r.0@.len() - 1].token_type == TokenType::Eof,
    {
        let ghost s = self.text();
        let ghost from0 = self.pos();
        let mut tokens: Vec<Token> = Vec::new();
        let mut starts: Vec<usize> = Vec::new();
        loop
            invariant_except_break
                spec_lex(s, from0) =~= lexed_of(tokens@, starts@) + spec_lex(s, self.pos()),
            invariant
                self.wf(),
                self.text() == s,
                0 <= from0 <= self.pos() <= s.len(),
                tokens@.len() == starts@.len(),
            ensures
                self.wf(),
                self.text() == s,
                tokens@.len() == starts@.len(),
                tokens@.len() > 0,
                spec_lex(s, from0) =~= lexed_of(tokens@, starts@),
                tokens@[tokens@.len() - 1].token_type == TokenType::Eof,
            decreases s.len() - self.pos() + 1,
        {
            let ghost pos_before = self.pos();
            let tok = self.next_token().unwrap();
            proof {
                lemma_token_at_bounds(s, pos_before);
            }
            let is_eof = tok.token_type == TokenType::Eof;
            let lit_len: usize = tok.literal.as_str().unicode_len();
            let start: usize = self.position - lit_len;
            proof {
                let t = spec_token_at(s, pos_before);
                assert(t.lit =~= s.subrange(t.start, t.end));
                assert(start == t.start);
            }
            let ghost old_tokens = tokens@;
            let ghost old_starts = starts@;
            tokens.push(tok);
            starts.push(start);
            proof {
                let t = spec_token_at(s, pos_before);
                assert(lexed_of(tokens@, starts@) =~= lexed_of(old_tokens, old_starts)
                    + seq![t]);
                if t.typ == TokenType::Eof {
                    assert(spec_lex(s, pos_before) =~= seq![t]);
                } else {
                    assert(spec_lex(s, pos_before) =~= seq![t] + spec_lex(s, t.end));
                }
            }
            if is_eof {
                proof {
                    assert(spec_lex(s, from0) =~= lexed_of(tokens@, starts@));
                }
                break ;
            }
        }
        (tokens, starts)
    }
}

/// The token stream is ordered: every token lies inside the input, tokens
/// never overlap, and the stream ends with the end-of-input token.
pub proof fn lemma_spec_lex_ordered(s: Seq<char>, from: int)
    requires
        0 <= from <= s.len(),
    ensures
        spec_lex(s, from).len() >= 1,
        spec_lex(s, from)[spec_lex(s, from).len() - 1].typ == TokenType::Eof,
        forall|i: int|
            0 <= i < spec_lex(s, from).len() ==> from <= (#[trigger] spec_lex(s, from)[i]).start
                <= spec_lex(s, from)[i].end <= s.len(),
        forall|k: int, l: int|
            0 <= k < l < spec_lex(s, from).len() ==> (#[trigger] spec_lex(s, from)[k]).end <= (
            #[trigger] spec_lex(s, from)[l]).start,
        forall|i: int|
            0 <= i < spec_lex(s, from).len() - 1 ==> (#[trigger] spec_lex(s, from)[i]).typ
                != TokenType::Eof,
    decreases s.len() - from,
{
    lemma_token_at_bounds(s, from);
    let t = spec_token_at(s, from);
    let lts = spec_lex(s, from);
    if t.typ == TokenType::Eof {
        assert(lts =~= seq![t]);
    } else {
        lemma_spec_lex_ordered(s, t.end);
        let tail = spec_lex(s, t.end);
        assert(lts =~= seq![t] + tail);
        assert(forall|i: int| 0 <= i < tail.len() ==> lts[i + 1] == (#[trigger] tail[i]));
        assert(forall|l: int|
            1 <= l < lts.len() ==> t.end <= (#[trigger] lts[l]).start) by {
            assert(forall|i: int|
                0 <= i < tail.len() ==> t.end <= (#[trigger] tail[i]).start);
        }
    }
}

/// The collected tokens rendered back as ghost lexed tokens; a token's end
/// is its start plus the length of its literal.
pub open spec fn lexed_of(toks: Seq<Token>, starts: Seq<usize>) -> Seq<LexedToken> {
    Seq::new(
        toks.len(),
        |i: int|
            LexedToken {
                typ: toks[i].token_type,
                lit: toks[i].literal@,
                start: starts[i] as int,
                end: starts[i] + toks[i].literal@.len(),
            },
    )
}

} // verus!
