//! The filter grammar: a recursive-descent parser over the lexer's tokens
//! that builds a `Filter` tree.  An *expression* is one or more *terms*
//! joined left-to-right by operators of one single kind (`and`, `or`,
//! `xor`, or plain juxtaposition, which counts as `and`); a *term* is a
//! parenthesized expression or a leaf token.  Runs of one operator kind
//! fold into one n-ary node; mixing operator kinds at one nesting level is
//! an error.  `spec_parse_filter` is the grammar's specification; `parse`
//! is proved to return exactly its result.

use vstd::prelude::*;

use crate::filters::Filter;
use crate::filters::FilterV;
use crate::filters::views_of;
use crate::lexer::LexedToken;
use crate::lexer::Lexer;
use crate::lexer::Token;
use crate::lexer::TokenType;
use crate::lexer::spec_lex;
use crate::parse::ParseError;
use crate::parse::strip_tag_prefix;
use crate::parse::tag_name_of;
use crate::parse::spec_parse_usize;
use crate::parse::spec_parse_uuid;
use crate::parse::status_of_word;
use crate::parse::parse_usize;
use crate::parse::parse_uuid_value;
use crate::parse::status_from_word;
use crate::textops::uuid_literal_valid;

verus! {

/// A token list and its ghost description agree in kind and literal.
pub open spec fn tokens_match(lts: Seq<LexedToken>, toks: Seq<Token>) -> bool {
    lts.len() == toks.len() && forall|i: int|
        0 <= i < lts.len() ==> (#[trigger] lts[i]).typ == toks[i].token_type && lts[i].lit
            == toks[i].literal@
}

/// The leaf or parenthesized group starting at token `i`.
pub open spec fn spec_parse_term(lts: Seq<LexedToken>, i: int) -> Result<
    (FilterV, int),
    ParseError,
>
    decreases lts.len() - i, 0int,
    when 0 <= i <= lts.len()
{
    if i >= lts.len() {
        Err(ParseError::ExpectedTerm)
    } else {
        let t = lts[i];
        match t.typ {
            TokenType::LeftParenthesis => match spec_parse_expr(lts, i + 1) {
                Ok((f, j)) => if j < lts.len() && lts[j].typ == TokenType::RightParenthesis {
                    Ok((f, j + 1))
                } else {
                    Err(ParseError::UnmatchedParenthesis)
                },
                Err(e) => Err(e),
            },
            TokenType::FilterStatus => if i + 1 < lts.len() && lts[i + 1].typ != TokenType::Eof {
                match status_of_word(lts[i + 1].lit) {
                    Some(st) => Ok((FilterV::Status { status: st }, i + 2)),
                    None => Err(ParseError::UnknownStatus),
                }
            } else {
                Err(ParseError::ExpectedTerm)
            },
            TokenType::Int => match spec_parse_usize(t.lit) {
                Some(v) => Ok((FilterV::TaskId { id: v }, i + 1)),
                None => Err(ParseError::NumberTooLarge),
            },
            TokenType::Uuid => match spec_parse_uuid(t.lit) {
                Some(v) => Ok((FilterV::Uuid { value: v }, i + 1)),
                None => Err(ParseError::NumberTooLarge),
            },
            TokenType::TagPlus => Ok(
                (FilterV::Tag { tag_name: tag_name_of(t.lit), present: true }, i + 1),
            ),
            TokenType::TagMinus => Ok(
                (FilterV::Tag { tag_name: tag_name_of(t.lit), present: false }, i + 1),
            ),
            TokenType::Word => Ok((FilterV::Text { value: t.lit }, i + 1)),
            TokenType::RightParenthesis => Err(ParseError::UnmatchedParenthesis),
            _ => Err(ParseError::ExpectedTerm),
        }
    }
}

/// The node an operator run folds into: a single term stays itself, more
/// terms become one n-ary combinator of the run's kind.
pub open spec fn finish_ops(op: Option<TokenType>, children: Seq<FilterV>) -> FilterV {
    if children.len() == 1 {
        children[0]
    } else {
        match op {
            Some(TokenType::OperatorOr) => FilterV::Or { children },
            Some(TokenType::OperatorXor) => FilterV::Xor { children },
            _ => FilterV::And { children },
        }
    }
}

/// Continues an expression after its first terms: reads `operator term`
/// pairs (or a juxtaposed term, read as `and`) until the end of the group,
/// insisting that all operators at this level are of one kind.
pub open spec fn spec_parse_ops(
    lts: Seq<LexedToken>,
    j: int,
    op: Option<TokenType>,
    children: Seq<FilterV>,
) -> Result<(FilterV, int), ParseError>
    decreases lts.len() - j, 2int,
    when 0 <= j <= lts.len()
{
    if j >= lts.len() {
        Ok((finish_ops(op, children), j))
    } else {
        let t = lts[j];
        match t.typ {
            TokenType::Eof => Ok((finish_ops(op, children), j)),
            TokenType::RightParenthesis => Ok((finish_ops(op, children), j)),
            TokenType::OperatorAnd | TokenType::OperatorOr | TokenType::OperatorXor => {
                if op is Some && op != Some(t.typ) {
                    Err(ParseError::MixedOperators)
                } else {
                    match spec_parse_term(lts, j + 1) {
                        Ok((f, m)) => if j + 1 < m <= lts.len() {
                            spec_parse_ops(lts, m, Some(t.typ), children.push(f))
                        } else {
                            Err(ParseError::ExpectedTerm)
                        },
                        Err(e) => Err(e),
                    }
                }
            },
            _ => {
                if op is Some && op != Some(TokenType::OperatorAnd) {
                    Err(ParseError::MixedOperators)
                } else {
                    match spec_parse_term(lts, j) {
                        Ok((f, m)) => if j < m <= lts.len() {
                            spec_parse_ops(lts, m, Some(TokenType::OperatorAnd), children.push(f))
                        } else {
                            Err(ParseError::ExpectedTerm)
                        },
                        Err(e) => Err(e),
                    }
                }
            },
        }
    }
}

/// The expression starting at token `i`: a first term followed by its
/// operator run.
pub open spec fn spec_parse_expr(lts: Seq<LexedToken>, i: int) -> Result<
    (FilterV, int),
    ParseError,
>
    decreases lts.len() - i, 1int,
    when 0 <= i <= lts.len()
{
    match spec_parse_term(lts, i) {
        Ok((f, j)) => if i < j <= lts.len() {
            spec_parse_ops(lts, j, None, seq![f])
        } else {
            Err(ParseError::ExpectedTerm)
        },
        Err(e) => Err(e),
    }
}

/// The whole query: a syntactically empty input yields the match-everything
/// root; otherwise one expression must cover every token up to the end of
/// the input, a leftover `)` being an unmatched parenthesis.
pub open spec fn spec_parse_filter(lts: Seq<LexedToken>) -> Result<FilterV, ParseError> {
    if lts.len() == 0 || lts[0].typ == TokenType::Eof {
        Ok(FilterV::Root { child: None })
    } else {
        match spec_parse_expr(lts, 0) {
            Ok((f, j)) => if j < lts.len() && lts[j].typ == TokenType::Eof {
                Ok(FilterV::Root { child: Some(Box::new(f)) })
            } else {
                Err(ParseError::UnmatchedParenthesis)
            },
            Err(e) => Err(e),
        }
    }
}

/// A syntactically empty input parses to the match-everything root filter,
/// and parsing it cannot fail.
pub proof fn lemma_empty_input_matches_everything(s: Seq<char>)
    requires
        s.len() == 0,
    ensures
        spec_parse_filter(spec_lex(s, 0)) == Ok::<FilterV, ParseError>(
            FilterV::Root { child: None },
        ),
{
    let t = crate::lexer::spec_token_at(s, 0);
    assert(crate::lexer::skip_ws(s, 0) == 0);
    assert(t.typ == TokenType::Eof);
    assert(spec_lex(s, 0) =~= seq![t]);
}

/// A successful parse always consumes tokens: a term moves strictly
/// forward, an operator run never moves backward, and neither runs past the
/// end of the token list.
pub proof fn lemma_parse_term_progress(lts: Seq<LexedToken>, i: int)
    requires
        0 <= i <= lts.len(),
    ensures
        spec_parse_term(lts, i) matches Ok(r) ==> i < r.1 <= lts.len(),
    decreases lts.len() - i, 0int,
{
    if i < lts.len() && lts[i].typ == TokenType::LeftParenthesis {
        lemma_parse_expr_progress(lts, i + 1);
    }
}

pub proof fn lemma_parse_ops_progress(
    lts: Seq<LexedToken>,
    j: int,
    op: Option<TokenType>,
    children: Seq<FilterV>,
)
    requires
        0 <= j <= lts.len(),
    ensures
        spec_parse_ops(lts, j, op, children) matches Ok(r) ==> j <= r.1 <= lts.len(),
    decreases lts.len() - j, 2int,
{
    if j < lts.len() {
        let t = lts[j];
        match t.typ {
            TokenType::Eof => {},
            TokenType::RightParenthesis => {},
            TokenType::OperatorAnd | TokenType::OperatorOr | TokenType::OperatorXor => {
                if !(op is Some && op != Some(t.typ)) {
                    lemma_parse_term_progress(lts, j + 1);
                    match spec_parse_term(lts, j + 1) {
                        Ok((f, m)) => {
                            if j + 1 < m <= lts.len() {
                                lemma_parse_ops_progress(lts, m, Some(t.typ), children.push(f));
                            }
                        },
                        Err(_) => {},
                    }
                }
            },
            _ => {
                if !(op is Some && op != Some(TokenType::OperatorAnd)) {
                    lemma_parse_term_progress(lts, j);
                    match spec_parse_term(lts, j) {
                        Ok((f, m)) => {
                            if j < m <= lts.len() {
                                lemma_parse_ops_progress(
                                    lts,
                                    m,
                                    Some(TokenType::OperatorAnd),
                                    children.push(f),
                                );
                            }
                        },
                        Err(_) => {},
                    }
                }
            },
        }
    }
}

pub proof fn lemma_parse_expr_progress(lts: Seq<LexedToken>, i: int)
    requires
        0 <= i <= lts.len(),
    ensures
        spec_parse_expr(lts, i) matches Ok(r) ==> i < r.1 <= lts.len(),
    decreases lts.len() - i, 1int,
{
    lemma_parse_term_progress(lts, i);
    match spec_parse_term(lts, i) {
        Ok((f, j)) => {
            if i < j <= lts.len() {
                lemma_parse_ops_progress(lts, j, None, seq![f]);
            }
        },
        Err(_) => {},
    }
}

/// Reads one term, exactly as `spec_parse_term` describes.
fn parse_term(toks: &Vec<Token>, i: usize, Ghost(lts): Ghost<Seq<LexedToken>>) -> (r: Result<
    (Filter, usize),
    ParseError,
>)
    requires
        tokens_match(lts, toks@),
        i <= toks@.len(),
    ensures
        match r {
            Ok(p) => spec_parse_term(lts, i as int) == Ok::<(FilterV, int), ParseError>(
                (p.0@, p.1 as int),
            ) && p.1 <= toks@.len(),
            Err(e) => spec_parse_term(lts, i as int) == Err::<(FilterV, int), ParseError>(e),
        },
    decreases toks@.len() - i, 0int,
{
    proof {
        lemma_parse_term_progress(lts, i as int);
    }
    if i >= toks.len() {
        return Err(ParseError::ExpectedTerm);
    }
    let tt = toks[i].token_type;
    match tt {
        TokenType::LeftParenthesis => {
            match parse_expr(toks, i + 1, Ghost(lts)) {
                Ok((f, j)) => {
                    if j < toks.len() && toks[j].token_type == TokenType::RightParenthesis {
                        Ok((f, j + 1))
                    } else {
                        Err(ParseError::UnmatchedParenthesis)
                    }
                },
                Err(e) => Err(e),
            }
        },
        TokenType::FilterStatus => {
            if i + 1 < toks.len() && !(toks[i + 1].token_type == TokenType::Eof) {
                match status_from_word(toks[i + 1].literal.as_str()) {
                    Some(st) => Ok((Filter::Status { status: st }, i + 2)),
                    None => Err(ParseError::UnknownStatus),
                }
            } else {
                Err(ParseError::ExpectedTerm)
            }
        },
        TokenType::Int => {
            match parse_usize(toks[i].literal.as_str()) {
                Ok(v) => Ok((Filter::TaskId { id: v }, i + 1)),
                Err(e) => Err(e),
            }
        },
        TokenType::Uuid => {
            let lit = &toks[i].literal;
            let llen = lit.as_str().unicode_len();
            if llen != 36 {
                return Err(ParseError::NumberTooLarge);
            }
            if !uuid_literal_valid(lit.as_str()) {
                return Err(ParseError::NumberTooLarge);
            }
            match parse_uuid_value(lit.as_str()) {
                Ok(v) => Ok((Filter::Uuid { value: v }, i + 1)),
                Err(e) => Err(e),
            }
        },
        TokenType::TagPlus => {
            let name = strip_tag_prefix(&toks[i].literal);
            Ok((Filter::Tag { tag_name: name, present: true }, i + 1))
        },
        TokenType::TagMinus => {
            let name = strip_tag_prefix(&toks[i].literal);
            Ok((Filter::Tag { tag_name: name, present: false }, i + 1))
        },
        TokenType::Word => Ok((Filter::Text { value: toks[i].literal.clone() }, i + 1)),
        TokenType::RightParenthesis => Err(ParseError::UnmatchedParenthesis),
        _ => Err(ParseError::ExpectedTerm),
    }
}

/// Continues an expression, exactly as `spec_parse_ops` describes; the
/// filters gathered so far arrive in `children`.
fn parse_ops(
    toks: &Vec<Token>,
    j: usize,
    op: Option<TokenType>,
    children: Vec<Filter>,
    Ghost(lts): Ghost<Seq<LexedToken>>,
) -> (r: Result<(Filter, usize), ParseError>)
    requires
        tokens_match(lts, toks@),
        j <= toks@.len(),
        children@.len() >= 1,
    ensures
        match r {
            Ok(p) => spec_parse_ops(lts, j as int, op, views_of(children@)) == Ok::<
                (FilterV, int),
                ParseError,
            >((p.0@, p.1 as int)) && p.1 <= toks@.len(),
            Err(e) => spec_parse_ops(lts, j as int, op, views_of(children@)) == Err::<
                (FilterV, int),
                ParseError,
            >(e),
        },
    decreases toks@.len() - j, 2int,
{
    proof {
        lemma_parse_ops_progress(lts, j as int, op, views_of(children@));
    }
    if j >= toks.len() {
        return Ok((finish_ops_exec(op, children), j));
    }
    let tt = toks[j].token_type;
    match tt {
        TokenType::Eof => Ok((finish_ops_exec(op, children), j)),
        TokenType::RightParenthesis => Ok((finish_ops_exec(op, children), j)),
        TokenType::OperatorAnd | TokenType::OperatorOr | TokenType::OperatorXor => {
            let mismatch = match op {
                Some(k) => !(k == tt),
                None => false,
            };
            if mismatch {
                return Err(ParseError::MixedOperators);
            }
            proof {
                lemma_parse_term_progress(lts, j as int + 1);
            }
            match parse_term(toks, j + 1, Ghost(lts)) {
                Ok((f, m)) => {
                    let mut children2 = children;
                    let ghost before = children2@;
                    let ghost fv = f@;
                    children2.push(f);
                    proof {
                        assert(views_of(children2@) =~= views_of(before).push(fv));
                    }
                    let r = parse_ops(toks, m, Some(tt), children2, Ghost(lts));
                    r
                },
                Err(e) => Err(e),
            }
        },
        _ => {
            let mismatch = match op {
                Some(k) => !(k == TokenType::OperatorAnd),
                None => false,
            };
            if mismatch {
                return Err(ParseError::MixedOperators);
            }
            proof {
                lemma_parse_term_progress(lts, j as int);
            }
            match parse_term(toks, j, Ghost(lts)) {
                Ok((f, m)) => {
                    let mut children2 = children;
                    let ghost before = children2@;
                    let ghost fv = f@;
                    children2.push(f);
                    proof {
                        assert(views_of(children2@) =~= views_of(before).push(fv));
                    }
                    let r = parse_ops(toks, m, Some(TokenType::OperatorAnd), children2, Ghost(lts));
                    r
                },
                Err(e) => Err(e),
            }
        },
    }
}

/// Builds the node an operator run folds into, exactly as `finish_ops`
/// describes.
fn finish_ops_exec(op: Option<TokenType>, children: Vec<Filter>) -> (r: Filter)
    requires
        children@.len() >= 1,
    ensures
        r@ == finish_ops(op, views_of(children@)),
{
    if children.len() == 1 {
        let mut children = children;
        let f = children.remove(0);
        f
    } else {
        match op {
            Some(TokenType::OperatorOr) => Filter::Or { children },
            Some(TokenType::OperatorXor) => Filter::Xor { children },
            _ => Filter::And { children },
        }
    }
}

/// Reads one expression, exactly as `spec_parse_expr` describes.
fn parse_expr(toks: &Vec<Token>, i: usize, Ghost(lts): Ghost<Seq<LexedToken>>) -> (r: Result<
    (Filter, usize),
    ParseError,
>)
    requires
        tokens_match(lts, toks@),
        i <= toks@.len(),
    ensures
        match r {
            Ok(p) => spec_parse_expr(lts, i as int) == Ok::<(FilterV, int), ParseError>(
                (p.0@, p.1 as int),
            ) && p.1 <= toks@.len(),
            Err(e) => spec_parse_expr(lts, i as int) == Err::<(FilterV, int), ParseError>(e),
        },
    decreases toks@.len() - i, 1int,
{
    proof {
        lemma_parse_term_progress(lts, i as int);
    }
    match parse_term(toks, i, Ghost(lts)) {
        Ok((f, j)) => {
            let mut children: Vec<Filter> = Vec::new();
            children.push(f);
            proof {
                assert(views_of(children@) =~= seq![f@]);
            }
            parse_ops(toks, j, None, children, Ghost(lts))
        },
        Err(e) => Err(e),
    }
}

/// The filter grammar's entry point.
pub struct FilterParser {}

impl FilterParser {
    /// Parses the whole input held by the lexer into a filter tree: exactly
    /// the result `spec_parse_filter` gives for the input's token stream.
    /// An empty input yields the match-everything root filter.
    pub fn parse(lexer: Lexer) -> (r: Result<Filter, ParseError>)
        requires
            lexer.wf(),
        ensures
            match r {
                Ok(f) => spec_parse_filter(spec_lex(lexer.text(), lexer.pos())) == Ok::<
                    FilterV,
                    ParseError,
                >(f@),
                Err(e) => spec_parse_filter(spec_lex(lexer.text(), lexer.pos())) == Err::<
                    FilterV,
                    ParseError,
                >(e),
            },
    {
        let ghost lts = spec_lex(lexer.text(), lexer.pos());
        let mut lexer = lexer;
        let (toks, _starts) = lexer.tokenize();
        proof {
            assert(tokens_match(lts, toks@));
        }
        if toks.len() == 0 || toks[0].token_type == TokenType::Eof {
            return Ok(Filter::Root { child: None });
        }
        proof {
            lemma_parse_expr_progress(lts, 0);
        }
        match parse_expr(&toks, 0, Ghost(lts)) {
            Ok((f, j)) => {
                if j < toks.len() && toks[j].token_type == TokenType::Eof {
                    Ok(Filter::Root { child: Some(Box::new(f)) })
                } else {
                    Err(ParseError::UnmatchedParenthesis)
                }
            },
            Err(e) => Err(e),
        }
    }
}

} // verus!
