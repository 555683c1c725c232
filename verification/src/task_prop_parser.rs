//! The property grammar: it consumes the same tokens as the filter grammar
//! but reads them as task-creation or edit directives.  Tag tokens add to
//! the tag lists (each list deduplicated), `status:` consumes the following
//! word as a case-insensitive status name, a `project:`/`proj:` word
//! consumes the following word verbatim as the project name, and every
//! other token joins the running summary.  Inside a contiguous run of
//! summary tokens the original inter-token text (including stray
//! parentheses and whitespace) is preserved losslessly; across a consumed
//! directive a single space joins the pieces.

use vstd::prelude::*;

use crate::lexer::LexedToken;
use crate::lexer::Lexer;
use crate::lexer::TokenType;
use crate::lexer::lemma_spec_lex_ordered;
use crate::lexer::lexed_of;
use crate::lexer::spec_lex;
use crate::parse::ParseError;
use crate::parse::status_from_word;
use crate::parse::status_of_word;
use crate::parse::strip_tag_prefix;
use crate::parse::tag_name_of;
use crate::task::Project;
use crate::task::TaskProperties;
use crate::task::TaskPropsV;
use crate::task::empty_props;
use crate::task::opt_tags_view;
use crate::textops::str_eq;

verus! {

pub open spec fn word_project() -> Seq<char> {
    seq!['p', 'r', 'o', 'j', 'e', 'c', 't', ':']
}

pub open spec fn word_proj() -> Seq<char> {
    seq!['p', 'r', 'o', 'j', ':']
}

/// A plain word that names the project field.
pub open spec fn is_project_prefix(t: LexedToken) -> bool {
    t.typ == TokenType::Word && (t.lit == word_project() || t.lit == word_proj())
}

/// Appends a tag to a list, creating it if absent and keeping each name at
/// most once.
pub open spec fn push_unique(l: Option<Seq<Seq<char>>>, v: Seq<char>) -> Option<Seq<Seq<char>>> {
    match l {
        None => Some(seq![v]),
        Some(l0) => if l0.contains(v) {
            Some(l0)
        } else {
            Some(l0.push(v))
        },
    }
}

/// The summary after one more summary token: the first token starts it;
/// inside a contiguous run the raw text between the previous token's end
/// and this token's start is kept; across a consumed directive a single
/// space joins the pieces.
pub open spec fn joined_summary(
    prev: Option<Seq<char>>,
    directive: bool,
    last_end: int,
    input: Seq<char>,
    t: LexedToken,
) -> Seq<char> {
    match prev {
        None => t.lit,
        Some(s0) => if directive {
            s0 + seq![' '] + t.lit
        } else if 0 <= last_end <= t.start <= input.len() {
            s0 + input.subrange(last_end, t.start) + t.lit
        } else {
            s0 + seq![' '] + t.lit
        },
    }
}

/// One pass of the property grammar from token `i` on, carrying the
/// properties gathered so far, the position where the last summary token
/// ended, and whether a directive was consumed since then.
pub open spec fn spec_props_step(
    lts: Seq<LexedToken>,
    input: Seq<char>,
    i: int,
    st: TaskPropsV,
    last_end: int,
    directive: bool,
) -> Result<TaskPropsV, ParseError>
    decreases lts.len() - i,
    when 0 <= i <= lts.len()
{
    if i >= lts.len() {
        Ok(st)
    } else {
        let t = lts[i];
        if t.typ == TokenType::Eof {
            Ok(st)
        } else if t.typ == TokenType::TagPlus {
            spec_props_step(
                lts,
                input,
                i + 1,
                TaskPropsV { tags_add: push_unique(st.tags_add, tag_name_of(t.lit)), ..st },
                last_end,
                true,
            )
        } else if t.typ == TokenType::TagMinus {
            spec_props_step(
                lts,
                input,
                i + 1,
                TaskPropsV { tags_remove: push_unique(st.tags_remove, tag_name_of(t.lit)), ..st },
                last_end,
                true,
            )
        } else if t.typ == TokenType::FilterStatus {
            if i + 1 < lts.len() && lts[i + 1].typ != TokenType::Eof {
                match status_of_word(lts[i + 1].lit) {
                    Some(s) => spec_props_step(
                        lts,
                        input,
                        i + 2,
                        TaskPropsV { status: Some(s), ..st },
                        last_end,
                        true,
                    ),
                    None => Err(ParseError::UnknownStatus),
                }
            } else {
                Err(ParseError::ExpectedTerm)
            }
        } else if is_project_prefix(t) {
            if i + 1 < lts.len() && lts[i + 1].typ != TokenType::Eof {
                spec_props_step(
                    lts,
                    input,
                    i + 2,
                    TaskPropsV { project: Some(lts[i + 1].lit), ..st },
                    last_end,
                    true,
                )
            } else {
                Err(ParseError::ExpectedTerm)
            }
        } else {
            spec_props_step(
                lts,
                input,
                i + 1,
                TaskPropsV {
                    summary: Some(joined_summary(st.summary, directive, last_end, input, t)),
                    ..st
                },
                t.end,
                false,
            )
        }
    }
}

/// The whole property grammar over an input: an empty input yields the
/// all-absent property set.
pub open spec fn spec_parse_task_properties(input: Seq<char>, from: int) -> Result<
    TaskPropsV,
    ParseError,
> {
    spec_props_step(spec_lex(input, from), input, 0, empty_props(), 0, false)
}

/// An empty input yields the all-absent property set, and parsing it
/// cannot fail.
pub proof fn lemma_empty_input_yields_empty_properties(s: Seq<char>)
    requires
        s.len() == 0,
    ensures
        spec_parse_task_properties(s, 0) == Ok::<TaskPropsV, ParseError>(empty_props()),
{
    let t = crate::lexer::spec_token_at(s, 0);
    assert(crate::lexer::skip_ws(s, 0) == 0);
    assert(t.typ == TokenType::Eof);
    assert(spec_lex(s, 0) =~= seq![t]);
}

/// Membership test on a tag list.
#[verifier::loop_isolation(false)]
fn string_vec_contains(v: &Vec<String>, s: &str) -> (r: bool)
    ensures
        r == Seq::new(v@.len(), |i: int| v@[i]@).contains(s@),
{
    let ghost vs = Seq::new(v@.len(), |i: int| v@[i]@);
    let mut i: usize = 0;
    while i < v.len()
        invariant
            i <= v.len(),
            forall|j: int| 0 <= j < i ==> vs[j] != s@,
        decreases v.len() - i,
    {
        if str_eq(v[i].as_str(), s) {
            proof {
                assert(vs[i as int] == s@);
            }
            return true;
        }
        i = i + 1;
    }
    false
}

/// Appends a tag to an optional list, deduplicated, exactly as
/// `push_unique` describes.
fn push_unique_exec(l: Option<Vec<String>>, v: String) -> (r: Option<Vec<String>>)
    ensures
        opt_tags_view(r) == push_unique(opt_tags_view(l), v@),
{
    match l {
        None => {
            let mut nl: Vec<String> = Vec::new();
            nl.push(v);
            let r = Some(nl);
            proof {
                assert(opt_tags_view(r).unwrap() =~= seq![v@]);
            }
            r
        },
        Some(l0) => {
            if string_vec_contains(&l0, v.as_str()) {
                let r = Some(l0);
                proof {
                    assert(opt_tags_view(r).unwrap() =~= push_unique(
                        opt_tags_view(Some(l0)),
                        v@,
                    ).unwrap());
                }
                r
            } else {
                let mut l0 = l0;
                let ghost before = l0@;
                l0.push(v);
                let r = Some(l0);
                proof {
                    assert(opt_tags_view(r).unwrap() =~= Seq::new(
                        before.len(),
                        |i: int| before[i]@,
                    ).push(v@));
                }
                r
            }
        },
    }
}

/// A consumer of the lexer's tokens that reads them as task properties.
pub struct TaskPropertyParser {
    lexer: Lexer,
}

impl TaskPropertyParser {
    /// The characters the parser reads.
    pub closed spec fn text(&self) -> Seq<char> {
        self.lexer.text()
    }

    /// The position the parse starts from.
    pub closed spec fn pos(&self) -> int {
        self.lexer.pos()
    }

    pub closed spec fn wf(&self) -> bool {
        self.lexer.wf()
    }

    pub fn new(lexer: Lexer) -> (r: TaskPropertyParser)
        ensures
            r.text() == lexer.text(),
            r.pos() == lexer.pos(),
            lexer.wf() ==> r.wf(),
    {
        TaskPropertyParser { lexer }
    }

    /// Parses the whole input into task properties: exactly the result
    /// `spec_parse_task_properties` gives.  An empty input yields the
    /// all-absent property set.
    #[verifier::loop_isolation(false)]
    pub fn parse_task_properties(&mut self) -> (r: Result<TaskProperties, ParseError>)
        requires
            old(self).wf(),
        ensures
            match r {
                Ok(p) => spec_parse_task_properties(old(self).text(), old(self).pos()) == Ok::<
                    TaskPropsV,
                    ParseError,
                >(p@),
                Err(e) => spec_parse_task_properties(old(self).text(), old(self).pos()) == Err::<
                    TaskPropsV,
                    ParseError,
                >(e),
            },
    {
        let ghost s = self.lexer.text();
        let ghost p0 = self.lexer.pos();
        let ghost lts = spec_lex(s, p0);
        proof {
            self.lexer.wf_facts();
            lemma_spec_lex_ordered(s, p0);
        }
        let (toks, starts) = self.lexer.tokenize();
        proof {
            assert(lexed_of(toks@, starts@) == lts);
        }
        let n: usize = toks.len();
        let mut props = TaskProperties::default();
        let mut last_end: usize = 0;
        let mut directive = false;
        let mut i: usize = 0;
        proof {
            reveal_strlit("project:");
            reveal_strlit("proj:");
            reveal_strlit(" ");
            assert("project:"@ =~= word_project());
            assert("proj:"@ =~= word_proj());
            assert(" "@ =~= seq![' ']);
        }
        while i < n
            invariant
                i <= n,
                spec_props_step(lts, s, i as int, props@, last_end as int, directive)
                    == spec_props_step(lts, s, 0, empty_props(), 0, false),
                props@.summary is Some ==> exists|k: int|
                    0 <= k < i && last_end == (#[trigger] lts[k]).end,
            decreases n - i,
        {
            let ghost old_props = props@;
            let ghost old_last_end = last_end as int;
            let ghost old_directive = directive;
            let tt = toks[i].token_type;
            if tt == TokenType::Eof {
                proof {
                    assert(i == n - 1);
                    assert(spec_props_step(lts, s, i as int, props@, last_end as int, directive)
                        == Ok::<TaskPropsV, ParseError>(props@));
                    assert(spec_props_step(lts, s, i + 1, props@, last_end as int, directive)
                        == Ok::<TaskPropsV, ParseError>(props@));
                }
                i = i + 1;
            } else if tt == TokenType::TagPlus {
                let name = strip_tag_prefix(&toks[i].literal);
                let cur = props.tags_add.take();
                props.tags_add = push_unique_exec(cur, name);
                directive = true;
                proof {
                    assert(props@ =~= (TaskPropsV {
                        tags_add: push_unique(old_props.tags_add, tag_name_of(lts[i as int].lit)),
                        ..old_props
                    }));
                }
                i = i + 1;
            } else if tt == TokenType::TagMinus {
                let name = strip_tag_prefix(&toks[i].literal);
                let cur = props.tags_remove.take();
                props.tags_remove = push_unique_exec(cur, name);
                directive = true;
                proof {
                    assert(props@ =~= (TaskPropsV {
                        tags_remove: push_unique(
                            old_props.tags_remove,
                            tag_name_of(lts[i as int].lit),
                        ),
                        ..old_props
                    }));
                }
                i = i + 1;
            } else if tt == TokenType::FilterStatus {
                if i + 1 < n && !(toks[i + 1].token_type == TokenType::Eof) {
                    match status_from_word(toks[i + 1].literal.as_str()) {
                        Some(st) => {
                            props.status = Some(st);
                            directive = true;
                            proof {
                                assert(props@ =~= (TaskPropsV {
                                    status: Some(st),
                                    ..old_props
                                }));
                            }
                            i = i + 2;
                        },
                        None => {
                            return Err(ParseError::UnknownStatus);
                        },
                    }
                } else {
                    return Err(ParseError::ExpectedTerm);
                }
            } else if tt == TokenType::Word && (str_eq(toks[i].literal.as_str(), "project:")
                || str_eq(toks[i].literal.as_str(), "proj:")) {
                if i + 1 < n && !(toks[i + 1].token_type == TokenType::Eof) {
                    props.project = Some(Project { name: toks[i + 1].literal.clone() });
                    directive = true;
                    proof {
                        assert(props@ =~= (TaskPropsV {
                            project: Some(lts[i as int + 1].lit),
                            ..old_props
                        }));
                    }
                    i = i + 2;
                } else {
                    return Err(ParseError::ExpectedTerm);
                }
            } else {
                proof {
                    assert(!is_project_prefix(lts[i as int]));
                }
                let lit = toks[i].literal.clone();
                let start: usize = starts[i];
                let lit_len: usize = lit.as_str().unicode_len();
                proof {
                    assert(lts[i as int].end == starts@[i as int] + lts[i as int].lit.len());
                    assert(lts[i as int].end <= s.len());
                }
                let tok_end: usize = start + lit_len;
                let new_summary: String = match props.summary.take() {
                    None => lit,
                    Some(s0) => {
                        let mut s0 = s0;
                        if directive {
                            s0.append(" ");
                            s0.append(lit.as_str());
                            s0
                        } else {
                            proof {
                                assert(exists|k: int|
                                    0 <= k < i && last_end == (#[trigger] lts[k]).end);
                                let k = choose|k: int|
                                    0 <= k < i && last_end == (#[trigger] lts[k]).end;
                                assert(lts[k].end <= lts[i as int].start);
                            }
                            let gap = self.lexer.span_text(last_end, start);
                            s0.append(gap.as_str());
                            s0.append(lit.as_str());
                            s0
                        }
                    },
                };
                props.summary = Some(new_summary);
                proof {
                    assert(props@ =~= (TaskPropsV {
                        summary: Some(
                            joined_summary(
                                old_props.summary,
                                old_directive,
                                old_last_end,
                                s,
                                lts[i as int],
                            ),
                        ),
                        ..old_props
                    }));
                }
                last_end = tok_end;
                directive = false;
                i = i + 1;
            }
        }
        proof {
            assert(spec_props_step(lts, s, i as int, props@, last_end as int, directive)
                == Ok::<TaskPropsV, ParseError>(props@));
        }
        Ok(props)
    }
}

} // verus!
