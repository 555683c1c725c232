use rusk::filter_parser::FilterParser;
use rusk::filters::Filter;
use rusk::lexer::Lexer;
use rusk::parse::ParseError;
use rusk::task::TaskStatus;

fn parse(text: &str) -> Result<Filter, ParseError> {
    FilterParser::parse(Lexer::new(text.to_owned()))
}

#[test]
fn empty_input_matches_everything() {
    assert_eq!(parse(""), Ok(Filter::Root { child: None }));
    assert_eq!(parse("   "), Ok(Filter::Root { child: None }));
}

#[test]
fn parses_leaf_terms() {
    assert_eq!(
        parse("status:completed"),
        Ok(Filter::Root {
            child: Some(Box::new(Filter::Status {
                status: TaskStatus::Completed
            }))
        })
    );
    assert_eq!(
        parse("42"),
        Ok(Filter::Root {
            child: Some(Box::new(Filter::TaskId { id: 42 }))
        })
    );
    assert_eq!(
        parse("+work"),
        Ok(Filter::Root {
            child: Some(Box::new(Filter::Tag {
                tag_name: "work".to_owned(),
                present: true
            }))
        })
    );
    assert_eq!(
        parse("-work"),
        Ok(Filter::Root {
            child: Some(Box::new(Filter::Tag {
                tag_name: "work".to_owned(),
                present: false
            }))
        })
    );
    assert_eq!(
        parse("hello"),
        Ok(Filter::Root {
            child: Some(Box::new(Filter::Text {
                value: "hello".to_owned()
            }))
        })
    );
}

#[test]
fn parses_a_uuid_to_its_value() {
    let u = "936da01f-9abd-4d9d-80c7-02af85c822a8";
    let expected = uuid::Uuid::parse_str(u).unwrap().as_u128();
    assert_eq!(
        parse(u),
        Ok(Filter::Root {
            child: Some(Box::new(Filter::Uuid { value: expected }))
        })
    );
}

#[test]
fn folds_operator_runs_into_nary_nodes() {
    assert_eq!(
        parse("a and b and c"),
        Ok(Filter::Root {
            child: Some(Box::new(Filter::And {
                children: vec![
                    Filter::Text {
                        value: "a".to_owned()
                    },
                    Filter::Text {
                        value: "b".to_owned()
                    },
                    Filter::Text {
                        value: "c".to_owned()
                    },
                ]
            }))
        })
    );
    assert_eq!(
        parse("a or b"),
        Ok(Filter::Root {
            child: Some(Box::new(Filter::Or {
                children: vec![
                    Filter::Text {
                        value: "a".to_owned()
                    },
                    Filter::Text {
                        value: "b".to_owned()
                    },
                ]
            }))
        })
    );
    assert_eq!(
        parse("a xor b xor c"),
        Ok(Filter::Root {
            child: Some(Box::new(Filter::Xor {
                children: vec![
                    Filter::Text {
                        value: "a".to_owned()
                    },
                    Filter::Text {
                        value: "b".to_owned()
                    },
                    Filter::Text {
                        value: "c".to_owned()
                    },
                ]
            }))
        })
    );
}

#[test]
fn juxtaposed_terms_are_joined_like_and() {
    assert_eq!(
        parse("hello world"),
        Ok(Filter::Root {
            child: Some(Box::new(Filter::And {
                children: vec![
                    Filter::Text {
                        value: "hello".to_owned()
                    },
                    Filter::Text {
                        value: "world".to_owned()
                    },
                ]
            }))
        })
    );
}

#[test]
fn parentheses_group_subexpressions() {
    assert_eq!(
        parse("(a or b) and c"),
        Ok(Filter::Root {
            child: Some(Box::new(Filter::And {
                children: vec![
                    Filter::Or {
                        children: vec![
                            Filter::Text {
                                value: "a".to_owned()
                            },
                            Filter::Text {
                                value: "b".to_owned()
                            },
                        ]
                    },
                    Filter::Text {
                        value: "c".to_owned()
                    },
                ]
            }))
        })
    );
}

#[test]
fn mixing_operator_kinds_is_an_error() {
    assert_eq!(parse("a and b or c"), Err(ParseError::MixedOperators));
    assert_eq!(parse("a or b xor c"), Err(ParseError::MixedOperators));
}

#[test]
fn unmatched_parentheses_are_errors() {
    assert_eq!(parse("(a or b"), Err(ParseError::UnmatchedParenthesis));
    assert_eq!(parse("a)"), Err(ParseError::UnmatchedParenthesis));
    assert_eq!(parse(")"), Err(ParseError::UnmatchedParenthesis));
}

#[test]
fn dangling_operators_are_errors() {
    assert_eq!(parse("a and"), Err(ParseError::ExpectedTerm));
    assert_eq!(parse("or b"), Err(ParseError::ExpectedTerm));
}

#[test]
fn unknown_status_words_are_errors() {
    assert_eq!(parse("status:later"), Err(ParseError::UnknownStatus));
    assert_eq!(parse("status:"), Err(ParseError::ExpectedTerm));
}

#[test]
fn status_words_are_read_case_insensitively() {
    assert_eq!(
        parse("status:PENDING"),
        Ok(Filter::Root {
            child: Some(Box::new(Filter::Status {
                status: TaskStatus::Pending
            }))
        })
    );
}

#[test]
fn oversized_task_ids_are_errors() {
    assert_eq!(
        parse("99999999999999999999999999999999999999"),
        Err(ParseError::NumberTooLarge)
    );
}
