use rusk::lexer::Lexer;
use rusk::lexer::TokenType;

fn tokens_of(text: &str) -> Vec<(TokenType, String)> {
    let mut lexer = Lexer::new(text.to_owned());
    let mut out = Vec::new();
    loop {
        let tok = lexer.next_token().unwrap();
        let is_eof = tok.token_type == TokenType::Eof;
        out.push((tok.token_type, tok.literal));
        if is_eof {
            break;
        }
    }
    out
}

#[test]
fn lexes_plain_words_and_parens() {
    let toks = tokens_of("a new task summ(ary");
    assert_eq!(
        toks,
        vec![
            (TokenType::Word, "a".to_owned()),
            (TokenType::Word, "new".to_owned()),
            (TokenType::Word, "task".to_owned()),
            (TokenType::Word, "summ".to_owned()),
            (TokenType::LeftParenthesis, "(".to_owned()),
            (TokenType::Word, "ary".to_owned()),
            (TokenType::Eof, "".to_owned()),
        ]
    );
}

#[test]
fn lexes_operators_only_as_whole_words() {
    let toks = tokens_of("and android or xordinary xor");
    assert_eq!(
        toks,
        vec![
            (TokenType::OperatorAnd, "and".to_owned()),
            (TokenType::Word, "android".to_owned()),
            (TokenType::OperatorOr, "or".to_owned()),
            (TokenType::Word, "xordinary".to_owned()),
            (TokenType::OperatorXor, "xor".to_owned()),
            (TokenType::Eof, "".to_owned()),
        ]
    );
}

#[test]
fn lexes_tags_with_their_prefix() {
    let toks = tokens_of("+work -home +_x");
    assert_eq!(
        toks,
        vec![
            (TokenType::TagPlus, "+work".to_owned()),
            (TokenType::TagMinus, "-home".to_owned()),
            (TokenType::TagPlus, "+_x".to_owned()),
            (TokenType::Eof, "".to_owned()),
        ]
    );
}

#[test]
fn lexes_status_prefix_and_integers() {
    let toks = tokens_of("status:pending 42");
    assert_eq!(
        toks,
        vec![
            (TokenType::FilterStatus, "status:".to_owned()),
            (TokenType::Word, "pending".to_owned()),
            (TokenType::Int, "42".to_owned()),
            (TokenType::Eof, "".to_owned()),
        ]
    );
}

#[test]
fn lexes_a_uuid_window() {
    let u = "936da01f-9abd-4d9d-80c7-02af85c822a8";
    let toks = tokens_of(u);
    assert_eq!(toks[0], (TokenType::Uuid, u.to_owned()));

    // A truncated UUID region falls through to the other rules: the digit
    // run is read first, the rest forms a word.
    let toks = tokens_of("936da01f-9abd");
    assert_eq!(toks[0], (TokenType::Int, "936".to_owned()));
    assert_eq!(toks[1], (TokenType::Word, "da01f-9abd".to_owned()));
}

#[test]
fn yields_end_of_input_forever() {
    let mut lexer = Lexer::new("one".to_owned());
    assert_eq!(lexer.next_token().unwrap().token_type, TokenType::Word);
    assert_eq!(lexer.next_token().unwrap().token_type, TokenType::Eof);
    assert_eq!(lexer.next_token().unwrap().token_type, TokenType::Eof);
    assert_eq!(lexer.next_token().unwrap().token_type, TokenType::Eof);
}

#[test]
fn token_kind_names() {
    assert_eq!(TokenType::Word.kind_name(), "Word".to_owned());
    assert_eq!(TokenType::OperatorXor.kind_name(), "OperatorXor".to_owned());
    assert_eq!(TokenType::Eof.kind_name(), "Eof".to_owned());
}

#[test]
fn a_tag_prefix_needs_a_word_character() {
    let toks = tokens_of("+ -");
    assert_eq!(
        toks,
        vec![
            (TokenType::Word, "+".to_owned()),
            (TokenType::Word, "-".to_owned()),
            (TokenType::Eof, "".to_owned()),
        ]
    );
}
