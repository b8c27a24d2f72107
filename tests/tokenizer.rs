use kiv::tokenizer::{Keyword, Token, Tokenizer, TokenizerError};

#[test]
fn strings_are_detected() {
    let expected = vec![
        Token::String(String::from("hello")),
        Token::Whitespace,
        Token::String(String::from("world")),
    ];

    let statement = String::from("\"hello\" \"world\"");

    let tokens = Tokenizer::new().tokenize(statement).unwrap();

    assert_eq!(expected, tokens);
}

#[test]
fn keywords_are_detected() {
    let expected = vec![
        Token::Keyword(Keyword::SET),
        Token::Whitespace,
        Token::Keyword(Keyword::TO),
    ];

    let statement = String::from("SET TO");

    let tokens = Tokenizer::new().tokenize(statement).unwrap();

    assert_eq!(expected, tokens);
}

#[test]
fn bare_words_are_unknown_keywords() {
    let r = Tokenizer::new().tokenize(String::from("SET x TO y"));
    match r {
        Err(TokenizerError::UnknownKeyword(w)) => assert_eq!(w, "X"),
        Ok(_) => panic!("bare word accepted"),
    }
}

#[test]
fn keywords_ignore_case() {
    let tokens = Tokenizer::new()
        .tokenize(String::from("get Delete sEt tO"))
        .unwrap();
    let expected = vec![
        Token::Keyword(Keyword::GET),
        Token::Whitespace,
        Token::Keyword(Keyword::DELETE),
        Token::Whitespace,
        Token::Keyword(Keyword::SET),
        Token::Whitespace,
        Token::Keyword(Keyword::TO),
    ];
    assert_eq!(expected, tokens);
}

#[test]
fn whitespace_runs_give_one_marker() {
    let tokens = Tokenizer::new()
        .tokenize(String::from(" \t\r\n GET"))
        .unwrap();
    assert_eq!(vec![Token::Whitespace, Token::Keyword(Keyword::GET)], tokens);
}

#[test]
fn quotes_of_either_kind_close_a_literal() {
    let tokens = Tokenizer::new()
        .tokenize(String::from("'a b\" ''"))
        .unwrap();
    assert_eq!(
        vec![
            Token::String(String::from("a b")),
            Token::Whitespace,
            Token::String(String::new()),
        ],
        tokens
    );
}

#[test]
fn unterminated_literal_runs_to_the_end() {
    let tokens = Tokenizer::new().tokenize(String::from("\"abc")).unwrap();
    assert_eq!(vec![Token::String(String::from("abc"))], tokens);
}

#[test]
fn other_characters_are_passed_over() {
    let tokens = Tokenizer::new().tokenize(String::from("GET;\"k\"!")).unwrap();
    assert_eq!(
        vec![Token::Keyword(Keyword::GET), Token::String(String::from("k"))],
        tokens
    );
}

#[test]
fn literals_keep_non_ascii_text() {
    let tokens = Tokenizer::new().tokenize(String::from("\"héllo\"")).unwrap();
    assert_eq!(vec![Token::String(String::from("héllo"))], tokens);
}

#[test]
fn empty_statement_has_no_tokens() {
    let tokens = Tokenizer::new().tokenize(String::new()).unwrap();
    assert!(tokens.is_empty());
}
