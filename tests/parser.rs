use kiv::parser::{Operation, Parser, ParserError};
use kiv::tokenizer::Tokenizer;

fn parse(text: &str) -> Result<Operation, ParserError> {
    let tokens = Tokenizer::new().tokenize(String::from(text)).unwrap();
    Parser::parse(tokens)
}

#[test]
fn set_statement_parses() {
    match parse("SET \"a\" TO \"b\"") {
        Ok(Operation::SET(s)) => {
            assert_eq!(s.key, "a");
            assert_eq!(s.value, "b");
        }
        _ => panic!("expected a set"),
    }
}

#[test]
fn set_without_to_fails() {
    assert!(matches!(parse("SET \"a\""), Err(ParserError::SetNoTo)));
}

#[test]
fn set_without_key_fails() {
    assert!(matches!(parse("SET TO \"b\""), Err(ParserError::SetNoKey)));
}

#[test]
fn set_without_value_fails() {
    assert!(matches!(parse("SET \"a\" TO"), Err(ParserError::SetNoValue)));
}

#[test]
fn get_without_key_fails() {
    assert!(matches!(parse("GET"), Err(ParserError::GetNoKey)));
}

#[test]
fn delete_without_key_fails() {
    assert!(matches!(parse("DELETE"), Err(ParserError::DeleteNoKey)));
}

#[test]
fn empty_input_fails() {
    assert!(matches!(parse(""), Err(ParserError::EmptyStatement)));
    assert!(matches!(parse("   "), Err(ParserError::EmptyStatement)));
}

#[test]
fn literal_first_fails() {
    assert!(matches!(parse("\"a\" GET"), Err(ParserError::OperationFirst)));
}

#[test]
fn to_first_fails() {
    assert!(matches!(parse("TO \"a\""), Err(ParserError::UnexpectedOperation)));
}

#[test]
fn get_and_delete_parse_with_leading_space() {
    match parse("  GET 'k'") {
        Ok(Operation::GET(g)) => assert_eq!(g.key, "k"),
        _ => panic!("expected a get"),
    }
    match parse("DELETE \"k\" GET") {
        Ok(Operation::DELETE(d)) => assert_eq!(d.key, "k"),
        _ => panic!("expected a delete"),
    }
}
