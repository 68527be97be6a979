use db::decimal::Decimal;
use db::tokenizer::{Token, Tokenizer};

#[test]
fn test_tokenize_simple() {
    let mut tokenizer = Tokenizer::new("CREATE TABLE users");
    let tokens = tokenizer.tokenize().unwrap();

    assert_eq!(
        tokens,
        vec![
            Token::Create,
            Token::Table,
            Token::Ident("users".into()),
            Token::Eof,
        ]
    );
}

#[test]
fn test_tokenize_with_parens() {
    let mut tokenizer = Tokenizer::new("(id, name)");
    let tokens = tokenizer.tokenize().unwrap();

    assert_eq!(
        tokens,
        vec![
            Token::LeftParen,
            Token::Ident("id".into()),
            Token::Comma,
            Token::Ident("name".into()),
            Token::RightParen,
            Token::Eof,
        ]
    );
}

#[test]
fn test_tokenize_create_table() {
    let mut tokenizer = Tokenizer::new("CREATE TABLE users (id INT, name TEXT)");
    let tokens = tokenizer.tokenize().unwrap();

    assert_eq!(
        tokens,
        vec![
            Token::Create,
            Token::Table,
            Token::Ident("users".into()),
            Token::LeftParen,
            Token::Ident("id".into()),
            Token::Int,
            Token::Comma,
            Token::Ident("name".into()),
            Token::Text,
            Token::RightParen,
            Token::Eof,
        ]
    );
}

#[test]
fn test_tokenize_numbers() {
    let mut tokenizer = Tokenizer::new("42, 123, 0");
    let tokens = tokenizer.tokenize().unwrap();

    assert_eq!(
        tokens,
        vec![
            Token::Number(42),
            Token::Comma,
            Token::Number(123),
            Token::Comma,
            Token::Number(0),
            Token::Eof,
        ]
    );
}

#[test]
fn test_tokenize_floats() {
    let mut tokenizer = Tokenizer::new("1.14, 45.0");
    let tokens = tokenizer.tokenize().unwrap();

    assert_eq!(
        tokens,
        vec![
            Token::FloatNumber(Decimal::new(114, 2)),
            Token::Comma,
            Token::FloatNumber(Decimal::new(450, 1)),
            Token::Eof,
        ]
    );
}

#[test]
fn test_tokenize_strings() {
    let mut tokenizer = Tokenizer::new("'Alice', 'Bob Dylan'");
    let tokens = tokenizer.tokenize().unwrap();

    assert_eq!(
        tokens,
        vec![
            Token::String("Alice".into()),
            Token::Comma,
            Token::String("Bob Dylan".into()),
            Token::Eof,
        ]
    );
}

#[test]
fn test_unterminated_string() {
    let mut tokenizer = Tokenizer::new("'hello");
    let result = tokenizer.tokenize();

    assert!(result.is_err());
}

#[test]
fn test_tokenize_empty_string_literal() {
    let mut tokenizer = Tokenizer::new("''");
    let tokens = tokenizer.tokenize().unwrap();

    assert_eq!(tokens, vec![Token::String("".into()), Token::Eof]);
}

#[test]
fn test_tokenize_two_dots_rejected() {
    let mut tokenizer = Tokenizer::new("1.2.3");
    assert!(tokenizer.tokenize().is_err());
}

#[test]
fn test_tokenize_unsupported_character() {
    let mut tokenizer = Tokenizer::new("id % 3");
    assert!(tokenizer.tokenize().is_err());
}

#[test]
fn test_tokenize_keywords_case_insensitive() {
    let mut tokenizer = Tokenizer::new("select From wHeRe");
    let tokens = tokenizer.tokenize().unwrap();

    assert_eq!(
        tokens,
        vec![Token::Select, Token::From, Token::Where, Token::Eof]
    );
}

#[test]
fn test_tokenize_integer_overflow_rejected() {
    let mut tokenizer = Tokenizer::new("99999999999999999999");
    assert!(tokenizer.tokenize().is_err());
}
