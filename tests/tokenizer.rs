use parsemath::ParseError;
use parsemath::Token;
use parsemath::Tokenizer;
use parsemath::tokenize;

/// The value of a numeric literal token.
fn value(token: Token) -> f64 {
    match token {
        Token::Num(text) => text.parse::<f64>().unwrap(),
        other => panic!("expected a number, got {:?}", other),
    }
}

#[test]
fn test_tokenize_exponentiation() {
    let mut tokenizer = Tokenizer::new("2^3");
    assert_eq!(value(tokenizer.next().unwrap()), 2.0);
    assert_eq!(tokenizer.next().unwrap(), Token::Caret);
    assert_eq!(value(tokenizer.next().unwrap()), 3.0);
}

#[test]
fn test_tokenize_mixed_expression() {
    let mut tokenizer = Tokenizer::new("10+2*3/4-5");
    assert_eq!(value(tokenizer.next().unwrap()), 10.0);
    assert_eq!(tokenizer.next().unwrap(), Token::Add);
    assert_eq!(value(tokenizer.next().unwrap()), 2.0);
    assert_eq!(tokenizer.next().unwrap(), Token::Multiply);
    assert_eq!(value(tokenizer.next().unwrap()), 3.0);
    assert_eq!(tokenizer.next().unwrap(), Token::Divide);
    assert_eq!(value(tokenizer.next().unwrap()), 4.0);
    assert_eq!(tokenizer.next().unwrap(), Token::Subtract);
    assert_eq!(value(tokenizer.next().unwrap()), 5.0);
}

#[test]
fn test_tokenize_bitwise_and_or() {
    let mut tokenizer = Tokenizer::new("6&3|2");
    assert_eq!(value(tokenizer.next().unwrap()), 6.0);
    assert_eq!(tokenizer.next().unwrap(), Token::And);
    assert_eq!(value(tokenizer.next().unwrap()), 3.0);
    assert_eq!(tokenizer.next().unwrap(), Token::Or);
    assert_eq!(value(tokenizer.next().unwrap()), 2.0);
}

#[test]
fn test_tokenize_negative_number() {
    let mut tokenizer = Tokenizer::new("-5");
    assert_eq!(tokenizer.next().unwrap(), Token::Subtract);
    assert_eq!(value(tokenizer.next().unwrap()), 5.0);
}

#[test]
fn test_tokenize_parentheses() {
    let mut tokenizer = Tokenizer::new("(1+2)");
    assert_eq!(tokenizer.next().unwrap(), Token::LeftParen);
    assert_eq!(value(tokenizer.next().unwrap()), 1.0);
    assert_eq!(tokenizer.next().unwrap(), Token::Add);
    assert_eq!(value(tokenizer.next().unwrap()), 2.0);
    assert_eq!(tokenizer.next().unwrap(), Token::RightParen);
}

#[test]
fn negative_literal_is_two_tokens() {
    let tokens = tokenize("-5").unwrap();
    assert_eq!(
        tokens,
        vec![Token::Subtract, Token::Num(String::from("5")), Token::EOF]
    );
}

#[test]
fn literal_keeps_all_its_characters() {
    let tokens = tokenize("12.75").unwrap();
    assert_eq!(tokens, vec![Token::Num(String::from("12.75")), Token::EOF]);
    let tokens = tokenize("3.").unwrap();
    assert_eq!(tokens, vec![Token::Num(String::from("3.")), Token::EOF]);
}

#[test]
fn blanks_are_skipped() {
    let tokens = tokenize(" 1 \t+\n2 ").unwrap();
    assert_eq!(
        tokens,
        vec![
            Token::Num(String::from("1")),
            Token::Add,
            Token::Num(String::from("2")),
            Token::EOF
        ]
    );
}

#[test]
fn eof_repeats_once_input_is_exhausted() {
    let mut tokenizer = Tokenizer::new("7");
    assert_eq!(value(tokenizer.next().unwrap()), 7.0);
    assert_eq!(tokenizer.next().unwrap(), Token::EOF);
    assert_eq!(tokenizer.next().unwrap(), Token::EOF);
    assert_eq!(tokenizer.next().unwrap(), Token::EOF);
}

#[test]
fn empty_input_is_only_eof() {
    assert_eq!(tokenize("").unwrap(), vec![Token::EOF]);
    assert_eq!(tokenize("   ").unwrap(), vec![Token::EOF]);
}

#[test]
fn every_symbol_has_its_token() {
    let tokens = tokenize("+-*/^&|()").unwrap();
    assert_eq!(
        tokens,
        vec![
            Token::Add,
            Token::Subtract,
            Token::Multiply,
            Token::Divide,
            Token::Caret,
            Token::And,
            Token::Or,
            Token::LeftParen,
            Token::RightParen,
            Token::EOF
        ]
    );
}

#[test]
fn unrecognized_character_is_reported_and_consumed() {
    let mut tokenizer = Tokenizer::new("1$2");
    assert_eq!(value(tokenizer.next().unwrap()), 1.0);
    assert_eq!(tokenizer.next(), Err(ParseError::UnrecognizedCharacter('$')));
    assert_eq!(value(tokenizer.next().unwrap()), 2.0);
    assert_eq!(tokenize("1 % 2"), Err(ParseError::UnrecognizedCharacter('%')));
}

#[test]
fn two_decimal_points_make_a_malformed_number() {
    let mut tokenizer = Tokenizer::new("1.2.3+4");
    assert_eq!(tokenizer.next(), Err(ParseError::MalformedNumber));
    assert_eq!(tokenizer.next().unwrap(), Token::Add);
    assert_eq!(tokenize("9..1"), Err(ParseError::MalformedNumber));
}
