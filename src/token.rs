//! Tokens, their mathematical model, and the errors of tokenizing and parsing.
use vstd::prelude::*;

verus! {

/// One lexical unit of an expression.
///
/// A numeric literal keeps the characters it was written with (digits and at
/// most one decimal point, starting with a digit).
#[derive(Debug, Clone, PartialEq)]
pub enum Token {
    Num(String),
    Add,
    Subtract,
    Multiply,
    Divide,
    Caret,
    And,
    Or,
    LeftParen,
    RightParen,
    EOF,
}

/// The model of a [`Token`]: a literal is a sequence of characters.
pub enum Tok {
    Num(Seq<char>),
    Add,
    Subtract,
    Multiply,
    Divide,
    Caret,
    And,
    Or,
    LeftParen,
    RightParen,
    EOF,
}

impl View for Token {
    type V = Tok;

    open spec fn view(&self) -> Tok {
        match self {
            Token::Num(text) => Tok::Num(text@),
            Token::Add => Tok::Add,
            Token::Subtract => Tok::Subtract,
            Token::Multiply => Tok::Multiply,
            Token::Divide => Tok::Divide,
            Token::Caret => Tok::Caret,
            Token::And => Tok::And,
            Token::Or => Tok::Or,
            Token::LeftParen => Tok::LeftParen,
            Token::RightParen => Tok::RightParen,
            Token::EOF => Tok::EOF,
        }
    }
}

/// Why an expression could not be tokenized or parsed.
#[derive(Debug, Clone, Copy, PartialEq, Eq, Structural)]
pub enum ParseError {
    /// A character that is no digit, operator, parenthesis or blank.
    UnrecognizedCharacter(char),
    /// A run of digits and decimal points with more than one point.
    MalformedNumber,
    /// An operand was required and the next token cannot start one.
    MissingOperand,
    /// A `(` whose `)` never came.
    UnclosedParenthesis,
    /// Tokens remain after a complete expression.
    TrailingInput,
}

/// The model of what a call of `Tokenizer::next` returned.
pub open spec fn token_result_view(r: Result<Token, ParseError>) -> Result<Tok, ParseError> {
    match r {
        Ok(t) => Ok(t@),
        Err(e) => Err(e),
    }
}

} // verus!
