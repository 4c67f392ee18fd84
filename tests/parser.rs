use parsemath::parse;
use parsemath::Node;
use parsemath::ParseError;

fn num(text: &str) -> Node {
    Node::Number(String::from(text))
}

fn bx(node: Node) -> Box<Node> {
    Box::new(node)
}

#[test]
fn caret_of_two_numbers() {
    assert_eq!(parse("2^3"), Ok(Node::Caret(bx(num("2")), bx(num("3")))));
}

#[test]
fn bitwise_and_or() {
    assert_eq!(parse("6&3"), Ok(Node::And(bx(num("6")), bx(num("3")))));
    assert_eq!(parse("6|3"), Ok(Node::Or(bx(num("6")), bx(num("3")))));
}

#[test]
fn division_by_a_zero_literal_parses() {
    assert_eq!(parse("5/0"), Ok(Node::Divide(bx(num("5")), bx(num("0")))));
}

#[test]
fn multiplication_binds_tighter_than_addition() {
    assert_eq!(
        parse("3+2*5"),
        Ok(Node::Add(
            bx(num("3")),
            bx(Node::Multiply(bx(num("2")), bx(num("5"))))
        ))
    );
}

#[test]
fn caret_groups_to_the_right() {
    assert_eq!(
        parse("2^3^2"),
        Ok(Node::Caret(
            bx(num("2")),
            bx(Node::Caret(bx(num("3")), bx(num("2"))))
        ))
    );
}

#[test]
fn subtraction_groups_to_the_left() {
    assert_eq!(
        parse("8-3-2"),
        Ok(Node::Subtract(
            bx(Node::Subtract(bx(num("8")), bx(num("3")))),
            bx(num("2"))
        ))
    );
}

#[test]
fn precedence_of_every_level() {
    // 1 | 2 & 3 + 4 * -5 ^ 6  ==  1 | (2 & (3 + (4 * (-(5 ^ 6)))))
    assert_eq!(
        parse("1|2&3+4*-5^6"),
        Ok(Node::Or(
            bx(num("1")),
            bx(Node::And(
                bx(num("2")),
                bx(Node::Add(
                    bx(num("3")),
                    bx(Node::Multiply(
                        bx(num("4")),
                        bx(Node::Negative(bx(Node::Caret(bx(num("5")), bx(num("6"))))))
                    ))
                ))
            ))
        ))
    );
}

#[test]
fn exponent_may_be_negated() {
    assert_eq!(
        parse("2^-1"),
        Ok(Node::Caret(bx(num("2")), bx(Node::Negative(bx(num("1"))))))
    );
}

#[test]
fn parentheses_group() {
    assert_eq!(
        parse("(1+2)*3"),
        Ok(Node::Multiply(
            bx(Node::Add(bx(num("1")), bx(num("2")))),
            bx(num("3"))
        ))
    );
    assert_eq!(parse("((7))"), Ok(num("7")));
}

#[test]
fn double_negation() {
    assert_eq!(
        parse("--4"),
        Ok(Node::Negative(bx(Node::Negative(bx(num("4"))))))
    );
}

#[test]
fn unclosed_parenthesis() {
    assert_eq!(parse("(1+2"), Err(ParseError::UnclosedParenthesis));
    assert_eq!(parse("(1 2)"), Err(ParseError::UnclosedParenthesis));
}

#[test]
fn trailing_input() {
    assert_eq!(parse("1 2"), Err(ParseError::TrailingInput));
    assert_eq!(parse("1+2)"), Err(ParseError::TrailingInput));
}

#[test]
fn missing_operand() {
    assert_eq!(parse(""), Err(ParseError::MissingOperand));
    assert_eq!(parse("1+"), Err(ParseError::MissingOperand));
    assert_eq!(parse("*2"), Err(ParseError::MissingOperand));
    assert_eq!(parse("()"), Err(ParseError::MissingOperand));
}

#[test]
fn tokenizer_errors_propagate() {
    assert_eq!(parse("1+x"), Err(ParseError::UnrecognizedCharacter('x')));
    assert_eq!(parse("1.1.1*2"), Err(ParseError::MalformedNumber));
    assert_eq!(parse("1 #"), Err(ParseError::UnrecognizedCharacter('#')));
}

#[test]
fn parsing_twice_gives_the_same_tree() {
    assert_eq!(parse("4*(2-1)"), parse("4*(2-1)"));
}
