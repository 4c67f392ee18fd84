//! A precedence-climbing parser that pulls tokens from a [`Tokenizer`] and
//! builds a [`Node`] tree.
//!
//! Precedence, from loosest to tightest: `|`, `&`, `+ -`, `* /`, unary `-`,
//! `^`, then literals and parenthesised expressions. Binary operators group to
//! the left except `^`, which groups to the right.
use crate::ast::{Expr, Node};
use crate::token::{token_result_view, ParseError, Tok, Token};
use crate::tokenizer::{lemma_scan_advances, scan, Tokenizer};
use vstd::prelude::*;

verus! {

/// What parsing from a position gives: a tree and the position after it.
pub type Parsed = Result<(Expr, nat), ParseError>;

/// The operators of each binary level: 0 is `|`, 1 is `&`, 2 is `+ -`, and 3
/// (or more) is `* /`.
pub open spec fn level_operator(level: nat, t: Tok) -> bool {
    match t {
        Tok::Or => level == 0,
        Tok::And => level == 1,
        Tok::Add | Tok::Subtract => level == 2,
        Tok::Multiply | Tok::Divide => level >= 3,
        _ => false,
    }
}

/// The tree that joins two operands with the operator `op`.
pub open spec fn binary(op: Tok, left: Expr, right: Expr) -> Expr {
    match op {
        Tok::Or => Expr::Or(Box::new(left), Box::new(right)),
        Tok::And => Expr::And(Box::new(left), Box::new(right)),
        Tok::Add => Expr::Add(Box::new(left), Box::new(right)),
        Tok::Subtract => Expr::Subtract(Box::new(left), Box::new(right)),
        Tok::Multiply => Expr::Multiply(Box::new(left), Box::new(right)),
        Tok::Divide => Expr::Divide(Box::new(left), Box::new(right)),
        _ => left,
    }
}

/// Orders the parsing functions for termination: each one calls, at the same
/// position, only functions of a lower rank.
pub open spec fn level_rank(level: nat) -> int {
    if level < 3 {
        10 - 2 * level
    } else {
        4
    }
}

/// A successful parse from `p` ends after `p` and within the input.
pub open spec fn moved_on(s: Seq<char>, p: nat, q: nat) -> bool {
    p < q <= s.len()
}

/// A binary level: operands of the next level joined, left to right, by the
/// operators of this level.
pub open spec fn parse_level(s: Seq<char>, level: nat, p: nat) -> Parsed
    decreases s.len() - p, level_rank(level),
{
    match parse_operand(s, level, p) {
        Err(e) => Err(e),
        Ok((left, q)) => if moved_on(s, p, q) {
            level_tail(s, level, left, q)
        } else {
            Err(ParseError::MissingOperand)
        },
    }
}

/// The operand of a binary level: the next binary level, or a unary
/// expression below the lowest.
pub open spec fn parse_operand(s: Seq<char>, level: nat, p: nat) -> Parsed
    decreases s.len() - p, level_rank(level) - 1,
{
    if level < 3 {
        parse_level(s, level + 1, p)
    } else {
        parse_unary(s, p)
    }
}

/// After `left`, the rest of a binary level: while the next token is one of its
/// operators, that operator and one more operand.
pub open spec fn level_tail(s: Seq<char>, level: nat, left: Expr, p: nat) -> Parsed
    decreases s.len() - p, 0int,
    via level_tail_decreases
{
    let (t, q) = scan(s, p);
    match t {
        Ok(op) => if level_operator(level, op) {
            match parse_operand(s, level, q) {
                Err(e) => Err(e),
                Ok((right, r)) => if moved_on(s, q, r) {
                    level_tail(s, level, binary(op, left, right), r)
                } else {
                    Err(ParseError::MissingOperand)
                },
            }
        } else {
            Ok((left, p))
        },
        Err(_) => Ok((left, p)),
    }
}

#[via_fn]
proof fn level_tail_decreases(s: Seq<char>, level: nat, left: Expr, p: nat) {
    lemma_scan_advances(s, p);
}

/// A unary expression: any number of `-` signs before a power.
pub open spec fn parse_unary(s: Seq<char>, p: nat) -> Parsed
    decreases s.len() - p, 2int,
    via unary_decreases
{
    let (t, q) = scan(s, p);
    if t == Ok::<Tok, ParseError>(Tok::Subtract) {
        match parse_unary(s, q) {
            Err(e) => Err(e),
            Ok((operand, r)) => Ok((Expr::Negative(Box::new(operand)), r)),
        }
    } else {
        parse_power(s, p)
    }
}

#[via_fn]
proof fn unary_decreases(s: Seq<char>, p: nat) {
    lemma_scan_advances(s, p);
}

/// An atom, raised to a unary expression when a `^` follows. As the exponent
/// is again a unary expression, `^` groups to the right.
pub open spec fn parse_power(s: Seq<char>, p: nat) -> Parsed
    decreases s.len() - p, 1int,
    via power_decreases
{
    match parse_atom(s, p) {
        Err(e) => Err(e),
        Ok((base, q)) => if moved_on(s, p, q) {
            let (t, r) = scan(s, q);
            if t == Ok::<Tok, ParseError>(Tok::Caret) {
                match parse_unary(s, r) {
                    Err(e) => Err(e),
                    Ok((exponent, r2)) => Ok(
                        (Expr::Caret(Box::new(base), Box::new(exponent)), r2),
                    ),
                }
            } else {
                Ok((base, q))
            }
        } else {
            Err(ParseError::MissingOperand)
        },
    }
}

#[via_fn]
proof fn power_decreases(s: Seq<char>, p: nat) {
    assert forall|q: nat| q <= s.len() implies #[trigger] scan(s, q).1 <= s.len() && q
        <= scan(s, q).1 by {
        lemma_scan_advances(s, q);
    }
}

/// A numeric literal, or a whole expression between parentheses.
pub open spec fn parse_atom(s: Seq<char>, p: nat) -> Parsed
    decreases s.len() - p, 0int,
    via atom_decreases
{
    let (t, q) = scan(s, p);
    match t {
        Err(e) => Err(e),
        Ok(Tok::Num(text)) => Ok((Expr::Number(text), q)),
        Ok(Tok::LeftParen) => match parse_level(s, 0, q) {
            Err(e) => Err(e),
            Ok((inner, r)) => {
                let (close, r2) = scan(s, r);
                match close {
                    Ok(Tok::RightParen) => Ok((inner, r2)),
                    Ok(_) => Err(ParseError::UnclosedParenthesis),
                    Err(e) => Err(e),
                }
            },
        },
        Ok(_) => Err(ParseError::MissingOperand),
    }
}

#[via_fn]
proof fn atom_decreases(s: Seq<char>, p: nat) {
    lemma_scan_advances(s, p);
}

/// The tree of the whole of `s`: one expression, then the end of the input.
pub open spec fn parse_all(s: Seq<char>) -> Result<Expr, ParseError> {
    match parse_level(s, 0, 0) {
        Err(e) => Err(e),
        Ok((tree, q)) => match scan(s, q).0 {
            Ok(Tok::EOF) => Ok(tree),
            Ok(_) => Err(ParseError::TrailingInput),
            Err(e) => Err(e),
        },
    }
}

/// Every successful parse consumes at least one token and stays within the
/// input, so the fallback branches after `moved_on` in the functions above are
/// never taken.
pub proof fn lemma_level_moves_on(s: Seq<char>, level: nat, p: nat)
    requires
        p <= s.len(),
    ensures
        parse_level(s, level, p) matches Ok((_, q)) ==> moved_on(s, p, q),
    decreases s.len() - p, level_rank(level),
{
    lemma_operand_moves_on(s, level, p);
    if let Ok((left, q)) = parse_operand(s, level, p) {
        lemma_tail_stays(s, level, left, q);
    }
}

pub proof fn lemma_operand_moves_on(s: Seq<char>, level: nat, p: nat)
    requires
        p <= s.len(),
    ensures
        parse_operand(s, level, p) matches Ok((_, q)) ==> moved_on(s, p, q),
    decreases s.len() - p, level_rank(level) - 1,
{
    if level < 3 {
        lemma_level_moves_on(s, level + 1, p);
    } else {
        lemma_unary_moves_on(s, p);
    }
}

pub proof fn lemma_tail_stays(s: Seq<char>, level: nat, left: Expr, p: nat)
    requires
        p <= s.len(),
    ensures
        level_tail(s, level, left, p) matches Ok((_, q)) ==> p <= q <= s.len(),
    decreases s.len() - p, 0int,
{
    lemma_scan_advances(s, p);
    let (t, q) = scan(s, p);
    if let Ok(op) = t {
        if level_operator(level, op) {
            lemma_operand_moves_on(s, level, q);
            if let Ok((right, r)) = parse_operand(s, level, q) {
                lemma_tail_stays(s, level, binary(op, left, right), r);
            }
        }
    }
}

pub proof fn lemma_unary_moves_on(s: Seq<char>, p: nat)
    requires
        p <= s.len(),
    ensures
        parse_unary(s, p) matches Ok((_, q)) ==> moved_on(s, p, q),
    decreases s.len() - p, 2int,
{
    lemma_scan_advances(s, p);
    if scan(s, p).0 == Ok::<Tok, ParseError>(Tok::Subtract) {
        lemma_unary_moves_on(s, scan(s, p).1);
    } else {
        lemma_power_moves_on(s, p);
    }
}

pub proof fn lemma_power_moves_on(s: Seq<char>, p: nat)
    requires
        p <= s.len(),
    ensures
        parse_power(s, p) matches Ok((_, q)) ==> moved_on(s, p, q),
    decreases s.len() - p, 1int,
{
    lemma_atom_moves_on(s, p);
    if let Ok((_, q)) = parse_atom(s, p) {
        lemma_scan_advances(s, q);
        if scan(s, q).0 == Ok::<Tok, ParseError>(Tok::Caret) {
            lemma_unary_moves_on(s, scan(s, q).1);
        }
    }
}

pub proof fn lemma_atom_moves_on(s: Seq<char>, p: nat)
    requires
        p <= s.len(),
    ensures
        parse_atom(s, p) matches Ok((_, q)) ==> moved_on(s, p, q),
    decreases s.len() - p, 0int,
{
    lemma_scan_advances(s, p);
    let q = scan(s, p).1;
    if scan(s, p).0 == Ok::<Tok, ParseError>(Tok::LeftParen) {
        lemma_level_moves_on(s, 0, q);
        if let Ok((_, r)) = parse_level(s, 0, q) {
            lemma_scan_advances(s, r);
        }
    }
}

/// How an exec parsing function's result stands to the parse from `p`, which
/// left the parser at `q`.
pub open spec fn agrees(
    r: Result<Node, ParseError>,
    expected: Parsed,
    s: Seq<char>,
    p: nat,
    q: nat,
) -> bool {
    match r {
        Ok(tree) => expected == Ok::<(Expr, nat), ParseError>((tree@, q)) && moved_on(s, p, q),
        Err(e) => expected == Err::<(Expr, nat), ParseError>(e),
    }
}

/// A tokenizer and the one token of lookahead that was read from it.
struct Parser {
    tokenizer: Tokenizer,
    current: Result<Token, ParseError>,
    /// Where the scan that produced `current` began.
    at: Ghost<nat>,
}

impl Parser {
    spec fn input(&self) -> Seq<char> {
        self.tokenizer.input()
    }

    spec fn wf(&self) -> bool {
        &&& self.tokenizer.wf()
        &&& self.tokenizer.position() <= self.input().len()
        &&& self.at@ <= self.input().len()
        &&& scan(self.input(), self.at@) == (
            token_result_view(self.current),
            self.tokenizer.position(),
        )
    }

    fn new(input: &str) -> (parser: Parser)
        ensures
            parser.wf(),
            parser.input() == input@,
            parser.at@ == 0,
    {
        let mut tokenizer = Tokenizer::new(input);
        let current = tokenizer.next();
        Parser { tokenizer, current, at: Ghost(0) }
    }

    /// Consumes the lookahead token and returns it.
    fn advance(&mut self) -> (t: Result<Token, ParseError>)
        requires
            old(self).wf(),
        ensures
            final(self).wf(),
            final(self).input() == old(self).input(),
            token_result_view(t) == scan(old(self).input(), old(self).at@).0,
            final(self).at@ == scan(old(self).input(), old(self).at@).1,
    {
        let ghost q = self.tokenizer.position();
        let mut t = self.tokenizer.next();
        std::mem::swap(&mut self.current, &mut t);
        self.at = Ghost(q);
        t
    }

    /// Whether the lookahead is an operator of the binary level `level`.
    fn at_level_operator(&self, level: usize) -> (r: bool)
        ensures
            r == match token_result_view(self.current) {
                Ok(t) => level_operator(level as nat, t),
                Err(_) => false,
            },
    {
        match &self.current {
            Ok(Token::Or) => level == 0,
            Ok(Token::And) => level == 1,
            Ok(Token::Add) | Ok(Token::Subtract) => level == 2,
            Ok(Token::Multiply) | Ok(Token::Divide) => level >= 3,
            _ => false,
        }
    }

    fn parse_level(&mut self, level: usize) -> (r: Result<Node, ParseError>)
        requires
            old(self).wf(),
        ensures
            final(self).wf(),
            final(self).input() == old(self).input(),
            agrees(r, parse_level(old(self).input(), level as nat, old(self).at@), old(self).input(), old(self).at@, final(self).at@),
        decreases old(self).input().len() - old(self).at@, level_rank(level as nat),
    {
        let ghost s = self.input();
        let ghost p = self.at@;
        let mut left = match self.parse_operand(level) {
            Ok(n) => n,
            Err(e) => {
                return Err(e);
            },
        };
        loop
            invariant
                self.wf(),
                self.input() == s,
                s == old(self).input(),
                p == old(self).at@,
                moved_on(s, p, self.at@),
                parse_level(s, level as nat, p) == level_tail(s, level as nat, left@, self.at@),
            decreases s.len() - self.at@,
        {
            if !self.at_level_operator(level) {
                return Ok(left);
            }
            let ghost q = self.at@;
            proof {
                lemma_scan_advances(s, q);
            }
            let op = match self.advance() {
                Ok(t) => t,
                Err(e) => {
                    return Err(e);
                },
            };
            let right = match self.parse_operand(level) {
                Ok(n) => n,
                Err(e) => {
                    return Err(e);
                },
            };
            left = join(&op, left, right);
        }
    }

    fn parse_operand(&mut self, level: usize) -> (r: Result<Node, ParseError>)
        requires
            old(self).wf(),
        ensures
            final(self).wf(),
            final(self).input() == old(self).input(),
            agrees(r, parse_operand(old(self).input(), level as nat, old(self).at@), old(self).input(), old(self).at@, final(self).at@),
        decreases old(self).input().len() - old(self).at@, level_rank(level as nat) - 1,
    {
        if level < 3 {
            self.parse_level(level + 1)
        } else {
            self.parse_unary()
        }
    }

    fn parse_unary(&mut self) -> (r: Result<Node, ParseError>)
        requires
            old(self).wf(),
        ensures
            final(self).wf(),
            final(self).input() == old(self).input(),
            agrees(r, parse_unary(old(self).input(), old(self).at@), old(self).input(), old(self).at@, final(self).at@),
        decreases old(self).input().len() - old(self).at@, 2int,
    {
        let ghost s = self.input();
        let ghost p = self.at@;
        proof {
            lemma_scan_advances(s, p);
        }
        if matches!(self.current, Ok(Token::Subtract)) {
            let _ = self.advance();
            match self.parse_unary() {
                Ok(operand) => Ok(Node::Negative(Box::new(operand))),
                Err(e) => Err(e),
            }
        } else {
            self.parse_power()
        }
    }

    fn parse_power(&mut self) -> (r: Result<Node, ParseError>)
        requires
            old(self).wf(),
        ensures
            final(self).wf(),
            final(self).input() == old(self).input(),
            agrees(r, parse_power(old(self).input(), old(self).at@), old(self).input(), old(self).at@, final(self).at@),
        decreases old(self).input().len() - old(self).at@, 1int,
    {
        let ghost s = self.input();
        let ghost p = self.at@;
        let base = match self.parse_atom() {
            Ok(n) => n,
            Err(e) => {
                return Err(e);
            },
        };
        let ghost q = self.at@;
        proof {
            lemma_scan_advances(s, q);
        }
        if matches!(self.current, Ok(Token::Caret)) {
            let _ = self.advance();
            match self.parse_unary() {
                Ok(exponent) => Ok(Node::Caret(Box::new(base), Box::new(exponent))),
                Err(e) => Err(e),
            }
        } else {
            Ok(base)
        }
    }

    fn parse_atom(&mut self) -> (r: Result<Node, ParseError>)
        requires
            old(self).wf(),
        ensures
            final(self).wf(),
            final(self).input() == old(self).input(),
            agrees(r, parse_atom(old(self).input(), old(self).at@), old(self).input(), old(self).at@, final(self).at@),
        decreases old(self).input().len() - old(self).at@, 0int,
    {
        let ghost s = self.input();
        let ghost p = self.at@;
        proof {
            lemma_scan_advances(s, p);
        }
        match self.advance() {
            Err(e) => Err(e),
            Ok(Token::Num(text)) => Ok(Node::Number(text)),
            Ok(Token::LeftParen) => {
                let inner = match self.parse_level(0) {
                    Ok(n) => n,
                    Err(e) => {
                        return Err(e);
                    },
                };
                let ghost r = self.at@;
                proof {
                    lemma_scan_advances(s, r);
                }
                match self.advance() {
                    Ok(Token::RightParen) => Ok(inner),
                    Ok(_) => Err(ParseError::UnclosedParenthesis),
                    Err(e) => Err(e),
                }
            },
            Ok(_) => Err(ParseError::MissingOperand),
        }
    }
}

/// Joins two operands with the binary operator `op`.
fn join(op: &Token, left: Node, right: Node) -> (n: Node)
    ensures
        n@ == binary(op@, left@, right@),
{
    match op {
        Token::Or => Node::Or(Box::new(left), Box::new(right)),
        Token::And => Node::And(Box::new(left), Box::new(right)),
        Token::Add => Node::Add(Box::new(left), Box::new(right)),
        Token::Subtract => Node::Subtract(Box::new(left), Box::new(right)),
        Token::Multiply => Node::Multiply(Box::new(left), Box::new(right)),
        Token::Divide => Node::Divide(Box::new(left), Box::new(right)),
        _ => left,
    }
}

/// Parses a whole expression into a tree.
///
/// Tokens are read only as far as the parse needs them; an error of the
/// tokenizer that the parse reaches is returned unchanged.
pub fn parse(input: &str) -> (r: Result<Node, ParseError>)
    ensures
        match r {
            Ok(tree) => parse_all(input@) == Ok::<Expr, ParseError>(tree@),
            Err(e) => parse_all(input@) == Err::<Expr, ParseError>(e),
        },
{
    let mut parser = Parser::new(input);
    let tree = match parser.parse_level(0) {
        Ok(n) => n,
        Err(e) => {
            return Err(e);
        },
    };
    match parser.current {
        Ok(Token::EOF) => Ok(tree),
        Ok(_) => Err(ParseError::TrailingInput),
        Err(e) => Err(e),
    }
}

} // verus!
