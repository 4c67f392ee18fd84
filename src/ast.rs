//! The expression tree that the parser builds, and its mathematical model.
use vstd::prelude::*;

verus! {

/// An expression tree. Each node owns its operands.
///
/// `And` and `Or` are bitwise operations on the integer parts of their
/// operands' values. A `Number` keeps the text of its literal.
#[derive(Debug, PartialEq)]
pub enum Node {
    And(Box<Node>, Box<Node>),
    Or(Box<Node>, Box<Node>),
    Add(Box<Node>, Box<Node>),
    Subtract(Box<Node>, Box<Node>),
    Multiply(Box<Node>, Box<Node>),
    Divide(Box<Node>, Box<Node>),
    Caret(Box<Node>, Box<Node>),
    Negative(Box<Node>),
    Number(String),
}

/// The model of a [`Node`]: the same tree, with each literal as a sequence of
/// characters.
pub enum Expr {
    And(Box<Expr>, Box<Expr>),
    Or(Box<Expr>, Box<Expr>),
    Add(Box<Expr>, Box<Expr>),
    Subtract(Box<Expr>, Box<Expr>),
    Multiply(Box<Expr>, Box<Expr>),
    Divide(Box<Expr>, Box<Expr>),
    Caret(Box<Expr>, Box<Expr>),
    Negative(Box<Expr>),
    Number(Seq<char>),
}

impl Node {
    pub open spec fn as_expr(&self) -> Expr
        decreases self,
    {
        match self {
            Node::And(a, b) => Expr::And(Box::new(a.as_expr()), Box::new(b.as_expr())),
            Node::Or(a, b) => Expr::Or(Box::new(a.as_expr()), Box::new(b.as_expr())),
            Node::Add(a, b) => Expr::Add(Box::new(a.as_expr()), Box::new(b.as_expr())),
            Node::Subtract(a, b) => Expr::Subtract(Box::new(a.as_expr()), Box::new(b.as_expr())),
            Node::Multiply(a, b) => Expr::Multiply(Box::new(a.as_expr()), Box::new(b.as_expr())),
            Node::Divide(a, b) => Expr::Divide(Box::new(a.as_expr()), Box::new(b.as_expr())),
            Node::Caret(a, b) => Expr::Caret(Box::new(a.as_expr()), Box::new(b.as_expr())),
            Node::Negative(a) => Expr::Negative(Box::new(a.as_expr())),
            Node::Number(text) => Expr::Number(text@),
        }
    }
}

impl View for Node {
    type V = Expr;

    open spec fn view(&self) -> Expr {
        self.as_expr()
    }
}

} // verus!
