//! The syntax tree that lowering consumes.
//!
//! Every node owns its children; there are no references back to a parent.

use vstd::prelude::*;

verus! {

/// The kind of a token. A binary operation carries the token of its operator.
#[derive(Clone, Copy, Debug, PartialEq, Eq, Structural)]
pub enum TokenType {
    Num,
    Ident,
    If,
    Else,
    Return,
    Plus,
    Minus,
    Mul,
    Div,
    Equal,
    LeftParen,
    RightParen,
    LeftBrace,
    RightBrace,
    Comma,
    Semicolon,
}

/// What a node of the syntax tree is, together with its children.
#[derive(Debug, PartialEq)]
pub enum NodeType {
    /// A numeric literal.
    Num(i32),
    /// A variable, named.
    Ident(String),
    /// A binary operation: operator, left operand, right operand.
    /// With `TokenType::Equal` it is an assignment to the left operand.
    BinOp(TokenType, Box<Node>, Box<Node>),
    /// Condition, "then" branch, optional "else" branch.
    If(Box<Node>, Box<Node>, Option<Box<Node>>),
    /// `return` of an expression.
    Return(Box<Node>),
    /// A call: callee name and argument expressions.
    Call(String, Vec<Node>),
    /// A function definition: name, parameters, body.
    Func(String, Vec<Node>, Box<Node>),
    /// A block of statements.
    CompStmt(Vec<Node>),
    /// An expression evaluated for its effects.
    ExprStmt(Box<Node>),
}

/// A node of the syntax tree.
#[derive(Debug, PartialEq)]
pub struct Node {
    pub ty: NodeType,
}

impl Node {
    /// Wraps a node kind into a node.
    pub fn new(ty: NodeType) -> (node: Self)
        ensures
            node.ty == ty,
    {
        Node { ty }
    }
}

} // verus!
