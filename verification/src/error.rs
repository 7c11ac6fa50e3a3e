//! The ways in which lowering can fail.

use vstd::prelude::*;

verus! {

/// Why a syntax tree could not be lowered. None of these is recoverable: each
/// stands for a tree that an earlier stage should not have let through, or for
/// a counter that ran out.
#[derive(Clone, Copy, Debug, PartialEq, Eq, Structural)]
pub enum LowerError {
    /// A top-level node is not a function definition.
    NotAFunction,
    /// An assignment's target, or the operand of an address computation, is
    /// not an identifier.
    NotAnLvalue,
    /// A node of a kind that has no lowering stands where an expression or a
    /// statement is expected, or a binary operation carries a token that is
    /// no arithmetic operator.
    UnknownNode,
    /// A function parameter is not an identifier.
    BadParameter,
    /// A call passes more arguments than a call instruction can carry.
    TooManyArguments,
    /// The register counter, the label counter or the stack size would pass
    /// the largest value it can hold.
    Exhausted,
}

impl LowerError {
    /// The diagnostic text of the error, as a sequence of characters.
    pub open spec fn text(self) -> Seq<char> {
        match self {
            LowerError::NotAFunction => "parse error."@,
            LowerError::NotAnLvalue => "not an lvalue"@,
            LowerError::UnknownNode => "unknown node"@,
            LowerError::BadParameter => "bad parameter"@,
            LowerError::TooManyArguments => "too many arguments"@,
            LowerError::Exhausted => "counter overflow"@,
        }
    }

    /// The diagnostic text of the error.
    pub fn message(&self) -> (msg: &'static str)
        ensures
            msg@ == self.text(),
    {
        match self {
            LowerError::NotAFunction => "parse error.",
            LowerError::NotAnLvalue => "not an lvalue",
            LowerError::UnknownNode => "unknown node",
            LowerError::BadParameter => "bad parameter",
            LowerError::TooManyArguments => "too many arguments",
            LowerError::Exhausted => "counter overflow",
        }
    }
}

} // verus!
