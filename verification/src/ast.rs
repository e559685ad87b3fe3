//! The shared data model: tokens, the binary operations, the expression
//! tree, and the error taxonomy of the lexer and parser.

use vstd::prelude::*;

verus! {

/// The four binary operations an expression may contain.
#[derive(Debug, Clone, Copy, PartialEq, Eq, Structural)]
pub enum Operation {
    Add,
    Subtract,
    Multiply,
    Divide,
}

/// One lexical unit of the input text: a decimal number, an operator,
/// or a parenthesis.
#[derive(Debug, Clone, Copy, PartialEq, Eq, Structural)]
pub enum Token {
    Number(i32),
    Operator(Operation),
    LeftParen,
    RightParen,
}

/// An expression tree. A `Literal` leaf holds a signed integer; a `BinOp`
/// node owns its two children outright, so every fully built `Node` is a
/// finite strictly binary tree.
#[derive(Debug, PartialEq, Eq)]
pub enum Node {
    Literal(i32),
    BinOp(Operation, Box<Node>, Box<Node>),
}

/// Everything that can go wrong between raw text and a finished tree.
#[derive(Debug, Clone, Copy, PartialEq, Eq, Structural)]
pub enum ParseError {
    /// A character outside the accepted symbol set, carried for diagnostics.
    LexicalError(char),
    /// A token that cannot start or continue the grammar rule in progress.
    UnexpectedToken(Token),
    /// A left parenthesis whose matching right parenthesis is missing.
    UnterminatedGroup,
    /// A read past the end of the token sequence.
    PositionOutOfRange,
}

} // verus!
