//! A small arithmetic-expression front end: a lexer that turns text into
//! tokens, a recursive-descent parser that builds an abstract syntax tree
//! with the usual precedence and associativity rules, and a renderer that
//! lays the tree out as indented lines of text.

pub mod ast;
pub mod lexer;
pub mod parser;
pub mod render;
