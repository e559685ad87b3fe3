//! The parser: three mutually recursive grammar levels over a read-only,
//! position-indexed token sequence. The expression level folds terms
//! left-associatively under any operator, the term level binds `*` and `/`
//! tighter by folding factors first, and the factor level accepts a number
//! or a parenthesized expression. Precedence comes purely from this split.
//!
//! `spec_factor`, `spec_term` and `spec_expr` state the grammar as
//! mathematical functions from a position to the parsed node and the next
//! position; the executable parsers are proved to return exactly that.

use vstd::prelude::*;

use crate::ast::Node;
use crate::ast::Operation;
use crate::ast::ParseError;
use crate::ast::Token;
use crate::lexer::spec_lex;
use crate::lexer::spec_lex_fits;
use crate::lexer::tokenise;

verus! {

/// The factor level: a `Number` token becomes a `Literal` leaf, and a
/// `LeftParen` opens a full expression that must close with a
/// `RightParen`. Any other token cannot start an atom.
pub open spec fn spec_factor(ts: Seq<Token>, i: int) -> Result<(Node, int), ParseError>
    decreases ts.len() - i, 0int,
{
    if i < 0 || i >= ts.len() {
        Err(ParseError::PositionOutOfRange)
    } else {
        match ts[i] {
            Token::Number(value) => Ok((Node::Literal(value), i + 1)),
            Token::LeftParen => match spec_expr(ts, i + 1) {
                Ok((node, j)) => if j < ts.len() && ts[j] == Token::RightParen {
                    Ok((node, j + 1))
                } else {
                    Err(ParseError::UnterminatedGroup)
                },
                Err(e) => Err(e),
            },
            _ => Err(ParseError::UnexpectedToken(ts[i])),
        }
    }
}

/// The term level: one factor, then a left-associative fold of further
/// factors under `*` and `/`. Any other token ends the term.
pub open spec fn spec_term(ts: Seq<Token>, i: int) -> Result<(Node, int), ParseError>
    decreases ts.len() - i, 1int,
{
    match spec_factor(ts, i) {
        Ok((lhs, j)) => if i < j <= ts.len() {
            spec_term_rest(ts, lhs, j)
        } else {
            // dead branch: a factor always advances (lemma_factor_progress)
            Err(ParseError::PositionOutOfRange)
        },
        Err(e) => Err(e),
    }
}

/// The term level's fold from position `j` on, with `lhs` the node built
/// so far.
pub open spec fn spec_term_rest(ts: Seq<Token>, lhs: Node, j: int) -> Result<
    (Node, int),
    ParseError,
>
    decreases ts.len() - j, 3int,
{
    if j < 0 || j >= ts.len() {
        Ok((lhs, j))
    } else {
        match ts[j] {
            Token::Operator(op) => if op == Operation::Multiply || op == Operation::Divide {
                match spec_factor(ts, j + 1) {
                    Ok((rhs, k)) => if j < k <= ts.len() {
                        spec_term_rest(ts, Node::BinOp(op, Box::new(lhs), Box::new(rhs)), k)
                    } else {
                        // dead branch: a factor always advances
                        Err(ParseError::PositionOutOfRange)
                    },
                    Err(e) => Err(e),
                }
            } else {
                Ok((lhs, j))
            },
            _ => Ok((lhs, j)),
        }
    }
}

/// The expression level: one term, then a left-associative fold of further
/// terms under any operator. The fold stops at a `RightParen` or at the
/// end of the tokens; a number or a left parenthesis in operator position
/// is an `UnexpectedToken`.
pub open spec fn spec_expr(ts: Seq<Token>, i: int) -> Result<(Node, int), ParseError>
    decreases ts.len() - i, 2int,
{
    match spec_term(ts, i) {
        Ok((lhs, j)) => if i < j <= ts.len() {
            spec_expr_rest(ts, lhs, j)
        } else {
            // dead branch: a term always advances (lemma_term_progress)
            Err(ParseError::PositionOutOfRange)
        },
        Err(e) => Err(e),
    }
}

/// The expression level's fold from position `j` on, with `lhs` the node
/// built so far. The operator may be any of the four: `*` and `/` can only
/// reach this level when the term level has already consumed every
/// contiguous `*`/`/` chain, so precedence is preserved.
pub open spec fn spec_expr_rest(ts: Seq<Token>, lhs: Node, j: int) -> Result<
    (Node, int),
    ParseError,
>
    decreases ts.len() - j, 3int,
{
    if j < 0 || j >= ts.len() {
        Ok((lhs, j))
    } else {
        match ts[j] {
            Token::Operator(op) => match spec_term(ts, j + 1) {
                Ok((rhs, k)) => if j < k <= ts.len() {
                    spec_expr_rest(ts, Node::BinOp(op, Box::new(lhs), Box::new(rhs)), k)
                } else {
                    // dead branch: a term always advances
                    Err(ParseError::PositionOutOfRange)
                },
                Err(e) => Err(e),
            },
            Token::RightParen => Ok((lhs, j)),
            _ => Err(ParseError::UnexpectedToken(ts[j])),
        }
    }
}

/// What parsing all of `ts` yields: the tree of the one full expression
/// the tokens form, or the first error. Tokens left over after the
/// expression (a stray right parenthesis) are an `UnexpectedToken`.
pub open spec fn spec_parse(ts: Seq<Token>) -> Result<Node, ParseError> {
    match spec_expr(ts, 0) {
        Ok((node, j)) => if j == ts.len() {
            Ok(node)
        } else {
            Err(ParseError::UnexpectedToken(ts[j]))
        },
        Err(e) => Err(e),
    }
}

/// The whole pipeline on raw text: lex, then parse.
pub open spec fn spec_build(s: Seq<char>) -> Result<Node, ParseError> {
    match spec_lex(s) {
        Ok(ts) => spec_parse(ts),
        Err(c) => Err(ParseError::LexicalError(c)),
    }
}

/// A factor that parses consumes at least one token and never runs past
/// the end.
pub proof fn lemma_factor_progress(ts: Seq<Token>, i: int)
    ensures
        spec_factor(ts, i) matches Ok((n, j)) ==> i < j <= ts.len(),
    decreases ts.len() - i, 0int,
{
    if 0 <= i < ts.len() {
        match ts[i] {
            Token::LeftParen => {
                lemma_expr_progress(ts, i + 1);
            },
            _ => {},
        }
    }
}

/// A term that parses consumes at least one token and never runs past the
/// end.
pub proof fn lemma_term_progress(ts: Seq<Token>, i: int)
    ensures
        spec_term(ts, i) matches Ok((n, j)) ==> i < j <= ts.len(),
    decreases ts.len() - i, 1int,
{
    lemma_factor_progress(ts, i);
    match spec_factor(ts, i) {
        Ok((lhs, j)) => {
            lemma_term_rest_progress(ts, lhs, j);
        },
        Err(e) => {},
    }
}

/// The term level's fold never moves backwards and never runs past the
/// end.
pub proof fn lemma_term_rest_progress(ts: Seq<Token>, lhs: Node, j: int)
    requires
        0 <= j <= ts.len(),
    ensures
        spec_term_rest(ts, lhs, j) matches Ok((n, k)) ==> j <= k <= ts.len(),
    decreases ts.len() - j, 3int,
{
    if j < ts.len() {
        match ts[j] {
            Token::Operator(op) => {
                if op == Operation::Multiply || op == Operation::Divide {
                    lemma_factor_progress(ts, j + 1);
                    match spec_factor(ts, j + 1) {
                        Ok((rhs, k)) => {
                            lemma_term_rest_progress(
                                ts,
                                Node::BinOp(op, Box::new(lhs), Box::new(rhs)),
                                k,
                            );
                        },
                        Err(e) => {},
                    }
                }
            },
            _ => {},
        }
    }
}

/// An expression that parses consumes at least one token and never runs
/// past the end.
pub proof fn lemma_expr_progress(ts: Seq<Token>, i: int)
    ensures
        spec_expr(ts, i) matches Ok((n, j)) ==> i < j <= ts.len(),
    decreases ts.len() - i, 2int,
{
    lemma_term_progress(ts, i);
    match spec_term(ts, i) {
        Ok((lhs, j)) => {
            lemma_expr_rest_progress(ts, lhs, j);
        },
        Err(e) => {},
    }
}

/// The expression level's fold never moves backwards and never runs past
/// the end.
pub proof fn lemma_expr_rest_progress(ts: Seq<Token>, lhs: Node, j: int)
    requires
        0 <= j <= ts.len(),
    ensures
        spec_expr_rest(ts, lhs, j) matches Ok((n, k)) ==> j <= k <= ts.len(),
    decreases ts.len() - j, 3int,
{
    if j < ts.len() {
        match ts[j] {
            Token::Operator(op) => {
                lemma_term_progress(ts, j + 1);
                match spec_term(ts, j + 1) {
                    Ok((rhs, k)) => {
                        lemma_expr_rest_progress(
                            ts,
                            Node::BinOp(op, Box::new(lhs), Box::new(rhs)),
                            k,
                        );
                    },
                    Err(e) => {},
                }
            },
            _ => {},
        }
    }
}

/// Parse one factor at `index`: a number, or a parenthesized expression
/// whose closing parenthesis must follow.
pub fn parse_factor(tokens: &Vec<Token>, index: usize) -> (r: Result<(Node, usize), ParseError>)
    ensures
        match r {
            Ok(p) => spec_factor(tokens@, index as int) == Ok::<(Node, int), ParseError>(
                (p.0, p.1 as int),
            ) && index < p.1 <= tokens@.len(),
            Err(e) => spec_factor(tokens@, index as int) == Err::<(Node, int), ParseError>(e),
        },
    decreases tokens@.len() - index as int, 0int,
{
    if index >= tokens.len() {
        return Err(ParseError::PositionOutOfRange);
    }
    match tokens[index] {
        Token::Number(value) => Ok((Node::Literal(value), index + 1)),
        Token::LeftParen => {
            match parse_expression(tokens, index + 1) {
                Ok(p) => {
                    let next = p.1;
                    if next < tokens.len() {
                        match tokens[next] {
                            Token::RightParen => Ok((p.0, next + 1)),
                            _ => Err(ParseError::UnterminatedGroup),
                        }
                    } else {
                        Err(ParseError::UnterminatedGroup)
                    }
                },
                Err(e) => Err(e),
            }
        },
        t => Err(ParseError::UnexpectedToken(t)),
    }
}

/// Parse one term at `index`: a factor, then a left-associative fold of
/// further factors under `*` and `/`.
pub fn parse_term(tokens: &Vec<Token>, index: usize) -> (r: Result<(Node, usize), ParseError>)
    ensures
        match r {
            Ok(p) => spec_term(tokens@, index as int) == Ok::<(Node, int), ParseError>(
                (p.0, p.1 as int),
            ) && index < p.1 <= tokens@.len(),
            Err(e) => spec_term(tokens@, index as int) == Err::<(Node, int), ParseError>(e),
        },
    decreases tokens@.len() - index as int, 1int,
{
    let ghost s = tokens@;
    let (mut lhs, mut next) = match parse_factor(tokens, index) {
        Ok(p) => p,
        Err(e) => {
            return Err(e);
        },
    };
    while next < tokens.len()
        invariant
            s == tokens@,
            index < next <= s.len(),
            spec_term(s, index as int) == spec_term_rest(s, lhs, next as int),
        decreases s.len() - next,
    {
        match tokens[next] {
            Token::Operator(op) => {
                if op == Operation::Multiply || op == Operation::Divide {
                    match parse_factor(tokens, next + 1) {
                        Ok(p) => {
                            proof {
                                assert(spec_term_rest(s, lhs, next as int) == spec_term_rest(
                                    s,
                                    Node::BinOp(op, Box::new(lhs), Box::new(p.0)),
                                    p.1 as int,
                                ));
                            }
                            lhs = Node::BinOp(op, Box::new(lhs), Box::new(p.0));
                            next = p.1;
                        },
                        Err(e) => {
                            return Err(e);
                        },
                    }
                } else {
                    return Ok((lhs, next));
                }
            },
            _ => {
                return Ok((lhs, next));
            },
        }
    }
    Ok((lhs, next))
}

/// Parse one expression at `index`: a term, then a left-associative fold
/// of further terms under any operator, stopping at a right parenthesis or
/// at the end of the tokens.
pub fn parse_expression(tokens: &Vec<Token>, index: usize) -> (r: Result<
    (Node, usize),
    ParseError,
>)
    ensures
        match r {
            Ok(p) => spec_expr(tokens@, index as int) == Ok::<(Node, int), ParseError>(
                (p.0, p.1 as int),
            ) && index < p.1 <= tokens@.len(),
            Err(e) => spec_expr(tokens@, index as int) == Err::<(Node, int), ParseError>(e),
        },
    decreases tokens@.len() - index as int, 2int,
{
    let ghost s = tokens@;
    let (mut lhs, mut next) = match parse_term(tokens, index) {
        Ok(p) => p,
        Err(e) => {
            return Err(e);
        },
    };
    while next < tokens.len()
        invariant
            s == tokens@,
            index < next <= s.len(),
            spec_expr(s, index as int) == spec_expr_rest(s, lhs, next as int),
        decreases s.len() - next,
    {
        match tokens[next] {
            Token::Operator(op) => {
                match parse_term(tokens, next + 1) {
                    Ok(p) => {
                        proof {
                            assert(spec_expr_rest(s, lhs, next as int) == spec_expr_rest(
                                s,
                                Node::BinOp(op, Box::new(lhs), Box::new(p.0)),
                                p.1 as int,
                            ));
                        }
                        lhs = Node::BinOp(op, Box::new(lhs), Box::new(p.0));
                        next = p.1;
                    },
                    Err(e) => {
                        return Err(e);
                    },
                }
            },
            Token::RightParen => {
                return Ok((lhs, next));
            },
            _ => {
                return Err(ParseError::UnexpectedToken(tokens[next]));
            },
        }
    }
    Ok((lhs, next))
}

/// Lex `input` and parse the whole token sequence as one expression:
/// exactly `spec_build` on the text.
pub fn build_ast(input: &str) -> (r: Result<Node, ParseError>)
    requires
        spec_lex_fits(input@),
    ensures
        r == spec_build(input@),
{
    let tokens = match tokenise(input) {
        Ok(tokens) => tokens,
        Err(e) => {
            return Err(e);
        },
    };
    match parse_expression(&tokens, 0) {
        Ok(p) => {
            let next = p.1;
            if next == tokens.len() {
                Ok(p.0)
            } else {
                Err(ParseError::UnexpectedToken(tokens[next]))
            }
        },
        Err(e) => Err(e),
    }
}

/// `build_ast` behind its one machine-imposed bound: `None` exactly when
/// some digit run in `input` exceeds `i32`, and otherwise the result of
/// the whole pipeline.
pub fn try_build_ast(input: &str) -> (r: Option<Result<Node, ParseError>>)
    ensures
        match r {
            Some(res) => spec_lex_fits(input@) && res == spec_build(input@),
            None => !spec_lex_fits(input@),
        },
{
    if crate::lexer::lex_fits(input) {
        Some(build_ast(input))
    } else {
        None
    }
}

/// Whitespace insensitivity, through the whole pipeline: text with one
/// whitespace character inserted anywhere that does not split a digit run
/// builds a structurally identical tree, or fails in the same way.
pub proof fn lemma_build_whitespace_insensitive(s: Seq<char>, i: int, w: char)
    requires
        0 <= i <= s.len(),
        crate::lexer::is_space_char(w),
        !(0 < i < s.len() && crate::lexer::is_digit_char(s[i - 1])
            && crate::lexer::is_digit_char(s[i])),
    ensures
        spec_build(s.insert(i, w)) == spec_build(s),
{
    crate::lexer::lemma_whitespace_insensitive(s, i, w);
}

/// Precedence, low then high: for any values, `a lo b hi c` with `lo` an
/// additive and `hi` a multiplicative operator parses with the additive
/// operator as the outer node and the multiplicative chain nested inside,
/// never the other way round.
pub proof fn lemma_precedence_low_then_high(a: i32, b: i32, c: i32, lo: Operation, hi: Operation)
    requires
        lo == Operation::Add || lo == Operation::Subtract,
        hi == Operation::Multiply || hi == Operation::Divide,
    ensures
        spec_parse(
            seq![
                Token::Number(a),
                Token::Operator(lo),
                Token::Number(b),
                Token::Operator(hi),
                Token::Number(c),
            ],
        ) == Ok::<Node, ParseError>(
            Node::BinOp(
                lo,
                Box::new(Node::Literal(a)),
                Box::new(
                    Node::BinOp(hi, Box::new(Node::Literal(b)), Box::new(Node::Literal(c))),
                ),
            ),
        ),
{
    let ts = seq![
        Token::Number(a),
        Token::Operator(lo),
        Token::Number(b),
        Token::Operator(hi),
        Token::Number(c),
    ];
    let inner = Node::BinOp(hi, Box::new(Node::Literal(b)), Box::new(Node::Literal(c)));
    let outer = Node::BinOp(lo, Box::new(Node::Literal(a)), Box::new(inner));
    assert(spec_factor(ts, 0) == Ok::<(Node, int), ParseError>((Node::Literal(a), 1)));
    assert(spec_term(ts, 0) == Ok::<(Node, int), ParseError>((Node::Literal(a), 1)));
    assert(spec_factor(ts, 2) == Ok::<(Node, int), ParseError>((Node::Literal(b), 3)));
    assert(spec_factor(ts, 4) == Ok::<(Node, int), ParseError>((Node::Literal(c), 5)));
    assert(spec_term_rest(ts, inner, 5) == Ok::<(Node, int), ParseError>((inner, 5)));
    assert(spec_term_rest(ts, Node::Literal(b), 3) == Ok::<(Node, int), ParseError>((inner, 5)));
    assert(spec_term(ts, 2) == Ok::<(Node, int), ParseError>((inner, 5)));
    assert(spec_expr_rest(ts, outer, 5) == Ok::<(Node, int), ParseError>((outer, 5)));
    assert(spec_expr_rest(ts, Node::Literal(a), 1) == Ok::<(Node, int), ParseError>((outer, 5)));
    assert(spec_expr(ts, 0) == Ok::<(Node, int), ParseError>((outer, 5)));
    assert(spec_parse(ts) == Ok::<Node, ParseError>(outer));
}

/// Precedence, high then low: for any values, `a hi b lo c` with `hi` a
/// multiplicative and `lo` an additive operator parses with the additive
/// operator as the outer node and the multiplicative chain nested inside.
pub proof fn lemma_precedence_high_then_low(a: i32, b: i32, c: i32, hi: Operation, lo: Operation)
    requires
        hi == Operation::Multiply || hi == Operation::Divide,
        lo == Operation::Add || lo == Operation::Subtract,
    ensures
        spec_parse(
            seq![
                Token::Number(a),
                Token::Operator(hi),
                Token::Number(b),
                Token::Operator(lo),
                Token::Number(c),
            ],
        ) == Ok::<Node, ParseError>(
            Node::BinOp(
                lo,
                Box::new(
                    Node::BinOp(hi, Box::new(Node::Literal(a)), Box::new(Node::Literal(b))),
                ),
                Box::new(Node::Literal(c)),
            ),
        ),
{
    let ts = seq![
        Token::Number(a),
        Token::Operator(hi),
        Token::Number(b),
        Token::Operator(lo),
        Token::Number(c),
    ];
    let inner = Node::BinOp(hi, Box::new(Node::Literal(a)), Box::new(Node::Literal(b)));
    let outer = Node::BinOp(lo, Box::new(inner), Box::new(Node::Literal(c)));
    assert(spec_factor(ts, 0) == Ok::<(Node, int), ParseError>((Node::Literal(a), 1)));
    assert(spec_factor(ts, 2) == Ok::<(Node, int), ParseError>((Node::Literal(b), 3)));
    assert(spec_term_rest(ts, inner, 3) == Ok::<(Node, int), ParseError>((inner, 3)));
    assert(spec_term_rest(ts, Node::Literal(a), 1) == Ok::<(Node, int), ParseError>((inner, 3)));
    assert(spec_term(ts, 0) == Ok::<(Node, int), ParseError>((inner, 3)));
    assert(spec_factor(ts, 4) == Ok::<(Node, int), ParseError>((Node::Literal(c), 5)));
    assert(spec_term_rest(ts, Node::Literal(c), 5) == Ok::<(Node, int), ParseError>((
        Node::Literal(c),
        5,
    )));
    assert(spec_term(ts, 4) == Ok::<(Node, int), ParseError>((Node::Literal(c), 5)));
    assert(spec_expr_rest(ts, outer, 5) == Ok::<(Node, int), ParseError>((outer, 5)));
    assert(spec_expr_rest(ts, inner, 3) == Ok::<(Node, int), ParseError>((outer, 5)));
    assert(spec_expr(ts, 0) == Ok::<(Node, int), ParseError>((outer, 5)));
    assert(spec_parse(ts) == Ok::<Node, ParseError>(outer));
}

/// Left-associativity: for any values, `a o1 b o2 c` with `o1` and `o2` of
/// equal precedence (both additive, or both multiplicative) parses
/// left-nested, with `o2` as the outer node, never right-nested.
pub proof fn lemma_same_precedence_left_assoc(
    a: i32,
    b: i32,
    c: i32,
    o1: Operation,
    o2: Operation,
)
    requires
        ((o1 == Operation::Add || o1 == Operation::Subtract) && (o2 == Operation::Add || o2
            == Operation::Subtract)) || ((o1 == Operation::Multiply || o1 == Operation::Divide)
            && (o2 == Operation::Multiply || o2 == Operation::Divide)),
    ensures
        spec_parse(
            seq![
                Token::Number(a),
                Token::Operator(o1),
                Token::Number(b),
                Token::Operator(o2),
                Token::Number(c),
            ],
        ) == Ok::<Node, ParseError>(
            Node::BinOp(
                o2,
                Box::new(
                    Node::BinOp(o1, Box::new(Node::Literal(a)), Box::new(Node::Literal(b))),
                ),
                Box::new(Node::Literal(c)),
            ),
        ),
{
    let ts = seq![
        Token::Number(a),
        Token::Operator(o1),
        Token::Number(b),
        Token::Operator(o2),
        Token::Number(c),
    ];
    let inner = Node::BinOp(o1, Box::new(Node::Literal(a)), Box::new(Node::Literal(b)));
    let outer = Node::BinOp(o2, Box::new(inner), Box::new(Node::Literal(c)));
    assert(spec_factor(ts, 0) == Ok::<(Node, int), ParseError>((Node::Literal(a), 1)));
    assert(spec_factor(ts, 2) == Ok::<(Node, int), ParseError>((Node::Literal(b), 3)));
    assert(spec_factor(ts, 4) == Ok::<(Node, int), ParseError>((Node::Literal(c), 5)));
    if o1 == Operation::Add || o1 == Operation::Subtract {
        // the expression-level fold does both steps; the term level stops
        // at each additive operator
        assert(spec_term_rest(ts, Node::Literal(a), 1) == Ok::<(Node, int), ParseError>((
            Node::Literal(a),
            1,
        )));
        assert(spec_term(ts, 0) == Ok::<(Node, int), ParseError>((Node::Literal(a), 1)));
        assert(spec_term_rest(ts, Node::Literal(b), 3) == Ok::<(Node, int), ParseError>((
            Node::Literal(b),
            3,
        )));
        assert(spec_term(ts, 2) == Ok::<(Node, int), ParseError>((Node::Literal(b), 3)));
        assert(spec_term_rest(ts, Node::Literal(c), 5) == Ok::<(Node, int), ParseError>((
            Node::Literal(c),
            5,
        )));
        assert(spec_term(ts, 4) == Ok::<(Node, int), ParseError>((Node::Literal(c), 5)));
        assert(spec_expr_rest(ts, outer, 5) == Ok::<(Node, int), ParseError>((outer, 5)));
        assert(spec_expr_rest(ts, inner, 3) == Ok::<(Node, int), ParseError>((outer, 5)));
        assert(spec_expr_rest(ts, Node::Literal(a), 1) == Ok::<(Node, int), ParseError>((
            outer,
            5,
        )));
        assert(spec_expr(ts, 0) == Ok::<(Node, int), ParseError>((outer, 5)));
    } else {
        // the term-level fold does both steps before the expression level
        // sees anything
        assert(spec_term_rest(ts, outer, 5) == Ok::<(Node, int), ParseError>((outer, 5)));
        assert(spec_term_rest(ts, inner, 3) == Ok::<(Node, int), ParseError>((outer, 5)));
        assert(spec_term_rest(ts, Node::Literal(a), 1) == Ok::<(Node, int), ParseError>((
            outer,
            5,
        )));
        assert(spec_term(ts, 0) == Ok::<(Node, int), ParseError>((outer, 5)));
        assert(spec_expr_rest(ts, outer, 5) == Ok::<(Node, int), ParseError>((outer, 5)));
        assert(spec_expr(ts, 0) == Ok::<(Node, int), ParseError>((outer, 5)));
    }
    assert(spec_parse(ts) == Ok::<Node, ParseError>(outer));
}

/// Parenthesis grouping overrides precedence: for any values and any two
/// operators, `( a o1 b ) o2 c` parses with `o2` as the outer node and the
/// parenthesized pair nested inside, whatever the two operators'
/// precedence would otherwise make of it.
pub proof fn lemma_paren_overrides_precedence(
    a: i32,
    b: i32,
    c: i32,
    o1: Operation,
    o2: Operation,
)
    ensures
        spec_parse(
            seq![
                Token::LeftParen,
                Token::Number(a),
                Token::Operator(o1),
                Token::Number(b),
                Token::RightParen,
                Token::Operator(o2),
                Token::Number(c),
            ],
        ) == Ok::<Node, ParseError>(
            Node::BinOp(
                o2,
                Box::new(
                    Node::BinOp(o1, Box::new(Node::Literal(a)), Box::new(Node::Literal(b))),
                ),
                Box::new(Node::Literal(c)),
            ),
        ),
{
    let ts = seq![
        Token::LeftParen,
        Token::Number(a),
        Token::Operator(o1),
        Token::Number(b),
        Token::RightParen,
        Token::Operator(o2),
        Token::Number(c),
    ];
    let inner = Node::BinOp(o1, Box::new(Node::Literal(a)), Box::new(Node::Literal(b)));
    let outer = Node::BinOp(o2, Box::new(inner), Box::new(Node::Literal(c)));
    assert(spec_factor(ts, 1) == Ok::<(Node, int), ParseError>((Node::Literal(a), 2)));
    assert(spec_factor(ts, 3) == Ok::<(Node, int), ParseError>((Node::Literal(b), 4)));
    assert(spec_factor(ts, 6) == Ok::<(Node, int), ParseError>((Node::Literal(c), 7)));
    // inside the parentheses: `a o1 b`, stopped by the right parenthesis
    if o1 == Operation::Multiply || o1 == Operation::Divide {
        assert(spec_term_rest(ts, inner, 4) == Ok::<(Node, int), ParseError>((inner, 4)));
        assert(spec_term_rest(ts, Node::Literal(a), 2) == Ok::<(Node, int), ParseError>((
            inner,
            4,
        )));
        assert(spec_term(ts, 1) == Ok::<(Node, int), ParseError>((inner, 4)));
        assert(spec_expr_rest(ts, inner, 4) == Ok::<(Node, int), ParseError>((inner, 4)));
        assert(spec_expr(ts, 1) == Ok::<(Node, int), ParseError>((inner, 4)));
    } else {
        assert(spec_term_rest(ts, Node::Literal(a), 2) == Ok::<(Node, int), ParseError>((
            Node::Literal(a),
            2,
        )));
        assert(spec_term(ts, 1) == Ok::<(Node, int), ParseError>((Node::Literal(a), 2)));
        assert(spec_term_rest(ts, Node::Literal(b), 4) == Ok::<(Node, int), ParseError>((
            Node::Literal(b),
            4,
        )));
        assert(spec_term(ts, 3) == Ok::<(Node, int), ParseError>((Node::Literal(b), 4)));
        assert(spec_expr_rest(ts, inner, 4) == Ok::<(Node, int), ParseError>((inner, 4)));
        assert(spec_expr_rest(ts, Node::Literal(a), 2) == Ok::<(Node, int), ParseError>((
            inner,
            4,
        )));
        assert(spec_expr(ts, 1) == Ok::<(Node, int), ParseError>((inner, 4)));
    }
    // the parenthesized group is one factor, then `o2 c` follows
    assert(spec_factor(ts, 0) == Ok::<(Node, int), ParseError>((inner, 5)));
    if o2 == Operation::Multiply || o2 == Operation::Divide {
        assert(spec_term_rest(ts, outer, 7) == Ok::<(Node, int), ParseError>((outer, 7)));
        assert(spec_term_rest(ts, inner, 5) == Ok::<(Node, int), ParseError>((outer, 7)));
        assert(spec_term(ts, 0) == Ok::<(Node, int), ParseError>((outer, 7)));
        assert(spec_expr_rest(ts, outer, 7) == Ok::<(Node, int), ParseError>((outer, 7)));
        assert(spec_expr(ts, 0) == Ok::<(Node, int), ParseError>((outer, 7)));
    } else {
        assert(spec_term_rest(ts, inner, 5) == Ok::<(Node, int), ParseError>((inner, 5)));
        assert(spec_term(ts, 0) == Ok::<(Node, int), ParseError>((inner, 5)));
        assert(spec_term_rest(ts, Node::Literal(c), 7) == Ok::<(Node, int), ParseError>((
            Node::Literal(c),
            7,
        )));
        assert(spec_term(ts, 6) == Ok::<(Node, int), ParseError>((Node::Literal(c), 7)));
        assert(spec_expr_rest(ts, outer, 7) == Ok::<(Node, int), ParseError>((outer, 7)));
        assert(spec_expr_rest(ts, inner, 5) == Ok::<(Node, int), ParseError>((outer, 7)));
        assert(spec_expr(ts, 0) == Ok::<(Node, int), ParseError>((outer, 7)));
    }
    assert(spec_parse(ts) == Ok::<Node, ParseError>(outer));
}

} // verus!

