use expr_ast::ast::Node;
use expr_ast::ast::Operation;
use expr_ast::ast::ParseError;
use expr_ast::ast::Token;
use expr_ast::parser::build_ast;
use expr_ast::parser::parse_expression;
use expr_ast::parser::parse_factor;
use expr_ast::parser::parse_term;
use expr_ast::parser::try_build_ast;

fn lit(value: i32) -> Node {
    Node::Literal(value)
}

fn bin(op: Operation, left: Node, right: Node) -> Node {
    Node::BinOp(op, Box::new(left), Box::new(right))
}

#[test]
fn single_number_parses_to_literal() {
    assert_eq!(build_ast("42"), Ok(lit(42)));
}

#[test]
fn precedence_multiplication_nests_inside_addition() {
    assert_eq!(
        build_ast("2+3*4"),
        Ok(bin(
            Operation::Add,
            lit(2),
            bin(Operation::Multiply, lit(3), lit(4))
        ))
    );
    assert_eq!(
        build_ast("2*3+4"),
        Ok(bin(
            Operation::Add,
            bin(Operation::Multiply, lit(2), lit(3)),
            lit(4)
        ))
    );
}

#[test]
fn subtraction_is_left_associative() {
    assert_eq!(
        build_ast("8-3-2"),
        Ok(bin(
            Operation::Subtract,
            bin(Operation::Subtract, lit(8), lit(3)),
            lit(2)
        ))
    );
}

#[test]
fn division_is_left_associative() {
    assert_eq!(
        build_ast("8/2/2"),
        Ok(bin(
            Operation::Divide,
            bin(Operation::Divide, lit(8), lit(2)),
            lit(2)
        ))
    );
}

#[test]
fn parentheses_override_precedence() {
    assert_eq!(
        build_ast("(2+3)*4"),
        Ok(bin(
            Operation::Multiply,
            bin(Operation::Add, lit(2), lit(3)),
            lit(4)
        ))
    );
}

#[test]
fn nested_parentheses_collapse_to_the_inner_expression() {
    assert_eq!(build_ast("((1))"), Ok(lit(1)));
}

#[test]
fn whitespace_does_not_change_the_tree() {
    assert_eq!(build_ast("1+2"), build_ast(" 1 + 2 "));
    assert_eq!(build_ast("(2+3)*4"), build_ast(" ( 2 + 3 ) * 4 "));
}

#[test]
fn empty_input_fails_with_position_out_of_range() {
    assert_eq!(build_ast(""), Err(ParseError::PositionOutOfRange));
}

#[test]
fn unterminated_group_is_reported() {
    assert_eq!(build_ast("(1+2"), Err(ParseError::UnterminatedGroup));
    assert_eq!(build_ast("(1+2)*(3"), Err(ParseError::UnterminatedGroup));
    assert_eq!(build_ast("(("), Err(ParseError::PositionOutOfRange));
}

#[test]
fn trailing_operator_fails_past_the_end() {
    assert_eq!(build_ast("1+"), Err(ParseError::PositionOutOfRange));
}

#[test]
fn lexical_error_carries_the_offending_character() {
    assert_eq!(build_ast("1@2"), Err(ParseError::LexicalError('@')));
}

#[test]
fn operator_in_atom_position_is_unexpected() {
    assert_eq!(
        build_ast("1++2"),
        Err(ParseError::UnexpectedToken(Token::Operator(Operation::Add)))
    );
    assert_eq!(
        build_ast("+1"),
        Err(ParseError::UnexpectedToken(Token::Operator(Operation::Add)))
    );
}

#[test]
fn stray_right_parenthesis_is_unexpected() {
    assert_eq!(
        build_ast("1)"),
        Err(ParseError::UnexpectedToken(Token::RightParen))
    );
    assert_eq!(
        build_ast("1)2"),
        Err(ParseError::UnexpectedToken(Token::RightParen))
    );
}

#[test]
fn consecutive_numbers_are_unexpected() {
    assert_eq!(
        build_ast("1 2"),
        Err(ParseError::UnexpectedToken(Token::Number(2)))
    );
}

#[test]
fn try_build_ast_rejects_oversized_numbers_only() {
    assert_eq!(try_build_ast("99999999999"), None);
    assert_eq!(try_build_ast("2+2"), Some(build_ast("2+2")));
    assert_eq!(
        try_build_ast("1@2"),
        Some(Err(ParseError::LexicalError('@')))
    );
}

#[test]
fn parse_factor_takes_one_number() {
    let tokens = vec![Token::Number(5), Token::Number(6)];
    assert_eq!(parse_factor(&tokens, 0), Ok((lit(5), 1)));
    assert_eq!(parse_factor(&tokens, 1), Ok((lit(6), 2)));
    assert_eq!(parse_factor(&tokens, 2), Err(ParseError::PositionOutOfRange));
}

#[test]
fn parse_term_folds_multiplicative_chains_only() {
    // 2*3+4: the term stops at the +
    let tokens = vec![
        Token::Number(2),
        Token::Operator(Operation::Multiply),
        Token::Number(3),
        Token::Operator(Operation::Add),
        Token::Number(4),
    ];
    assert_eq!(
        parse_term(&tokens, 0),
        Ok((bin(Operation::Multiply, lit(2), lit(3)), 3))
    );
}

#[test]
fn parse_expression_starts_at_the_given_position() {
    // inside "(1+2)": positions 1..4 hold 1+2
    let tokens = vec![
        Token::LeftParen,
        Token::Number(1),
        Token::Operator(Operation::Add),
        Token::Number(2),
        Token::RightParen,
    ];
    assert_eq!(
        parse_expression(&tokens, 1),
        Ok((bin(Operation::Add, lit(1), lit(2)), 4))
    );
}
