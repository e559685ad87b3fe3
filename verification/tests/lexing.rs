use expr_ast::ast::Operation;
use expr_ast::ast::ParseError;
use expr_ast::ast::Token;
use expr_ast::lexer::lex_fits;
use expr_ast::lexer::tokenise;

#[test]
fn all_digits_make_one_number_token() {
    assert_eq!(tokenise("042"), Ok(vec![Token::Number(42)]));
    assert_eq!(tokenise("7"), Ok(vec![Token::Number(7)]));
    assert_eq!(tokenise("000"), Ok(vec![Token::Number(0)]));
    assert_eq!(tokenise("2147483647"), Ok(vec![Token::Number(2147483647)]));
}

#[test]
fn empty_input_yields_no_tokens() {
    assert_eq!(tokenise(""), Ok(vec![]));
}

#[test]
fn operators_and_parens_map_to_single_tokens() {
    assert_eq!(
        tokenise("1+2*(30-4)/5"),
        Ok(vec![
            Token::Number(1),
            Token::Operator(Operation::Add),
            Token::Number(2),
            Token::Operator(Operation::Multiply),
            Token::LeftParen,
            Token::Number(30),
            Token::Operator(Operation::Subtract),
            Token::Number(4),
            Token::RightParen,
            Token::Operator(Operation::Divide),
            Token::Number(5),
        ])
    );
}

#[test]
fn whitespace_is_skipped_and_ends_digit_runs() {
    assert_eq!(
        tokenise(" 1 + 2 "),
        Ok(vec![
            Token::Number(1),
            Token::Operator(Operation::Add),
            Token::Number(2),
        ])
    );
    assert_eq!(
        tokenise("\t12\n34\r"),
        Ok(vec![Token::Number(12), Token::Number(34)])
    );
}

#[test]
fn unicode_whitespace_is_skipped() {
    assert_eq!(
        tokenise("1\u{a0}+\u{3000}2"),
        Ok(vec![
            Token::Number(1),
            Token::Operator(Operation::Add),
            Token::Number(2),
        ])
    );
}

#[test]
fn invalid_character_aborts_with_lexical_error() {
    assert_eq!(tokenise("1@2"), Err(ParseError::LexicalError('@')));
    assert_eq!(tokenise("a"), Err(ParseError::LexicalError('a')));
    assert_eq!(tokenise("12 + x"), Err(ParseError::LexicalError('x')));
}

#[test]
fn lex_fits_accepts_numbers_up_to_i32_max() {
    assert!(lex_fits(""));
    assert!(lex_fits("1+2*(30-4)/5"));
    assert!(lex_fits("2147483647"));
    assert!(!lex_fits("2147483648"));
    assert!(!lex_fits("1+99999999999"));
}

#[test]
fn lex_fits_ignores_runs_after_the_first_bad_character() {
    assert!(lex_fits("@99999999999"));
    assert!(!lex_fits("99999999999@"));
}
