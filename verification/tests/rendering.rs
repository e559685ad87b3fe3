use expr_ast::ast::Node;
use expr_ast::ast::Operation;
use expr_ast::parser::build_ast;
use expr_ast::render::dec_string;
use expr_ast::render::op_name;
use expr_ast::render::render_ast;

fn lit(value: i32) -> Node {
    Node::Literal(value)
}

fn bin(op: Operation, left: Node, right: Node) -> Node {
    Node::BinOp(op, Box::new(left), Box::new(right))
}

#[test]
fn literal_renders_as_one_line() {
    assert_eq!(render_ast(&lit(42), 0), vec!["- Literal(42)".to_string()]);
}

#[test]
fn negative_literal_renders_with_minus_sign() {
    assert_eq!(render_ast(&lit(-7), 0), vec!["- Literal(-7)".to_string()]);
}

#[test]
fn level_repeats_the_indent_marker() {
    assert_eq!(
        render_ast(&lit(1), 2),
        vec!["|   |   - Literal(1)".to_string()]
    );
}

#[test]
fn tree_renders_preorder_with_deepening_indent() {
    let tree = build_ast("2+3*4").unwrap();
    assert_eq!(
        render_ast(&tree, 0),
        vec![
            "- BinOp(Add)".to_string(),
            "|   - Literal(2)".to_string(),
            "|   - BinOp(Multiply)".to_string(),
            "|   |   - Literal(3)".to_string(),
            "|   |   - Literal(4)".to_string(),
        ]
    );
}

#[test]
fn all_four_operators_render_their_names() {
    assert_eq!(op_name(Operation::Add), "Add");
    assert_eq!(op_name(Operation::Subtract), "Subtract");
    assert_eq!(op_name(Operation::Multiply), "Multiply");
    assert_eq!(op_name(Operation::Divide), "Divide");
    let tree = bin(
        Operation::Divide,
        lit(8),
        bin(Operation::Subtract, lit(4), lit(2)),
    );
    assert_eq!(
        render_ast(&tree, 0),
        vec![
            "- BinOp(Divide)".to_string(),
            "|   - Literal(8)".to_string(),
            "|   - BinOp(Subtract)".to_string(),
            "|   |   - Literal(4)".to_string(),
            "|   |   - Literal(2)".to_string(),
        ]
    );
}

#[test]
fn rendering_the_same_tree_twice_is_identical() {
    let tree = build_ast("(2+3)*4-5").unwrap();
    assert_eq!(render_ast(&tree, 0), render_ast(&tree, 0));
    assert_eq!(render_ast(&tree, 3), render_ast(&tree, 3));
}

#[test]
fn root_line_comes_before_all_descendant_lines() {
    let tree = build_ast("1*2+3/4").unwrap();
    let lines = render_ast(&tree, 0);
    assert!(!lines.is_empty());
    assert_eq!(lines[0], "- BinOp(Add)");
    for line in &lines[1..] {
        assert!(line.starts_with("|   "));
    }
}

#[test]
fn decimal_strings_are_exact() {
    assert_eq!(dec_string(0), "0");
    assert_eq!(dec_string(9), "9");
    assert_eq!(dec_string(10), "10");
    assert_eq!(dec_string(305), "305");
    assert_eq!(dec_string(2147483647), "2147483647");
    assert_eq!(dec_string(-1), "-1");
    assert_eq!(dec_string(-2147483648), "-2147483648");
}
