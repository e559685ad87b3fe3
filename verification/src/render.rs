//! The renderer: a one-shot, depth-first, pre-order walk of a tree that
//! yields one line of text per node. A node's line is a fixed marker
//! repeated once per nesting level, then `- Literal(<value>)` for a leaf
//! or `- BinOp(<OperationName>)` for an operator node; children follow
//! their parent, left before right, one level deeper.
//!
//! `spec_render` states the exact lines, down to the decimal digits of
//! each literal; `render_ast` is proved to produce them.

use vstd::prelude::*;
use vstd::string::StringExecFns;

use crate::ast::Node;
use crate::ast::Operation;

verus! {

/// The display name of an operation, as it appears inside `BinOp(...)`.
pub open spec fn spec_op_name(op: Operation) -> Seq<char> {
    match op {
        Operation::Add => "Add"@,
        Operation::Subtract => "Subtract"@,
        Operation::Multiply => "Multiply"@,
        Operation::Divide => "Divide"@,
    }
}

/// The indentation of a line `level` nesting levels deep: the four-column
/// marker repeated `level` times.
pub open spec fn spec_indent(level: nat) -> Seq<char>
    decreases level,
{
    if level == 0 {
        Seq::empty()
    } else {
        spec_indent((level - 1) as nat) + "|   "@
    }
}

/// The character of a single decimal digit.
pub open spec fn digit_char(d: int) -> char {
    if d == 0 {
        '0'
    } else if d == 1 {
        '1'
    } else if d == 2 {
        '2'
    } else if d == 3 {
        '3'
    } else if d == 4 {
        '4'
    } else if d == 5 {
        '5'
    } else if d == 6 {
        '6'
    } else if d == 7 {
        '7'
    } else if d == 8 {
        '8'
    } else {
        '9'
    }
}

/// The decimal digits of a non-negative number, most significant first.
pub open spec fn spec_udec(n: nat) -> Seq<char>
    decreases n,
{
    if n < 10 {
        seq![digit_char(n as int)]
    } else {
        spec_udec(n / 10).push(digit_char((n % 10) as int))
    }
}

/// The decimal rendering of a signed number: a minus sign, if any, then
/// the digits of the magnitude.
pub open spec fn spec_dec_str(v: int) -> Seq<char> {
    if v < 0 {
        seq!['-'] + spec_udec((-v) as nat)
    } else {
        spec_udec(v as nat)
    }
}

/// The one line a node contributes, at the given nesting level.
pub open spec fn spec_node_line(n: Node, depth: nat) -> Seq<char> {
    match n {
        Node::Literal(value) => spec_indent(depth) + "- Literal("@ + spec_dec_str(value as int)
            + ")"@,
        Node::BinOp(op, _, _) => spec_indent(depth) + "- BinOp("@ + spec_op_name(op) + ")"@,
    }
}

/// All lines of a tree rendered at the given nesting level: the node's own
/// line, then the left subtree's lines, then the right subtree's, each one
/// level deeper.
pub open spec fn spec_render(n: Node, depth: nat) -> Seq<Seq<char>>
    decreases n,
{
    match n {
        Node::Literal(value) => seq![spec_node_line(n, depth)],
        Node::BinOp(op, left, right) => seq![spec_node_line(n, depth)] + spec_render(
            *left,
            depth + 1,
        ) + spec_render(*right, depth + 1),
    }
}

/// The character of one decimal digit, as a one-character piece of text.
fn digit_str(d: u32) -> (r: &'static str)
    requires
        d < 10,
    ensures
        r@ == seq![digit_char(d as int)],
{
    if d == 0 {
        proof {
            reveal_strlit("0");
            assert("0"@ =~= seq![digit_char(0)]);
        }
        "0"
    } else if d == 1 {
        proof {
            reveal_strlit("1");
            assert("1"@ =~= seq![digit_char(1)]);
        }
        "1"
    } else if d == 2 {
        proof {
            reveal_strlit("2");
            assert("2"@ =~= seq![digit_char(2)]);
        }
        "2"
    } else if d == 3 {
        proof {
            reveal_strlit("3");
            assert("3"@ =~= seq![digit_char(3)]);
        }
        "3"
    } else if d == 4 {
        proof {
            reveal_strlit("4");
            assert("4"@ =~= seq![digit_char(4)]);
        }
        "4"
    } else if d == 5 {
        proof {
            reveal_strlit("5");
            assert("5"@ =~= seq![digit_char(5)]);
        }
        "5"
    } else if d == 6 {
        proof {
            reveal_strlit("6");
            assert("6"@ =~= seq![digit_char(6)]);
        }
        "6"
    } else if d == 7 {
        proof {
            reveal_strlit("7");
            assert("7"@ =~= seq![digit_char(7)]);
        }
        "7"
    } else if d == 8 {
        proof {
            reveal_strlit("8");
            assert("8"@ =~= seq![digit_char(8)]);
        }
        "8"
    } else {
        proof {
            reveal_strlit("9");
            assert("9"@ =~= seq![digit_char(9)]);
        }
        "9"
    }
}

/// The decimal digits of a non-negative number, most significant first.
fn udec_string(m: u32) -> (r: String)
    ensures
        r@ == spec_udec(m as nat),
    decreases m,
{
    if m < 10 {
        String::from_str(digit_str(m))
    } else {
        let mut s = udec_string(m / 10);
        s.append(digit_str(m % 10));
        proof {
            assert(spec_udec((m as nat) / 10) + seq![digit_char((m % 10) as int)] =~= spec_udec(
                (m as nat) / 10,
            ).push(digit_char((m % 10) as int)));
        }
        s
    }
}

/// The decimal rendering of a signed number.
pub fn dec_string(v: i32) -> (r: String)
    ensures
        r@ == spec_dec_str(v as int),
{
    if v >= 0 {
        udec_string(v as u32)
    } else {
        let m: u32 = (-(v as i64)) as u32;
        proof {
            assert(m as int == -(v as int));
        }
        let mut s = String::from_str("-");
        let tail = udec_string(m);
        s.append(tail.as_str());
        proof {
            reveal_strlit("-");
            assert("-"@ =~= seq!['-']);
        }
        s
    }
}

/// The display name of an operation.
pub fn op_name(op: Operation) -> (r: &'static str)
    ensures
        r@ == spec_op_name(op),
{
    match op {
        Operation::Add => "Add",
        Operation::Subtract => "Subtract",
        Operation::Multiply => "Multiply",
        Operation::Divide => "Divide",
    }
}

/// Render a subtree given its ready-made indentation text; the ghost depth
/// only ties that text to the nesting level.
fn render_lines(node: &Node, indent: &str, Ghost(depth): Ghost<nat>) -> (r: Vec<String>)
    requires
        indent@ == spec_indent(depth),
    ensures
        r@.map_values(|line: String| line@) == spec_render(*node, depth),
    decreases *node,
{
    match node {
        Node::Literal(value) => {
            let mut line = String::from_str(indent);
            line.append("- Literal(");
            let digits = dec_string(*value);
            line.append(digits.as_str());
            line.append(")");
            let mut out: Vec<String> = Vec::new();
            out.push(line);
            proof {
                assert(line@ =~= spec_node_line(*node, depth));
                assert(out@.map_values(|l: String| l@) =~= spec_render(*node, depth));
            }
            out
        },
        Node::BinOp(op, left, right) => {
            let mut line = String::from_str(indent);
            line.append("- BinOp(");
            line.append(op_name(*op));
            line.append(")");
            let mut child_indent = String::from_str(indent);
            child_indent.append("|   ");
            let mut out: Vec<String> = Vec::new();
            out.push(line);
            let mut left_lines = render_lines(&**left, child_indent.as_str(), Ghost(depth + 1));
            out.append(&mut left_lines);
            let mut right_lines = render_lines(&**right, child_indent.as_str(), Ghost(depth + 1));
            out.append(&mut right_lines);
            proof {
                assert(line@ =~= spec_node_line(*node, depth));
                assert(out@.map_values(|l: String| l@) =~= spec_render(*node, depth));
            }
            out
        },
    }
}

/// Render a tree at the given nesting level: one line per node, depth
/// first and pre-order, exactly the lines `spec_render` states.
pub fn render_ast(node: &Node, level: usize) -> (r: Vec<String>)
    ensures
        r@.map_values(|line: String| line@) == spec_render(*node, level as nat),
{
    let mut indent = String::new();
    let mut i: usize = 0;
    while i < level
        invariant
            i <= level,
            indent@ == spec_indent(i as nat),
        decreases level - i,
    {
        indent.append("|   ");
        i = i + 1;
    }
    render_lines(node, indent.as_str(), Ghost(level as nat))
}

/// Rendering is order-preserving pre-order: a tree's output is never
/// empty, its first line is the root's own line, and an operator node's
/// output is exactly its line, then the whole left subtree's lines, then
/// the whole right subtree's lines, one level deeper. Rendering is a pure
/// function of the tree and the level, so rendering the same tree twice
/// yields identical output.
pub proof fn lemma_render_preorder(n: Node, depth: nat)
    ensures
        spec_render(n, depth).len() >= 1,
        spec_render(n, depth)[0] == spec_node_line(n, depth),
        n matches Node::BinOp(op, left, right) ==> spec_render(n, depth) == seq![
            spec_node_line(n, depth),
        ] + spec_render(*left, depth + 1) + spec_render(*right, depth + 1),
{
    match n {
        Node::Literal(value) => {},
        Node::BinOp(op, left, right) => {},
    }
}

} // verus!
