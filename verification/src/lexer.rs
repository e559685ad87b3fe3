//! The lexer: one left-to-right pass over the input text that turns digit
//! runs into `Number` tokens, maps the four operators and the parentheses
//! to one token each, skips whitespace, and stops at the first character
//! outside that set.
//!
//! `spec_lex` is the mathematical statement of that pass; `tokenise` is the
//! executable lexer, proved to return exactly what `spec_lex` says.

use vstd::prelude::*;
use vstd::string::StrSliceExecFns;

use crate::ast::Operation;
use crate::ast::ParseError;
use crate::ast::Token;

verus! {

/// Whether `c` is an ASCII decimal digit.
pub open spec fn is_digit_char(c: char) -> bool {
    48 <= c as int && c as int <= 57
}

/// The numeric value of an ASCII decimal digit.
pub open spec fn digit_val(c: char) -> int {
    c as int - 48
}

/// Whether `c` is one of the four operator characters.
pub open spec fn is_op_char(c: char) -> bool {
    c == '+' || c == '-' || c == '*' || c == '/'
}

/// The operation an operator character stands for.
pub open spec fn char_op(c: char) -> Operation {
    if c == '+' {
        Operation::Add
    } else if c == '-' {
        Operation::Subtract
    } else if c == '*' {
        Operation::Multiply
    } else {
        Operation::Divide
    }
}

/// Whether `c` has the Unicode `White_Space` property, written out as the
/// closed list of code points that carry it.
pub open spec fn is_space_char(c: char) -> bool {
    let u = c as int;
    (9 <= u && u <= 13) || u == 32 || u == 0x85 || u == 0xa0 || u == 0x1680 || (0x2000 <= u && u
        <= 0x200a) || u == 0x2028 || u == 0x2029 || u == 0x202f || u == 0x205f || u == 0x3000
}

/// If a digit run is open (`cur` holds its value), close it by appending
/// its `Number` token; otherwise leave the tokens as they are.
pub open spec fn flush_number(cur: Option<int>, acc: Seq<Token>) -> Seq<Token> {
    match cur {
        Some(v) => acc.push(Token::Number(v as i32)),
        None => acc,
    }
}

/// The lexer's pass from position `i` on, with `cur` the value of the digit
/// run currently open (if any) and `acc` the tokens already produced:
/// either the complete token sequence, or the first character that belongs
/// to no token.
pub open spec fn lex_from(s: Seq<char>, i: int, cur: Option<int>, acc: Seq<Token>) -> Result<
    Seq<Token>,
    char,
>
    decreases s.len() - i,
{
    if i < 0 || i >= s.len() {
        Ok(flush_number(cur, acc))
    } else {
        let c = s[i];
        if is_digit_char(c) {
            let v = match cur {
                Some(v) => v,
                None => 0,
            };
            lex_from(s, i + 1, Some(v * 10 + digit_val(c)), acc)
        } else if is_op_char(c) {
            lex_from(s, i + 1, None, flush_number(cur, acc).push(Token::Operator(char_op(c))))
        } else if c == '(' {
            lex_from(s, i + 1, None, flush_number(cur, acc).push(Token::LeftParen))
        } else if c == ')' {
            lex_from(s, i + 1, None, flush_number(cur, acc).push(Token::RightParen))
        } else if is_space_char(c) {
            lex_from(s, i + 1, None, flush_number(cur, acc))
        } else {
            Err(c)
        }
    }
}

/// What lexing all of `s` yields: the token sequence, or the first
/// character outside the accepted symbol set.
pub open spec fn spec_lex(s: Seq<char>) -> Result<Seq<Token>, char> {
    lex_from(s, 0, None, Seq::empty())
}

/// From position `i` on, with `cur` the value of the digit run currently
/// open: whether every digit run the lexer would scan stays within `i32`.
/// Runs after the first invalid character do not matter, because the lexer
/// never reaches them.
pub open spec fn lex_fits_from(s: Seq<char>, i: int, cur: int) -> bool
    decreases s.len() - i,
{
    if i < 0 || i >= s.len() {
        true
    } else {
        let c = s[i];
        if is_digit_char(c) {
            let v = cur * 10 + digit_val(c);
            v <= i32::MAX && lex_fits_from(s, i + 1, v)
        } else if is_op_char(c) || c == '(' || c == ')' || is_space_char(c) {
            lex_fits_from(s, i + 1, 0)
        } else {
            true
        }
    }
}

/// Whether every digit run in `s`, read as a decimal number, stays within
/// `i32`. `tokenise` asks for this machine-imposed bound; `lex_fits`
/// decides it.
pub open spec fn spec_lex_fits(s: Seq<char>) -> bool {
    lex_fits_from(s, 0, 0)
}

/// Left-to-right decimal accumulation over the digits of `s` from position
/// `i`, starting at `acc`: each step is `acc * 10 + digit`.
pub open spec fn dec_val_from(s: Seq<char>, i: int, acc: int) -> int
    decreases s.len() - i,
{
    if i < 0 || i >= s.len() {
        acc
    } else {
        dec_val_from(s, i + 1, acc * 10 + digit_val(s[i]))
    }
}

/// The decimal value of a string of digits, read left to right.
pub open spec fn spec_dec_val(s: Seq<char>) -> int {
    dec_val_from(s, 0, 0)
}

/// The digit-run value an open run carries, as the mathematical integer
/// the lexer's specification threads through `lex_from`.
spec fn opt_val(cur: Option<i32>) -> Option<int> {
    match cur {
        Some(v) => Some(v as int),
        None => None,
    }
}

/// The value `lex_fits_from` threads for an open digit run: the run's
/// value so far, or zero when no run is open.
spec fn opt_cur(cur: Option<i32>) -> int {
    match cur {
        Some(v) => v as int,
        None => 0,
    }
}

/// Whether `c` has the Unicode `White_Space` property.
pub fn is_space(c: char) -> (b: bool)
    ensures
        b == is_space_char(c),
{
    let u = c as u32;
    (9 <= u && u <= 13) || u == 32 || u == 0x85 || u == 0xa0 || u == 0x1680 || (0x2000 <= u && u
        <= 0x200a) || u == 0x2028 || u == 0x2029 || u == 0x202f || u == 0x205f || u == 0x3000
}

/// Decide `spec_lex_fits`: scan the digit runs the lexer would scan and
/// report whether each stays within `i32`.
pub fn lex_fits(input: &str) -> (b: bool)
    ensures
        b == spec_lex_fits(input@),
{
    let n = input.unicode_len();
    let mut cur: i64 = 0;
    let mut i: usize = 0;
    while i < n
        invariant
            n == input@.len(),
            i <= n,
            0 <= cur <= i32::MAX,
            spec_lex_fits(input@) == lex_fits_from(input@, i as int, cur as int),
        decreases n - i,
    {
        let c = input.get_char(i);
        let u = c as u32;
        if 48 <= u && u <= 57 {
            let v: i64 = cur * 10 + ((u - 48) as i64);
            if v > (i32::MAX as i64) {
                return false;
            }
            cur = v;
        } else if c == '+' || c == '-' || c == '*' || c == '/' || c == '(' || c == ')' {
            cur = 0;
        } else if is_space(c) {
            cur = 0;
        } else {
            return true;
        }
        i = i + 1;
    }
    true
}

/// Scan `input` left to right into tokens: a run of decimal digits becomes
/// a single `Number` token by left-to-right decimal accumulation, each of
/// `+ - * /` becomes its `Operator` token, `(` and `)` become the
/// parenthesis tokens, whitespace is skipped, and the first character
/// outside that set stops the scan with a `LexicalError` carrying it.
pub fn tokenise(input: &str) -> (r: Result<Vec<Token>, ParseError>)
    requires
        spec_lex_fits(input@),
    ensures
        match r {
            Ok(tokens) => spec_lex(input@) == Ok::<Seq<Token>, char>(tokens@),
            Err(e) => spec_lex(input@) matches Err(c) && e == ParseError::LexicalError(c),
        },
{
    let ghost s = input@;
    let n = input.unicode_len();
    let mut tokens: Vec<Token> = Vec::new();
    let mut cur: Option<i32> = None;
    let mut i: usize = 0;
    while i < n
        invariant
            n == s.len(),
            s == input@,
            i <= n,
            spec_lex(s) == lex_from(s, i as int, opt_val(cur), tokens@),
            lex_fits_from(s, i as int, opt_cur(cur)),
            cur matches Some(v) ==> v >= 0,
        decreases n - i,
    {
        let c = input.get_char(i);
        let u = c as u32;
        if 48 <= u && u <= 57 {
            let d: i32 = (u - 48) as i32;
            let v: i32 = match cur {
                Some(v) => v,
                None => 0,
            };
            cur = Some(v * 10 + d);
        } else {
            if let Some(v) = cur {
                tokens.push(Token::Number(v));
                cur = None;
            }
            if c == '+' {
                tokens.push(Token::Operator(Operation::Add));
            } else if c == '-' {
                tokens.push(Token::Operator(Operation::Subtract));
            } else if c == '*' {
                tokens.push(Token::Operator(Operation::Multiply));
            } else if c == '/' {
                tokens.push(Token::Operator(Operation::Divide));
            } else if c == '(' {
                tokens.push(Token::LeftParen);
            } else if c == ')' {
                tokens.push(Token::RightParen);
            } else if is_space(c) {
            } else {
                return Err(ParseError::LexicalError(c));
            }
        }
        i = i + 1;
    }
    if let Some(v) = cur {
        tokens.push(Token::Number(v));
    }
    Ok(tokens)
}

/// From any position at or after an inserted character, lexing the text
/// with the insertion tracks lexing the original one position behind.
proof fn lemma_lex_suffix_aligned(
    s: Seq<char>,
    i: int,
    w: char,
    j: int,
    cur: Option<int>,
    acc: Seq<Token>,
)
    requires
        0 <= i <= s.len(),
        i <= j <= s.len(),
    ensures
        lex_from(s.insert(i, w), j + 1, cur, acc) == lex_from(s, j, cur, acc),
    decreases s.len() - j,
{
    s.insert_ensures(i, w);
    let t = s.insert(i, w);
    if j < s.len() {
        let c = s[j];
        assert(t[j + 1] == c);
        if is_digit_char(c) {
            let v = match cur {
                Some(v) => v,
                None => 0,
            };
            lemma_lex_suffix_aligned(s, i, w, j + 1, Some(v * 10 + digit_val(c)), acc);
        } else if is_op_char(c) {
            lemma_lex_suffix_aligned(
                s,
                i,
                w,
                j + 1,
                None,
                flush_number(cur, acc).push(Token::Operator(char_op(c))),
            );
        } else if c == '(' {
            lemma_lex_suffix_aligned(
                s,
                i,
                w,
                j + 1,
                None,
                flush_number(cur, acc).push(Token::LeftParen),
            );
        } else if c == ')' {
            lemma_lex_suffix_aligned(
                s,
                i,
                w,
                j + 1,
                None,
                flush_number(cur, acc).push(Token::RightParen),
            );
        } else if is_space_char(c) {
            lemma_lex_suffix_aligned(s, i, w, j + 1, None, flush_number(cur, acc));
        }
    }
}

/// Up to the position of an inserted whitespace character, lexing the text
/// with the insertion tracks lexing the original, provided the insertion
/// does not split a digit run; an open run at the insertion point must
/// come from a digit just before it.
proof fn lemma_lex_prefix_aligned(
    s: Seq<char>,
    i: int,
    w: char,
    j: int,
    cur: Option<int>,
    acc: Seq<Token>,
)
    requires
        0 <= j <= i <= s.len(),
        is_space_char(w),
        !(0 < i < s.len() && is_digit_char(s[i - 1]) && is_digit_char(s[i])),
        j == i && cur is Some ==> i > 0 && is_digit_char(s[i - 1]),
    ensures
        lex_from(s.insert(i, w), j, cur, acc) == lex_from(s, j, cur, acc),
    decreases i - j,
{
    s.insert_ensures(i, w);
    let t = s.insert(i, w);
    if j == i {
        // the inserted whitespace is read next: it closes any open digit
        // run, which the original text closes too, one step later at the
        // non-digit (or the end) that follows the insertion point
        assert(t[i] == w);
        let flushed = flush_number(cur, acc);
        lemma_lex_suffix_aligned(s, i, w, i, None, flushed);
        assert(lex_from(t, j, cur, acc) == lex_from(s, i, None, flushed));
        if cur is Some && i < s.len() {
            assert(!is_digit_char(s[i]));
            assert(lex_from(s, i, None, flushed) == lex_from(s, i, cur, acc));
        }
    } else {
        let c = s[j];
        assert(t[j] == c);
        if is_digit_char(c) {
            let v = match cur {
                Some(v) => v,
                None => 0,
            };
            lemma_lex_prefix_aligned(s, i, w, j + 1, Some(v * 10 + digit_val(c)), acc);
        } else if is_op_char(c) {
            lemma_lex_prefix_aligned(
                s,
                i,
                w,
                j + 1,
                None,
                flush_number(cur, acc).push(Token::Operator(char_op(c))),
            );
        } else if c == '(' {
            lemma_lex_prefix_aligned(
                s,
                i,
                w,
                j + 1,
                None,
                flush_number(cur, acc).push(Token::LeftParen),
            );
        } else if c == ')' {
            lemma_lex_prefix_aligned(
                s,
                i,
                w,
                j + 1,
                None,
                flush_number(cur, acc).push(Token::RightParen),
            );
        } else if is_space_char(c) {
            lemma_lex_prefix_aligned(s, i, w, j + 1, None, flush_number(cur, acc));
        }
    }
}

/// Whitespace insensitivity: inserting one whitespace character anywhere
/// that does not split a digit run leaves the lexer's result unchanged.
pub proof fn lemma_whitespace_insensitive(s: Seq<char>, i: int, w: char)
    requires
        0 <= i <= s.len(),
        is_space_char(w),
        !(0 < i < s.len() && is_digit_char(s[i - 1]) && is_digit_char(s[i])),
    ensures
        spec_lex(s.insert(i, w)) == spec_lex(s),
{
    lemma_lex_prefix_aligned(s, i, w, 0, None, Seq::empty());
}

/// A digit run scanned from position `i` with the run's value `v` so far
/// closes, at the end of an all-digit tail, into one `Number` token.
proof fn lemma_digit_run(s: Seq<char>, i: int, v: int, acc: Seq<Token>)
    requires
        0 <= i <= s.len(),
        forall|k: int| i <= k < s.len() ==> is_digit_char(s[k]),
    ensures
        lex_from(s, i, Some(v), acc) == Ok::<Seq<Token>, char>(
            acc.push(Token::Number(dec_val_from(s, i, v) as i32)),
        ),
    decreases s.len() - i,
{
    if i < s.len() {
        lemma_digit_run(s, i + 1, v * 10 + digit_val(s[i]), acc);
    }
}

/// Text made only of decimal digits lexes to exactly one `Number` token,
/// holding the left-to-right decimal value of the digits.
pub proof fn lemma_lex_all_digits(s: Seq<char>)
    requires
        s.len() > 0,
        forall|k: int| 0 <= k < s.len() ==> is_digit_char(s[k]),
    ensures
        spec_lex(s) == Ok::<Seq<Token>, char>(seq![Token::Number(spec_dec_val(s) as i32)]),
{
    lemma_digit_run(s, 1, 0 * 10 + digit_val(s[0]), Seq::empty());
    assert(Seq::<Token>::empty().push(Token::Number(dec_val_from(s, 1, 0 * 10 + digit_val(s[0])) as i32))
        =~= seq![Token::Number(spec_dec_val(s) as i32)]);
}

} // verus!
