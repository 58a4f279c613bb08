use vstd::prelude::*;
use crate::ast::Ast;
use crate::lexer::{is_digit, is_number_char, next_token, number_end};
use crate::model::{
    at, combine, next_expr, operation_expr, parse_loop, parse_text, priority, special_expr, start_state,
    ParseState,
};
use crate::token::{Lexeme, TokenType};

verus! {

/// The value of a decimal digit character.
pub open spec fn digit_value(c: char) -> int {
    c as u32 as int - '0' as u32 as int
}

/// A non-empty run of decimal digits.
pub open spec fn is_numeral(w: Seq<char>) -> bool {
    w.len() > 0 && forall|k: int| 0 <= k < w.len() ==> is_digit(#[trigger] w[k])
}

/// The value of a run of decimal digits.
pub open spec fn numeral_value(w: Seq<char>) -> int
    decreases w.len(),
{
    if w.len() == 0 {
        0
    } else {
        numeral_value(w.drop_last()) * 10 + digit_value(w.last())
    }
}

pub open spec fn is_arith_op(c: char) -> bool {
    c == '+' || c == '-' || c == '*' || c == '/'
}

/// `x op y` in integer arithmetic; division by zero gives zero.
pub open spec fn apply(op: char, x: int, y: int) -> int {
    if op == '+' {
        x + y
    } else if op == '-' {
        x - y
    } else if op == '*' {
        x * y
    } else if y != 0 {
        x / y
    } else {
        0
    }
}

/// The value of an arithmetic tree.
pub open spec fn eval(t: Ast) -> int
    decreases t,
{
    match t {
        Ast::Literal(w) => numeral_value(w),
        Ast::Operation(l, op, r) => apply(op.text[0], eval(*l), eval(*r)),
        _ => 0,
    }
}

/// `x o1 y o2 z` by the usual rules: `*` and `/` before `+` and `-`, and
/// left to right among equals.
pub open spec fn standard_value(x: int, o1: char, y: int, o2: char, z: int) -> int {
    if priority(seq![o1]) >= priority(seq![o2]) {
        apply(o2, apply(o1, x, y), z)
    } else {
        apply(o1, x, apply(o2, y, z))
    }
}

/// The statement `a o b;`.
pub open spec fn one_op_text(a: Seq<char>, o: char, b: Seq<char>) -> Seq<char> {
    a + seq![o] + b + seq![';']
}

/// The statement `a o1 b o2 c;`.
pub open spec fn two_op_text(a: Seq<char>, o1: char, b: Seq<char>, o2: char, c: Seq<char>) -> Seq<char> {
    a + seq![o1] + b + seq![o2] + c + seq![';']
}

proof fn lemma_number_end_at(s: Seq<char>, i: int, j: int)
    requires
        0 <= i <= j <= s.len(),
        forall|k: int| i <= k < j ==> is_digit(#[trigger] s[k]),
        j == s.len() || !is_number_char(s[j]),
    ensures
        number_end(s, i) == j,
    decreases j - i,
{
    if i < j {
        lemma_number_end_at(s, i + 1, j);
    }
}

/// A numeral at `s[i..j]`, followed by an operator or a `;`, is read as one
/// number token.
proof fn lemma_numeral_token(s: Seq<char>, i: int, j: int)
    requires
        0 <= i < j < s.len(),
        forall|k: int| i <= k < j ==> is_digit(#[trigger] s[k]),
        is_arith_op(s[j]) || s[j] == ';',
    ensures
        next_token(s, i) == (Some(Lexeme { kind: TokenType::Number, text: s.subrange(i, j) }), j),
{
    assert(is_digit(s[i]));
    lemma_number_end_at(s, i, j);
}

/// An operator followed by a digit is read as a one-character operator token.
proof fn lemma_op_token(s: Seq<char>, i: int)
    requires
        0 <= i,
        i + 1 < s.len(),
        is_arith_op(s[i]),
        is_digit(s[i + 1]),
    ensures
        next_token(s, i) == (Some(Lexeme { kind: TokenType::Operation, text: seq![s[i]] }), i + 1),
{
    assert(s.subrange(i, i + 1) =~= seq![s[i]]);
}

/// A numeral at `s[i..j]` that ends its statement with `;` is a literal.
proof fn lemma_last_operand(s: Seq<char>, st: ParseState, i: int, j: int)
    requires
        0 <= i < j,
        j + 1 <= s.len(),
        st.sep == ';',
        forall|k: int| i <= k < j ==> is_digit(#[trigger] s[k]),
        s[j] == ';',
    ensures
        next_expr(s, at(st, i), Ast::Empty) == Ok::<(Ast, ParseState), Seq<char>>(
            (Ast::Literal(s.subrange(i, j)), at(st, j + 1)),
        ),
{
    lemma_numeral_token(s, i, j);
    assert(s.subrange(j, j + 1) =~= seq![';']);
    let semi = Lexeme { kind: TokenType::Special, text: seq![';'] };
    assert(next_token(s, j) == (Some(semi), j + 1));
    assert(at(at(st, j), j + 1) == at(st, j + 1));
    assert(special_expr(s, at(st, j + 1), Ast::Literal(s.subrange(i, j)), semi) == Ok::<(Ast, ParseState), Seq<char>>(
        (Ast::Literal(s.subrange(i, j)), at(st, j + 1)),
    ));
    assert(next_expr(s, at(st, j), Ast::Literal(s.subrange(i, j))) == Ok::<(Ast, ParseState), Seq<char>>(
        (Ast::Literal(s.subrange(i, j)), at(st, j + 1)),
    ));
}

/// A numeral at `s[i..j]` followed by an operator and a digit starts an
/// operation.
proof fn lemma_inner_operand(s: Seq<char>, st: ParseState, i: int, j: int)
    requires
        0 <= i < j,
        j + 1 < s.len(),
        forall|k: int| i <= k < j ==> is_digit(#[trigger] s[k]),
        is_arith_op(s[j]),
        is_digit(s[j + 1]),
    ensures
        next_expr(s, at(st, i), Ast::Empty) == operation_expr(
            s,
            at(st, j + 1),
            Ast::Literal(s.subrange(i, j)),
            Lexeme { kind: TokenType::Operation, text: seq![s[j]] },
        ),
{
    lemma_numeral_token(s, i, j);
    lemma_op_token(s, j);
    assert(next_expr(s, at(st, j), Ast::Literal(s.subrange(i, j))) == operation_expr(
        s,
        at(st, j + 1),
        Ast::Literal(s.subrange(i, j)),
        Lexeme { kind: TokenType::Operation, text: seq![s[j]] },
    ));
}

/// After the last statement, the text ends.
proof fn lemma_at_end(s: Seq<char>, st: ParseState)
    requires
        st.pos == s.len(),
    ensures
        next_expr(s, st, Ast::Empty) == Ok::<(Ast, ParseState), Seq<char>>(
            (Ast::Empty, ParseState { done: true, ..st }),
        ),
{
}

/// One arithmetic operation on two numerals parses to an operation with the
/// value the operator gives.
pub proof fn lemma_one_op_value(a: Seq<char>, o: char, b: Seq<char>, scope: Option<Seq<Seq<char>>>)
    requires
        is_numeral(a),
        is_numeral(b),
        is_arith_op(o),
    ensures
        parse_text(one_op_text(a, o, b), scope) matches Ok((Ast::Body(ts), _))
            && ts.len() == 1 && eval(ts[0]) == apply(o, numeral_value(a), numeral_value(b)),
{
    let s = one_op_text(a, o, b);
    let st = start_state(0, scope);
    let p1 = a.len() as int;
    let p2 = p1 + 1 + b.len();
    assert(s.subrange(0, p1) =~= a);
    assert(s.subrange(p1 + 1, p2) =~= b);
    assert forall|k: int| 0 <= k < p1 implies is_digit(#[trigger] s[k]) by {
        assert(s[k] == a[k]);
    }
    assert forall|k: int| p1 + 1 <= k < p2 implies is_digit(#[trigger] s[k]) by {
        assert(s[k] == b[k - p1 - 1]);
    }
    assert(s[p1] == o);
    assert(s[p1 + 1] == b[0]);
    assert(s[p2] == ';');
    assert(at(st, 0) == st);
    lemma_last_operand(s, st, p1 + 1, p2);
    lemma_inner_operand(s, st, 0, p1);
    let t = combine(Ast::Literal(a), Lexeme { kind: TokenType::Operation, text: seq![o] }, Ast::Literal(b));
    assert(next_expr(s, st, Ast::Empty) == Ok::<(Ast, ParseState), Seq<char>>((t, at(st, p2 + 1))));
    lemma_at_end(s, at(st, p2 + 1));
    let end = ParseState { done: true, ..at(st, p2 + 1) };
    assert(parse_loop(s, at(st, p2 + 1), seq![t]) == Ok::<(Ast, ParseState), Seq<char>>(
        (Ast::Body(seq![t]), end),
    ));
    assert(seq![t] =~= Seq::<Ast>::empty().push(t));
    assert(parse_loop(s, st, Seq::empty()) == Ok::<(Ast, ParseState), Seq<char>>(
        (Ast::Body(seq![t]), end),
    ));
    assert(eval(Ast::Literal(a)) == numeral_value(a));
    assert(eval(Ast::Literal(b)) == numeral_value(b));
}

/// Whether `x o1 y o2 z` keeps its usual value when grouped to the right:
/// the two operators differ in priority, or the grouping does not matter
/// (`+ +`, `+ -`, `* *`).
pub open spec fn regroupable(o1: char, o2: char) -> bool {
    ||| priority(seq![o1]) != priority(seq![o2])
    ||| (o1 == '+' && (o2 == '+' || o2 == '-'))
    ||| (o1 == '*' && o2 == '*')
}

/// Two arithmetic operations on three numerals parse to a tree with the value
/// the usual precedence rules give, wherever right grouping of operators of
/// equal priority keeps that value.
pub proof fn lemma_two_op_value(
    a: Seq<char>,
    o1: char,
    b: Seq<char>,
    o2: char,
    c: Seq<char>,
    scope: Option<Seq<Seq<char>>>,
)
    requires
        is_numeral(a),
        is_numeral(b),
        is_numeral(c),
        is_arith_op(o1),
        is_arith_op(o2),
        regroupable(o1, o2),
    ensures
        parse_text(two_op_text(a, o1, b, o2, c), scope) matches Ok((Ast::Body(ts), _))
            && ts.len() == 1 && eval(ts[0]) == standard_value(
                numeral_value(a),
                o1,
                numeral_value(b),
                o2,
                numeral_value(c),
            ),
{
    let s = two_op_text(a, o1, b, o2, c);
    let st = start_state(0, scope);
    let p1 = a.len() as int;
    let p2 = p1 + 1 + b.len();
    let p3 = p2 + 1 + c.len();
    assert(s.subrange(0, p1) =~= a);
    assert(s.subrange(p1 + 1, p2) =~= b);
    assert(s.subrange(p2 + 1, p3) =~= c);
    assert forall|k: int| 0 <= k < p1 implies is_digit(#[trigger] s[k]) by {
        assert(s[k] == a[k]);
    }
    assert forall|k: int| p1 + 1 <= k < p2 implies is_digit(#[trigger] s[k]) by {
        assert(s[k] == b[k - p1 - 1]);
    }
    assert forall|k: int| p2 + 1 <= k < p3 implies is_digit(#[trigger] s[k]) by {
        assert(s[k] == c[k - p2 - 1]);
    }
    assert(s[p1] == o1);
    assert(s[p1 + 1] == b[0]);
    assert(s[p2] == o2);
    assert(s[p2 + 1] == c[0]);
    assert(s[p3] == ';');
    assert(at(st, 0) == st);
    let op1 = Lexeme { kind: TokenType::Operation, text: seq![o1] };
    let op2 = Lexeme { kind: TokenType::Operation, text: seq![o2] };
    lemma_last_operand(s, st, p2 + 1, p3);
    lemma_inner_operand(s, st, p1 + 1, p2);
    let inner = combine(Ast::Literal(b), op2, Ast::Literal(c));
    assert(next_expr(s, at(st, p1 + 1), Ast::Empty) == Ok::<(Ast, ParseState), Seq<char>>(
        (inner, at(st, p3 + 1)),
    ));
    lemma_inner_operand(s, st, 0, p1);
    let t = combine(Ast::Literal(a), op1, inner);
    assert(next_expr(s, st, Ast::Empty) == Ok::<(Ast, ParseState), Seq<char>>((t, at(st, p3 + 1))));
    lemma_at_end(s, at(st, p3 + 1));
    let end = ParseState { done: true, ..at(st, p3 + 1) };
    assert(parse_loop(s, at(st, p3 + 1), seq![t]) == Ok::<(Ast, ParseState), Seq<char>>(
        (Ast::Body(seq![t]), end),
    ));
    assert(seq![t] =~= Seq::<Ast>::empty().push(t));
    assert(parse_loop(s, st, Seq::empty()) == Ok::<(Ast, ParseState), Seq<char>>(
        (Ast::Body(seq![t]), end),
    ));
    let (va, vb, vc) = (numeral_value(a), numeral_value(b), numeral_value(c));
    assert(eval(Ast::Literal(a)) == va);
    assert(eval(Ast::Literal(b)) == vb);
    assert(eval(Ast::Literal(c)) == vc);
    assert(eval(inner) == apply(o2, vb, vc));
    if priority(seq![o1]) > priority(seq![o2]) {
        let left = Ast::Operation(Box::new(Ast::Literal(a)), op1, Box::new(Ast::Literal(b)));
        assert(eval(left) == apply(o1, va, vb));
        assert(eval(t) == apply(o2, apply(o1, va, vb), vc));
    } else {
        assert(eval(t) == apply(o1, va, apply(o2, vb, vc)));
        if o1 == '*' && o2 == '*' {
            assert(va * (vb * vc) == (va * vb) * vc) by (nonlinear_arith);
        }
    }
}

} // verus!
