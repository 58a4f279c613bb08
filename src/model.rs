use vstd::prelude::*;
use crate::ast::{denotes, lemma_denotes_unique, Ast, Expression};
use generational_arena::Index;
use crate::lexer::{is_blank, lemma_next_token_bounds, line_number, line_text, next_token};
use crate::text::decimal;
use crate::token::{Lexeme, TokenType};
use crate::types::TypeModel;

verus! {

/// Where a parse stands: the position in the source, whether the current
/// scope has ended, the separator and terminator of that scope, and the
/// declared names when identifiers are checked.
pub struct ParseState {
    pub pos: int,
    pub done: bool,
    pub sep: char,
    pub stop: Option<char>,
    pub scope: Option<Seq<Seq<char>>>,
}

/// What a parsing step gives: a tree and the state after it, or an error
/// message.
pub type Outcome = Result<(Ast, ParseState), Seq<char>>;

/// The error message for `msg`, tagged with the line being read at `pos`.
pub open spec fn failure(s: Seq<char>, pos: int, msg: Seq<char>) -> Seq<char> {
    "Parse error: "@ + msg + "\n"@ + decimal(line_number(s, pos) as nat) + ": "@ + line_text(s, pos)
}

pub open spec fn fail(s: Seq<char>, pos: int, msg: Seq<char>) -> Outcome {
    Err(failure(s, pos, msg))
}

/// The state of a parse that starts at position `pos` of a text: separator
/// `;`, no terminator.
pub open spec fn start_state(pos: int, scope: Option<Seq<Seq<char>>>) -> ParseState {
    ParseState { pos, done: false, sep: ';', stop: None, scope }
}

/// The outcome of parsing all of `s`, with `scope` as the names declared
/// beforehand (`None`: identifiers are not checked).
pub open spec fn parse_text(s: Seq<char>, scope: Option<Seq<Seq<char>>>) -> Outcome {
    parse_loop(s, start_state(0, scope), Seq::empty())
}

/// The tree of a successful outcome.
pub open spec fn tree_of(out: Outcome) -> Ast {
    match out {
        Ok((t, _)) => t,
        Err(_) => Ast::Empty,
    }
}

/// A text of blanks alone, the empty text among them, parses to `Empty`, the
/// tree that the sentinel node stands for, and not to an error.
pub proof fn lemma_blank_text(s: Seq<char>, scope: Option<Seq<Seq<char>>>)
    requires
        forall|k: int| 0 <= k < s.len() ==> is_blank(#[trigger] s[k]),
    ensures
        parse_text(s, scope) matches Ok((t, _)) && t is Empty,
{
    lemma_blanks_hold_no_token(s, 0);
    assert(next_expr(s, start_state(0, scope), Ast::Empty) matches Ok((t, st)) && t is Empty && st.done);
}

proof fn lemma_blanks_hold_no_token(s: Seq<char>, i: int)
    requires
        0 <= i <= s.len(),
        forall|k: int| i <= k < s.len() ==> is_blank(#[trigger] s[k]),
    ensures
        next_token(s, i).0 is None,
    decreases s.len() - i,
{
    if i < s.len() {
        lemma_blanks_hold_no_token(s, i + 1);
    }
}

/// Parsing is repeatable: the outcome depends on the text and the declared
/// names alone, and a node denotes one tree at most. So where two parses of
/// the same text succeed, the trees read back from their roots are the same.
pub proof fn lemma_parse_repeatable(
    s: Seq<char>,
    scope: Option<Seq<Seq<char>>>,
    n1: Map<Index, Expression>,
    h1: Index,
    t1: Ast,
    n2: Map<Index, Expression>,
    h2: Index,
    t2: Ast,
)
    requires
        parse_text(s, scope) is Ok,
        denotes(n1, h1, tree_of(parse_text(s, scope))),
        denotes(n2, h2, tree_of(parse_text(s, scope))),
        denotes(n1, h1, t1),
        denotes(n2, h2, t2),
    ensures
        t1 == t2,
{
    lemma_denotes_unique(n1, h1, t1, tree_of(parse_text(s, scope)));
    lemma_denotes_unique(n2, h2, t2, tree_of(parse_text(s, scope)));
}

/// Binding strength of an operator: comparisons 1, `+ -` 2, `* /` 3.
pub open spec fn priority(op: Seq<char>) -> int {
    if op.len() == 0 {
        0
    } else if op[0] == '>' || op[0] == '<' || op[0] == '=' {
        1
    } else if op[0] == '+' || op[0] == '-' {
        2
    } else if op[0] == '*' || op[0] == '/' {
        3
    } else {
        0
    }
}

/// `prev op sub`, with one level of precedence corrected: where `sub` is an
/// operation that binds less tightly than `op`, it is rotated to the top.
pub open spec fn combine(prev: Ast, op: Lexeme, sub: Ast) -> Ast {
    match sub {
        Ast::Operation(l, op2, r) => {
            let p = priority(op.text);
            let q = priority(op2.text);
            if p > 0 && q > 0 && p > q {
                Ast::Operation(Box::new(Ast::Operation(Box::new(prev), op, l)), op2, r)
            } else {
                Ast::Operation(Box::new(prev), op, Box::new(sub))
            }
        },
        _ => Ast::Operation(Box::new(prev), op, Box::new(sub)),
    }
}

/// A position that a step may continue from: not before `from`, within `s`.
pub open spec fn onward(s: Seq<char>, from: int, to: int) -> bool {
    from <= to <= s.len()
}

pub open spec fn at(st: ParseState, pos: int) -> ParseState {
    ParseState { pos, ..st }
}

/// Records `name` as declared, when names are checked.
pub open spec fn declare(st: ParseState, name: Seq<char>) -> ParseState {
    ParseState {
        scope: match st.scope {
            Some(sc) => Some(sc.push(name)),
            None => None,
        },
        ..st
    }
}

pub open spec fn is_declared(st: ParseState, name: Seq<char>) -> bool {
    match st.scope {
        Some(sc) => sc.contains(name),
        None => true,
    }
}

/// Parses one scope to its end: statements are gathered into a `Body`, or
/// the scope is `Empty` when it holds none.
pub open spec fn parse_loop(s: Seq<char>, st: ParseState, acc: Seq<Ast>) -> Outcome
    decreases s.len() - st.pos, 1nat,
{
    if !onward(s, 0, st.pos) {
        Ok((Ast::Empty, st))
    } else {
        match next_expr(s, st, Ast::Empty) {
            Err(e) => Err(e),
            Ok((t, st2)) => {
                let acc2 = if t is Empty { acc } else { acc.push(t) };
                if st2.done || !onward(s, st.pos + 1, st2.pos) {
                    Ok((if acc2.len() > 0 { Ast::Body(acc2) } else { Ast::Empty }, st2))
                } else {
                    parse_loop(s, st2, acc2)
                }
            },
        }
    }
}

/// A nested scope ended by `stop`, whose statements are separated by `sep`.
/// The enclosing scope keeps its own separator, terminator and end flag.
pub open spec fn parse_scope(s: Seq<char>, st: ParseState, sep: char, stop: char) -> Outcome
    decreases s.len() - st.pos, 2nat,
{
    let inner = ParseState { pos: st.pos, done: false, sep, stop: Some(stop), scope: st.scope };
    match parse_loop(s, inner, Seq::empty()) {
        Err(e) => Err(e),
        Ok((t, st2)) => Ok((t, ParseState { pos: st2.pos, scope: st2.scope, ..st })),
    }
}

/// Reads one token and extends `prev` by what it starts.
pub open spec fn next_expr(s: Seq<char>, st: ParseState, prev: Ast) -> Outcome
    decreases s.len() - st.pos, 0nat,
{
    let (tok, pos1) = next_token(s, st.pos);
    match tok {
        None => Ok((Ast::Empty, ParseState { pos: pos1, done: true, ..st })),
        Some(t) => {
            if !onward(s, st.pos + 1, pos1) {
                Ok((prev, st))
            } else {
                let st1 = at(st, pos1);
                match t.kind {
                    TokenType::Special => special_expr(s, st1, prev, t),
                    TokenType::Assignment => assign_expr(s, st1, prev, t),
                    TokenType::Operation => operation_expr(s, st1, prev, t),
                    TokenType::Symbol => {
                        if is_declared(st1, t.text) {
                            next_expr(s, st1, Ast::Ident(t.text))
                        } else {
                            fail(s, pos1, "`"@ + t.text + "` is not declared"@)
                        }
                    },
                    TokenType::Number => next_expr(s, st1, Ast::Literal(t.text)),
                    TokenType::If => if_expr(s, st1),
                    TokenType::Else => else_expr(s, st1, prev),
                    TokenType::Colon => colon_expr(s, st1, prev),
                    TokenType::Let => {
                        if !(prev is Empty) {
                            fail(s, pos1, "`let [name] : [type]`, `let` must at the beginning of the expression"@)
                        } else {
                            let_expr(s, st1)
                        }
                    },
                    TokenType::Func => {
                        if !(prev is Empty) {
                            fail(s, pos1, "`fn` must at the beginning of the expression"@)
                        } else {
                            next_expr(s, st1, Ast::Empty)
                        }
                    },
                    TokenType::SmallArrow => arrow_expr(s, st1, prev),
                    TokenType::Return => {
                        if !(prev is Empty) {
                            fail(s, pos1, "`return` must at the beginning of the expression"@)
                        } else {
                            match next_expr(s, st1, Ast::Empty) {
                                Err(e) => Err(e),
                                Ok((e, st2)) => Ok((Ast::Return(Box::new(e)), st2)),
                            }
                        }
                    },
                    _ => fail(s, pos1, "unexpected token: "@ + t.text),
                }
            }
        },
    }
}

/// A punctuation token `t` after `prev`.
pub open spec fn special_expr(s: Seq<char>, st: ParseState, prev: Ast, t: Lexeme) -> Outcome
    decreases s.len() - st.pos, 3nat,
{
    let c = t.text[0];
    if c == st.sep {
        Ok((prev, st))
    } else if st.stop == Some(c) {
        Ok((prev, ParseState { done: true, ..st }))
    } else if c == '{' {
        if prev is Empty {
            parse_scope(s, st, ';', '}')
        } else {
            fail(s, st.pos, "`{` can only come after an empty expression"@)
        }
    } else if c == '(' {
        match prev {
            Ast::Ident(name) => match parse_scope(s, st, ',', ')') {
                Err(e) => Err(e),
                Ok((vars, st2)) => {
                    if !onward(s, st.pos, st2.pos) {
                        Ok((prev, st2))
                    } else {
                        next_expr(s, st2, Ast::FunctionHeader(name, Box::new(vars)))
                    }
                },
            },
            _ => parse_scope(s, st, ',', ')'),
        }
    } else {
        fail(s, st.pos, "special: the character '"@ + seq![c] + "' is out of place"@)
    }
}

/// `=` read after `prev`: an assignment of what follows.
pub open spec fn assign_expr(s: Seq<char>, st: ParseState, prev: Ast, t: Lexeme) -> Outcome
    decreases s.len() - st.pos, 3nat,
{
    if prev is Empty {
        fail(s, st.pos, "assignment: no expression before `=`"@)
    } else if !(prev is Literal || prev is Ident || prev is Operation) {
        fail(s, st.pos, "assignment: the previous expression must either be a literal or an operation"@)
    } else {
        match next_expr(s, st, Ast::Empty) {
            Err(e) => Err(e),
            Ok((next, st2)) => {
                if next is Empty {
                    fail(s, st2.pos, "assignment: no expression after `=`"@)
                } else {
                    Ok((Ast::Operation(Box::new(prev), t, Box::new(next)), st2))
                }
            },
        }
    }
}

/// An operator token `t` after `prev`.
pub open spec fn operation_expr(s: Seq<char>, st: ParseState, prev: Ast, t: Lexeme) -> Outcome
    decreases s.len() - st.pos, 3nat,
{
    match next_expr(s, st, Ast::Empty) {
        Err(e) => Err(e),
        Ok((sub, st2)) => {
            if sub is Empty {
                fail(s, st2.pos, "operation: no expression found after "@ + t.text)
            } else if prev is Empty {
                fail(s, st2.pos, "operation: no expression found before: "@ + t.text)
            } else {
                Ok((combine(prev, t, sub), st2))
            }
        },
    }
}

/// `if` read: a condition up to `{`, a body up to `}` that holds at least
/// one statement, and an `else` if one follows.
pub open spec fn if_expr(s: Seq<char>, st: ParseState) -> Outcome
    decreases s.len() - st.pos, 3nat,
{
    match next_expr(s, ParseState { sep: '{', ..st }, Ast::Empty) {
        Err(e) => Err(e),
        Ok((cond, st2)) => {
            let st2 = ParseState { sep: st.sep, ..st2 };
            if cond is Empty {
                fail(s, st2.pos, "if: empty condition"@)
            } else if !onward(s, st.pos, st2.pos) {
                Ok((cond, st2))
            } else {
                match parse_scope(s, st2, ';', '}') {
                    Err(e) => Err(e),
                    Ok((then, st3)) => {
                        let t = Ast::IfThen(Box::new(cond), Box::new(then));
                        if then is Empty {
                            fail(s, st3.pos, "if: empty body"@)
                        } else if !onward(s, st.pos, st3.pos) {
                            Ok((t, st3))
                        } else if next_token(s, st3.pos).0 matches Some(n) && n.kind == TokenType::Else {
                            next_expr(s, st3, t)
                        } else {
                            Ok((t, st3))
                        }
                    },
                }
            }
        },
    }
}

/// `else` read after `prev`: an `if` or a block must follow.
pub open spec fn else_expr(s: Seq<char>, st: ParseState, prev: Ast) -> Outcome
    decreases s.len() - st.pos, 3nat,
{
    if prev is Empty {
        fail(s, st.pos, "else: cannot be the first keyword in an expression"@)
    } else {
        match prev {
            Ast::IfThen(cond, then) => match next_expr(s, st, Ast::Empty) {
                Err(e) => Err(e),
                Ok((e, st2)) => {
                    if e is IfThen || e is Body {
                        Ok((Ast::IfElseThen(cond, Box::new(e), then), st2))
                    } else {
                        fail(s, st2.pos, "`{` was not found after `else`"@)
                    }
                },
            },
            _ => fail(s, st.pos, "`else` can only be after an `if` block"@),
        }
    }
}

/// `:` read after `prev`: a declaration with a type and, for now, no value.
pub open spec fn colon_expr(s: Seq<char>, st: ParseState, prev: Ast) -> Outcome
    decreases s.len() - st.pos, 3nat,
{
    match prev {
        Ast::Ident(name) => {
            let (ty, pos2) = next_token(s, st.pos);
            match ty {
                None => fail(s, pos2, "`[name] : [type]`, expression ended prematurely, [type] not found"@),
                Some(ty) => {
                    if ty.kind != TokenType::Symbol {
                        fail(s, pos2, "`[name] : [type]`, [type] given after `:` is not a valid symbol"@)
                    } else if !onward(s, st.pos, pos2) {
                        Ok((prev, st))
                    } else {
                        let d = Ast::Declaration(
                            Box::new(Ast::Ident(name)),
                            TypeModel::Undetermined(ty.text),
                            Box::new(Ast::Empty),
                        );
                        next_expr(s, at(st, pos2), d)
                    }
                },
            }
        },
        _ => fail(s, st.pos, "`:` must only come after a variable name"@),
    }
}

/// After `let` at `pos` come a name and then `:` and a type name, or `:=`.
pub open spec fn let_header_ok(s: Seq<char>, pos: int) -> bool {
    let (name, p1) = next_token(s, pos);
    let (sym, p2) = next_token(s, p1);
    let (ty, _) = next_token(s, p2);
    let type_ok = match ty {
        Some(t) => t.kind == TokenType::Symbol,
        None => false,
    };
    &&& name matches Some(n) && n.kind == TokenType::Symbol
    &&& sym matches Some(c) && (c.kind == TokenType::Walrus || (c.kind == TokenType::Colon && type_ok))
}

/// With names checked, an identifier that was not declared before fails the
/// parse with a "not declared" message; a declared one, or any identifier
/// when names are not checked, becomes an `Ident` and parsing goes on.
pub proof fn lemma_identifier_check(s: Seq<char>, st: ParseState, prev: Ast)
    requires
        0 <= st.pos <= s.len(),
        next_token(s, st.pos).0 matches Some(t) && t.kind == TokenType::Symbol,
    ensures
        ({
            let (tok, p1) = next_token(s, st.pos);
            let name = tok->Some_0.text;
            if is_declared(st, name) {
                next_expr(s, st, prev) == next_expr(s, at(st, p1), Ast::Ident(name))
            } else {
                next_expr(s, st, prev) == fail(s, p1, "`"@ + name + "` is not declared"@)
            }
        }),
{
    lemma_next_token_bounds(s, st.pos);
}

/// `let` read: `name : type = value` or `name := value`.
pub open spec fn let_expr(s: Seq<char>, st: ParseState) -> Outcome
    decreases s.len() - st.pos, 3nat,
{
    let (name, p1) = next_token(s, st.pos);
    match name {
        None => fail(s, p1, "`[name] : [type]`, expression ended prematurely, [name] not found"@),
        Some(name) => {
            if name.kind != TokenType::Symbol {
                fail(s, p1, "`[name] : [type]`, the [name] given is not a valid symbol"@)
            } else {
                let (sym, p2) = next_token(s, p1);
                match sym {
                    None => fail(s, p2, "`[name] : [type]`, expression ended prematurely, nothing came after [name]"@),
                    Some(sym) => {
                        if sym.kind == TokenType::Colon {
                            let (ty, p3) = next_token(s, p2);
                            match ty {
                                None => fail(s, p3, "`[name] : [type]`, expression ended prematurely, [type] not found"@),
                                Some(ty) => {
                                    if ty.kind != TokenType::Symbol {
                                        fail(s, p3, "`[name] : [type]`, [type] given after `:` is not a valid symbol"@)
                                    } else if !onward(s, st.pos, p3) {
                                        Ok((Ast::Empty, st))
                                    } else {
                                        let x = Ast::Ident(name.text);
                                        match next_expr(s, at(st, p3), x) {
                                            Err(e) => Err(e),
                                            Ok((v, st4)) => match v {
                                                Ast::Operation(_, _, r) => Ok((
                                                    Ast::Declaration(Box::new(x), TypeModel::Undetermined(ty.text), r),
                                                    declare(st4, name.text),
                                                )),
                                                Ast::Empty => fail(s, st4.pos, "`[name] : [type] = [expression]`, no [expression] found"@),
                                                _ => fail(s, st4.pos, "`[name] : [type] = [expression]`, the [expression] must be an assignment"@),
                                            },
                                        }
                                    }
                                },
                            }
                        } else if sym.kind == TokenType::Walrus {
                            if !onward(s, st.pos, p2) {
                                Ok((Ast::Empty, st))
                            } else {
                                match next_expr(s, at(st, p2), Ast::Empty) {
                                    Err(e) => Err(e),
                                    Ok((v, st4)) => {
                                        if v is Empty {
                                            fail(s, st4.pos, "`[name] := [expression]`, no [expression] found"@)
                                        } else {
                                            Ok((
                                                Ast::Declaration(Box::new(Ast::Ident(name.text)), TypeModel::Auto, Box::new(v)),
                                                declare(st4, name.text),
                                            ))
                                        }
                                    },
                                }
                            }
                        } else {
                            fail(s, p2, "`[name] : [type]`, `:` or `:=` did not come after [name]"@)
                        }
                    },
                }
            }
        },
    }
}

/// `->` read after `prev`: the return type and body of a function.
pub open spec fn arrow_expr(s: Seq<char>, st: ParseState, prev: Ast) -> Outcome
    decreases s.len() - st.pos, 3nat,
{
    match prev {
        Ast::FunctionHeader(_, _) => {
            let (ty, pos2) = next_token(s, st.pos);
            match ty {
                None => fail(s, pos2, "no token found after `->`"@),
                Some(ty) => {
                    if ty.kind != TokenType::Symbol {
                        fail(s, pos2, "the type given after `->` is not valid"@)
                    } else if !onward(s, st.pos, pos2) {
                        Ok((prev, st))
                    } else {
                        match next_expr(s, at(st, pos2), Ast::Empty) {
                            Err(e) => Err(e),
                            Ok((body, st3)) => {
                                if body is Body {
                                    Ok((
                                        Ast::Declaration(Box::new(prev), TypeModel::Undetermined(ty.text), Box::new(body)),
                                        st3,
                                    ))
                                } else {
                                    fail(s, st3.pos, "after `->` there must be a new scope declared by `{`"@)
                                }
                            },
                        }
                    }
                },
            }
        },
        _ => fail(s, st.pos, "`->` can only come after a function declaration"@),
    }
}

} // verus!
