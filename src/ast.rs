use vstd::prelude::*;
use generational_arena::{Arena, Index};
use crate::token::{Lexeme, Token};
use crate::types::{Type, TypeModel};

verus! {

#[verifier::external_type_specification]
#[verifier::external_body]
#[verifier::reject_recursive_types(T)]
pub struct ExArena<T>(Arena<T>);

#[verifier::external_type_specification]
#[verifier::external_body]
pub struct ExIndex(Index);

/// The nodes an arena holds, each under the index it was stored at.
pub uninterp spec fn arena_nodes(a: Arena<Expression>) -> Map<Index, Expression>;

/// Relies on `generational_arena::Arena::new`: a new arena holds no node.
#[verifier::external_body]
pub(crate) fn new_arena() -> (r: Arena<Expression>)
    ensures
        arena_nodes(r).dom().is_empty(),
{
    Arena::new()
}

/// Relies on `generational_arena::Arena::insert`: the node is stored under an
/// index that held no node before, and nothing else changes.
#[verifier::external_body]
pub(crate) fn arena_insert(a: &mut Arena<Expression>, e: Expression) -> (i: Index)
    ensures
        !arena_nodes(*old(a)).contains_key(i),
        arena_nodes(*final(a)) == arena_nodes(*old(a)).insert(i, e),
{
    a.insert(e)
}

/// Relies on `generational_arena::Arena::get`: the node stored under `i`, if any.
#[verifier::external_body]
pub(crate) fn arena_get(a: &Arena<Expression>, i: Index) -> (r: Option<&Expression>)
    ensures
        match r {
            Some(e) => arena_nodes(*a).contains_key(i) && *e == arena_nodes(*a)[i],
            None => !arena_nodes(*a).contains_key(i),
        },
{
    a.get(i)
}

/// A node of the syntax tree. Children are indices of other nodes in the
/// arena that owns the tree.
#[derive(Debug)]
pub enum Expression {
    Empty,
    Ident(String),
    Literal(String),
    Operation(Index, Token, Index),
    IfThen(Index, Index),
    IfElseThen(Index, Index, Index),
    Body(Vec<Index>),
    Declaration(Index, Type, Index),
    FunctionHeader(String, Index),
    Return(Index),
}

/// A syntax tree as a mathematical value.
pub enum Ast {
    Empty,
    Ident(Seq<char>),
    Literal(Seq<char>),
    Operation(Box<Ast>, Lexeme, Box<Ast>),
    IfThen(Box<Ast>, Box<Ast>),
    /// Condition, the branch after `else`, the branch after the condition.
    IfElseThen(Box<Ast>, Box<Ast>, Box<Ast>),
    Body(Seq<Ast>),
    Declaration(Box<Ast>, TypeModel, Box<Ast>),
    FunctionHeader(Seq<char>, Box<Ast>),
    Return(Box<Ast>),
}

/// A completed tree: operations and `if` nodes have no `Empty` child, and a
/// body holds at least one statement and none that is `Empty`.
pub open spec fn well_formed(t: Ast) -> bool
    decreases t,
{
    match t {
        Ast::Empty | Ast::Ident(_) | Ast::Literal(_) => true,
        Ast::Operation(l, _, r) => !(*l is Empty) && !(*r is Empty) && well_formed(*l) && well_formed(*r),
        Ast::IfThen(c, b) => !(*c is Empty) && !(*b is Empty) && well_formed(*c) && well_formed(*b),
        Ast::IfElseThen(c, x, b) => !(*c is Empty) && !(*x is Empty) && !(*b is Empty)
            && well_formed(*c) && well_formed(*x) && well_formed(*b),
        Ast::Body(ts) => ts.len() > 0 && forall|k: int|
            0 <= k < ts.len() ==> !(#[trigger] ts[k] is Empty) && well_formed(ts[k]),
        Ast::Declaration(x, _, v) => well_formed(*x) && well_formed(*v),
        Ast::FunctionHeader(_, vs) => well_formed(*vs),
        Ast::Return(x) => well_formed(*x),
    }
}

/// The node stored under `h` in `nodes` is the root of the tree `t`.
pub open spec fn denotes(nodes: Map<Index, Expression>, h: Index, t: Ast) -> bool
    decreases t, 1nat,
{
    nodes.contains_key(h) && node_denotes(nodes, nodes[h], t)
}

/// The node `e`, whose children are stored in `nodes`, is the root of the tree `t`.
pub open spec fn node_denotes(nodes: Map<Index, Expression>, e: Expression, t: Ast) -> bool
    decreases t, 0nat,
{
    match t {
        Ast::Empty => e is Empty,
        Ast::Ident(n) => e matches Expression::Ident(m) && m@ == n,
        Ast::Literal(n) => e matches Expression::Literal(m) && m@ == n,
        Ast::Operation(l, op, r) => e matches Expression::Operation(hl, tok, hr)
            && tok@ == op && denotes(nodes, hl, *l) && denotes(nodes, hr, *r),
        Ast::IfThen(c, b) => e matches Expression::IfThen(hc, hb) && denotes(nodes, hc, *c)
            && denotes(nodes, hb, *b),
        Ast::IfElseThen(c, x, b) => e matches Expression::IfElseThen(hc, hx, hb)
            && denotes(nodes, hc, *c) && denotes(nodes, hx, *x) && denotes(nodes, hb, *b),
        Ast::Body(ts) => e matches Expression::Body(hs) && hs@.len() == ts.len()
            && forall|k: int| 0 <= k < ts.len() ==> denotes(nodes, #[trigger] hs@[k], ts[k]),
        Ast::Declaration(x, ty, v) => e matches Expression::Declaration(hx, typ, hv)
            && typ@ == ty && denotes(nodes, hx, *x) && denotes(nodes, hv, *v),
        Ast::FunctionHeader(n, vs) => e matches Expression::FunctionHeader(m, hv) && m@ == n
            && denotes(nodes, hv, *vs),
        Ast::Return(x) => e matches Expression::Return(hx) && denotes(nodes, hx, *x),
    }
}

/// `n2` holds every node of `n1`, under the same index.
pub open spec fn extends(n1: Map<Index, Expression>, n2: Map<Index, Expression>) -> bool {
    forall|k: Index| #[trigger] n1.contains_key(k) ==> n2.contains_key(k) && n2[k] == n1[k]
}

/// Adding nodes keeps every tree that a node denotes.
pub proof fn lemma_denotes_grow(n1: Map<Index, Expression>, n2: Map<Index, Expression>, h: Index, t: Ast)
    requires
        extends(n1, n2),
        denotes(n1, h, t),
    ensures
        denotes(n2, h, t),
    decreases t, 1nat,
{
    assert(n1.contains_key(h));
    lemma_node_denotes_grow(n1, n2, n1[h], t);
}

/// Adding nodes keeps the tree that a node whose children are stored denotes.
pub proof fn lemma_node_denotes_grow(
    n1: Map<Index, Expression>,
    n2: Map<Index, Expression>,
    e: Expression,
    t: Ast,
)
    requires
        extends(n1, n2),
        node_denotes(n1, e, t),
    ensures
        node_denotes(n2, e, t),
    decreases t, 0nat,
{
    match t {
        Ast::Operation(l, _, r) => {
            if let Expression::Operation(hl, _, hr) = e {
                lemma_denotes_grow(n1, n2, hl, *l);
                lemma_denotes_grow(n1, n2, hr, *r);
            }
        },
        Ast::IfThen(c, b) => {
            if let Expression::IfThen(hc, hb) = e {
                lemma_denotes_grow(n1, n2, hc, *c);
                lemma_denotes_grow(n1, n2, hb, *b);
            }
        },
        Ast::IfElseThen(c, x, b) => {
            if let Expression::IfElseThen(hc, hx, hb) = e {
                lemma_denotes_grow(n1, n2, hc, *c);
                lemma_denotes_grow(n1, n2, hx, *x);
                lemma_denotes_grow(n1, n2, hb, *b);
            }
        },
        Ast::Body(ts) => {
            if let Expression::Body(hs) = e {
                assert forall|k: int| 0 <= k < ts.len() implies denotes(n2, #[trigger] hs@[k], ts[k]) by {
                    lemma_denotes_grow(n1, n2, hs@[k], ts[k]);
                }
            }
        },
        Ast::Declaration(x, _, v) => {
            if let Expression::Declaration(hx, _, hv) = e {
                lemma_denotes_grow(n1, n2, hx, *x);
                lemma_denotes_grow(n1, n2, hv, *v);
            }
        },
        Ast::FunctionHeader(_, vs) => {
            if let Expression::FunctionHeader(_, hv) = e {
                lemma_denotes_grow(n1, n2, hv, *vs);
            }
        },
        Ast::Return(x) => {
            if let Expression::Return(hx) = e {
                lemma_denotes_grow(n1, n2, hx, *x);
            }
        },
        _ => {},
    }
}

/// A node denotes at most one tree.
pub proof fn lemma_denotes_unique(n: Map<Index, Expression>, h: Index, t1: Ast, t2: Ast)
    requires
        denotes(n, h, t1),
        denotes(n, h, t2),
    ensures
        t1 == t2,
    decreases t1,
{
    match t1 {
        Ast::Operation(l1, _, r1) => {
            if let Ast::Operation(l2, _, r2) = t2 {
                if let Expression::Operation(hl, _, hr) = n[h] {
                    lemma_denotes_unique(n, hl, *l1, *l2);
                    lemma_denotes_unique(n, hr, *r1, *r2);
                }
            }
        },
        Ast::IfThen(c1, b1) => {
            if let Ast::IfThen(c2, b2) = t2 {
                if let Expression::IfThen(hc, hb) = n[h] {
                    lemma_denotes_unique(n, hc, *c1, *c2);
                    lemma_denotes_unique(n, hb, *b1, *b2);
                }
            }
        },
        Ast::IfElseThen(c1, e1, b1) => {
            if let Ast::IfElseThen(c2, e2, b2) = t2 {
                if let Expression::IfElseThen(hc, he, hb) = n[h] {
                    lemma_denotes_unique(n, hc, *c1, *c2);
                    lemma_denotes_unique(n, he, *e1, *e2);
                    lemma_denotes_unique(n, hb, *b1, *b2);
                }
            }
        },
        Ast::Body(ts1) => {
            if let Ast::Body(ts2) = t2 {
                if let Expression::Body(hs) = n[h] {
                    assert forall|k: int| 0 <= k < ts1.len() implies ts1[k] == ts2[k] by {
                        lemma_denotes_unique(n, hs@[k], ts1[k], ts2[k]);
                    }
                    assert(ts1 =~= ts2);
                }
            }
        },
        Ast::Declaration(x1, _, v1) => {
            if let Ast::Declaration(x2, _, v2) = t2 {
                if let Expression::Declaration(hx, _, hv) = n[h] {
                    lemma_denotes_unique(n, hx, *x1, *x2);
                    lemma_denotes_unique(n, hv, *v1, *v2);
                }
            }
        },
        Ast::FunctionHeader(_, vs1) => {
            if let Ast::FunctionHeader(_, vs2) = t2 {
                if let Expression::FunctionHeader(_, hv) = n[h] {
                    lemma_denotes_unique(n, hv, *vs1, *vs2);
                }
            }
        },
        Ast::Return(e1) => {
            if let Ast::Return(e2) = t2 {
                if let Expression::Return(he) = n[h] {
                    lemma_denotes_unique(n, he, *e1, *e2);
                }
            }
        },
        _ => {},
    }
}

} // verus!
