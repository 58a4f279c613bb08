use vstd::prelude::*;
use vstd::string::StringExecFns;
use generational_arena::{Arena, Index};
use crate::ast::{arena_get, arena_nodes, denotes, node_denotes, Ast, Expression};
use crate::parser::Parser;
use crate::types::type_text;

verus! {

/// `tabs` times two spaces.
pub open spec fn indent_of(tabs: nat) -> Seq<char>
    decreases tabs,
{
    if tabs == 0 {
        Seq::empty()
    } else {
        indent_of((tabs - 1) as nat) + "  "@
    }
}

/// The indentation of the children of a node indented by `ind`.
pub open spec fn deeper(ind: Seq<char>) -> Seq<char> {
    ind + "    "@
}

/// The printed form of a tree whose root is indented by `ind`.
pub open spec fn render(t: Ast, ind: Seq<char>) -> Seq<char>
    decreases t, 0nat,
{
    let sub = deeper(ind);
    match t {
        Ast::Empty => "empty"@,
        Ast::Ident(n) => "\n"@ + ind + "ident: "@ + n,
        Ast::Literal(n) => "\n"@ + ind + "literal: "@ + n,
        Ast::Operation(l, op, r) => "\n"@ + ind + op.text + ":\n  "@ + ind + "left: "@ + render(*l, sub)
            + "\n  "@ + ind + "right: "@ + render(*r, sub),
        Ast::Body(ts) => "\n"@ + ind + "["@ + render_items(ts, ind, ts.len()) + "\n"@ + ind + "]"@,
        Ast::IfThen(c, b) => "\n"@ + ind + "if:\n  "@ + ind + "condition: "@ + render(*c, sub)
            + "\n  "@ + ind + "then: "@ + render(*b, sub),
        Ast::IfElseThen(c, x, b) => "\n"@ + ind + "if:\n  "@ + ind + "condition: "@ + render(*c, sub)
            + "\n  "@ + ind + "else: "@ + render(*x, sub) + "\n  "@ + ind + "then: "@ + render(*b, sub),
        Ast::Declaration(x, ty, v) => "\n"@ + ind + "declaration:\n  "@ + ind + "expression: "@
            + render(*x, sub) + "\n  "@ + ind + "type: "@ + type_text(ty) + "\n  "@ + ind + "value: "@
            + render(*v, sub),
        Ast::FunctionHeader(n, vs) => "\n"@ + ind + "function:\n  "@ + ind + "name: "@ + n + "\n  "@
            + ind + "variables: "@ + render(*vs, sub),
        Ast::Return(x) => "\n"@ + ind + "return: "@ + render(*x, sub),
    }
}

/// The printed form of the first `k` statements of a body indented by `ind`.
pub open spec fn render_items(ts: Seq<Ast>, ind: Seq<char>, k: nat) -> Seq<char>
    decreases ts, k,
{
    if k == 0 || k > ts.len() {
        Seq::empty()
    } else {
        render_items(ts, ind, (k - 1) as nat) + ind + "\n  "@ + ind + "("@ + ind + render(
            ts[k - 1],
            deeper(ind),
        ) + "\n  "@ + ind + "),"@
    }
}

impl Expression {
    fn get_formatted_tabs(tabs: usize) -> (r: String)
        ensures
            r@ == indent_of(tabs as nat),
    {
        let mut tab_str = String::new();
        let mut k: usize = 0;
        while k < tabs
            invariant
                k <= tabs,
                tab_str@ == indent_of(k as nat),
            decreases tabs - k,
        {
            tab_str.append("  ");
            k = k + 1;
        }
        tab_str
    }

    fn get_tree_string(&self, arena: &Arena<Expression>, ind: &String, Ghost(t): Ghost<Ast>) -> (r: String)
        requires
            node_denotes(arena_nodes(*arena), *self, t),
        ensures
            r@ == render(t, ind@),
        decreases t, 0nat,
    {
        let mut sub = ind.clone();
        sub.append("    ");
        let ghost children = match t {
            Ast::Operation(l, _, r) => seq![*l, *r],
            Ast::IfThen(c, b) => seq![*c, *b],
            Ast::IfElseThen(c, x, b) => seq![*c, *x, *b],
            Ast::Declaration(x, _, v) => seq![*x, *v],
            Ast::FunctionHeader(_, vs) => seq![*vs],
            Ast::Return(x) => seq![*x],
            _ => Seq::empty(),
        };
        let mut r = String::new();
        match self {
            Expression::Empty => {
                r.append("empty");
            },
            Expression::Ident(name) => {
                r.append("\n");
                r.append(ind.as_str());
                r.append("ident: ");
                r.append(name.as_str());
            },
            Expression::Literal(name) => {
                r.append("\n");
                r.append(ind.as_str());
                r.append("literal: ");
                r.append(name.as_str());
            },
            Expression::Operation(left, token, right) => {
                r.append("\n");
                r.append(ind.as_str());
                r.append(token.value.as_str());
                r.append(":\n  ");
                r.append(ind.as_str());
                r.append("left: ");
                r.append(Self::get_expression_string(arena, left, &sub, Ghost(children[0])).as_str());
                r.append("\n  ");
                r.append(ind.as_str());
                r.append("right: ");
                r.append(Self::get_expression_string(arena, right, &sub, Ghost(children[1])).as_str());
            },
            Expression::Body(expressions) => {
                let ghost ts = match t {
                    Ast::Body(ts) => ts,
                    _ => Seq::empty(),
                };
                let mut items = String::new();
                let mut k: usize = 0;
                while k < expressions.len()
                    invariant
                        node_denotes(arena_nodes(*arena), *self, t),
                        t == Ast::Body(ts),
                        *self == Expression::Body(*expressions),
                        expressions@.len() == ts.len(),
                        sub@ == deeper(ind@),
                        k <= ts.len(),
                        items@ == render_items(ts, ind@, k as nat),
                    decreases ts.len() - k,
                {
                    let item = Self::get_expression_string(arena, &expressions[k], &sub, Ghost(ts[k as int]));
                    items.append(ind.as_str());
                    items.append("\n  ");
                    items.append(ind.as_str());
                    items.append("(");
                    items.append(ind.as_str());
                    items.append(item.as_str());
                    items.append("\n  ");
                    items.append(ind.as_str());
                    items.append("),");
                    k = k + 1;
                }
                r.append("\n");
                r.append(ind.as_str());
                r.append("[");
                r.append(items.as_str());
                r.append("\n");
                r.append(ind.as_str());
                r.append("]");
            },
            Expression::IfThen(condition, then) => {
                r.append("\n");
                r.append(ind.as_str());
                r.append("if:\n  ");
                r.append(ind.as_str());
                r.append("condition: ");
                r.append(Self::get_expression_string(arena, condition, &sub, Ghost(children[0])).as_str());
                r.append("\n  ");
                r.append(ind.as_str());
                r.append("then: ");
                r.append(Self::get_expression_string(arena, then, &sub, Ghost(children[1])).as_str());
            },
            Expression::IfElseThen(condition, then, else_expr) => {
                r.append("\n");
                r.append(ind.as_str());
                r.append("if:\n  ");
                r.append(ind.as_str());
                r.append("condition: ");
                r.append(Self::get_expression_string(arena, condition, &sub, Ghost(children[0])).as_str());
                r.append("\n  ");
                r.append(ind.as_str());
                r.append("else: ");
                r.append(Self::get_expression_string(arena, then, &sub, Ghost(children[1])).as_str());
                r.append("\n  ");
                r.append(ind.as_str());
                r.append("then: ");
                r.append(Self::get_expression_string(arena, else_expr, &sub, Ghost(children[2])).as_str());
            },
            Expression::Declaration(expression, typ, value) => {
                r.append("\n");
                r.append(ind.as_str());
                r.append("declaration:\n  ");
                r.append(ind.as_str());
                r.append("expression: ");
                r.append(Self::get_expression_string(arena, expression, &sub, Ghost(children[0])).as_str());
                r.append("\n  ");
                r.append(ind.as_str());
                r.append("type: ");
                r.append(typ.to_string().as_str());
                r.append("\n  ");
                r.append(ind.as_str());
                r.append("value: ");
                r.append(Self::get_expression_string(arena, value, &sub, Ghost(children[1])).as_str());
            },
            Expression::FunctionHeader(name, variables) => {
                r.append("\n");
                r.append(ind.as_str());
                r.append("function:\n  ");
                r.append(ind.as_str());
                r.append("name: ");
                r.append(name.as_str());
                r.append("\n  ");
                r.append(ind.as_str());
                r.append("variables: ");
                r.append(Self::get_expression_string(arena, variables, &sub, Ghost(children[0])).as_str());
            },
            Expression::Return(expression) => {
                r.append("\n");
                r.append(ind.as_str());
                r.append("return: ");
                r.append(Self::get_expression_string(arena, expression, &sub, Ghost(children[0])).as_str());
            },
        }
        r
    }

    /// The printed form of this node, at the top level.
    fn to_string(&self, arena: &Arena<Expression>, Ghost(t): Ghost<Ast>) -> (r: String)
        requires
            node_denotes(arena_nodes(*arena), *self, t),
        ensures
            r@ == render(t, Seq::empty()),
    {
        self.get_tree_string(arena, &Self::get_formatted_tabs(0), Ghost(t))
    }

    fn get_expression_string(arena: &Arena<Expression>, index: &Index, ind: &String, Ghost(t): Ghost<Ast>) -> (r: String)
        requires
            denotes(arena_nodes(*arena), *index, t),
        ensures
            r@ == render(t, ind@),
        decreases t, 1nat,
    {
        match arena_get(arena, *index) {
            Some(expr) => expr.get_tree_string(arena, ind, Ghost(t)),
            None => String::from_str("deleted"),
        }
    }

    /// The printed form of the tree under `index`, or `deleted` when no node
    /// is stored there.
    pub fn from_index_to_string(parser: &Parser, index: &Index) -> (r: String)
        requires
            parser.wf(),
        ensures
            forall|t: Ast| denotes(parser.nodes(), *index, t) ==> r@ == render(t, Seq::empty()),
            !parser.nodes().contains_key(*index) ==> r@ == "deleted"@,
    {
        let arena = parser.arena();
        match arena_get(arena, *index) {
            Some(expr) => {
                proof {
                    parser.lemma_rooted(*index);
                }
                let ghost t = choose|t: Ast| denotes(parser.nodes(), *index, t);
                let r = expr.to_string(arena, Ghost(t));
                proof {
                    assert forall|u: Ast| denotes(parser.nodes(), *index, u) implies r@ == render(u, Seq::empty()) by {
                        crate::ast::lemma_denotes_unique(parser.nodes(), *index, t, u);
                    }
                }
                r
            },
            None => String::from_str("deleted"),
        }
    }
}

} // verus!
