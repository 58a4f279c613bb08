use vstd::prelude::*;
use vstd::string::StringExecFns;
use generational_arena::{Arena, Index};
use crate::ast::{
    arena_get, arena_insert, arena_nodes, denotes, extends, lemma_denotes_grow,
    lemma_node_denotes_grow, new_arena, node_denotes, well_formed, Ast, Expression,
};
use crate::lexer::{lemma_next_token_bounds, next_token, token_view, Lexer};
use crate::model::{
    arrow_expr, assign_expr, colon_expr, declare, else_expr, failure, if_expr, is_declared, let_expr, let_header_ok,
    next_expr, operation_expr, parse_loop, parse_scope, priority, special_expr, start_state, tree_of, Outcome,
    ParseState,
};
use crate::text::{chars_of, push_char, push_decimal};
use crate::token::{Token, TokenType};
use crate::types::{Type, TypeModel};

verus! {

/// A recursive-descent parser. It reads tokens from its lexer, stores every
/// node it builds in its arena, and optionally checks that each identifier
/// was declared before use.
pub struct Parser {
    lexer: Lexer,
    arena: Arena<Expression>,
    empty_expression: Index,
    done_parsing: bool,
    stop_at: Option<char>,
    separate_at: char,
    scope: Option<Vec<String>>,
}

/// Every stored node is the root of some tree.
pub open spec fn rooted(nodes: Map<Index, Expression>) -> bool {
    forall|h: Index| #[trigger] nodes.contains_key(h) ==> exists|t: Ast| denotes(nodes, h, t)
}

/// The names in a list of declared names.
pub open spec fn names_of(v: Seq<String>) -> Seq<Seq<char>> {
    v.map_values(|x: String| x@)
}

/// A string holding `a` then `b`.
fn joined(a: &str, b: &str) -> (r: String)
    ensures
        r@ == a@ + b@,
{
    let mut r = String::from_str(a);
    r.append(b);
    r
}

/// The first character of `t`.
fn first_char(t: &String) -> (c: char)
    requires
        t@.len() > 0,
    ensures
        c == t@[0],
{
    let cs = chars_of(t.as_str());
    cs[0]
}

impl Parser {
    /// The source text being parsed.
    pub closed spec fn source(&self) -> Seq<char> {
        self.lexer.source()
    }

    /// The position of the next character to read.
    pub closed spec fn pos(&self) -> int {
        self.lexer.pos()
    }

    /// The nodes built so far.
    pub closed spec fn nodes(&self) -> Map<Index, Expression> {
        arena_nodes(self.arena)
    }

    /// The index of the node that stands for "no expression".
    pub closed spec fn sentinel(&self) -> Index {
        self.empty_expression
    }

    /// Where the parse stands.
    pub closed spec fn state(&self) -> ParseState {
        ParseState {
            pos: self.lexer.pos(),
            done: self.done_parsing,
            sep: self.separate_at,
            stop: self.stop_at,
            scope: match self.scope {
                Some(v) => Some(names_of(v@)),
                None => None,
            },
        }
    }

    /// The lexer is well formed and the sentinel is an empty node.
    pub closed spec fn wf(&self) -> bool {
        &&& self.lexer.wf()
        &&& 0 <= self.lexer.pos() <= self.lexer.source().len()
        &&& denotes(self.nodes(), self.empty_expression, Ast::Empty)
        &&& rooted(self.nodes())
    }

    closed spec fn rest(&self) -> int {
        self.source().len() - self.pos()
    }

    /// `o` stands for the completed tree `t`: no node for `Empty`, else a
    /// node that denotes `t`.
    closed spec fn holds(&self, o: Option<Index>, t: Ast) -> bool {
        &&& well_formed(t)
        &&& match o {
            None => t is Empty,
            Some(h) => denotes(self.nodes(), h, t) && !(t is Empty),
        }
    }

    /// The parser went on from `old`: same text and sentinel, no node lost,
    /// not moved backwards.
    closed spec fn after(&self, old: Parser) -> bool {
        &&& self.wf()
        &&& self.source() == old.source()
        &&& extends(old.nodes(), self.nodes())
        &&& self.empty_expression == old.empty_expression
        &&& old.pos() <= self.pos()
    }

    /// `r` is what the outcome `out` says.
    closed spec fn answers(&self, r: Result<Option<Index>, String>, out: Outcome) -> bool {
        match out {
            Ok((t, st)) => r matches Ok(o) && self.holds(o, t) && self.state() == st,
            Err(e) => r matches Err(m) && m@ == e,
        }
    }

    /// A parser over `lexer` that does not check identifiers.
    pub fn new(lexer: Lexer) -> (p: Parser)
        requires
            lexer.wf(),
        ensures
            p.wf(),
            p.source() == lexer.source(),
            p.state() == start_state(lexer.pos(), None),
    {
        Self::build(lexer, None)
    }

    /// A parser over `lexer` that accepts an identifier only once it is
    /// declared, by `let` or in `declared`.
    pub fn with_scope(lexer: Lexer, declared: Vec<String>) -> (p: Parser)
        requires
            lexer.wf(),
        ensures
            p.wf(),
            p.source() == lexer.source(),
            p.state() == start_state(lexer.pos(), Some(names_of(declared@))),
    {
        Self::build(lexer, Some(declared))
    }

    fn build(lexer: Lexer, scope: Option<Vec<String>>) -> (p: Parser)
        requires
            lexer.wf(),
        ensures
            p.wf(),
            p.source() == lexer.source(),
            p.state() == start_state(
                lexer.pos(),
                match scope {
                    Some(v) => Some(names_of(v@)),
                    None => None,
                },
            ),
    {
        let mut arena = new_arena();
        let empty_expression = arena_insert(&mut arena, Expression::Empty);
        proof {
            let n = arena_nodes(arena);
            assert(denotes(n, empty_expression, Ast::Empty));
            assert forall|k: Index| #[trigger] n.contains_key(k) implies exists|u: Ast| denotes(n, k, u) by {
                assert(k == empty_expression);
                assert(denotes(n, k, Ast::Empty));
            }
        }
        let p = Parser {
            lexer,
            arena,
            empty_expression,
            done_parsing: false,
            stop_at: None,
            separate_at: ';',
            scope,
        };
        proof {
            p.lexer.lemma_wf_bounds();
        }
        p
    }

    fn get_operation_priority(token: &Token) -> (r: usize)
        ensures
            r == priority(token@.text),
    {
        let cs = chars_of(token.value.as_str());
        if cs.len() == 0 {
            return 0;
        }
        let c = cs[0];
        if c == '>' || c == '<' || c == '=' {
            1
        } else if c == '+' || c == '-' {
            2
        } else if c == '*' || c == '/' {
            3
        } else {
            0
        }
    }

    /// Parses the rest of the current scope: its statements, in order, as a
    /// `Body` node; the sentinel when it holds none.
    pub fn parse(&mut self) -> (r: Result<Index, String>)
        requires
            old(self).wf(),
        ensures
            final(self).wf(),
            final(self).source() == old(self).source(),
            final(self).sentinel() == old(self).sentinel(),
            match parse_loop(old(self).source(), old(self).state(), Seq::empty()) {
                Ok((t, st)) => r matches Ok(h) && denotes(final(self).nodes(), h, t) && well_formed(t)
                    && (t is Empty ==> h == final(self).sentinel()) && final(self).state() == st,
                Err(e) => r matches Err(m) && m@ == e,
            },
    {
        match self.parse_statements() {
            Ok(Some(h)) => Ok(h),
            Ok(None) => Ok(self.empty_expression),
            Err(e) => Err(e),
        }
    }

    fn eat_token(&mut self) -> (r: Option<Token>)
        requires
            old(self).wf(),
        ensures
            final(self).wf(),
            final(self).source() == old(self).source(),
            final(self).arena == old(self).arena,
            final(self).empty_expression == old(self).empty_expression,
            final(self).done_parsing == old(self).done_parsing,
            final(self).stop_at == old(self).stop_at,
            final(self).separate_at == old(self).separate_at,
            final(self).scope == old(self).scope,
            token_view(r) == next_token(old(self).source(), old(self).pos()).0,
            final(self).pos() == next_token(old(self).source(), old(self).pos()).1,
            old(self).pos() <= final(self).pos(),
            r matches Some(t) ==> old(self).pos() < final(self).pos() && t@.text.len() > 0,
    {
        proof {
            lemma_next_token_bounds(self.source(), self.pos());
        }
        self.lexer.next()
    }

    /// The error message `msg`, tagged with the line being read.
    fn fail(&self, msg: String) -> (m: String)
        requires
            self.wf(),
        ensures
            m@ == failure(self.source(), self.pos(), msg@),
    {
        let (index, line) = self.lexer.get_current_line();
        let mut m = String::from_str("Parse error: ");
        m.append(msg.as_str());
        m.append("\n");
        push_decimal(&mut m, index);
        m.append(": ");
        m.append(line.as_str());
        m
    }

    fn fail_str(&self, msg: &str) -> (m: String)
        requires
            self.wf(),
        ensures
            m@ == failure(self.source(), self.pos(), msg@),
    {
        self.fail(String::from_str(msg))
    }

    /// Stores the node `e`, whose children are stored already.
    fn store(&mut self, e: Expression, Ghost(t): Ghost<Ast>) -> (h: Index)
        requires
            old(self).wf(),
            node_denotes(old(self).nodes(), e, t),
            !(t is Empty),
            well_formed(t),
        ensures
            final(self).after(*old(self)),
            final(self).holds(Some(h), t),
            final(self).state() == old(self).state(),
            final(self).pos() == old(self).pos(),
    {
        let ghost n1 = self.nodes();
        let ghost ge = e;
        let h = arena_insert(&mut self.arena, e);
        proof {
            let n2 = self.nodes();
            lemma_node_denotes_grow(n1, n2, ge, t);
            lemma_denotes_grow(n1, n2, self.empty_expression, Ast::Empty);
            assert forall|k: Index| #[trigger] n2.contains_key(k) implies exists|u: Ast| denotes(n2, k, u) by {
                if k == h {
                    assert(denotes(n2, h, t));
                } else {
                    assert(n1.contains_key(k));
                    let u = choose|u: Ast| denotes(n1, k, u);
                    lemma_denotes_grow(n1, n2, k, u);
                }
            }
        }
        h
    }

    /// The index that stands for `o` in a child slot.
    fn slot(&self, o: Option<Index>, Ghost(t): Ghost<Ast>) -> (h: Index)
        requires
            self.wf(),
            self.holds(o, t),
        ensures
            denotes(self.nodes(), h, t),
    {
        match o {
            Some(h) => h,
            None => self.empty_expression,
        }
    }

    fn is_declared(&self, name: &String) -> (r: bool)
        ensures
            r == is_declared(self.state(), name@),
    {
        match &self.scope {
            None => true,
            Some(v) => {
                let mut k: usize = 0;
                while k < v.len()
                    invariant
                        k <= v@.len(),
                        self.state().scope == Some(names_of(v@)),
                        forall|j: int| 0 <= j < k ==> v@[j]@ != name@,
                    decreases v@.len() - k,
                {
                    if v[k] == *name {
                        proof {
                            assert(names_of(v@)[k as int] == name@);
                            assert(names_of(v@).contains(name@));
                        }
                        return true;
                    }
                    k = k + 1;
                }
                proof {
                    if names_of(v@).contains(name@) {
                        let j = choose|j: int| 0 <= j < names_of(v@).len() && names_of(v@)[j] == name@;
                        assert(v@[j]@ == name@);
                    }
                }
                false
            },
        }
    }

    fn declare(&mut self, name: String)
        requires
            old(self).wf(),
        ensures
            final(self).after(*old(self)),
            final(self).nodes() == old(self).nodes(),
            final(self).pos() == old(self).pos(),
            final(self).state() == declare(old(self).state(), name@),
    {
        match &mut self.scope {
            None => {},
            Some(v) => {
                let ghost v0 = v@;
                v.push(name);
                proof {
                    assert(names_of(v0.push(name)) =~= names_of(v0).push(name@));
                }
            },
        }
    }

    /// Gathers the statements of the current scope until it ends.
    fn parse_statements(&mut self) -> (r: Result<Option<Index>, String>)
        requires
            old(self).wf(),
        ensures
            final(self).after(*old(self)),
            final(self).answers(r, parse_loop(old(self).source(), old(self).state(), Seq::empty())),
        decreases old(self).rest(), 1nat,
    {
        let ghost s = self.source();
        let ghost goal = parse_loop(s, self.state(), Seq::empty());
        let mut expressions: Vec<Index> = Vec::new();
        let ghost mut ts: Seq<Ast> = Seq::empty();
        loop
            invariant
                self.after(*old(self)),
                s == self.source(),
                s == old(self).source(),
                goal == parse_loop(s, old(self).state(), Seq::empty()),
                expressions@.len() == ts.len(),
                forall|k: int| 0 <= k < ts.len() ==> denotes(self.nodes(), #[trigger] expressions@[k], ts[k]),
                forall|k: int| 0 <= k < ts.len() ==> !(#[trigger] ts[k] is Empty) && well_formed(ts[k]),
                parse_loop(s, self.state(), ts) == goal,
            decreases self.rest(),
        {
            let ghost st = self.state();
            let ghost n1 = self.nodes();
            let r = self.next_expression(None, Ghost(Ast::Empty));
            let o = match r {
                Err(e) => return Err(e),
                Ok(o) => o,
            };
            let ghost t = tree_of(next_expr(s, st, Ast::Empty));
            proof {
                assert forall|k: int| 0 <= k < ts.len() implies denotes(self.nodes(), #[trigger] expressions@[k], ts[k]) by {
                    lemma_denotes_grow(n1, self.nodes(), expressions@[k], ts[k]);
                }
            }
            if let Some(h) = o {
                let ghost before = expressions@;
                expressions.push(h);
                proof {
                    ts = ts.push(t);
                    assert forall|k: int| 0 <= k < ts.len() implies denotes(self.nodes(), #[trigger] expressions@[k], ts[k]) by {
                        if k < ts.len() - 1 {
                            assert(expressions@[k] == before[k]);
                        }
                    }
                }
            }
            if self.done_parsing {
                if expressions.len() > 0 {
                    let ghost body = Ast::Body(ts);
                    let h = self.store(Expression::Body(expressions), Ghost(body));
                    return Ok(Some(h));
                } else {
                    return Ok(None);
                }
            }
        }
    }

    /// Parses a nested scope whose statements are separated by `separate_at`
    /// and which `stop_at` ends.
    fn next_scope(&mut self, separate_at: char, stop_at: char) -> (r: Result<Option<Index>, String>)
        requires
            old(self).wf(),
        ensures
            final(self).after(*old(self)),
            final(self).answers(r, parse_scope(old(self).source(), old(self).state(), separate_at, stop_at)),
        decreases old(self).rest(), 2nat,
    {
        let done_parsing = self.done_parsing;
        let old_stop_at = self.stop_at;
        let old_separate_at = self.separate_at;
        self.done_parsing = false;
        self.stop_at = Some(stop_at);
        self.separate_at = separate_at;
        let r = self.parse_statements();
        self.done_parsing = done_parsing;
        self.stop_at = old_stop_at;
        self.separate_at = old_separate_at;
        r
    }

    fn next_header(&mut self) -> (r: Result<Option<Index>, String>)
        requires
            old(self).wf(),
        ensures
            final(self).after(*old(self)),
            final(self).answers(r, parse_scope(old(self).source(), old(self).state(), ',', ')')),
        decreases old(self).rest(), 3nat,
    {
        self.next_scope(',', ')')
    }

    fn next_body(&mut self) -> (r: Result<Option<Index>, String>)
        requires
            old(self).wf(),
        ensures
            final(self).after(*old(self)),
            final(self).answers(r, parse_scope(old(self).source(), old(self).state(), ';', '}')),
        decreases old(self).rest(), 3nat,
    {
        self.next_scope(';', '}')
    }

    /// Reads one token and extends `prev` by what it starts.
    fn next_expression(&mut self, prev: Option<Index>, Ghost(pt): Ghost<Ast>) -> (r: Result<Option<Index>, String>)
        requires
            old(self).wf(),
            old(self).holds(prev, pt),
        ensures
            final(self).after(*old(self)),
            final(self).answers(r, next_expr(old(self).source(), old(self).state(), pt)),
            r is Ok ==> final(self).done_parsing || final(self).pos() > old(self).pos(),
        decreases old(self).rest(), 0nat,
    {
        let token = match self.eat_token() {
            Some(x) => x,
            None => {
                self.done_parsing = true;
                return Ok(None);
            },
        };
        let ghost t = token@;
        match token.typ {
            TokenType::Special => self.get_special_char_expression(prev, Ghost(pt), token),
            TokenType::Assignment => self.get_assignment_expression(prev, Ghost(pt), token),
            TokenType::Operation => self.get_operation_expression(prev, Ghost(pt), token),
            TokenType::Symbol => {
                if !self.is_declared(&token.value) {
                    let m = joined("`", token.value.as_str());
                    let m = joined(m.as_str(), "` is not declared");
                    return Err(self.fail(m));
                }
                let h = self.store(Expression::Ident(token.value), Ghost(Ast::Ident(t.text)));
                self.next_expression(Some(h), Ghost(Ast::Ident(t.text)))
            },
            TokenType::Number => {
                let h = self.store(Expression::Literal(token.value), Ghost(Ast::Literal(t.text)));
                self.next_expression(Some(h), Ghost(Ast::Literal(t.text)))
            },
            TokenType::If => self.if_expression(),
            TokenType::Else => self.else_expression(prev, Ghost(pt)),
            TokenType::Colon => self.colon_expression(prev, Ghost(pt)),
            TokenType::Let => {
                if prev.is_some() {
                    return Err(self.fail_str("`let [name] : [type]`, `let` must at the beginning of the expression"));
                }
                self.get_variable_declaration_expression()
            },
            TokenType::Func => {
                if prev.is_some() {
                    return Err(self.fail_str("`fn` must at the beginning of the expression"));
                }
                self.next_expression(None, Ghost(Ast::Empty))
            },
            TokenType::SmallArrow => self.arrow_expression(prev, Ghost(pt)),
            TokenType::Return => {
                if prev.is_some() {
                    return Err(self.fail_str("`return` must at the beginning of the expression"));
                }
                let ghost out = next_expr(self.source(), self.state(), Ast::Empty);
                match self.next_expression(None, Ghost(Ast::Empty)) {
                    Err(e) => Err(e),
                    Ok(o) => {
                        let ghost et = tree_of(out);
                        let eh = self.slot(o, Ghost(et));
                        let h = self.store(Expression::Return(eh), Ghost(Ast::Return(Box::new(et))));
                        Ok(Some(h))
                    },
                }
            },
            _ => Err(self.fail(joined("unexpected token: ", token.value.as_str()))),
        }
    }

    /// A punctuation token after `prev`.
    fn get_special_char_expression(&mut self, prev: Option<Index>, Ghost(pt): Ghost<Ast>, token: Token) -> (r: Result<Option<Index>, String>)
        requires
            old(self).wf(),
            old(self).holds(prev, pt),
            token@.text.len() > 0,
        ensures
            final(self).after(*old(self)),
            final(self).answers(r, special_expr(old(self).source(), old(self).state(), pt, token@)),
        decreases old(self).rest(), 4nat,
    {
        let c = first_char(&token.value);
        if c == self.separate_at {
            return Ok(prev);
        }
        if let Some(stop_char) = self.stop_at {
            if stop_char == c {
                self.done_parsing = true;
                return Ok(prev);
            }
        }
        if c == '{' {
            if prev.is_none() {
                self.next_body()
            } else {
                Err(self.fail_str("`{` can only come after an empty expression"))
            }
        } else if c == '(' {
            let name = match prev {
                Some(ph) => match arena_get(&self.arena, ph) {
                    Some(Expression::Ident(name)) => Some(name.clone()),
                    _ => None,
                },
                None => None,
            };
            match name {
                Some(name) => {
                    let ghost out = parse_scope(self.source(), self.state(), ',', ')');
                    let variables = match self.next_header() {
                        Err(e) => return Err(e),
                        Ok(o) => o,
                    };
                    let ghost vt = tree_of(out);
                    let vh = self.slot(variables, Ghost(vt));
                    let ghost ht = Ast::FunctionHeader(name@, Box::new(vt));
                    let h = self.store(Expression::FunctionHeader(name, vh), Ghost(ht));
                    self.next_expression(Some(h), Ghost(ht))
                },
                None => self.next_header(),
            }
        } else {
            let mut m = String::from_str("special: the character '");
            push_char(&mut m, c);
            m.append("' is out of place");
            assert(m@ =~= "special: the character '"@ + seq![c] + "' is out of place"@);
            Err(self.fail(m))
        }
    }

    /// `=` read after `prev`: an assignment of what follows.
    fn get_assignment_expression(&mut self, prev: Option<Index>, Ghost(pt): Ghost<Ast>, token: Token) -> (r: Result<Option<Index>, String>)
        requires
            old(self).wf(),
            old(self).holds(prev, pt),
        ensures
            final(self).after(*old(self)),
            final(self).answers(r, assign_expr(old(self).source(), old(self).state(), pt, token@)),
        decreases old(self).rest(), 4nat,
    {
        let ph = match prev {
            None => return Err(self.fail_str("assignment: no expression before `=`")),
            Some(h) => h,
        };
        let fits = match arena_get(&self.arena, ph) {
            Some(Expression::Literal(_)) => true,
            Some(Expression::Ident(_)) => true,
            Some(Expression::Operation(_, _, _)) => true,
            _ => false,
        };
        if !fits {
            return Err(self.fail_str("assignment: the previous expression must either be a literal or an operation"));
        }
        let ghost n1 = self.nodes();
        let ghost out = next_expr(self.source(), self.state(), Ast::Empty);
        let next = match self.next_expression(None, Ghost(Ast::Empty)) {
            Err(e) => return Err(e),
            Ok(o) => o,
        };
        match next {
            None => Err(self.fail_str("assignment: no expression after `=`")),
            Some(nh) => {
                let ghost nt = tree_of(out);
                proof {
                    lemma_denotes_grow(n1, self.nodes(), ph, pt);
                }
                let ghost op = token@;
                let h = self.store(
                    Expression::Operation(ph, token, nh),
                    Ghost(Ast::Operation(Box::new(pt), op, Box::new(nt))),
                );
                Ok(Some(h))
            },
        }
    }

    /// An operator token after `prev`.
    fn get_operation_expression(&mut self, prev: Option<Index>, Ghost(pt): Ghost<Ast>, token: Token) -> (r: Result<Option<Index>, String>)
        requires
            old(self).wf(),
            old(self).holds(prev, pt),
        ensures
            final(self).after(*old(self)),
            final(self).answers(r, operation_expr(old(self).source(), old(self).state(), pt, token@)),
        decreases old(self).rest(), 4nat,
    {
        let ghost n1 = self.nodes();
        let ghost out = next_expr(self.source(), self.state(), Ast::Empty);
        let subtree = match self.next_expression(None, Ghost(Ast::Empty)) {
            Err(e) => return Err(e),
            Ok(o) => o,
        };
        let ghost sub = tree_of(out);
        let sh = match subtree {
            None => return Err(self.fail(joined("operation: no expression found after ", token.value.as_str()))),
            Some(h) => h,
        };
        let ph = match prev {
            None => return Err(self.fail(joined("operation: no expression found before: ", token.value.as_str()))),
            Some(h) => h,
        };
        proof {
            lemma_denotes_grow(n1, self.nodes(), ph, pt);
        }
        let ghost op = token@;
        let parts = match arena_get(&self.arena, sh) {
            Some(Expression::Operation(left, subtree_token, right)) => Some((*left, subtree_token.duplicate(), *right)),
            _ => None,
        };
        match parts {
            Some((left, subtree_token, right)) => {
                let ghost (lt, op2, rt) = match sub {
                    Ast::Operation(l, o2, r) => (*l, o2, *r),
                    _ => (Ast::Empty, op, Ast::Empty),
                };
                let priority = Self::get_operation_priority(&token);
                let subtree_priority = Self::get_operation_priority(&subtree_token);
                if priority > 0 && subtree_priority > 0 && priority > subtree_priority {
                    let ghost inner = Ast::Operation(Box::new(pt), op, Box::new(lt));
                    let ghost n_sub = self.nodes();
                    let new_left = self.store(Expression::Operation(ph, token, left), Ghost(inner));
                    proof {
                        lemma_denotes_grow(n_sub, self.nodes(), right, rt);
                    }
                    let h = self.store(
                        Expression::Operation(new_left, subtree_token, right),
                        Ghost(Ast::Operation(Box::new(inner), op2, Box::new(rt))),
                    );
                    Ok(Some(h))
                } else {
                    let h = self.store(
                        Expression::Operation(ph, token, sh),
                        Ghost(Ast::Operation(Box::new(pt), op, Box::new(sub))),
                    );
                    Ok(Some(h))
                }
            },
            None => {
                let h = self.store(
                    Expression::Operation(ph, token, sh),
                    Ghost(Ast::Operation(Box::new(pt), op, Box::new(sub))),
                );
                Ok(Some(h))
            },
        }
    }

    fn next_expression_until_char(&mut self, stop_at: char) -> (r: Result<Option<Index>, String>)
        requires
            old(self).wf(),
        ensures
            final(self).after(*old(self)),
            final(self).answers(
                r,
                match next_expr(old(self).source(), ParseState { sep: stop_at, ..old(self).state() }, Ast::Empty) {
                    Ok((t, st2)) => Ok((t, ParseState { sep: old(self).separate_at, ..st2 })),
                    Err(e) => Err(e),
                },
            ),
            final(self).separate_at == old(self).separate_at,
        decreases old(self).rest(), 1nat,
    {
        let old_separate_at = self.separate_at;
        self.separate_at = stop_at;
        let expression = self.next_expression(None, Ghost(Ast::Empty));
        self.separate_at = old_separate_at;
        expression
    }

    /// `if` read: a condition up to `{`, a body up to `}` that holds at least
    /// one statement, and an `else` if one follows.
    fn if_expression(&mut self) -> (r: Result<Option<Index>, String>)
        requires
            old(self).wf(),
        ensures
            final(self).after(*old(self)),
            final(self).answers(r, if_expr(old(self).source(), old(self).state())),
        decreases old(self).rest(), 4nat,
    {
        let ghost out = next_expr(self.source(), ParseState { sep: '{', ..self.state() }, Ast::Empty);
        let condition = match self.next_expression_until_char('{') {
            Err(e) => return Err(e),
            Ok(o) => o,
        };
        let ghost ct = tree_of(out);
        let ch = match condition {
            None => return Err(self.fail_str("if: empty condition")),
            Some(h) => h,
        };
        let ghost n1 = self.nodes();
        let ghost out2 = parse_scope(self.source(), self.state(), ';', '}');
        let then = match self.next_body() {
            Err(e) => return Err(e),
            Ok(o) => o,
        };
        let ghost tt = tree_of(out2);
        proof {
            lemma_denotes_grow(n1, self.nodes(), ch, ct);
        }
        let th = match then {
            None => return Err(self.fail_str("if: empty body")),
            Some(h) => h,
        };
        let ghost it = Ast::IfThen(Box::new(ct), Box::new(tt));
        let if_expr = self.store(Expression::IfThen(ch, th), Ghost(it));
        proof {
            lemma_next_token_bounds(self.source(), self.pos());
        }
        match self.lexer.peek() {
            Some(next_token) => {
                if next_token.typ == TokenType::Else {
                    self.next_expression(Some(if_expr), Ghost(it))
                } else {
                    Ok(Some(if_expr))
                }
            },
            None => Ok(Some(if_expr)),
        }
    }

    /// `else` read after `prev`.
    fn else_expression(&mut self, prev: Option<Index>, Ghost(pt): Ghost<Ast>) -> (r: Result<Option<Index>, String>)
        requires
            old(self).wf(),
            old(self).holds(prev, pt),
        ensures
            final(self).after(*old(self)),
            final(self).answers(r, else_expr(old(self).source(), old(self).state(), pt)),
        decreases old(self).rest(), 4nat,
    {
        let ph = match prev {
            None => return Err(self.fail_str("else: cannot be the first keyword in an expression")),
            Some(h) => h,
        };
        let parts = match arena_get(&self.arena, ph) {
            Some(Expression::IfThen(condition, then)) => Some((*condition, *then)),
            _ => None,
        };
        let (condition, then) = match parts {
            None => return Err(self.fail_str("`else` can only be after an `if` block")),
            Some(p) => p,
        };
        let ghost (ct, tt) = match pt {
            Ast::IfThen(c, t) => (*c, *t),
            _ => (Ast::Empty, Ast::Empty),
        };
        let ghost n1 = self.nodes();
        let ghost out = next_expr(self.source(), self.state(), Ast::Empty);
        let else_expr = match self.next_expression(None, Ghost(Ast::Empty)) {
            Err(e) => return Err(e),
            Ok(o) => o,
        };
        let ghost et = tree_of(out);
        proof {
            lemma_denotes_grow(n1, self.nodes(), ph, pt);
            lemma_denotes_grow(n1, self.nodes(), condition, ct);
            lemma_denotes_grow(n1, self.nodes(), then, tt);
        }
        let eh = match else_expr {
            None => return Err(self.fail_str("`{` was not found after `else`")),
            Some(h) => h,
        };
        let fits = match arena_get(&self.arena, eh) {
            Some(Expression::IfThen(_, _)) => true,
            Some(Expression::Body(_)) => true,
            _ => false,
        };
        if fits {
            let h = self.store(
                Expression::IfElseThen(condition, eh, then),
                Ghost(Ast::IfElseThen(Box::new(ct), Box::new(et), Box::new(tt))),
            );
            Ok(Some(h))
        } else {
            Err(self.fail_str("`{` was not found after `else`"))
        }
    }

    /// `:` read after `prev`: a declaration with a type and, for now, no value.
    fn colon_expression(&mut self, prev: Option<Index>, Ghost(pt): Ghost<Ast>) -> (r: Result<Option<Index>, String>)
        requires
            old(self).wf(),
            old(self).holds(prev, pt),
        ensures
            final(self).after(*old(self)),
            final(self).answers(r, colon_expr(old(self).source(), old(self).state(), pt)),
        decreases old(self).rest(), 4nat,
    {
        let name = match prev {
            Some(ph) => match arena_get(&self.arena, ph) {
                Some(Expression::Ident(name)) => Some(name.clone()),
                _ => None,
            },
            None => None,
        };
        let name = match name {
            None => return Err(self.fail_str("`:` must only come after a variable name")),
            Some(n) => n,
        };
        let type_token = match self.eat_token() {
            None => return Err(self.fail_str("`[name] : [type]`, expression ended prematurely, [type] not found")),
            Some(t) => t,
        };
        if type_token.typ != TokenType::Symbol {
            return Err(self.fail_str("`[name] : [type]`, [type] given after `:` is not a valid symbol"));
        }
        let ghost nt = Ast::Ident(name@);
        let ghost ty = TypeModel::Undetermined(type_token@.text);
        let variable = self.store(Expression::Ident(name), Ghost(nt));
        let typ = Type::Undetermined { name: type_token.value };
        let empty = self.empty_expression;
        let ghost dt = Ast::Declaration(Box::new(nt), ty, Box::new(Ast::Empty));
        assert(well_formed(nt) && well_formed(Ast::Empty));
        let h = self.store(Expression::Declaration(variable, typ, empty), Ghost(dt));
        self.next_expression(Some(h), Ghost(dt))
    }

    /// `let` read: `name : type = value` or `name := value`.
    fn get_variable_declaration_expression(&mut self) -> (r: Result<Option<Index>, String>)
        requires
            old(self).wf(),
        ensures
            final(self).after(*old(self)),
            final(self).answers(r, let_expr(old(self).source(), old(self).state())),
            !let_header_ok(old(self).source(), old(self).pos()) ==> r is Err && final(self).state().scope
                == old(self).state().scope,
        decreases old(self).rest(), 4nat,
    {
        let name_token = match self.eat_token() {
            None => return Err(self.fail_str("`[name] : [type]`, expression ended prematurely, [name] not found")),
            Some(t) => t,
        };
        if name_token.typ != TokenType::Symbol {
            return Err(self.fail_str("`[name] : [type]`, the [name] given is not a valid symbol"));
        }
        let symbol_token = match self.eat_token() {
            None => return Err(self.fail_str("`[name] : [type]`, expression ended prematurely, nothing came after [name]")),
            Some(t) => t,
        };
        let ghost name = name_token@.text;
        if symbol_token.typ == TokenType::Colon {
            let type_token = match self.eat_token() {
                None => return Err(self.fail_str("`[name] : [type]`, expression ended prematurely, [type] not found")),
                Some(t) => t,
            };
            if type_token.typ != TokenType::Symbol {
                return Err(self.fail_str("`[name] : [type]`, [type] given after `:` is not a valid symbol"));
            }
            let ghost xt = Ast::Ident(name);
            let variable = self.store(Expression::Ident(name_token.value.clone()), Ghost(xt));
            let ghost n1 = self.nodes();
            let ghost out = next_expr(self.source(), self.state(), xt);
            let value = match self.next_expression(Some(variable), Ghost(xt)) {
                Err(e) => return Err(e),
                Ok(o) => o,
            };
            let ghost vt = tree_of(out);
            proof {
                lemma_denotes_grow(n1, self.nodes(), variable, xt);
            }
            let vh = match value {
                None => return Err(self.fail_str("`[name] : [type] = [expression]`, no [expression] found")),
                Some(h) => h,
            };
            let right = match arena_get(&self.arena, vh) {
                Some(Expression::Operation(_, _, right)) => Some(*right),
                _ => None,
            };
            match right {
                Some(right) => {
                    let ghost rt = match vt {
                        Ast::Operation(_, _, r) => *r,
                        _ => Ast::Empty,
                    };
                    let ghost ty = TypeModel::Undetermined(type_token@.text);
                    let typ = Type::Undetermined { name: type_token.value };
                    let h = self.store(
                        Expression::Declaration(variable, typ, right),
                        Ghost(Ast::Declaration(Box::new(xt), ty, Box::new(rt))),
                    );
                    self.declare(name_token.value);
                    Ok(Some(h))
                },
                None => Err(self.fail_str("`[name] : [type] = [expression]`, the [expression] must be an assignment")),
            }
        } else if symbol_token.typ == TokenType::Walrus {
            let ghost out = next_expr(self.source(), self.state(), Ast::Empty);
            let value = match self.next_expression(None, Ghost(Ast::Empty)) {
                Err(e) => return Err(e),
                Ok(o) => o,
            };
            let ghost vt = tree_of(out);
            let vh = match value {
                None => return Err(self.fail_str("`[name] := [expression]`, no [expression] found")),
                Some(h) => h,
            };
            let ghost xt = Ast::Ident(name);
            let ghost n_val = self.nodes();
            let variable = self.store(Expression::Ident(name_token.value.clone()), Ghost(xt));
            proof {
                lemma_denotes_grow(n_val, self.nodes(), vh, vt);
            }
            let h = self.store(
                Expression::Declaration(variable, Type::Auto, vh),
                Ghost(Ast::Declaration(Box::new(xt), TypeModel::Auto, Box::new(vt))),
            );
            self.declare(name_token.value);
            Ok(Some(h))
        } else {
            Err(self.fail_str("`[name] : [type]`, `:` or `:=` did not come after [name]"))
        }
    }

    /// `->` read after `prev`: the return type and body of a function.
    fn arrow_expression(&mut self, prev: Option<Index>, Ghost(pt): Ghost<Ast>) -> (r: Result<Option<Index>, String>)
        requires
            old(self).wf(),
            old(self).holds(prev, pt),
        ensures
            final(self).after(*old(self)),
            final(self).answers(r, arrow_expr(old(self).source(), old(self).state(), pt)),
        decreases old(self).rest(), 4nat,
    {
        let is_header = match prev {
            Some(ph) => match arena_get(&self.arena, ph) {
                Some(Expression::FunctionHeader(_, _)) => true,
                _ => false,
            },
            None => false,
        };
        if !is_header {
            return Err(self.fail_str("`->` can only come after a function declaration"));
        }
        let ph = match prev {
            Some(h) => h,
            None => return Err(self.fail_str("`->` can only come after a function declaration")),
        };
        let type_token = match self.eat_token() {
            None => return Err(self.fail_str("no token found after `->`")),
            Some(t) => t,
        };
        if type_token.typ != TokenType::Symbol {
            return Err(self.fail_str("the type given after `->` is not valid"));
        }
        let ghost n1 = self.nodes();
        let ghost out = next_expr(self.source(), self.state(), Ast::Empty);
        let body = match self.next_expression(None, Ghost(Ast::Empty)) {
            Err(e) => return Err(e),
            Ok(o) => o,
        };
        let ghost bt = tree_of(out);
        proof {
            lemma_denotes_grow(n1, self.nodes(), ph, pt);
        }
        let bh = match body {
            Some(h) => match arena_get(&self.arena, h) {
                Some(Expression::Body(_)) => Some(h),
                _ => None,
            },
            None => None,
        };
        match bh {
            Some(bh) => {
                let ghost ty = TypeModel::Undetermined(type_token@.text);
                let typ = Type::Undetermined { name: type_token.value };
                let h = self.store(
                    Expression::Declaration(ph, typ, bh),
                    Ghost(Ast::Declaration(Box::new(pt), ty, Box::new(bt))),
                );
                Ok(Some(h))
            },
            None => Err(self.fail_str("after `->` there must be a new scope declared by `{`")),
        }
    }

    /// The node stored under `i`, if any.
    pub fn node(&self, i: Index) -> (r: Option<&Expression>)
        ensures
            match r {
                Some(e) => self.nodes().contains_key(i) && *e == self.nodes()[i],
                None => !self.nodes().contains_key(i),
            },
    {
        arena_get(&self.arena, i)
    }

    /// The arena that holds the nodes.
    pub fn arena(&self) -> (r: &Arena<Expression>)
        ensures
            arena_nodes(*r) == self.nodes(),
    {
        &self.arena
    }

    /// Every node of a well-formed parser is the root of a tree.
    pub proof fn lemma_rooted(&self, i: Index)
        requires
            self.wf(),
            self.nodes().contains_key(i),
        ensures
            exists|t: Ast| denotes(self.nodes(), i, t),
    {
    }

    /// The index of the node that stands for "no expression".
    pub fn empty_expression(&self) -> (r: Index)
        ensures
            r == self.sentinel(),
    {
        self.empty_expression
    }
}

} // verus!
