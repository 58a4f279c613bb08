use generational_arena::Index;
use tiger::ast::Expression;
use tiger::lexer::Lexer;
use tiger::parser::Parser;
use tiger::token::TokenType;
use tiger::types::Type;

/// A compact form of the tree under `i`, for comparisons.
fn shape(p: &Parser, i: Index) -> String {
    match p.node(i).expect("node is stored") {
        Expression::Empty => "empty".to_string(),
        Expression::Ident(n) => format!("ident({})", n),
        Expression::Literal(n) => format!("lit({})", n),
        Expression::Operation(l, t, r) => {
            let kind = if t.typ == TokenType::Assignment { "assign" } else { "op" };
            format!("{}({} {} {})", kind, shape(p, *l), t.value, shape(p, *r))
        }
        Expression::IfThen(c, b) => format!("if({}, {})", shape(p, *c), shape(p, *b)),
        Expression::IfElseThen(c, e, b) => {
            format!("ifelse({}, {}, {})", shape(p, *c), shape(p, *e), shape(p, *b))
        }
        Expression::Body(v) => {
            let items: Vec<String> = v.iter().map(|h| shape(p, *h)).collect();
            format!("body[{}]", items.join(", "))
        }
        Expression::Declaration(x, t, v) => {
            format!("decl({}, {}, {})", shape(p, *x), t.to_string(), shape(p, *v))
        }
        Expression::FunctionHeader(n, v) => format!("header({}, {})", n, shape(p, *v)),
        Expression::Return(e) => format!("return({})", shape(p, *e)),
    }
}

fn parse(text: &str) -> Result<String, String> {
    let mut p = Parser::new(Lexer::from_str(text));
    p.parse().map(|root| shape(&p, root))
}

fn parse_declared(text: &str, declared: &[&str]) -> Result<String, String> {
    let names = declared.iter().map(|s| s.to_string()).collect();
    let mut p = Parser::with_scope(Lexer::from_str(text), names);
    p.parse().map(|root| shape(&p, root))
}

#[test]
fn multiplication_binds_tighter() {
    assert_eq!(
        parse("3 + 5 * 2;").unwrap(),
        "body[op(lit(3) + op(lit(5) * lit(2)))]"
    );
}

#[test]
fn higher_priority_first_is_rotated() {
    assert_eq!(
        parse("3 * 5 + 2;").unwrap(),
        "body[op(op(lit(3) * lit(5)) + lit(2))]"
    );
    assert_eq!(
        parse("8 / 4 - 1;").unwrap(),
        "body[op(op(lit(8) / lit(4)) - lit(1))]"
    );
}

#[test]
fn declaration_then_assignment() {
    assert_eq!(
        parse_declared("let x := 3; x = x + 1;", &[]).unwrap(),
        "body[decl(ident(x), auto, lit(3)), assign(ident(x) = op(ident(x) + lit(1)))]"
    );
}

#[test]
fn if_else_keeps_branch_order() {
    assert_eq!(
        parse_declared("if x > 0 { x = 1; } else { x = 0; }", &["x"]).unwrap(),
        "body[ifelse(op(ident(x) > lit(0)), body[assign(ident(x) = lit(0))], body[assign(ident(x) = lit(1))])]"
    );
}

#[test]
fn if_without_else() {
    assert_eq!(
        parse("if a { b = 2; }").unwrap(),
        "body[if(ident(a), body[assign(ident(b) = lit(2))])]"
    );
}

#[test]
fn undeclared_identifier_fails() {
    let e = parse_declared("y = 1;", &[]).unwrap_err();
    assert!(e.contains("not declared"));
    assert_eq!(e, "Parse error: `y` is not declared\n1: y = 1;");
}

#[test]
fn undeclared_identifier_on_second_line() {
    let e = parse_declared("let a := 1;\nb = a;\n", &[]).unwrap_err();
    assert_eq!(e, "Parse error: `b` is not declared\n2: b = a;\n");
}

#[test]
fn function_declaration() {
    assert_eq!(
        parse("fn add(a, b) -> u32 { return a + b; }").unwrap(),
        "body[decl(header(add, body[ident(a), ident(b)]), undetermined: u32, body[return(op(ident(a) + ident(b)))])]"
    );
}

#[test]
fn typed_declaration() {
    assert_eq!(
        parse_declared("let x : u32 = 5; x;", &[]).unwrap(),
        "body[decl(ident(x), undetermined: u32, lit(5)), ident(x)]"
    );
}

#[test]
fn empty_input_parses_to_sentinel() {
    let mut p = Parser::new(Lexer::from_str(""));
    let root = p.parse().unwrap();
    assert_eq!(root, p.empty_expression());
    assert!(matches!(p.node(root), Some(Expression::Empty)));
}

#[test]
fn blank_input_parses_to_sentinel() {
    let mut p = Parser::new(Lexer::from_str(" \n ;; \n"));
    let root = p.parse().unwrap();
    assert_eq!(root, p.empty_expression());
}

#[test]
fn repeated_parses_agree() {
    let text = "let x := 2; if x > 1 { x = x * 3 + 1; } fn f(a) -> u8 { return a; }";
    let first = parse(text).unwrap();
    let second = parse(text).unwrap();
    assert_eq!(first, second);
}

fn eval(p: &Parser, i: Index) -> i64 {
    match p.node(i).unwrap() {
        Expression::Literal(n) => n.parse().unwrap(),
        Expression::Body(v) if v.len() == 1 => eval(p, v[0]),
        Expression::Operation(l, t, r) => {
            let (a, b) = (eval(p, *l), eval(p, *r));
            match t.value.as_str() {
                "+" => a + b,
                "-" => a - b,
                "*" => a * b,
                "/" => a / b,
                _ => panic!("not arithmetic"),
            }
        }
        _ => panic!("not arithmetic"),
    }
}

fn value_of(text: &str) -> i64 {
    let mut p = Parser::new(Lexer::from_str(text));
    let root = p.parse().unwrap();
    eval(&p, root)
}

#[test]
fn arithmetic_values_follow_precedence() {
    assert_eq!(value_of("2*3+4;"), 10);
    assert_eq!(value_of("2+3*4;"), 14);
    assert_eq!(value_of("8-6/2;"), 5);
    assert_eq!(value_of("9/3-1;"), 2);
    assert_eq!(value_of("7-2;"), 5);
    assert_eq!(value_of("12*12;"), 144);
    assert_eq!(value_of("9+3-2;"), 10);
    assert_eq!(value_of("2*3*4;"), 24);
    assert_eq!(value_of("1+2+3;"), 6);
}

#[test]
fn same_priority_groups_to_the_right() {
    assert_eq!(
        parse("1-2-3;").unwrap(),
        "body[op(lit(1) - op(lit(2) - lit(3)))]"
    );
    assert_eq!(value_of("1-2-3;"), 2);
}

#[test]
fn assignment_needs_a_left_side() {
    let e = parse("= 3;").unwrap_err();
    assert_eq!(e, "Parse error: assignment: no expression before `=`\n1: = 3;");
}

#[test]
fn assignment_needs_a_right_side() {
    let e = parse("x = ;").unwrap_err();
    assert!(e.starts_with("Parse error: assignment: no expression after `=`\n1: "));
}

#[test]
fn operator_needs_operands() {
    let e = parse("3 +;").unwrap_err();
    assert!(e.starts_with("Parse error: operation: no expression found after +\n"));
    let e = parse("* 3;").unwrap_err();
    assert!(e.starts_with("Parse error: operation: no expression found before: *\n"));
}

#[test]
fn else_needs_an_if() {
    let e = parse("else { }").unwrap_err();
    assert!(e.starts_with("Parse error: else: cannot be the first keyword in an expression\n"));
    let e = parse("x else { }").unwrap_err();
    assert!(e.starts_with("Parse error: `else` can only be after an `if` block\n"));
}

#[test]
fn let_errors() {
    let e = parse("let 3 := 1;").unwrap_err();
    assert!(e.starts_with("Parse error: `[name] : [type]`, the [name] given is not a valid symbol\n"));
    let e = parse("x let y := 1;").unwrap_err();
    assert!(e.starts_with("Parse error: `let [name] : [type]`, `let` must at the beginning of the expression\n"));
    let e = parse("let y = 1;").unwrap_err();
    assert!(e.starts_with("Parse error: `[name] : [type]`, `:` or `:=` did not come after [name]\n"));
    let e = parse("let y : u8;").unwrap_err();
    assert!(e.starts_with("Parse error: `[name] : [type] = [expression]`, the [expression] must be an assignment\n"));
}

#[test]
fn stray_characters_fail() {
    let e = parse("}").unwrap_err();
    assert_eq!(e, "Parse error: special: the character '}' is out of place\n1: }");
    let e = parse(":= 1;").unwrap_err();
    assert!(e.starts_with("Parse error: unexpected token: :=\n"));
}

#[test]
fn arrow_needs_a_header() {
    let e = parse("x -> u8 { }").unwrap_err();
    assert!(e.starts_with("Parse error: `->` can only come after a function declaration\n"));
}

#[test]
fn type_text() {
    assert_eq!(Type::Auto.to_string(), "auto");
    assert_eq!(Type::Undetermined { name: "u8".to_string() }.to_string(), "undetermined: u8");
    assert_eq!(Type::Number { size: 4, signed: true }.to_string(), "signed number of size: 4");
    assert_eq!(Type::Number { size: 12, signed: false }.to_string(), "unsigned number of size: 12");
}

fn error_of(text: &str) -> String {
    parse(text).unwrap_err()
}

#[test]
fn keywords_must_start_a_statement() {
    assert_eq!(
        error_of("x fn"),
        "Parse error: `fn` must at the beginning of the expression\n1: x fn"
    );
    assert_eq!(
        error_of("x return 1;"),
        "Parse error: `return` must at the beginning of the expression\n1: x return 1;"
    );
}

#[test]
fn assignment_target_must_fit() {
    assert_eq!(
        error_of("x : u8 = 1;"),
        "Parse error: assignment: the previous expression must either be a literal or an operation\n1: x : u8 = 1;"
    );
}

#[test]
fn block_must_start_a_statement() {
    assert_eq!(
        error_of("x { }"),
        "Parse error: `{` can only come after an empty expression\n1: x { }"
    );
}

#[test]
fn if_needs_a_condition() {
    assert_eq!(error_of("if { }"), "Parse error: if: empty condition\n1: if { }");
}

#[test]
fn else_needs_a_block() {
    assert_eq!(
        error_of("if a { c; } else b;"),
        "Parse error: `{` was not found after `else`\n1: if a { c; } else b;"
    );
}

#[test]
fn colon_errors() {
    assert_eq!(
        error_of("x :"),
        "Parse error: `[name] : [type]`, expression ended prematurely, [type] not found\n1: x :"
    );
    assert_eq!(
        error_of("x : 3;"),
        "Parse error: `[name] : [type]`, [type] given after `:` is not a valid symbol\n1: x : 3;"
    );
    assert_eq!(
        error_of("3 : u8;"),
        "Parse error: `:` must only come after a variable name\n1: 3 : u8;"
    );
}

#[test]
fn incomplete_let_errors() {
    assert_eq!(
        error_of("let"),
        "Parse error: `[name] : [type]`, expression ended prematurely, [name] not found\n1: let"
    );
    assert_eq!(
        error_of("let x"),
        "Parse error: `[name] : [type]`, expression ended prematurely, nothing came after [name]\n1: let x"
    );
    assert_eq!(
        error_of("let x :"),
        "Parse error: `[name] : [type]`, expression ended prematurely, [type] not found\n1: let x :"
    );
    assert_eq!(
        error_of("let x : 3"),
        "Parse error: `[name] : [type]`, [type] given after `:` is not a valid symbol\n1: let x : 3"
    );
    assert_eq!(
        error_of("let x : u8"),
        "Parse error: `[name] : [type] = [expression]`, no [expression] found\n1: let x : u8"
    );
    assert_eq!(
        error_of("let x := ;"),
        "Parse error: `[name] := [expression]`, no [expression] found\n1: let x := ;"
    );
}

#[test]
fn arrow_errors() {
    assert_eq!(
        error_of("fn f() ->"),
        "Parse error: no token found after `->`\n1: fn f() ->"
    );
    assert_eq!(
        error_of("fn f() -> 3 { }"),
        "Parse error: the type given after `->` is not valid\n1: fn f() -> 3 { }"
    );
    assert_eq!(
        error_of("fn f() -> u8 x;"),
        "Parse error: after `->` there must be a new scope declared by `{`\n1: fn f() -> u8 x;"
    );
}

#[test]
fn function_without_parameters() {
    assert_eq!(
        parse("fn f() -> u8 { return 1; }").unwrap(),
        "body[decl(header(f, empty), undetermined: u8, body[return(lit(1))])]"
    );
}

#[test]
fn declarations_stay_visible_after_a_block() {
    assert_eq!(
        parse_declared("if 1 { let y := 2; } y;", &[]).unwrap(),
        "body[if(lit(1), body[decl(ident(y), auto, lit(2))]), ident(y)]"
    );
}

#[test]
fn if_needs_a_body() {
    assert_eq!(error_of("if 1 > 0 { }"), "Parse error: if: empty body\n1: if 1 > 0 { }");
    assert_eq!(error_of("if a { ; }"), "Parse error: if: empty body\n1: if a { ; }");
}

#[test]
fn else_needs_something_after_it() {
    assert_eq!(
        error_of("if a { b; } else"),
        "Parse error: `{` was not found after `else`\n1: if a { b; } else"
    );
    assert_eq!(
        error_of("if a { b; } else { }"),
        "Parse error: `{` was not found after `else`\n1: if a { b; } else { }"
    );
}

#[test]
fn else_if_chain() {
    assert_eq!(
        parse("if a { b; } else if c { d; }").unwrap(),
        "body[ifelse(ident(a), if(ident(c), body[ident(d)]), body[ident(b)])]"
    );
}

#[test]
fn empty_statements_are_not_kept() {
    assert_eq!(parse(";; x; ;").unwrap(), "body[ident(x)]");
}

#[test]
fn failed_let_declares_nothing() {
    let e = parse_declared("let 3 := 4; x;", &[]).unwrap_err();
    assert!(e.contains("the [name] given is not a valid symbol"));
    let e = parse_declared("let x : 3 = 4;", &[]).unwrap_err();
    assert!(e.contains("[type] given after `:` is not a valid symbol"));
}
