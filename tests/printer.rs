use tiger::ast::Expression;
use tiger::lexer::Lexer;
use tiger::parser::Parser;

fn printed(text: &str) -> String {
    let mut p = Parser::new(Lexer::from_str(text));
    let root = p.parse().unwrap();
    Expression::from_index_to_string(&p, &root)
}

#[test]
fn prints_nested_operations() {
    assert_eq!(
        printed("3 + 5 * 2;"),
        "\n[\n  (\n    +:\n      left: \n        literal: 3\n      right: \n        *:\n          left: \n            literal: 5\n          right: \n            literal: 2\n  ),\n]"
    );
}

#[test]
fn prints_empty_input() {
    assert_eq!(printed(""), "empty");
}

#[test]
fn prints_declaration_and_return() {
    assert_eq!(
        printed("let x := 1; return x;"),
        "\n[\n  (\n    declaration:\n      expression: \n        ident: x\n      type: auto\n      value: \n        literal: 1\n  ),\n  (\n    return: \n        ident: x\n  ),\n]"
    );
}

#[test]
fn prints_function_and_if() {
    let s = printed("fn f(a) -> u8 { if a { return 1; } }");
    assert!(s.contains("function:\n          name: f\n          variables: "));
    assert!(s.contains("type: undetermined: u8"));
    assert!(s.contains("if:\n"));
    assert!(s.contains("condition: \n"));
}

#[test]
fn test_parse_test_file() {
    let program = "fn main() -> u32 {\n  let x : u32 = 5;\n  let y := x * 2 + 1;\n  if y > 10 {\n    y = y - 1;\n  } else {\n    y = 0;\n  }\n  return y;\n}\n";
    let mut p = Parser::new(Lexer::from_str(program));
    assert!(p.parse().is_ok());
}
