use tiger::lexer::Lexer;
use tiger::token::TokenType;

fn all_tokens(text: &str) -> Vec<(TokenType, String)> {
    let mut lexer = Lexer::from_str(text);
    let mut out = Vec::new();
    while let Some(t) = lexer.next() {
        out.push((t.typ, t.value));
    }
    out
}

#[test]
fn reads_declaration_tokens() {
    let toks = all_tokens("let x := 3;");
    assert_eq!(
        toks,
        vec![
            (TokenType::Let, "let".to_string()),
            (TokenType::Symbol, "x".to_string()),
            (TokenType::Walrus, ":=".to_string()),
            (TokenType::Number, "3".to_string()),
            (TokenType::Special, ";".to_string()),
        ]
    );
}

#[test]
fn reads_two_character_operators() {
    let toks = all_tokens("-> - >= > <= < == = : :=");
    let kinds: Vec<TokenType> = toks.iter().map(|t| t.0).collect();
    let texts: Vec<&str> = toks.iter().map(|t| t.1.as_str()).collect();
    assert_eq!(texts, vec!["->", "-", ">=", ">", "<=", "<", "==", "=", ":", ":="]);
    assert_eq!(
        kinds,
        vec![
            TokenType::SmallArrow,
            TokenType::Operation,
            TokenType::Operation,
            TokenType::Operation,
            TokenType::Operation,
            TokenType::Operation,
            TokenType::Operation,
            TokenType::Assignment,
            TokenType::Colon,
            TokenType::Walrus,
        ]
    );
}

#[test]
fn reads_keywords_and_symbols() {
    let toks = all_tokens("if else let fn return iffy x_1");
    let kinds: Vec<TokenType> = toks.iter().map(|t| t.0).collect();
    assert_eq!(
        kinds,
        vec![
            TokenType::If,
            TokenType::Else,
            TokenType::Let,
            TokenType::Func,
            TokenType::Return,
            TokenType::Symbol,
            TokenType::Symbol,
        ]
    );
    assert_eq!(toks[6].1, "x_1");
}

#[test]
fn reads_word_at_end_of_input() {
    assert_eq!(all_tokens("abc"), vec![(TokenType::Symbol, "abc".to_string())]);
    assert_eq!(all_tokens("3.25"), vec![(TokenType::Number, "3.25".to_string())]);
}

#[test]
fn drops_unknown_characters() {
    let toks = all_tokens("3 $ 4 # ;");
    let texts: Vec<&str> = toks.iter().map(|t| t.1.as_str()).collect();
    assert_eq!(texts, vec!["3", "4", ";"]);
}

#[test]
fn empty_input_has_no_tokens() {
    assert!(all_tokens("").is_empty());
    assert!(all_tokens("  \n\t\r ").is_empty());
}

#[test]
fn rejoined_tokens_give_back_visible_text() {
    let text = "let x:=3;\n x = x+1;\tfn f(a, b) -> u32 { return a >= b; }";
    let joined: String = all_tokens(text).into_iter().map(|t| t.1).collect();
    let visible: String = text.chars().filter(|c| !c.is_whitespace()).collect();
    assert_eq!(joined, visible);
}

#[test]
fn tracks_current_line() {
    let mut lexer = Lexer::from_str("a = 1;\nb = 2;\nc");
    assert_eq!(lexer.get_current_line(), (1, "a = 1;\n".to_string()));
    for _ in 0..4 {
        lexer.next();
    }
    assert_eq!(lexer.get_current_line(), (1, "a = 1;\n".to_string()));
    lexer.next();
    assert_eq!(lexer.get_current_line(), (2, "b = 2;\n".to_string()));
    for _ in 0..4 {
        lexer.next();
    }
    assert_eq!(lexer.get_current_line(), (3, "c".to_string()));
}

#[test]
fn peek_leaves_lexer_in_place() {
    let mut lexer = Lexer::from_str("x\ny");
    let first = lexer.peek().unwrap();
    assert_eq!(first.value, "x");
    assert_eq!(lexer.next().unwrap().value, "x");
    assert_eq!(lexer.peek().unwrap().value, "y");
    assert_eq!(lexer.get_current_line(), (1, "x\n".to_string()));
    assert_eq!(lexer.next().unwrap().value, "y");
    assert_eq!(lexer.get_current_line(), (2, "y".to_string()));
    assert!(lexer.peek().is_none());
}
