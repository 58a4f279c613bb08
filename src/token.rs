use vstd::prelude::*;

verus! {

/// The kind of a token.
#[derive(Clone, Copy, Debug, PartialEq, Eq, Structural)]
pub enum TokenType {
    Operation,
    Special,
    Number,
    Symbol,
    If,
    Else,
    Assignment,
    Colon,
    Let,
    Walrus,
    Func,
    Return,
    SmallArrow,
}

/// The mathematical value of a token: its kind and its text.
pub struct Lexeme {
    pub kind: TokenType,
    pub text: Seq<char>,
}

/// A token: its kind and the literal text it was read from.
#[derive(Clone, Debug)]
pub struct Token {
    pub typ: TokenType,
    pub value: String,
}

impl View for Token {
    type V = Lexeme;

    open spec fn view(&self) -> Lexeme {
        Lexeme { kind: self.typ, text: self.value@ }
    }
}

impl Token {
    /// A copy of this token with the same kind and text.
    pub fn duplicate(&self) -> (r: Token)
        ensures
            r@ == self@,
    {
        Token { typ: self.typ, value: self.value.clone() }
    }
}

} // verus!
