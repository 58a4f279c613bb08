use vstd::prelude::*;
use crate::text::{chars_of, string_of_range};
use crate::token::{Lexeme, Token, TokenType};

verus! {

/// Characters skipped between tokens.
pub open spec fn is_blank(c: char) -> bool {
    c == ' ' || c == '\r' || c == '\t' || c == '\n'
}

pub open spec fn is_digit(c: char) -> bool {
    '0' <= c && c <= '9'
}

pub open spec fn is_letter(c: char) -> bool {
    ('A' <= c && c <= 'Z') || ('a' <= c && c <= 'z')
}

/// Characters of a numeric literal.
pub open spec fn is_number_char(c: char) -> bool {
    is_digit(c) || c == '.'
}

/// Characters of an identifier after its first letter.
pub open spec fn is_word_char(c: char) -> bool {
    is_letter(c) || is_digit(c) || c == '_'
}

/// Characters that stand alone as a one-character token.
pub open spec fn is_single_char(c: char) -> bool {
    c == '+' || c == '/' || c == '*' || c == ';' || c == '{' || c == '}' || c == '('
        || c == ')' || c == ','
}

/// Characters that begin a token; every other character is dropped.
pub open spec fn starts_token(c: char) -> bool {
    is_single_char(c) || c == '-' || c == '>' || c == '<' || c == '=' || c == ':'
        || is_number_char(c) || is_letter(c)
}

/// The end of the run of number characters that starts at `i`.
pub open spec fn number_end(s: Seq<char>, i: int) -> int
    decreases s.len() - i,
{
    if i < s.len() && is_number_char(s[i]) {
        number_end(s, i + 1)
    } else {
        i
    }
}

/// The end of the run of word characters that starts at `i`.
pub open spec fn word_end(s: Seq<char>, i: int) -> int
    decreases s.len() - i,
{
    if i < s.len() && is_word_char(s[i]) {
        word_end(s, i + 1)
    } else {
        i
    }
}

/// Whether `s[i + 1]` exists and is `c`.
pub open spec fn followed_by(s: Seq<char>, i: int, c: char) -> bool {
    i + 1 < s.len() && s[i + 1] == c
}

/// The kind of an identifier-shaped word: a keyword or a symbol.
pub open spec fn word_kind(w: Seq<char>) -> TokenType {
    if w == "if"@ {
        TokenType::If
    } else if w == "else"@ {
        TokenType::Else
    } else if w == "let"@ {
        TokenType::Let
    } else if w == "fn"@ {
        TokenType::Func
    } else if w == "return"@ {
        TokenType::Return
    } else {
        TokenType::Symbol
    }
}

/// Where the token that starts at `i` ends (`s[i]` begins a token).
pub open spec fn token_end(s: Seq<char>, i: int) -> int {
    let c = s[i];
    if c == '-' {
        if followed_by(s, i, '>') { i + 2 } else { i + 1 }
    } else if c == '>' || c == '<' || c == '=' || c == ':' {
        if followed_by(s, i, '=') { i + 2 } else { i + 1 }
    } else if is_number_char(c) {
        number_end(s, i)
    } else if is_letter(c) {
        word_end(s, i)
    } else {
        i + 1
    }
}

/// The kind of the token that starts at `i`.
pub open spec fn token_kind(s: Seq<char>, i: int) -> TokenType {
    let c = s[i];
    if c == '-' {
        if followed_by(s, i, '>') { TokenType::SmallArrow } else { TokenType::Operation }
    } else if c == '>' || c == '<' || c == '+' || c == '/' || c == '*' {
        TokenType::Operation
    } else if c == '=' {
        if followed_by(s, i, '=') { TokenType::Operation } else { TokenType::Assignment }
    } else if c == ':' {
        if followed_by(s, i, '=') { TokenType::Walrus } else { TokenType::Colon }
    } else if is_number_char(c) {
        TokenType::Number
    } else if is_letter(c) {
        word_kind(s.subrange(i, word_end(s, i)))
    } else {
        TokenType::Special
    }
}

/// The token read from position `i` on, and the position after it; at the end
/// of input, no token and the end position.
pub open spec fn next_token(s: Seq<char>, i: int) -> (Option<Lexeme>, int)
    decreases s.len() - i,
{
    if i < 0 || i >= s.len() {
        (None, s.len() as int)
    } else if starts_token(s[i]) {
        (
            Some(Lexeme { kind: token_kind(s, i), text: s.subrange(i, token_end(s, i)) }),
            token_end(s, i),
        )
    } else {
        next_token(s, i + 1)
    }
}

/// Where the line holding position `i` starts.
pub open spec fn line_start(s: Seq<char>, i: int) -> int
    decreases i,
{
    if i <= 0 {
        0
    } else if s[i - 1] == '\n' {
        i
    } else {
        line_start(s, i - 1)
    }
}

/// The 1-based number of the line holding position `i`.
pub open spec fn line_number(s: Seq<char>, i: int) -> int
    decreases i,
{
    if i <= 0 {
        1
    } else if s[i - 1] == '\n' {
        line_number(s, i - 1) + 1
    } else {
        line_number(s, i - 1)
    }
}

/// The position just past the first newline at or after `k`, if there is one.
pub open spec fn newline_after(s: Seq<char>, k: int) -> Option<int>
    decreases s.len() - k,
{
    if k < 0 || k >= s.len() {
        None
    } else if s[k] == '\n' {
        Some(k + 1)
    } else {
        newline_after(s, k + 1)
    }
}

/// The text of the line holding position `i`, with its newline if it has one.
pub open spec fn line_text(s: Seq<char>, i: int) -> Seq<char> {
    let a = line_start(s, i);
    match newline_after(s, a) {
        Some(e) => s.subrange(a, e),
        None => s.subrange(a, s.len() as int),
    }
}

proof fn lemma_line_bounds(s: Seq<char>, i: int)
    requires
        0 <= i <= s.len(),
    ensures
        0 <= line_start(s, i) <= i,
        1 <= line_number(s, i) <= i + 1,
    decreases i,
{
    if i > 0 {
        lemma_line_bounds(s, i - 1);
    }
}

proof fn lemma_newline_after_bounds(s: Seq<char>, k: int)
    requires
        0 <= k,
    ensures
        newline_after(s, k) matches Some(e) ==> k < e <= s.len(),
    decreases s.len() - k,
{
    if k < s.len() && s[k] != '\n' {
        lemma_newline_after_bounds(s, k + 1);
    }
}

proof fn lemma_run_ends(s: Seq<char>, i: int)
    requires
        0 <= i <= s.len(),
    ensures
        i <= number_end(s, i) <= s.len(),
        i <= word_end(s, i) <= s.len(),
    decreases s.len() - i,
{
    if i < s.len() {
        lemma_run_ends(s, i + 1);
    }
}

/// The token that `next_token` finds lies within the input, after `i`.
pub proof fn lemma_next_token_bounds(s: Seq<char>, i: int)
    requires
        0 <= i <= s.len(),
    ensures
        i <= next_token(s, i).1 <= s.len(),
        next_token(s, i).0 is Some ==> i < next_token(s, i).1,
        next_token(s, i).0 matches Some(t) ==> t.text.len() > 0,
    decreases s.len() - i,
{
    if i < s.len() {
        if starts_token(s[i]) {
            lemma_run_ends(s, i);
            lemma_run_ends(s, i + 1);
        } else {
            lemma_next_token_bounds(s, i + 1);
        }
    }
}

/// Every character from `i` on is read, as a blank or as part of a token:
/// none is dropped.
pub open spec fn all_read(s: Seq<char>, i: int) -> bool
    decreases s.len() - i,
{
    if i < 0 || i >= s.len() {
        true
    } else if is_blank(s[i]) {
        all_read(s, i + 1)
    } else if starts_token(s[i]) && i < token_end(s, i) <= s.len() {
        all_read(s, token_end(s, i))
    } else {
        false
    }
}

/// The texts of the tokens read from position `i` on, one after the other.
pub open spec fn joined_texts(s: Seq<char>, i: int) -> Seq<char>
    decreases s.len() - i,
{
    let (t, j) = next_token(s, i);
    match t {
        Some(t) => if i < j <= s.len() {
            t.text + joined_texts(s, j)
        } else {
            t.text
        },
        None => Seq::empty(),
    }
}

/// The characters from position `i` on that are not blanks.
pub open spec fn visible(s: Seq<char>, i: int) -> Seq<char>
    decreases s.len() - i,
{
    if i < 0 || i >= s.len() {
        Seq::empty()
    } else if is_blank(s[i]) {
        visible(s, i + 1)
    } else {
        seq![s[i]] + visible(s, i + 1)
    }
}

proof fn lemma_number_run(s: Seq<char>, i: int)
    requires
        0 <= i <= s.len(),
    ensures
        forall|k: int| i <= k < number_end(s, i) ==> is_number_char(#[trigger] s[k]),
    decreases s.len() - i,
{
    if i < s.len() && is_number_char(s[i]) {
        lemma_number_run(s, i + 1);
    }
}

proof fn lemma_word_run(s: Seq<char>, i: int)
    requires
        0 <= i <= s.len(),
    ensures
        forall|k: int| i <= k < word_end(s, i) ==> is_word_char(#[trigger] s[k]),
    decreases s.len() - i,
{
    if i < s.len() && is_word_char(s[i]) {
        lemma_word_run(s, i + 1);
    }
}

/// Without blanks in `s[i..e]`, what is visible from `i` is that text and
/// then what is visible from `e`.
proof fn lemma_visible_split(s: Seq<char>, i: int, e: int)
    requires
        0 <= i <= e <= s.len(),
        forall|k: int| i <= k < e ==> !is_blank(#[trigger] s[k]),
    ensures
        visible(s, i) == s.subrange(i, e) + visible(s, e),
    decreases e - i,
{
    if i < e {
        lemma_visible_split(s, i + 1, e);
        assert(s.subrange(i, e) =~= seq![s[i]] + s.subrange(i + 1, e));
    } else {
        assert(s.subrange(i, e) =~= Seq::<char>::empty());
    }
}

/// Tokenizing and joining the texts of all tokens gives back the input
/// without its blanks, when no character of it is dropped.
pub proof fn lemma_tokens_rejoin(s: Seq<char>, i: int)
    requires
        0 <= i <= s.len(),
        all_read(s, i),
    ensures
        joined_texts(s, i) == visible(s, i),
    decreases s.len() - i,
{
    if i < s.len() {
        lemma_next_token_bounds(s, i);
        if is_blank(s[i]) {
            lemma_next_token_bounds(s, i + 1);
            lemma_tokens_rejoin(s, i + 1);
        } else {
            let e = token_end(s, i);
            lemma_run_ends(s, i);
            lemma_number_run(s, i);
            lemma_word_run(s, i);
            assert forall|k: int| i <= k < e implies !is_blank(#[trigger] s[k]) by {
                if k > i {
                    if is_number_char(s[i]) {
                    } else if is_letter(s[i]) {
                    } else {
                        assert(s[k] == '>' || s[k] == '=');
                    }
                }
            }
            lemma_visible_split(s, i, e);
            lemma_tokens_rejoin(s, e);
        }
    }
}

/// Reads tokens from a source text, one at a time, and keeps track of the line
/// being read.
pub struct Lexer {
    text: Vec<char>,
    length: usize,
    index: usize,
    prev_new_line_index: usize,
    next_new_line_index: Option<usize>,
    current_line_index: usize,
}

/// The token a lexer returns, as a value.
pub open spec fn token_view(t: Option<Token>) -> Option<Lexeme> {
    match t {
        Some(t) => Some(t@),
        None => None,
    }
}

impl Lexer {
    /// The source text.
    pub closed spec fn source(&self) -> Seq<char> {
        self.text@
    }

    /// The position of the next character to read.
    pub closed spec fn pos(&self) -> int {
        self.index as int
    }

    spec fn lines_at(&self, k: int) -> bool {
        &&& self.prev_new_line_index == line_start(self.text@, k)
        &&& self.current_line_index == line_number(self.text@, k)
        &&& match self.next_new_line_index {
            Some(e) => newline_after(self.text@, self.prev_new_line_index as int) == Some(e as int),
            None => newline_after(self.text@, self.prev_new_line_index as int) is None,
        }
    }

    /// The lexer's fields agree with its source text and position.
    pub closed spec fn wf(&self) -> bool {
        &&& self.length == self.text@.len()
        &&& self.length < usize::MAX
        &&& self.index <= self.length
        &&& self.lines_at(self.index as int)
    }

    /// A well-formed lexer stands within its text.
    pub proof fn lemma_wf_bounds(&self)
        requires
            self.wf(),
        ensures
            0 <= self.pos() <= self.source().len(),
    {
    }

    /// A lexer at the start of `text`.
    pub fn from_str(text: &str) -> (r: Self)
        requires
            text@.len() < usize::MAX,
        ensures
            r.wf(),
            r.source() == text@,
            r.pos() == 0,
    {
        let chars = chars_of(text);
        let length = chars.len();
        let mut lexer = Lexer {
            text: chars,
            length,
            index: 0,
            prev_new_line_index: 0,
            next_new_line_index: Some(0),
            current_line_index: 0,
        };
        lexer.update_current_line();
        lexer
    }

    /// The number of the line being read, and its text.
    pub fn get_current_line(&self) -> (r: (usize, String))
        requires
            self.wf(),
        ensures
            r.0 == line_number(self.source(), self.pos()),
            r.1@ == line_text(self.source(), self.pos()),
    {
        proof {
            lemma_line_bounds(self.text@, self.index as int);
            lemma_newline_after_bounds(self.text@, self.prev_new_line_index as int);
        }
        if let Some(index) = self.next_new_line_index {
            (self.current_line_index, string_of_range(self.text.as_slice(), self.prev_new_line_index, index))
        } else {
            (self.current_line_index, string_of_range(self.text.as_slice(), self.prev_new_line_index, self.length))
        }
    }

    /// Moves the line window to the line that starts at the current position:
    /// at the start of the text, or just after a newline was read.
    fn update_current_line(&mut self)
        requires
            old(self).length == old(self).text@.len(),
            old(self).length < usize::MAX,
            old(self).index <= old(self).length,
            old(self).index == 0 ==> old(self).current_line_index == 0,
            old(self).index > 0 ==> {
                &&& old(self).text@[old(self).index - 1] == '\n'
                &&& old(self).current_line_index == line_number(old(self).text@, old(self).index - 1)
            },
        ensures
            final(self).wf(),
            final(self).text == old(self).text,
            final(self).index == old(self).index,
    {
        proof {
            if self.index > 0 {
                lemma_line_bounds(self.text@, self.index - 1);
            }
        }
        self.prev_new_line_index = self.index;
        let mut j: usize = self.index;
        while j < self.length && self.text[j] != '\n'
            invariant
                self.length == self.text@.len(),
                self.length < usize::MAX,
                self.index <= j <= self.length,
                newline_after(self.text@, j as int) == newline_after(self.text@, self.index as int),
            decreases self.length - j,
        {
            j = j + 1;
        }
        if j < self.length {
            self.next_new_line_index = Some(j + 1);
        } else {
            self.next_new_line_index = None;
        }
        self.current_line_index = self.current_line_index + 1;
    }

    /// The next token, or `None` at the end of input. Blanks are skipped, and
    /// so is every character that begins no token.
    pub fn next(&mut self) -> (r: Option<Token>)
        requires
            old(self).wf(),
        ensures
            final(self).wf(),
            final(self).source() == old(self).source(),
            token_view(r) == next_token(old(self).source(), old(self).pos()).0,
            final(self).pos() == next_token(old(self).source(), old(self).pos()).1,
    {
        loop
            invariant
                self.wf(),
                self.text == old(self).text,
                next_token(self.text@, self.index as int) == next_token(
                    old(self).text@,
                    old(self).index as int,
                ),
            decreases self.length - self.index,
        {
            if self.index >= self.length {
                return None;
            }
            let start = self.index;
            let c = self.peek_char();
            if c == '\n' {
                let _ = self.eat_char();
                self.update_current_line();
            } else {
                let _ = self.eat_char();
                proof {
                    lemma_lines_skip(self.text@, start as int, self.index as int);
                }
                if c == ' ' || c == '\r' || c == '\t' {
                } else if c == '-' {
                    if self.index < self.length && self.peek_char() == '>' {
                        let _ = self.eat_char();
                        proof {
                            lemma_lines_skip(self.text@, start as int, self.index as int);
                        }
                        return Some(self.token_since(start, TokenType::SmallArrow));
                    }
                    return Some(self.token_since(start, TokenType::Operation));
                } else if c == '+' || c == '/' || c == '*' {
                    return Some(self.token_since(start, TokenType::Operation));
                } else if c == '>' || c == '<' || c == '=' || c == ':' {
                    let (single, double) = if c == '=' {
                        (TokenType::Assignment, TokenType::Operation)
                    } else if c == ':' {
                        (TokenType::Colon, TokenType::Walrus)
                    } else {
                        (TokenType::Operation, TokenType::Operation)
                    };
                    if self.index < self.length && self.peek_char() == '=' {
                        let _ = self.eat_char();
                        proof {
                            lemma_lines_skip(self.text@, start as int, self.index as int);
                        }
                        return Some(self.token_since(start, double));
                    }
                    return Some(self.token_since(start, single));
                } else if c == ';' || c == '{' || c == '}' || c == '(' || c == ')' || c == ',' {
                    return Some(self.token_since(start, TokenType::Special));
                } else if ('0' <= c && c <= '9') || c == '.' {
                    self.index = start;
                    let x = self.eat_number();
                    if let Some(value) = x {
                        return Some(Token { typ: TokenType::Number, value });
                    }
                } else if ('A' <= c && c <= 'Z') || ('a' <= c && c <= 'z') {
                    self.index = start;
                    proof {
                        lemma_run_ends(self.text@, start as int);
                    }
                    let x = self.eat_string();
                    if let Some(value) = x {
                        let typ = keyword_kind(&self.text, start, self.index);
                        return Some(Token { typ, value });
                    }
                }
            }
        }
    }

    /// The token that would come next; the lexer is left as it was.
    pub fn peek(&mut self) -> (r: Option<Token>)
        requires
            old(self).wf(),
        ensures
            final(self).wf(),
            final(self).source() == old(self).source(),
            final(self).pos() == old(self).pos(),
            token_view(r) == next_token(old(self).source(), old(self).pos()).0,
    {
        let index = self.index;
        let prev_new_line_index = self.prev_new_line_index;
        let next_new_line_index = self.next_new_line_index;
        let current_line_index = self.current_line_index;
        let r = self.next();
        self.index = index;
        self.prev_new_line_index = prev_new_line_index;
        self.next_new_line_index = next_new_line_index;
        self.current_line_index = current_line_index;
        r
    }

    fn token_since(&self, start: usize, typ: TokenType) -> (t: Token)
        requires
            self.wf(),
            start <= self.index,
        ensures
            t@ == (Lexeme { kind: typ, text: self.text@.subrange(start as int, self.index as int) }),
    {
        Token { typ, value: string_of_range(self.text.as_slice(), start, self.index) }
    }

    fn peek_char(&self) -> (c: char)
        requires
            self.wf(),
            self.index < self.length,
        ensures
            c == self.text@[self.index as int],
    {
        self.text[self.index]
    }

    fn eat_char(&mut self) -> (r: Option<char>)
        requires
            old(self).wf(),
        ensures
            final(self).text == old(self).text,
            final(self).length == old(self).length,
            final(self).prev_new_line_index == old(self).prev_new_line_index,
            final(self).next_new_line_index == old(self).next_new_line_index,
            final(self).current_line_index == old(self).current_line_index,
            old(self).index < old(self).length ==> {
                &&& r == Some(old(self).text@[old(self).index as int])
                &&& final(self).index == old(self).index + 1
            },
            old(self).index >= old(self).length ==> r is None && final(self).index == old(self).index,
    {
        if self.index >= self.length {
            return None;
        }
        let current_char = self.peek_char();
        self.index = self.index + 1;
        Some(current_char)
    }

    fn eat_number(&mut self) -> (r: Option<String>)
        requires
            old(self).wf(),
        ensures
            final(self).wf(),
            final(self).text == old(self).text,
            old(self).index < old(self).length ==> {
                &&& final(self).index == number_end(old(self).text@, old(self).index as int)
                &&& r matches Some(w) && w@ == old(self).text@.subrange(
                    old(self).index as int,
                    final(self).index as int,
                )
            },
            old(self).index >= old(self).length ==> r is None && *final(self) == *old(self),
    {
        if self.index >= self.length {
            return None;
        }
        let start_index = self.index;
        while self.index < self.length && (('0' <= self.text[self.index] && self.text[self.index] <= '9')
            || self.text[self.index] == '.')
            invariant
                self.length == self.text@.len(),
                self.length < usize::MAX,
                start_index <= self.index <= self.length,
                self.text == old(self).text,
                self.prev_new_line_index == old(self).prev_new_line_index,
                self.next_new_line_index == old(self).next_new_line_index,
                self.current_line_index == old(self).current_line_index,
                number_end(self.text@, self.index as int) == number_end(
                    self.text@,
                    start_index as int,
                ),
                forall|k: int| start_index <= k < self.index ==> self.text@[k] != '\n',
            decreases self.length - self.index,
        {
            self.index = self.index + 1;
        }
        proof {
            lemma_lines_skip(self.text@, start_index as int, self.index as int);
        }
        Some(string_of_range(self.text.as_slice(), start_index, self.index))
    }

    fn eat_string(&mut self) -> (r: Option<String>)
        requires
            old(self).wf(),
        ensures
            final(self).wf(),
            final(self).text == old(self).text,
            old(self).index < old(self).length ==> {
                &&& final(self).index == word_end(old(self).text@, old(self).index as int)
                &&& r matches Some(w) && w@ == old(self).text@.subrange(
                    old(self).index as int,
                    final(self).index as int,
                )
            },
            old(self).index >= old(self).length ==> r is None && *final(self) == *old(self),
    {
        if self.index >= self.length {
            return None;
        }
        let start_index = self.index;
        while self.index < self.length && is_word_char_exec(self.text[self.index])
            invariant
                self.length == self.text@.len(),
                self.length < usize::MAX,
                start_index <= self.index <= self.length,
                self.text == old(self).text,
                self.prev_new_line_index == old(self).prev_new_line_index,
                self.next_new_line_index == old(self).next_new_line_index,
                self.current_line_index == old(self).current_line_index,
                word_end(self.text@, self.index as int) == word_end(self.text@, start_index as int),
                forall|k: int| start_index <= k < self.index ==> self.text@[k] != '\n',
            decreases self.length - self.index,
        {
            self.index = self.index + 1;
        }
        proof {
            lemma_lines_skip(self.text@, start_index as int, self.index as int);
        }
        Some(string_of_range(self.text.as_slice(), start_index, self.index))
    }
}

/// Whether `v[from..to]` is the text `w`.
fn slice_is(v: &Vec<char>, from: usize, to: usize, w: &str) -> (r: bool)
    requires
        from <= to <= v@.len(),
    ensures
        r == (v@.subrange(from as int, to as int) == w@),
{
    let wc = chars_of(w);
    if to - from != wc.len() {
        proof {
            assert(v@.subrange(from as int, to as int).len() != w@.len());
        }
        return false;
    }
    let mut k: usize = 0;
    while k < wc.len()
        invariant
            from <= to <= v@.len(),
            to - from == wc@.len(),
            wc@ == w@,
            k <= wc@.len(),
            forall|j: int| 0 <= j < k ==> v@[from + j] == wc@[j],
        decreases wc@.len() - k,
    {
        if v[from + k] != wc[k] {
            proof {
                assert(v@.subrange(from as int, to as int)[k as int] != w@[k as int]);
            }
            return false;
        }
        k = k + 1;
    }
    assert(v@.subrange(from as int, to as int) =~= w@);
    true
}

fn keyword_kind(v: &Vec<char>, from: usize, to: usize) -> (r: TokenType)
    requires
        from <= to <= v@.len(),
    ensures
        r == word_kind(v@.subrange(from as int, to as int)),
{
    if slice_is(v, from, to, "if") {
        TokenType::If
    } else if slice_is(v, from, to, "else") {
        TokenType::Else
    } else if slice_is(v, from, to, "let") {
        TokenType::Let
    } else if slice_is(v, from, to, "fn") {
        TokenType::Func
    } else if slice_is(v, from, to, "return") {
        TokenType::Return
    } else {
        TokenType::Symbol
    }
}

fn is_word_char_exec(c: char) -> (r: bool)
    ensures
        r == is_word_char(c),
{
    ('A' <= c && c <= 'Z') || ('a' <= c && c <= 'z') || ('0' <= c && c <= '9') || c == '_'
}

/// Reading characters other than newlines keeps the line.
proof fn lemma_lines_skip(s: Seq<char>, a: int, b: int)
    requires
        0 <= a <= b <= s.len(),
        forall|k: int| a <= k < b ==> s[k] != '\n',
    ensures
        line_start(s, b) == line_start(s, a),
        line_number(s, b) == line_number(s, a),
    decreases b - a,
{
    if b > a {
        lemma_lines_skip(s, a, b - 1);
    }
}

} // verus!
