use vstd::prelude::*;

verus! {

/// The closed vocabulary of lexical units.
#[derive(Debug, Clone, Copy, PartialEq, Eq, Structural)]
pub enum TokenType {
    ILLEGAL,
    EOF,
    // identifiers and literals
    IDENT,
    INT,
    // operators
    ASSIGN,
    PLUS,
    MINUS,
    BANG,
    ASTERISK,
    SLASH,
    LT,
    GT,
    EQ,
    NotEq,
    // delimiters
    COMMA,
    SEMICOLON,
    LPAREN,
    RPAREN,
    LBRACE,
    RBRACE,
    // keywords
    FUNCTION,
    LET,
    TRUE,
    FALSE,
    IF,
    ELSE,
    RETURN,
}

/// The mathematical value of a token: its kind and its text.
pub struct TokenView {
    pub kind: TokenType,
    pub text: Seq<char>,
}

/// A lexical unit: its kind and the source text it stands for.
#[derive(Debug, Clone)]
pub struct Token {
    pub token_type: TokenType,
    pub literal: String,
}

impl View for Token {
    type V = TokenView;

    open spec fn view(&self) -> TokenView {
        TokenView { kind: self.token_type, text: self.literal@ }
    }
}

impl Token {
    /// A copy of this token.
    pub fn duplicate(&self) -> (r: Token)
        ensures
            r@ == self@,
    {
        Token { token_type: self.token_type, literal: self.literal.clone() }
    }
}

/// The reserved kind that a keyword spelling stands for, if any.
pub open spec fn keyword_kind(s: Seq<char>) -> Option<TokenType> {
    if s == seq!['f', 'n'] {
        Some(TokenType::FUNCTION)
    } else if s == seq!['l', 'e', 't'] {
        Some(TokenType::LET)
    } else if s == seq!['t', 'r', 'u', 'e'] {
        Some(TokenType::TRUE)
    } else if s == seq!['f', 'a', 'l', 's', 'e'] {
        Some(TokenType::FALSE)
    } else if s == seq!['i', 'f'] {
        Some(TokenType::IF)
    } else if s == seq!['e', 'l', 's', 'e'] {
        Some(TokenType::ELSE)
    } else if s == seq!['r', 'e', 't', 'u', 'r', 'n'] {
        Some(TokenType::RETURN)
    } else {
        None
    }
}

/// The kind of an alphabetic run: its keyword kind, or `IDENT`.
pub open spec fn ident_kind(s: Seq<char>) -> TokenType {
    match keyword_kind(s) {
        Some(k) => k,
        None => TokenType::IDENT,
    }
}

/// Whether the characters of `s` are exactly `w`.
fn same_chars(s: &str, w: &str) -> (r: bool)
    ensures
        r == (s@ == w@),
{
    let n = s.unicode_len();
    if n != w.unicode_len() {
        return false;
    }
    let mut i: usize = 0;
    while i < n
        invariant
            n == s@.len(),
            n == w@.len(),
            i <= n,
            forall|j: int| 0 <= j < i ==> s@[j] == w@[j],
        decreases n - i,
    {
        if s.get_char(i) != w.get_char(i) {
            return false;
        }
        i = i + 1;
    }
    assert(s@ =~= w@);
    true
}

/// The keyword kind spelt by `literal`, if it is a keyword.
fn keywords(literal: &str) -> (r: Option<TokenType>)
    ensures
        r == keyword_kind(literal@),
{
    proof {
        reveal_strlit("fn");
        assert("fn"@ =~= seq!['f', 'n']);
        reveal_strlit("let");
        assert("let"@ =~= seq!['l', 'e', 't']);
        reveal_strlit("true");
        assert("true"@ =~= seq!['t', 'r', 'u', 'e']);
        reveal_strlit("false");
        assert("false"@ =~= seq!['f', 'a', 'l', 's', 'e']);
        reveal_strlit("if");
        assert("if"@ =~= seq!['i', 'f']);
        reveal_strlit("else");
        assert("else"@ =~= seq!['e', 'l', 's', 'e']);
        reveal_strlit("return");
        assert("return"@ =~= seq!['r', 'e', 't', 'u', 'r', 'n']);
    }
    if same_chars(literal, "fn") {
        Some(TokenType::FUNCTION)
    } else if same_chars(literal, "let") {
        Some(TokenType::LET)
    } else if same_chars(literal, "true") {
        Some(TokenType::TRUE)
    } else if same_chars(literal, "false") {
        Some(TokenType::FALSE)
    } else if same_chars(literal, "if") {
        Some(TokenType::IF)
    } else if same_chars(literal, "else") {
        Some(TokenType::ELSE)
    } else if same_chars(literal, "return") {
        Some(TokenType::RETURN)
    } else {
        None
    }
}

/// Classifies an alphabetic run: a keyword's own kind, else `IDENT`.
pub fn lookup_ident(ident: String) -> (r: TokenType)
    ensures
        r == ident_kind(ident@),
{
    match keywords(ident.as_str()) {
        Some(tt) => tt,
        None => TokenType::IDENT,
    }
}

} // verus!
