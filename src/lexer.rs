use vstd::prelude::*;
use vstd::string::StringExecFns;
use crate::token::{ident_kind, lookup_ident, Token, TokenType, TokenView};

verus! {

/// Whitespace separates tokens and never becomes one.
pub open spec fn is_space(c: char) -> bool {
    c == ' ' || c == '\t' || c == '\n' || c == '\r'
}

/// A decimal digit.
pub open spec fn is_digit(c: char) -> bool {
    '0' <= c && c <= '9'
}

/// Whether Unicode gives `c` the Alphabetic property.
pub uninterp spec fn unicode_alphabetic(c: char) -> bool;

/// A letter: an ASCII letter, or a non-ASCII character that Unicode calls
/// alphabetic.
pub open spec fn is_letter(c: char) -> bool {
    ('a' <= c && c <= 'z') || ('A' <= c && c <= 'Z') || (c as u32 >= 128
        && unicode_alphabetic(c))
}

/// The kind of a one-character operator or delimiter.
pub open spec fn single_kind(c: char) -> Option<TokenType> {
    if c == '=' {
        Some(TokenType::ASSIGN)
    } else if c == '+' {
        Some(TokenType::PLUS)
    } else if c == '-' {
        Some(TokenType::MINUS)
    } else if c == '!' {
        Some(TokenType::BANG)
    } else if c == '*' {
        Some(TokenType::ASTERISK)
    } else if c == '/' {
        Some(TokenType::SLASH)
    } else if c == '<' {
        Some(TokenType::LT)
    } else if c == '>' {
        Some(TokenType::GT)
    } else if c == ',' {
        Some(TokenType::COMMA)
    } else if c == ';' {
        Some(TokenType::SEMICOLON)
    } else if c == '(' {
        Some(TokenType::LPAREN)
    } else if c == ')' {
        Some(TokenType::RPAREN)
    } else if c == '{' {
        Some(TokenType::LBRACE)
    } else if c == '}' {
        Some(TokenType::RBRACE)
    } else {
        None
    }
}

/// `s` without its leading whitespace.
pub open spec fn skip_ws(s: Seq<char>) -> Seq<char>
    decreases s.len(),
{
    if s.len() > 0 && is_space(s[0]) {
        skip_ws(s.drop_first())
    } else {
        s
    }
}

/// Length of the longest prefix of `s` made of letters.
pub open spec fn letter_run(s: Seq<char>) -> nat
    decreases s.len(),
{
    if s.len() > 0 && is_letter(s[0]) {
        1 + letter_run(s.drop_first())
    } else {
        0
    }
}

/// Length of the longest prefix of `s` made of digits.
pub open spec fn digit_run(s: Seq<char>) -> nat
    decreases s.len(),
{
    if s.len() > 0 && is_digit(s[0]) {
        1 + digit_run(s.drop_first())
    } else {
        0
    }
}

/// The end-of-input token.
pub open spec fn eof_token() -> TokenView {
    TokenView { kind: TokenType::EOF, text: Seq::empty() }
}

/// The token at the start of `t`, which starts with no whitespace, and the
/// number of characters it takes.
pub open spec fn token_of(t: Seq<char>) -> (TokenView, nat) {
    if t.len() == 0 {
        (eof_token(), 0)
    } else if t[0] == '=' && t.len() > 1 && t[1] == '=' {
        (TokenView { kind: TokenType::EQ, text: seq!['=', '='] }, 2)
    } else if t[0] == '!' && t.len() > 1 && t[1] == '=' {
        (TokenView { kind: TokenType::NotEq, text: seq!['!', '='] }, 2)
    } else if single_kind(t[0]) is Some {
        (TokenView { kind: single_kind(t[0])->0, text: seq![t[0]] }, 1)
    } else if is_letter(t[0]) {
        let n = letter_run(t);
        (TokenView { kind: ident_kind(t.take(n as int)), text: t.take(n as int) }, n)
    } else if is_digit(t[0]) {
        let n = digit_run(t);
        (TokenView { kind: TokenType::INT, text: t.take(n as int) }, n)
    } else {
        (TokenView { kind: TokenType::ILLEGAL, text: seq![t[0]] }, 1)
    }
}

/// One step of lexing: the next token of `s` and what is left after it.
pub open spec fn scan(s: Seq<char>) -> (TokenView, Seq<char>) {
    let t = skip_ws(s);
    let (tok, n) = token_of(t);
    (tok, t.skip(n as int))
}

/// Relies on `char::is_alphabetic`: whether `c` has Unicode's Alphabetic
/// property, which depends on `c` alone.
#[verifier::external_body]
fn alphabetic(c: char) -> (r: bool)
    ensures
        r == unicode_alphabetic(c),
{
    c.is_alphabetic()
}

/// Relies on `String::push`: appends one character.
#[verifier::external_body]
pub(crate) fn push_char(s: &mut String, c: char)
    ensures
        final(s)@ == old(s)@.push(c),
{
    s.push(c)
}

/// Whether `c` is a letter.
fn letter(c: char) -> (r: bool)
    ensures
        r == is_letter(c),
{
    if ('a' <= c && c <= 'z') || ('A' <= c && c <= 'Z') {
        true
    } else if (c as u32) >= 128 {
        alphabetic(c)
    } else {
        false
    }
}

/// Whether `c` is a decimal digit.
fn digit(c: char) -> (r: bool)
    ensures
        r == is_digit(c),
{
    '0' <= c && c <= '9'
}

/// Whether `c` is whitespace.
fn space(c: char) -> (r: bool)
    ensures
        r == is_space(c),
{
    c == ' ' || c == '\t' || c == '\n' || c == '\r'
}

/// The kind of a one-character operator or delimiter, if `c` is one.
fn single_kind_of(c: char) -> (r: Option<TokenType>)
    ensures
        r == single_kind(c),
{
    match c {
        '=' => Some(TokenType::ASSIGN),
        '+' => Some(TokenType::PLUS),
        '-' => Some(TokenType::MINUS),
        '!' => Some(TokenType::BANG),
        '*' => Some(TokenType::ASTERISK),
        '/' => Some(TokenType::SLASH),
        '<' => Some(TokenType::LT),
        '>' => Some(TokenType::GT),
        ',' => Some(TokenType::COMMA),
        ';' => Some(TokenType::SEMICOLON),
        '(' => Some(TokenType::LPAREN),
        ')' => Some(TokenType::RPAREN),
        '{' => Some(TokenType::LBRACE),
        '}' => Some(TokenType::RBRACE),
        _ => None,
    }
}

/// All tokens of `s` before the end of input.
pub open spec fn token_stream(s: Seq<char>) -> Seq<TokenView>
    decreases s.len(),
    via token_stream_decreases
{
    let (tok, r) = scan(s);
    if tok.kind == TokenType::EOF {
        Seq::empty()
    } else {
        seq![tok] + token_stream(r)
    }
}

#[via_fn]
proof fn token_stream_decreases(s: Seq<char>) {
    lemma_scan_shrinks(s);
}

/// The texts of `ts`, one space between each two.
pub open spec fn join_texts(ts: Seq<TokenView>) -> Seq<char>
    decreases ts.len(),
{
    if ts.len() == 0 {
        Seq::empty()
    } else if ts.len() == 1 {
        ts[0].text
    } else {
        ts[0].text + seq![' '] + join_texts(ts.drop_first())
    }
}

proof fn lemma_skip_ws(s: Seq<char>)
    ensures
        skip_ws(s).len() <= s.len(),
        skip_ws(s).len() > 0 ==> !is_space(skip_ws(s)[0]),
        skip_ws(s) == s.skip(s.len() - skip_ws(s).len()),
    decreases s.len(),
{
    if s.len() > 0 && is_space(s[0]) {
        lemma_skip_ws(s.drop_first());
        assert(s.drop_first().skip(s.len() - 1 - skip_ws(s).len()) =~= s.skip(
            s.len() - skip_ws(s).len(),
        ));
    } else {
        assert(s.skip(0) =~= s);
    }
}

proof fn lemma_letter_run(t: Seq<char>)
    ensures
        letter_run(t) <= t.len(),
        forall|i: int| 0 <= i < letter_run(t) ==> is_letter(#[trigger] t[i]),
    decreases t.len(),
{
    if t.len() > 0 && is_letter(t[0]) {
        lemma_letter_run(t.drop_first());
        assert forall|i: int| 0 <= i < letter_run(t) implies is_letter(#[trigger] t[i]) by {
            if i > 0 {
                assert(t[i] == t.drop_first()[i - 1]);
            }
        }
    }
}

proof fn lemma_digit_run(t: Seq<char>)
    ensures
        digit_run(t) <= t.len(),
        forall|i: int| 0 <= i < digit_run(t) ==> is_digit(#[trigger] t[i]),
    decreases t.len(),
{
    if t.len() > 0 && is_digit(t[0]) {
        lemma_digit_run(t.drop_first());
        assert forall|i: int| 0 <= i < digit_run(t) implies is_digit(#[trigger] t[i]) by {
            if i > 0 {
                assert(t[i] == t.drop_first()[i - 1]);
            }
        }
    }
}

proof fn lemma_letter_run_concat(a: Seq<char>, r: Seq<char>)
    requires
        forall|i: int| 0 <= i < a.len() ==> is_letter(#[trigger] a[i]),
        r.len() == 0 || !is_letter(r[0]),
    ensures
        letter_run(a + r) == a.len(),
    decreases a.len(),
{
    if a.len() > 0 {
        assert((a + r).drop_first() =~= a.drop_first() + r);
        assert forall|i: int| 0 <= i < a.drop_first().len() implies is_letter(
            #[trigger] a.drop_first()[i],
        ) by {
            assert(a.drop_first()[i] == a[i + 1]);
        }
        lemma_letter_run_concat(a.drop_first(), r);
    }
}

proof fn lemma_digit_run_concat(a: Seq<char>, r: Seq<char>)
    requires
        forall|i: int| 0 <= i < a.len() ==> is_digit(#[trigger] a[i]),
        r.len() == 0 || !is_digit(r[0]),
    ensures
        digit_run(a + r) == a.len(),
    decreases a.len(),
{
    if a.len() > 0 {
        assert((a + r).drop_first() =~= a.drop_first() + r);
        assert forall|i: int| 0 <= i < a.drop_first().len() implies is_digit(
            #[trigger] a.drop_first()[i],
        ) by {
            assert(a.drop_first()[i] == a[i + 1]);
        }
        lemma_digit_run_concat(a.drop_first(), r);
    }
}

/// A token other than end-of-input takes at least one character.
pub proof fn lemma_scan_shrinks(s: Seq<char>)
    ensures
        scan(s).1.len() <= s.len(),
        scan(s).0.kind != TokenType::EOF ==> scan(s).1.len() < s.len(),
        scan(s).0.kind == TokenType::EOF <==> skip_ws(s).len() == 0,
{
    let t = skip_ws(s);
    lemma_skip_ws(s);
    if t.len() > 0 {
        lemma_letter_run(t);
        lemma_digit_run(t);
    }
}

/// Once the input is used up, lexing again gives the end-of-input token
/// and leaves the input as it is, however often it is repeated.
pub proof fn lemma_end_of_input_repeats(s: Seq<char>)
    requires
        scan(s).0.kind == TokenType::EOF,
    ensures
        scan(scan(s).1) == scan(s),
        scan(s).1.len() == 0,
{
    lemma_scan_shrinks(s);
    assert(skip_ws(s).skip(0) =~= skip_ws(s));
    assert(scan(s).1 =~= Seq::<char>::empty());
    assert(skip_ws(Seq::<char>::empty()) =~= Seq::<char>::empty());
}

/// A token that lexing produced, written out and followed by nothing or by
/// a space, is lexed back to the same token.
proof fn lemma_scan_own_text(s: Seq<char>, r: Seq<char>)
    requires
        scan(s).0.kind != TokenType::EOF,
        r.len() == 0 || r[0] == ' ',
    ensures
        scan(scan(s).0.text + r) == (scan(s).0, r),
{
    let t = skip_ws(s);
    let tok = scan(s).0;
    let x = tok.text + r;
    lemma_scan_shrinks(s);
    lemma_skip_ws(s);
    lemma_letter_run(t);
    lemma_digit_run(t);
    assert(x[0] == t[0]);
    assert(skip_ws(x) == x);
    if t[0] == '=' && t.len() > 1 && t[1] == '=' {
        assert(x.skip(2) =~= r);
    } else if t[0] == '!' && t.len() > 1 && t[1] == '=' {
        assert(x.skip(2) =~= r);
    } else if single_kind(t[0]) is Some {
        assert(x.skip(1) =~= r);
    } else if is_letter(t[0]) {
        let n = letter_run(t);
        lemma_letter_run_concat(t.take(n as int), r);
        assert(x.take(n as int) =~= t.take(n as int));
        assert(x.skip(n as int) =~= r);
    } else if is_digit(t[0]) {
        let n = digit_run(t);
        lemma_digit_run_concat(t.take(n as int), r);
        assert(x.take(n as int) =~= t.take(n as int));
        assert(x.skip(n as int) =~= r);
    } else {
        assert(x.skip(1) =~= r);
    }
}

/// Whitespace in front of a text does not change its tokens.
proof fn lemma_leading_space(j: Seq<char>)
    ensures
        token_stream(seq![' '] + j) == token_stream(j),
{
    assert((seq![' '] + j).drop_first() =~= j);
    assert(scan(seq![' '] + j) == scan(j));
}

/// Lexing the tokens' texts, joined by single spaces, gives back the same
/// tokens: whitespace between tokens is immaterial.
pub proof fn lemma_relex_joined(s: Seq<char>)
    ensures
        token_stream(join_texts(token_stream(s))) == token_stream(s),
    decreases s.len(),
{
    let (tok, r) = scan(s);
    let ts = token_stream(s);
    if tok.kind == TokenType::EOF {
        assert(skip_ws(Seq::<char>::empty()) =~= Seq::<char>::empty());
    } else {
        lemma_scan_shrinks(s);
        lemma_relex_joined(r);
        let rest = token_stream(r);
        assert(ts.drop_first() =~= rest);
        if rest.len() == 0 {
            lemma_scan_own_text(s, Seq::empty());
            assert(tok.text + Seq::<char>::empty() =~= tok.text);
            assert(skip_ws(Seq::<char>::empty()) =~= Seq::<char>::empty());
            assert(token_stream(tok.text) =~= ts);
        } else {
            let j = join_texts(rest);
            assert(join_texts(ts) =~= tok.text + (seq![' '] + j));
            lemma_scan_own_text(s, seq![' '] + j);
            lemma_leading_space(j);
            assert(token_stream(join_texts(ts)) =~= seq![tok] + token_stream(j));
        }
    }
}

/// `==` and `!=` are read as one operator each, never as two tokens.
pub proof fn lemma_two_char_operators(s: Seq<char>)
    requires
        skip_ws(s).len() >= 2,
        skip_ws(s)[0] == '=' || skip_ws(s)[0] == '!',
        skip_ws(s)[1] == '=',
    ensures
        scan(s).0.kind == if skip_ws(s)[0] == '=' {
            TokenType::EQ
        } else {
            TokenType::NotEq
        },
        scan(s).0.text == seq![skip_ws(s)[0], '='],
        scan(s).1 == skip_ws(s).skip(2),
{
}

/// A cursor over the characters of a source text that hands out its tokens
/// one at a time.
pub struct Lexer {
    char_list: Vec<char>,
    position: usize,
    ch: char,
}

impl Lexer {
    /// The characters of the source text.
    pub closed spec fn source(&self) -> Seq<char> {
        self.char_list@
    }

    /// Index of the current character.
    pub closed spec fn pos(&self) -> int {
        self.position as int
    }

    /// The characters not yet consumed, starting with the current one.
    pub open spec fn rest(&self) -> Seq<char> {
        self.source().skip(self.pos())
    }

    /// The cursor lies within the text and `ch` is the character under it,
    /// or NUL past the end.
    pub closed spec fn wf(&self) -> bool {
        &&& self.position <= self.char_list.len()
        &&& self.ch == if self.position < self.char_list.len() {
            self.char_list@[self.position as int]
        } else {
            '\0'
        }
    }

    /// A lexer at the start of `input`.
    pub fn new(input: &str) -> (l: Lexer)
        ensures
            l.wf(),
            l.source() == input@,
            l.pos() == 0,
    {
        let mut char_list: Vec<char> = Vec::new();
        for c in it: input.chars()
            invariant
                char_list@ == it.seq().take(it.index() as int),
                it.seq() == input@,
        {
            char_list.push(c);
        }
        let ch = if char_list.len() > 0 {
            char_list[0]
        } else {
            '\0'
        };
        Lexer { char_list, position: 0, ch }
    }

    /// Moves the cursor one character on; at the end it stays there.
    pub fn read_char(&mut self)
        requires
            old(self).wf(),
        ensures
            final(self).wf(),
            final(self).source() == old(self).source(),
            final(self).pos() == if old(self).pos() < old(self).source().len() {
                old(self).pos() + 1
            } else {
                old(self).pos()
            },
    {
        if self.position < self.char_list.len() {
            self.position = self.position + 1;
        }
        if self.position < self.char_list.len() {
            self.ch = self.char_list[self.position];
        } else {
            self.ch = '\0';
        }
    }

    /// The character after the current one, or NUL if there is none.
    pub fn peek_char(&mut self) -> (r: char)
        requires
            old(self).wf(),
        ensures
            *final(self) == *old(self),
            r == if old(self).rest().len() > 1 {
                old(self).rest()[1]
            } else {
                '\0'
            },
    {
        if self.position < self.char_list.len() && self.position + 1 < self.char_list.len() {
            self.char_list[self.position + 1]
        } else {
            '\0'
        }
    }

    /// The characters of the text from `start` up to `end`.
    pub fn get_substring(&self, start: usize, end: usize) -> (r: String)
        requires
            start <= end <= self.source().len(),
        ensures
            r@ == self.source().subrange(start as int, end as int),
    {
        let mut out = String::new();
        let mut i: usize = start;
        while i < end
            invariant
                start <= i <= end <= self.char_list.len(),
                out@ == self.char_list@.subrange(start as int, i as int),
            decreases end - i,
        {
            push_char(&mut out, self.char_list[i]);
            assert(out@ =~= self.char_list@.subrange(start as int, i + 1));
            i = i + 1;
        }
        out
    }

    /// A token of the given kind whose text is the one character `ch`.
    pub fn new_token(&self, token_type: TokenType, ch: char) -> (r: Token)
        ensures
            r@ == (TokenView { kind: token_type, text: seq![ch] }),
    {
        let mut literal = String::new();
        push_char(&mut literal, ch);
        assert(literal@ =~= seq![ch]);
        Token { token_type, literal }
    }

    /// Skips whitespace under the cursor.
    pub fn skip_whitespace(&mut self)
        requires
            old(self).wf(),
        ensures
            final(self).wf(),
            final(self).source() == old(self).source(),
            final(self).rest() == skip_ws(old(self).rest()),
    {
        while self.position < self.char_list.len() && space(self.ch)
            invariant
                self.wf(),
                self.source() == old(self).source(),
                skip_ws(self.rest()) == skip_ws(old(self).rest()),
            decreases self.char_list.len() - self.position,
        {
            proof {
                assert(self.rest().drop_first() =~= self.source().skip(self.pos() + 1));
            }
            self.read_char();
        }
    }

    /// Reads the run of letters under the cursor.
    pub fn read_identifier(&mut self) -> (r: String)
        requires
            old(self).wf(),
        ensures
            final(self).wf(),
            final(self).source() == old(self).source(),
            r@ == old(self).rest().take(letter_run(old(self).rest()) as int),
            final(self).rest() == old(self).rest().skip(letter_run(old(self).rest()) as int),
    {
        let pos = self.position;
        while self.position < self.char_list.len() && letter(self.ch)
            invariant
                self.wf(),
                self.source() == old(self).source(),
                old(self).pos() <= self.pos(),
                pos == old(self).pos(),
                letter_run(old(self).rest()) == (self.pos() - pos) + letter_run(self.rest()),
            decreases self.char_list.len() - self.position,
        {
            proof {
                assert(self.rest().drop_first() =~= self.source().skip(self.pos() + 1));
            }
            self.read_char();
        }
        proof {
            assert(old(self).rest().take(self.pos() - pos) =~= self.source().subrange(
                pos as int,
                self.pos(),
            ));
            assert(old(self).rest().skip(self.pos() - pos) =~= self.rest());
        }
        self.get_substring(pos, self.position)
    }

    /// Reads the run of digits under the cursor.
    pub fn read_number(&mut self) -> (r: String)
        requires
            old(self).wf(),
        ensures
            final(self).wf(),
            final(self).source() == old(self).source(),
            r@ == old(self).rest().take(digit_run(old(self).rest()) as int),
            final(self).rest() == old(self).rest().skip(digit_run(old(self).rest()) as int),
    {
        let pos = self.position;
        while self.position < self.char_list.len() && digit(self.ch)
            invariant
                self.wf(),
                self.source() == old(self).source(),
                old(self).pos() <= self.pos(),
                pos == old(self).pos(),
                digit_run(old(self).rest()) == (self.pos() - pos) + digit_run(self.rest()),
            decreases self.char_list.len() - self.position,
        {
            proof {
                assert(self.rest().drop_first() =~= self.source().skip(self.pos() + 1));
            }
            self.read_char();
        }
        proof {
            assert(old(self).rest().take(self.pos() - pos) =~= self.source().subrange(
                pos as int,
                self.pos(),
            ));
            assert(old(self).rest().skip(self.pos() - pos) =~= self.rest());
        }
        self.get_substring(pos, self.position)
    }
    /// The next token of the text. Once the text is used up it returns the
    /// end-of-input token, again and again, and stays where it is.
    pub fn next_token(&mut self) -> (r: Token)
        requires
            old(self).wf(),
        ensures
            final(self).wf(),
            final(self).source() == old(self).source(),
            r@ == scan(old(self).rest()).0,
            final(self).rest() == scan(old(self).rest()).1,
    {
        self.skip_whitespace();
        let ghost t = self.rest();
        if self.position >= self.char_list.len() {
            proof {
                assert(t.skip(0) =~= t);
            }
            return Token { token_type: TokenType::EOF, literal: String::new() };
        }
        let c = self.ch;
        proof {
            assert(t[0] == c);
            assert(self.source().skip(self.pos() + 1) =~= t.skip(1));
        }
        let next = self.peek_char();
        if c == '=' && next == '=' {
            proof {
                assert(self.source().skip(self.pos() + 2) =~= t.skip(2));
            }
            self.read_char();
            self.read_char();
            proof {
                reveal_strlit("==");
                assert("=="@ =~= seq!['=', '=']);
            }
            return Token { token_type: TokenType::EQ, literal: String::from_str("==") };
        }
        if c == '!' && next == '=' {
            proof {
                assert(self.source().skip(self.pos() + 2) =~= t.skip(2));
            }
            self.read_char();
            self.read_char();
            proof {
                reveal_strlit("!=");
                assert("!="@ =~= seq!['!', '=']);
            }
            return Token { token_type: TokenType::NotEq, literal: String::from_str("!=") };
        }
        match single_kind_of(c) {
            Some(kind) => {
                let tok = self.new_token(kind, c);
                self.read_char();
                tok
            },
            None => {
                if letter(c) {
                    let literal = self.read_identifier();
                    let token_type = lookup_ident(literal.clone());
                    Token { token_type, literal }
                } else if digit(c) {
                    Token { token_type: TokenType::INT, literal: self.read_number() }
                } else {
                    let tok = self.new_token(TokenType::ILLEGAL, c);
                    self.read_char();
                    tok
                }
            },
        }
    }
}

} // verus!
