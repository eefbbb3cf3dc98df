use vstd::prelude::*;
use vstd::string::StringExecFns;
use crate::ast::{
    ExpressionView, Expression, Identifier, IdentifierView, LetStatement, Program, ReturnStatement,
    ExpressionStatement, Statement, StatementView,
};
use crate::lexer::{
    eof_token, lemma_end_of_input_repeats, lemma_scan_shrinks, scan, skip_ws, token_stream, Lexer,
};
use crate::token::{Token, TokenType, TokenView};

verus! {

/// Binding strength of operators, weakest first.
#[allow(dead_code)]
#[derive(Debug, Clone, Copy, PartialEq, Eq, Structural)]
pub enum Precedence {
    LOWEST,
    EQUALS,
    LESSGREATER,
    SUM,
    PRODUCT,
    PREFIX,
    CALL,
}

/// The name under which a token kind appears in diagnostics.
pub open spec fn kind_name(k: TokenType) -> Seq<char> {
    match k {
        TokenType::ILLEGAL => "ILLEGAL"@,
        TokenType::EOF => "EOF"@,
        TokenType::IDENT => "IDENT"@,
        TokenType::INT => "INT"@,
        TokenType::ASSIGN => "ASSIGN"@,
        TokenType::PLUS => "PLUS"@,
        TokenType::MINUS => "MINUS"@,
        TokenType::BANG => "BANG"@,
        TokenType::ASTERISK => "ASTERISK"@,
        TokenType::SLASH => "SLASH"@,
        TokenType::LT => "LT"@,
        TokenType::GT => "GT"@,
        TokenType::EQ => "EQ"@,
        TokenType::NotEq => "NotEq"@,
        TokenType::COMMA => "COMMA"@,
        TokenType::SEMICOLON => "SEMICOLON"@,
        TokenType::LPAREN => "LPAREN"@,
        TokenType::RPAREN => "RPAREN"@,
        TokenType::LBRACE => "LBRACE"@,
        TokenType::RBRACE => "RBRACE"@,
        TokenType::FUNCTION => "FUNCTION"@,
        TokenType::LET => "LET"@,
        TokenType::TRUE => "TRUE"@,
        TokenType::FALSE => "FALSE"@,
        TokenType::IF => "IF"@,
        TokenType::ELSE => "ELSE"@,
        TokenType::RETURN => "RETURN"@,
    }
}

/// The name of a token kind, as diagnostics print it.
pub fn kind_str(k: TokenType) -> (r: &'static str)
    ensures
        r@ == kind_name(k),
{
    match k {
        TokenType::ILLEGAL => "ILLEGAL",
        TokenType::EOF => "EOF",
        TokenType::IDENT => "IDENT",
        TokenType::INT => "INT",
        TokenType::ASSIGN => "ASSIGN",
        TokenType::PLUS => "PLUS",
        TokenType::MINUS => "MINUS",
        TokenType::BANG => "BANG",
        TokenType::ASTERISK => "ASTERISK",
        TokenType::SLASH => "SLASH",
        TokenType::LT => "LT",
        TokenType::GT => "GT",
        TokenType::EQ => "EQ",
        TokenType::NotEq => "NotEq",
        TokenType::COMMA => "COMMA",
        TokenType::SEMICOLON => "SEMICOLON",
        TokenType::LPAREN => "LPAREN",
        TokenType::RPAREN => "RPAREN",
        TokenType::LBRACE => "LBRACE",
        TokenType::RBRACE => "RBRACE",
        TokenType::FUNCTION => "FUNCTION",
        TokenType::LET => "LET",
        TokenType::TRUE => "TRUE",
        TokenType::FALSE => "FALSE",
        TokenType::IF => "IF",
        TokenType::ELSE => "ELSE",
        TokenType::RETURN => "RETURN",
    }
}

/// Diagnostic for a lookahead token of the wrong kind.
pub open spec fn expect_error(expected: TokenType, got: TokenType) -> Seq<char> {
    "expected next token to be "@ + kind_name(expected) + ", got "@ + kind_name(got) + " instead"@
}

/// Diagnostic for an expression that starts with a token no rule can begin with.
pub open spec fn no_prefix_error(k: TokenType) -> Seq<char> {
    "no prefix parse function for "@ + kind_name(k) + " found"@
}

/// The `i`th token of `ts`; past its end, the end-of-input token.
pub open spec fn tk(ts: Seq<TokenView>, i: int) -> TokenView {
    if 0 <= i < ts.len() {
        ts[i]
    } else {
        eof_token()
    }
}

/// `ts` without its first `n` tokens.
pub open spec fn drop(ts: Seq<TokenView>, n: int) -> Seq<TokenView> {
    if n >= ts.len() {
        Seq::empty()
    } else {
        ts.skip(n)
    }
}

/// Index of the first semicolon at or after `k`, or the end of `ts`.
pub open spec fn skip_to_semicolon(ts: Seq<TokenView>, k: int) -> int
    decreases ts.len() - k,
{
    if k >= ts.len() || ts[k].kind == TokenType::SEMICOLON {
        k
    } else {
        skip_to_semicolon(ts, k + 1)
    }
}

/// The identifier node that a token stands for.
pub open spec fn ident_of(t: TokenView) -> IdentifierView {
    IdentifierView { token: t, value: t.text }
}

/// What parsing one statement at the start of a token sequence gives: the
/// statement, if any, the index of the last token it takes, and the
/// diagnostics it records.
pub struct StepView {
    pub stmt: Option<StatementView>,
    pub last: int,
    pub errors: Seq<Seq<char>>,
}

/// `let <ident> = ... ;`: the value is skipped up to the semicolon. A
/// missing name or `=` gives a diagnostic and no statement, and the rest of
/// the statement, up to its semicolon, is skipped.
pub open spec fn let_step(ts: Seq<TokenView>) -> StepView {
    if tk(ts, 1).kind != TokenType::IDENT {
        StepView {
            stmt: None,
            last: skip_to_semicolon(ts, 1),
            errors: seq![expect_error(TokenType::IDENT, tk(ts, 1).kind)],
        }
    } else if tk(ts, 2).kind != TokenType::ASSIGN {
        StepView {
            stmt: None,
            last: skip_to_semicolon(ts, 1),
            errors: seq![expect_error(TokenType::ASSIGN, tk(ts, 2).kind)],
        }
    } else {
        StepView {
            stmt: Some(
                StatementView::Let { token: tk(ts, 0), name: ident_of(tk(ts, 1)), value: None },
            ),
            last: skip_to_semicolon(ts, 2),
            errors: Seq::empty(),
        }
    }
}

/// `return ... ;`: the value is skipped up to the semicolon.
pub open spec fn return_step(ts: Seq<TokenView>) -> StepView {
    StepView {
        stmt: Some(StatementView::Return { token: tk(ts, 0), value: None }),
        last: skip_to_semicolon(ts, 1),
        errors: Seq::empty(),
    }
}

/// The expression that starts at the first token, if a prefix rule exists
/// for its kind.
pub open spec fn prefix_expr(t: TokenView) -> Option<ExpressionView> {
    if t.kind == TokenType::IDENT {
        Some(ExpressionView::Identifier(ident_of(t)))
    } else {
        None
    }
}

/// Diagnostics of parsing an expression that starts with `t`.
pub open spec fn prefix_errors(t: TokenView) -> Seq<Seq<char>> {
    if t.kind == TokenType::IDENT {
        Seq::empty()
    } else {
        seq![no_prefix_error(t.kind)]
    }
}

/// An expression, with an optional semicolon after it.
pub open spec fn expression_step(ts: Seq<TokenView>) -> StepView {
    StepView {
        stmt: Some(
            StatementView::Expression { token: tk(ts, 0), expression: prefix_expr(tk(ts, 0)) },
        ),
        last: if tk(ts, 1).kind == TokenType::SEMICOLON {
            1
        } else {
            0
        },
        errors: prefix_errors(tk(ts, 0)),
    }
}

/// One statement, chosen by the kind of the first token.
pub open spec fn statement_step(ts: Seq<TokenView>) -> StepView {
    if tk(ts, 0).kind == TokenType::LET {
        let_step(ts)
    } else if tk(ts, 0).kind == TokenType::RETURN {
        return_step(ts)
    } else {
        expression_step(ts)
    }
}

proof fn lemma_skip_to_semicolon(ts: Seq<TokenView>, k: int)
    requires
        0 <= k,
    ensures
        k <= skip_to_semicolon(ts, k),
    decreases ts.len() - k,
{
    if !(k >= ts.len() || ts[k].kind == TokenType::SEMICOLON) {
        lemma_skip_to_semicolon(ts, k + 1);
    }
}

proof fn lemma_skip_shift(ts: Seq<TokenView>, a: int, k: int)
    requires
        0 <= a,
        0 <= k,
    ensures
        a + skip_to_semicolon(drop(ts, a), k) == skip_to_semicolon(ts, a + k),
    decreases ts.len() - (a + k),
{
    if a + k < ts.len() && ts[a + k].kind != TokenType::SEMICOLON {
        assert(drop(ts, a)[k] == ts[a + k]);
        lemma_skip_shift(ts, a, k + 1);
    }
}

/// A statement takes at least the token it starts with.
pub proof fn lemma_step_last(ts: Seq<TokenView>)
    ensures
        0 <= statement_step(ts).last,
{
    lemma_skip_to_semicolon(ts, 1);
    lemma_skip_to_semicolon(ts, 2);
}

/// The statements of a token sequence and the diagnostics recorded on the way.
pub open spec fn parse_tokens(ts: Seq<TokenView>) -> (Seq<StatementView>, Seq<Seq<char>>)
    decreases ts.len(),
    via parse_tokens_decreases
{
    if ts.len() == 0 {
        (Seq::empty(), Seq::empty())
    } else {
        let step = statement_step(ts);
        let (rest, errs) = parse_tokens(drop(ts, step.last + 1));
        (
            match step.stmt {
                Some(s) => seq![s] + rest,
                None => rest,
            },
            step.errors + errs,
        )
    }
}

#[via_fn]
proof fn parse_tokens_decreases(ts: Seq<TokenView>) {
    lemma_step_last(ts);
}

proof fn lemma_drop_drop(ts: Seq<TokenView>, a: int, b: int)
    requires
        0 <= a,
        0 <= b,
    ensures
        drop(drop(ts, a), b) == drop(ts, a + b),
{
    assert(drop(drop(ts, a), b) =~= drop(ts, a + b));
}


proof fn lemma_skip_reaches(ts: Seq<TokenView>, j: int, k: int)
    requires
        0 <= j <= k < ts.len(),
        ts[k].kind == TokenType::SEMICOLON,
        forall|i: int| j <= i < k ==> ts[i].kind != TokenType::SEMICOLON,
    ensures
        skip_to_semicolon(ts, j) == k,
    decreases k - j,
{
    if j < k {
        lemma_skip_reaches(ts, j + 1, k);
    }
}

/// A malformed `let` (no name, or no `=` after it) costs one diagnostic and
/// nothing else: no statement comes of it, and parsing goes on after its
/// semicolon as if it had not been there.
pub proof fn lemma_malformed_let_recovers(ts: Seq<TokenView>, k: int)
    requires
        0 < k < ts.len(),
        ts[0].kind == TokenType::LET,
        tk(ts, 1).kind != TokenType::IDENT || tk(ts, 2).kind != TokenType::ASSIGN,
        ts[k].kind == TokenType::SEMICOLON,
        forall|i: int| 0 < i < k ==> ts[i].kind != TokenType::SEMICOLON,
    ensures
        parse_tokens(ts).0 == parse_tokens(ts.skip(k + 1)).0,
        parse_tokens(ts).1.len() == parse_tokens(ts.skip(k + 1)).1.len() + 1,
{
    lemma_skip_reaches(ts, 1, k);
    assert(drop(ts, k + 1) =~= ts.skip(k + 1));
}

/// A source with a malformed `let` followed by a `return` statement still
/// yields that `return` statement, and a diagnostic.
pub proof fn lemma_malformed_let_then_return(ts: Seq<TokenView>, k: int)
    requires
        0 < k,
        k + 1 < ts.len(),
        ts[0].kind == TokenType::LET,
        tk(ts, 1).kind != TokenType::IDENT || tk(ts, 2).kind != TokenType::ASSIGN,
        ts[k].kind == TokenType::SEMICOLON,
        forall|i: int| 0 < i < k ==> ts[i].kind != TokenType::SEMICOLON,
        ts[k + 1].kind == TokenType::RETURN,
    ensures
        parse_tokens(ts).0.len() > 0,
        parse_tokens(ts).0[0] == (StatementView::Return { token: ts[k + 1], value: None }),
        parse_tokens(ts).1.len() > 0,
{
    lemma_malformed_let_recovers(ts, k);
    let r = ts.skip(k + 1);
    assert(r[0] == ts[k + 1]);
    assert(r.len() > 0);
}

/// The value of a statement the parser may hand back.
pub open spec fn opt_stmt_view(s: Option<Statement>) -> Option<StatementView> {
    match s {
        Some(v) => Some(v@),
        None => None,
    }
}

/// The value of an expression the parser may hand back.
pub open spec fn opt_expr_view(e: Option<Expression>) -> Option<ExpressionView> {
    match e {
        Some(v) => Some(v@),
        None => None,
    }
}

/// Recursive-descent parser over a lexer, with the current token and one
/// token of lookahead, collecting diagnostics as it goes.
pub struct Parser {
    l: Lexer,
    cur_token: Token,
    peek_token: Token,
    errors: Vec<String>,
}

impl Parser {
    /// The diagnostics recorded so far.
    pub closed spec fn error_log(&self) -> Seq<Seq<char>> {
        self.errors@.map_values(|e: String| e@)
    }

    /// The tokens still to parse, starting with the current one; empty once
    /// the current token is the end of input.
    pub closed spec fn pending(&self) -> Seq<TokenView> {
        if self.cur_token.token_type == TokenType::EOF {
            Seq::empty()
        } else if self.peek_token.token_type == TokenType::EOF {
            seq![self.cur_token@]
        } else {
            seq![self.cur_token@, self.peek_token@] + token_stream(self.l.rest())
        }
    }

    /// The lookahead is at the end of input only once the lexer is.
    pub closed spec fn wf(&self) -> bool {
        &&& self.l.wf()
        &&& self.cur_token.token_type == TokenType::EOF ==> self.peek_token.token_type
            == TokenType::EOF
        &&& self.peek_token.token_type == TokenType::EOF ==> skip_ws(self.l.rest()).len() == 0
    }

    proof fn lemma_pending(&self)
        requires
            self.wf(),
        ensures
            self.pending().len() == 0 <==> self.cur_token.token_type == TokenType::EOF,
            self.pending().len() > 0 ==> self.pending()[0] == self.cur_token@,
            tk(self.pending(), 0).kind == self.cur_token.token_type,
            tk(self.pending(), 1).kind == self.peek_token.token_type,
            self.peek_token.token_type != TokenType::EOF ==> tk(self.pending(), 1)
                == self.peek_token@,
    {
    }

    /// A parser over the tokens of `l`, positioned at the first.
    pub fn new(l: Lexer) -> (p: Parser)
        requires
            l.wf(),
        ensures
            p.wf(),
            p.pending() == token_stream(l.rest()),
            p.error_log() == Seq::<Seq<char>>::empty(),
    {
        let mut p = Parser {
            l,
            cur_token: Token { token_type: TokenType::ILLEGAL, literal: String::from_str("\0") },
            peek_token: Token { token_type: TokenType::ILLEGAL, literal: String::from_str("\0") },
            errors: Vec::new(),
        };
        let ghost ts = p.pending();
        p.next_token();
        p.next_token();
        proof {
            lemma_drop_drop(ts, 1, 1);
            assert(drop(ts, 2) =~= token_stream(l.rest()));
            assert(p.error_log() =~= Seq::<Seq<char>>::empty());
        }
        p
    }

    /// A copy of the diagnostics recorded so far.
    pub fn errors(&self) -> (r: Vec<String>)
        ensures
            r@.map_values(|e: String| e@) == self.error_log(),
    {
        let mut out: Vec<String> = Vec::new();
        let mut i: usize = 0;
        while i < self.errors.len()
            invariant
                i <= self.errors.len(),
                out@.len() == i,
                forall|j: int| 0 <= j < i ==> (#[trigger] out@[j])@ == self.errors@[j]@,
            decreases self.errors.len() - i,
        {
            let e = self.errors[i].clone();
            out.push(e);
            i = i + 1;
        }
        assert(out@.map_values(|e: String| e@) =~= self.error_log());
        out
    }

    /// Records that the lookahead was not of kind `token`.
    pub fn peek_error(&mut self, token: &TokenType)
        requires
            old(self).wf(),
        ensures
            final(self).wf(),
            final(self).pending() == old(self).pending(),
            final(self).error_log() == old(self).error_log().push(
                expect_error(*token, tk(old(self).pending(), 1).kind),
            ),
    {
        proof {
            self.lemma_pending();
        }
        let mut msg = String::from_str("expected next token to be ");
        msg.append(kind_str(*token));
        msg.append(", got ");
        msg.append(kind_str(self.peek_token.token_type));
        msg.append(" instead");
        self.errors.push(msg);
        proof {
            assert(self.error_log() =~= old(self).error_log().push(
                expect_error(*token, old(self).peek_token.token_type),
            ));
        }
    }

    /// Shifts the lookahead into the current token and reads a new one.
    pub fn next_token(&mut self)
        requires
            old(self).wf(),
        ensures
            final(self).wf(),
            final(self).pending() == drop(old(self).pending(), 1),
            final(self).error_log() == old(self).error_log(),
    {
        self.cur_token = self.peek_token.duplicate();
        self.peek_token = self.l.next_token();
        proof {
            let rest = old(self).l.rest();
            lemma_scan_shrinks(rest);
            if scan(rest).0.kind == TokenType::EOF {
                lemma_end_of_input_repeats(rest);
                assert(skip_ws(Seq::<char>::empty()) =~= Seq::<char>::empty());
            }
            let p = old(self).pending();
            if old(self).cur_token.token_type == TokenType::EOF {
            } else if old(self).peek_token.token_type == TokenType::EOF {
                assert(drop(p, 1) =~= Seq::<TokenView>::empty());
            } else if scan(rest).0.kind == TokenType::EOF {
                assert(drop(p, 1) =~= seq![old(self).peek_token@]);
            } else {
                assert(drop(p, 1) =~= self.pending());
            }
        }
    }
    /// The kind of the current token.
    pub closed spec fn cur_token_kind(&self) -> TokenType {
        self.cur_token.token_type
    }

    /// Parses the whole input: one statement after another until the end
    /// of input, keeping those that parsed and recording the diagnostics
    /// of those that did not.
    pub fn parse_program(&mut self) -> (program: Program)
        requires
            old(self).wf(),
        ensures
            final(self).wf(),
            program@ == parse_tokens(old(self).pending()).0,
            final(self).error_log() == old(self).error_log() + parse_tokens(old(self).pending()).1,
            final(self).pending() == Seq::<TokenView>::empty(),
    {
        let mut program = Program { statements: Vec::new() };
        let ghost ts = self.pending();
        proof {
            assert(program@ =~= Seq::<StatementView>::empty());
            assert(self.error_log() =~= self.error_log() + Seq::<Seq<char>>::empty());
        }
        while self.cur_token.token_type != TokenType::EOF
            invariant
                self.wf(),
                program@ + parse_tokens(self.pending()).0 == parse_tokens(ts).0,
                self.error_log() + parse_tokens(self.pending()).1 == old(self).error_log()
                    + parse_tokens(ts).1,
            decreases self.pending().len(),
        {
            let ghost p = self.pending();
            let ghost before = program@;
            let ghost errs = self.error_log();
            proof {
                self.lemma_pending();
                lemma_step_last(p);
            }
            let stmt = self.parse_statement();
            match stmt {
                Some(st) => {
                    program.statements.push(st);
                },
                None => {},
            }
            self.next_token();
            proof {
                let step = statement_step(p);
                lemma_drop_drop(p, step.last, 1);
                let (rest, rerrs) = parse_tokens(drop(p, step.last + 1));
                match step.stmt {
                    Some(v) => {
                        assert(program@ =~= before.push(v));
                        assert(before + parse_tokens(p).0 =~= program@ + rest);
                    },
                    None => {
                        assert(program@ =~= before);
                    },
                }
                assert(errs + parse_tokens(p).1 =~= self.error_log() + rerrs);
            }
        }
        proof {
            self.lemma_pending();
            assert(program@ + Seq::<StatementView>::empty() =~= program@);
            assert(self.error_log() + Seq::<Seq<char>>::empty() =~= self.error_log());
        }
        program
    }

    /// Parses the statement at the current token.
    pub fn parse_statement(&mut self) -> (r: Option<Statement>)
        requires
            old(self).wf(),
            old(self).cur_token_kind() != TokenType::EOF,
        ensures
            final(self).wf(),
            opt_stmt_view(r) == statement_step(old(self).pending()).stmt,
            final(self).pending() ==
                drop(old(self).pending(), statement_step(old(self).pending()).last),
            final(self).error_log() ==
                old(self).error_log() + statement_step(old(self).pending()).errors,
    {
        proof {
            self.lemma_pending();
        }
        match self.cur_token.token_type {
            TokenType::LET => self.parse_let_statement(),
            TokenType::RETURN => self.parse_return_statement(),
            _ => self.parse_expression_statement(),
        }
    }

    /// Parses `let <ident> = ... ;`. A missing name or `=` is recorded as a
    /// diagnostic and yields no statement; parsing goes on after the
    /// statement's semicolon.
    pub fn parse_let_statement(&mut self) -> (r: Option<Statement>)
        requires
            old(self).wf(),
            old(self).cur_token_kind() == TokenType::LET,
        ensures
            final(self).wf(),
            opt_stmt_view(r) == let_step(old(self).pending()).stmt,
            final(self).pending() == drop(old(self).pending(), let_step(old(self).pending()).last),
            final(self).error_log() == old(self).error_log() + let_step(old(self).pending()).errors,
    {
        let ghost p = self.pending();
        proof {
            self.lemma_pending();
        }
        let token = self.cur_token.duplicate();
        if !self.expect_peek(TokenType::IDENT) {
            self.skip_statement();
            proof {
                lemma_skip_shift(p, 0, 1);
                assert(drop(p, 0) =~= p);
            }
            return None;
        }
        proof {
            self.lemma_pending();
        }
        let name = Identifier {
            token: self.cur_token.duplicate(),
            value: self.cur_token.literal.clone(),
        };
        if !self.expect_peek(TokenType::ASSIGN) {
            self.skip_statement();
            proof {
                lemma_skip_shift(p, 1, 0);
                lemma_skip_to_semicolon(drop(p, 1), 0);
                lemma_drop_drop(p, 1, skip_to_semicolon(drop(p, 1), 0));
            }
            return None;
        }
        proof {
            lemma_drop_drop(p, 1, 1);
        }
        self.skip_statement();
        proof {
            lemma_skip_shift(p, 2, 0);
            lemma_skip_to_semicolon(drop(p, 2), 0);
            lemma_drop_drop(p, 2, skip_to_semicolon(drop(p, 2), 0));
            assert(old(self).error_log() + Seq::<Seq<char>>::empty() =~= old(self).error_log());
        }
        Some(Statement::LetStatement(LetStatement { token, name, value: None }))
    }

    /// Parses `return ... ;`.
    pub fn parse_return_statement(&mut self) -> (r: Option<Statement>)
        requires
            old(self).wf(),
            old(self).cur_token_kind() == TokenType::RETURN,
        ensures
            final(self).wf(),
            opt_stmt_view(r) == return_step(old(self).pending()).stmt,
            final(self).pending() ==
                drop(old(self).pending(), return_step(old(self).pending()).last),
            final(self).error_log() ==
                old(self).error_log() + return_step(old(self).pending()).errors,
    {
        let ghost p = self.pending();
        proof {
            self.lemma_pending();
        }
        let token = self.cur_token.duplicate();
        self.next_token();
        self.skip_statement();
        proof {
            lemma_skip_shift(p, 1, 0);
            lemma_skip_to_semicolon(drop(p, 1), 0);
            lemma_drop_drop(p, 1, skip_to_semicolon(drop(p, 1), 0));
            assert(old(self).error_log() + Seq::<Seq<char>>::empty() =~= old(self).error_log());
        }
        Some(Statement::ReturnStatement(ReturnStatement { token, return_value: None }))
    }

    /// Moves on to the end of the statement: the first semicolon at or after
    /// the current token, or the end of input.
    fn skip_statement(&mut self)
        requires
            old(self).wf(),
        ensures
            final(self).wf(),
            final(self).pending() ==
                drop(old(self).pending(), skip_to_semicolon(old(self).pending(), 0)),
            final(self).error_log() == old(self).error_log(),
    {
        let ghost p = self.pending();
        proof {
            assert(drop(p, 0) =~= p);
        }
        let ghost mut k: int = 0;
        while !self.cur_token_is(TokenType::SEMICOLON) && !self.cur_token_is(TokenType::EOF)
            invariant
                self.wf(),
                0 <= k <= p.len(),
                self.pending() == drop(p, k),
                skip_to_semicolon(p, k) == skip_to_semicolon(p, 0),
                self.error_log() == old(self).error_log(),
            decreases p.len() - k,
        {
            proof {
                self.lemma_pending();
            }
            self.next_token();
            proof {
                lemma_drop_drop(p, k, 1);
                k = k + 1;
            }
        }
        proof {
            self.lemma_pending();
        }
    }

    /// Parses an expression standing as a statement, and the semicolon
    /// after it if there is one.
    pub fn parse_expression_statement(&mut self) -> (r: Option<Statement>)
        requires
            old(self).wf(),
            old(self).cur_token_kind() != TokenType::EOF,
        ensures
            final(self).wf(),
            opt_stmt_view(r) == expression_step(old(self).pending()).stmt,
            final(self).pending() ==
                drop(old(self).pending(), expression_step(old(self).pending()).last),
            final(self).error_log() ==
                old(self).error_log() + expression_step(old(self).pending()).errors,
    {
        let ghost p = self.pending();
        proof {
            self.lemma_pending();
        }
        let token = self.cur_token.duplicate();
        let expression = self.parse_expression(Precedence::LOWEST);
        if self.peek_token_is(&TokenType::SEMICOLON) {
            self.next_token();
        } else {
            proof {
                assert(drop(p, 0) =~= p);
            }
        }
        Some(Statement::ExpressionStatement(ExpressionStatement { token, expression }))
    }

    /// Parses the expression at the current token. Only a token kind with a
    /// prefix rule can begin one; any other is recorded as a diagnostic and
    /// yields no expression. No infix rule is registered, so the expression
    /// ends with its first token whatever binding strength is passed in.
    pub fn parse_expression(&mut self, _precedence: Precedence) -> (r: Option<Expression>)
        requires
            old(self).wf(),
        ensures
            final(self).wf(),
            final(self).pending() == old(self).pending(),
            opt_expr_view(r) == prefix_expr(tk(old(self).pending(), 0)),
            final(self).error_log() ==
                old(self).error_log() + prefix_errors(tk(old(self).pending(), 0)),
    {
        proof {
            self.lemma_pending();
        }
        let exp = self.prefix_parse_fn(&self.cur_token.token_type);
        if exp.is_none() {
            let mut msg = String::from_str("no prefix parse function for ");
            msg.append(kind_str(self.cur_token.token_type));
            msg.append(" found");
            self.errors.push(msg);
            proof {
                assert(self.error_log() =~= 
                    old(self).error_log() + prefix_errors(tk(old(self).pending(), 0)));
            }
        } else {
            proof {
                assert(self.error_log() =~= 
                    old(self).error_log() + prefix_errors(tk(old(self).pending(), 0)));
            }
        }
        exp
    }

    /// Moves on if the lookahead has kind `token_type`; otherwise records
    /// a diagnostic and stays.
    fn expect_peek(&mut self, token_type: TokenType) -> (r: bool)
        requires
            old(self).wf(),
        ensures
            final(self).wf(),
            r == (tk(old(self).pending(), 1).kind == token_type),
            r ==> final(self).pending() == drop(old(self).pending(), 1),
            r ==> final(self).error_log() == old(self).error_log(),
            !r ==> final(self).pending() == old(self).pending(),
            !r ==> final(self).error_log() == old(self).error_log().push(
                expect_error(token_type, tk(old(self).pending(), 1).kind),
            ),
    {
        proof {
            self.lemma_pending();
        }
        if self.peek_token_is(&token_type) {
            self.next_token();
            true
        } else {
            self.peek_error(&token_type);
            false
        }
    }

    fn cur_token_is(&self, token_type: TokenType) -> (r: bool)
        ensures
            r == (self.cur_token.token_type == token_type),
    {
        self.cur_token.token_type == token_type
    }

    fn peek_token_is(&self, token_type: &TokenType) -> (r: bool)
        ensures
            r == (self.peek_token.token_type == *token_type),
    {
        self.peek_token.token_type == *token_type
    }

    /// The prefix rule for `token_type` applied at the current token, if
    /// there is one: an identifier starts an identifier expression.
    fn prefix_parse_fn(&self, token_type: &TokenType) -> (r: Option<Expression>)
        requires
            *token_type == self.cur_token.token_type,
        ensures
            opt_expr_view(r) == prefix_expr(self.cur_token@),
    {
        match token_type {
            TokenType::IDENT => Some(self.parse_identifier()),
            _ => None,
        }
    }

    fn parse_identifier(&self) -> (r: Expression)
        ensures
            r@ == ExpressionView::Identifier(ident_of(self.cur_token@)),
    {
        Expression::Identifier(
            Identifier { token: self.cur_token.duplicate(), value: self.cur_token.literal.clone() },
        )
    }
}

} // verus!
