use vstd::prelude::*;
use vstd::string::StringExecFns;
use crate::token::{Token, TokenView};

verus! {

/// The mathematical value of an identifier node.
pub struct IdentifierView {
    pub token: TokenView,
    pub value: Seq<char>,
}

/// The mathematical value of an expression node.
pub enum ExpressionView {
    Identifier(IdentifierView),
}

/// The mathematical value of a statement node.
pub enum StatementView {
    Let { token: TokenView, name: IdentifierView, value: Option<ExpressionView> },
    Return { token: TokenView, value: Option<ExpressionView> },
    Expression { token: TokenView, expression: Option<ExpressionView> },
}

impl ExpressionView {
    /// The text of the token the expression starts with.
    pub open spec fn literal(self) -> Seq<char> {
        match self {
            ExpressionView::Identifier(id) => id.token.text,
        }
    }

    /// The canonical surface form of the expression.
    pub open spec fn text(self) -> Seq<char> {
        match self {
            ExpressionView::Identifier(id) => id.value,
        }
    }
}

/// The surface form of an optional expression: empty where there is none.
pub open spec fn opt_text(e: Option<ExpressionView>) -> Seq<char> {
    match e {
        Some(v) => v.text(),
        None => Seq::empty(),
    }
}

impl StatementView {
    /// The text of the token the statement starts with.
    pub open spec fn literal(self) -> Seq<char> {
        match self {
            StatementView::Let { token, .. } => token.text,
            StatementView::Return { token, .. } => token.text,
            StatementView::Expression { token, .. } => token.text,
        }
    }

    /// The canonical surface form: `let <name> = <value>;`,
    /// `return <value>;` or the bare expression.
    pub open spec fn text(self) -> Seq<char> {
        match self {
            StatementView::Let { token, name, value } => token.text + " "@ + name.value + " = "@
                + opt_text(value) + ";"@,
            StatementView::Return { token, value } => token.text + " "@ + opt_text(value) + ";"@,
            StatementView::Expression { expression, .. } => opt_text(expression),
        }
    }
}

/// The surface forms of the statements, one after the other.
pub open spec fn program_text(ss: Seq<StatementView>) -> Seq<char>
    decreases ss.len(),
{
    if ss.len() == 0 {
        Seq::empty()
    } else {
        program_text(ss.drop_last()) + ss.last().text()
    }
}

/// A node of the syntax tree: it can name the text of its first token and
/// print itself in canonical form.
pub trait Node {
    spec fn literal_spec(&self) -> Seq<char>;

    spec fn text_spec(&self) -> Seq<char>;

    fn token_literal(&self) -> (r: String)
        ensures
            r@ == self.literal_spec(),
    ;

    fn to_string(&self) -> (r: String)
        ensures
            r@ == self.text_spec(),
    ;
}

/// A name, both as what a `let` binds and as an expression.
#[derive(Debug, Clone)]
pub struct Identifier {
    pub token: Token,
    pub value: String,
}

impl View for Identifier {
    type V = IdentifierView;

    open spec fn view(&self) -> IdentifierView {
        IdentifierView { token: self.token@, value: self.value@ }
    }
}

impl Node for Identifier {
    open spec fn literal_spec(&self) -> Seq<char> {
        self.token.literal@
    }

    open spec fn text_spec(&self) -> Seq<char> {
        self.value@
    }

    fn token_literal(&self) -> (r: String) {
        self.token.literal.clone()
    }

    fn to_string(&self) -> (r: String) {
        self.value.clone()
    }
}

/// An expression node.
#[derive(Debug, Clone)]
pub enum Expression {
    Identifier(Identifier),
}

impl View for Expression {
    type V = ExpressionView;

    open spec fn view(&self) -> ExpressionView {
        match self {
            Expression::Identifier(id) => ExpressionView::Identifier(id@),
        }
    }
}

impl Node for Expression {
    open spec fn literal_spec(&self) -> Seq<char> {
        self@.literal()
    }

    open spec fn text_spec(&self) -> Seq<char> {
        self@.text()
    }

    fn token_literal(&self) -> (r: String) {
        match self {
            Expression::Identifier(id) => id.token.literal.clone(),
        }
    }

    fn to_string(&self) -> (r: String) {
        match self {
            Expression::Identifier(id) => id.value.clone(),
        }
    }
}

/// The value of an optional expression.
pub open spec fn opt_view(e: Option<Expression>) -> Option<ExpressionView> {
    match e {
        Some(v) => Some(v@),
        None => None,
    }
}

/// Appends the surface form of an optional expression to `out`.
fn append_opt(out: &mut String, e: &Option<Expression>)
    ensures
        final(out)@ == old(out)@ + opt_text(opt_view(*e)),
{
    match e {
        Some(v) => {
            let t = v.to_string();
            out.append(t.as_str());
        },
        None => {
            assert(out@ + Seq::<char>::empty() =~= out@);
        },
    }
}

/// `let <name> = <value>;`
#[derive(Debug, Clone)]
pub struct LetStatement {
    pub token: Token,
    pub name: Identifier,
    pub value: Option<Expression>,
}

impl View for LetStatement {
    type V = StatementView;

    open spec fn view(&self) -> StatementView {
        StatementView::Let { token: self.token@, name: self.name@, value: opt_view(self.value) }
    }
}

impl Node for LetStatement {
    open spec fn literal_spec(&self) -> Seq<char> {
        self@.literal()
    }

    open spec fn text_spec(&self) -> Seq<char> {
        self@.text()
    }

    fn token_literal(&self) -> (r: String) {
        self.token.literal.clone()
    }

    fn to_string(&self) -> (r: String) {
        let mut out = self.token_literal();
        out.append(" ");
        out.append(self.name.value.as_str());
        out.append(" = ");
        append_opt(&mut out, &self.value);
        out.append(";");
        out
    }
}

/// `return <value>;`
#[derive(Debug, Clone)]
pub struct ReturnStatement {
    pub token: Token,
    pub return_value: Option<Box<Expression>>,
}

/// The value of an optional boxed expression.
pub open spec fn opt_box_view(e: Option<Box<Expression>>) -> Option<ExpressionView> {
    match e {
        Some(v) => Some((*v)@),
        None => None,
    }
}

impl View for ReturnStatement {
    type V = StatementView;

    open spec fn view(&self) -> StatementView {
        StatementView::Return { token: self.token@, value: opt_box_view(self.return_value) }
    }
}

impl Node for ReturnStatement {
    open spec fn literal_spec(&self) -> Seq<char> {
        self@.literal()
    }

    open spec fn text_spec(&self) -> Seq<char> {
        self@.text()
    }

    fn token_literal(&self) -> (r: String) {
        self.token.literal.clone()
    }

    fn to_string(&self) -> (r: String) {
        let mut out = self.token_literal();
        out.append(" ");
        match &self.return_value {
            Some(rv) => {
                let t = rv.to_string();
                out.append(t.as_str());
            },
            None => {
                assert(out@ + Seq::<char>::empty() =~= out@);
            },
        }
        out.append(";");
        out
    }
}

/// An expression standing as a statement.
#[derive(Debug, Clone)]
pub struct ExpressionStatement {
    pub token: Token,
    pub expression: Option<Expression>,
}

impl View for ExpressionStatement {
    type V = StatementView;

    open spec fn view(&self) -> StatementView {
        StatementView::Expression { token: self.token@, expression: opt_view(self.expression) }
    }
}

impl Node for ExpressionStatement {
    open spec fn literal_spec(&self) -> Seq<char> {
        self@.literal()
    }

    open spec fn text_spec(&self) -> Seq<char> {
        self@.text()
    }

    fn token_literal(&self) -> (r: String) {
        self.token.literal.clone()
    }

    fn to_string(&self) -> (r: String) {
        let mut out = String::new();
        append_opt(&mut out, &self.expression);
        assert(out@ =~= opt_text(opt_view(self.expression)));
        out
    }
}

/// A statement node.
#[derive(Debug, Clone)]
pub enum Statement {
    LetStatement(LetStatement),
    ReturnStatement(ReturnStatement),
    ExpressionStatement(ExpressionStatement),
}

impl View for Statement {
    type V = StatementView;

    open spec fn view(&self) -> StatementView {
        match self {
            Statement::LetStatement(s) => s@,
            Statement::ReturnStatement(s) => s@,
            Statement::ExpressionStatement(s) => s@,
        }
    }
}

impl Node for Statement {
    open spec fn literal_spec(&self) -> Seq<char> {
        self@.literal()
    }

    open spec fn text_spec(&self) -> Seq<char> {
        self@.text()
    }

    fn token_literal(&self) -> (r: String) {
        match self {
            Statement::LetStatement(s) => s.token_literal(),
            Statement::ReturnStatement(s) => s.token_literal(),
            Statement::ExpressionStatement(s) => s.token_literal(),
        }
    }

    fn to_string(&self) -> (r: String) {
        match self {
            Statement::LetStatement(s) => s.to_string(),
            Statement::ReturnStatement(s) => s.to_string(),
            Statement::ExpressionStatement(s) => s.to_string(),
        }
    }
}

/// The root of the tree: the statements in source order.
#[derive(Debug, Clone)]
pub struct Program {
    pub statements: Vec<Statement>,
}

impl View for Program {
    type V = Seq<StatementView>;

    open spec fn view(&self) -> Seq<StatementView> {
        self.statements@.map_values(|s: Statement| s@)
    }
}

impl Node for Program {
    open spec fn literal_spec(&self) -> Seq<char> {
        if self@.len() > 0 {
            self@[0].literal()
        } else {
            Seq::empty()
        }
    }

    open spec fn text_spec(&self) -> Seq<char> {
        program_text(self@)
    }

    fn token_literal(&self) -> (r: String) {
        if self.statements.len() > 0 {
            self.statements[0].token_literal()
        } else {
            String::new()
        }
    }

    fn to_string(&self) -> (r: String) {
        let mut out = String::new();
        let mut i: usize = 0;
        while i < self.statements.len()
            invariant
                i <= self.statements.len(),
                out@ == program_text(self@.take(i as int)),
            decreases self.statements.len() - i,
        {
            let t = self.statements[i].to_string();
            out.append(t.as_str());
            assert(self@.take(i + 1).drop_last() =~= self@.take(i as int));
            i = i + 1;
        }
        assert(self@.take(i as int) =~= self@);
        out
    }
}

} // verus!
