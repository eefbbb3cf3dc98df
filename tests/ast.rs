use monkey::ast::{Expression, Identifier, LetStatement, Node, Program, ReturnStatement, Statement};
use monkey::token::{Token, TokenType};

#[test]
fn test_string() {
    let program = Program {
        statements: vec![Statement::LetStatement(LetStatement {
            token: Token {
                token_type: TokenType::LET,
                literal: "let".to_string(),
            },
            name: Identifier {
                token: Token {
                    token_type: TokenType::IDENT,
                    literal: "myVar".to_string(),
                },
                value: "myVar".to_string(),
            },
            value: Some(Expression::Identifier(Identifier {
                token: Token {
                    token_type: TokenType::IDENT,
                    literal: "anotherVar".to_string(),
                },
                value: "anotherVar".to_string(),
            })),
        })],
    };

    assert_eq!(
        program.to_string(),
        "let myVar = anotherVar;".to_string(),
        "unexpected, got {}",
        program.to_string()
    );
}

fn ident(name: &str) -> Identifier {
    Identifier {
        token: Token {
            token_type: TokenType::IDENT,
            literal: name.to_string(),
        },
        value: name.to_string(),
    }
}

#[test]
fn return_statement_prints_canonically() {
    let with_value = ReturnStatement {
        token: Token {
            token_type: TokenType::RETURN,
            literal: "return".to_string(),
        },
        return_value: Some(Box::new(Expression::Identifier(ident("x")))),
    };
    assert_eq!(with_value.to_string(), "return x;");
    let without = ReturnStatement {
        token: Token {
            token_type: TokenType::RETURN,
            literal: "return".to_string(),
        },
        return_value: None,
    };
    assert_eq!(without.to_string(), "return ;");
    assert_eq!(without.token_literal(), "return");
}

#[test]
fn program_prints_statements_in_order() {
    let program = Program {
        statements: vec![
            Statement::ReturnStatement(ReturnStatement {
                token: Token {
                    token_type: TokenType::RETURN,
                    literal: "return".to_string(),
                },
                return_value: Some(Box::new(Expression::Identifier(ident("a")))),
            }),
            Statement::LetStatement(LetStatement {
                token: Token {
                    token_type: TokenType::LET,
                    literal: "let".to_string(),
                },
                name: ident("b"),
                value: None,
            }),
        ],
    };
    assert_eq!(program.to_string(), "return a;let b = ;");
    assert_eq!(program.token_literal(), "return");
}

#[test]
fn empty_program_prints_nothing() {
    let program = Program { statements: vec![] };
    assert_eq!(program.to_string(), "");
    assert_eq!(program.token_literal(), "");
}

#[test]
fn identifier_node_literal_and_text() {
    let id = ident("foo");
    assert_eq!(id.token_literal(), "foo");
    assert_eq!(id.to_string(), "foo");
    let e = Expression::Identifier(ident("bar"));
    assert_eq!(e.token_literal(), "bar");
    assert_eq!(e.to_string(), "bar");
}
