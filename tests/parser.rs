use monkey::ast::{Expression, Node, Statement};
use monkey::lexer::Lexer;
use monkey::parser::{Parser, Precedence};
use monkey::token::TokenType;

fn check_parser_errors(p: &Parser) {
    let error_count = p.errors().len();
    if error_count == 0 {
        return;
    }

    println!("parser has {} errors", error_count);
    for msg in p.errors() {
        println!("parser error: {}", msg);
    }
    assert!(false);
}

#[test]
fn test_let_statements() {
    let input = r#"
let x = 5;
let y = 10;
let foo = 838383;
"#;

    let l = Lexer::new(input);
    let mut p = Parser::new(l);

    let program = p.parse_program();
    check_parser_errors(&p);

    if program.statements.len() != 3 {
        println!(
            "program statements does not container 3 statements, got {}",
            program.statements.len()
        );
    }

    let tests = vec!["x", "y", "foobar"];

    for (i, item) in tests.iter().enumerate() {
        let stmt = program.statements.get(i).unwrap();
        if !test_let_statement(stmt, item) {
            return;
        }
    }
}

fn test_let_statement(stmt: &Statement, name: &str) -> bool {
    if stmt.token_literal() == "let" {
        println!("TokenLiteral not 'let', got {}", stmt.token_literal());
        return false;
    }

    if let Statement::LetStatement(ls) = stmt {
        if ls.name.value != name {
            println!(
                "LetStatement.Name.Value not {}, got {}",
                name, ls.name.value
            );
            return false;
        }
        if ls.name.token_literal() != name {
            println!(
                "LetStatement.Name.TokenLiteral not {} got {}",
                name,
                ls.name.token_literal()
            );
            return false;
        }
        return true;
    } else {
        println!("statement is not LetStatement");
        return false;
    }
}

#[test]
fn test_return_statements() {
    let input = r#"
return 5;
return 10;
return 993322;
"#;

    let l = Lexer::new(input);
    let mut p = Parser::new(l);

    let program = p.parse_program();
    check_parser_errors(&p);

    assert_eq!(
        program.statements.len(),
        3,
        "program statements does not contain 3 statements, got {}",
        program.statements.len()
    );

    for stmt in program.statements {
        let returnstmt = match stmt {
            Statement::ReturnStatement(rs) => rs,
            _ => {
                assert!(false, "statement is not a return statement");
                continue;
            }
        };
        if returnstmt.token_literal() != "return" {
            assert!(
                false,
                "return statement literal not 'return', got {}",
                returnstmt.token_literal()
            );
            continue;
        }
    }
}

#[test]
fn test_identifier_expression() {
    let input = "foobar;";
    let l = Lexer::new(input);
    let mut p = Parser::new(l);
    let program = p.parse_program();
    check_parser_errors(&p);

    assert_eq!(
        1,
        program.statements.len(),
        "Program has not enough statements, got {}",
        program.statements.len()
    );

    if let Statement::ExpressionStatement(mut es) = program.statements.get(0).unwrap().clone() {
        #[allow(irrefutable_let_patterns)]
        if let Expression::Identifier(id) = es.expression.as_mut().unwrap() {
            assert_eq!(
                &id.value, "foobar",
                "ident value not {}, got {}",
                "foobar", &id.value
            );
            assert_eq!(
                &id.token_literal(),
                "foobar",
                "ident token literal not {}, got {}",
                "foobar",
                &id.token_literal()
            );
        } else {
            assert!(false, "exp not Identifier");
        }
    } else {
        assert!(false, "program statements [0] is not ExpressionStatement");
    }
}

fn parse(input: &str) -> (Vec<Statement>, Vec<String>) {
    let mut p = Parser::new(Lexer::new(input));
    let program = p.parse_program();
    (program.statements, p.errors())
}

#[test]
fn let_statement_shape() {
    let (stmts, errors) = parse("let x = 5;");
    assert!(errors.is_empty());
    assert_eq!(stmts.len(), 1);
    match &stmts[0] {
        Statement::LetStatement(ls) => {
            assert_eq!(ls.name.value, "x");
            assert_eq!(ls.token.literal, "let");
            assert!(ls.value.is_none());
        }
        other => panic!("not a let statement: {:?}", other),
    }
}

#[test]
fn let_without_assign_is_diagnosed() {
    let (stmts, errors) = parse("let x 5;");
    assert_eq!(
        errors,
        vec!["expected next token to be ASSIGN, got INT instead".to_string()]
    );
    assert!(stmts.is_empty());
}

#[test]
fn let_without_name_is_diagnosed() {
    let (stmts, errors) = parse("let = 5;");
    assert_eq!(
        errors,
        vec!["expected next token to be IDENT, got ASSIGN instead".to_string()]
    );
    assert!(stmts.is_empty());
}

#[test]
fn return_statement_shape() {
    let (stmts, errors) = parse("return 5;\nreturn 10;\nreturn 993322;\n");
    assert!(errors.is_empty());
    assert_eq!(stmts.len(), 3);
    for s in &stmts {
        match s {
            Statement::ReturnStatement(rs) => {
                assert_eq!(rs.token_literal(), "return");
                assert!(rs.return_value.is_none());
            }
            other => panic!("not a return statement: {:?}", other),
        }
    }
}

#[test]
fn identifier_expression_shape() {
    let (stmts, errors) = parse("foobar;");
    assert!(errors.is_empty());
    assert_eq!(stmts.len(), 1);
    match &stmts[0] {
        Statement::ExpressionStatement(es) => match &es.expression {
            Some(Expression::Identifier(id)) => {
                assert_eq!(id.value, "foobar");
                assert_eq!(id.token.token_type, TokenType::IDENT);
            }
            None => panic!("no expression"),
        },
        other => panic!("not an expression statement: {:?}", other),
    }
}

#[test]
fn malformed_let_does_not_stop_parsing() {
    let (stmts, errors) = parse("let = 5;\nreturn 10;");
    assert!(!errors.is_empty());
    assert_eq!(stmts.len(), 1);
    assert!(matches!(&stmts[0], Statement::ReturnStatement(_)));
    let (stmts, errors) = parse("let x 5;\nreturn 10;\nlet y = z;");
    assert_eq!(errors.len(), 1);
    assert_eq!(stmts.len(), 2);
    assert!(matches!(&stmts[0], Statement::ReturnStatement(_)));
    assert!(matches!(&stmts[1], Statement::LetStatement(_)));
}

#[test]
fn expression_without_prefix_rule_is_diagnosed() {
    let (stmts, errors) = parse("5;");
    assert_eq!(
        errors,
        vec!["no prefix parse function for INT found".to_string()]
    );
    assert_eq!(stmts.len(), 1);
    match &stmts[0] {
        Statement::ExpressionStatement(es) => assert!(es.expression.is_none()),
        other => panic!("not an expression statement: {:?}", other),
    }
}

#[test]
fn empty_source_gives_empty_program() {
    let (stmts, errors) = parse("");
    assert!(stmts.is_empty());
    assert!(errors.is_empty());
    let (stmts, errors) = parse("  \n\t ");
    assert!(stmts.is_empty());
    assert!(errors.is_empty());
}

#[test]
fn statement_without_semicolon_ends_at_end_of_input() {
    let (stmts, errors) = parse("return x");
    assert!(errors.is_empty());
    assert_eq!(stmts.len(), 1);
    let (stmts, errors) = parse("let a = b");
    assert!(errors.is_empty());
    assert_eq!(stmts.len(), 1);
    let (stmts, errors) = parse("a b");
    assert!(errors.is_empty());
    assert_eq!(stmts.len(), 2);
}

#[test]
fn parsed_program_prints_canonically() {
    let mut p = Parser::new(Lexer::new("let x = 5; return y; z;"));
    let program = p.parse_program();
    assert_eq!(program.to_string(), "let x = ;return ;z");
}

#[test]
fn parse_expression_at_identifier() {
    let mut p = Parser::new(Lexer::new("abc"));
    match p.parse_expression(Precedence::LOWEST) {
        Some(Expression::Identifier(id)) => assert_eq!(id.value, "abc"),
        None => panic!("no expression"),
    }
    assert!(p.errors().is_empty());
    let mut p = Parser::new(Lexer::new("("));
    assert!(p.parse_expression(Precedence::LOWEST).is_none());
    assert_eq!(
        p.errors(),
        vec!["no prefix parse function for LPAREN found".to_string()]
    );
}

#[test]
fn peek_error_records_lookahead_kind() {
    let mut p = Parser::new(Lexer::new("let x"));
    p.peek_error(&TokenType::SEMICOLON);
    assert_eq!(
        p.errors(),
        vec!["expected next token to be SEMICOLON, got IDENT instead".to_string()]
    );
    p.next_token();
    p.peek_error(&TokenType::NotEq);
    assert_eq!(p.errors().len(), 2);
    assert_eq!(
        p.errors()[1],
        "expected next token to be NotEq, got EOF instead"
    );
}
