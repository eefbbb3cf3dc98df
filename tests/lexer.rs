use monkey::lexer::Lexer;
use monkey::token::{lookup_ident, Token, TokenType};

#[test]
fn test_next_token() {
    let input = r#"let five = 5;
let ten = 10;
let add = fn(x, y) {
x + y;
};
let result = add(five, ten);
!-/*5;
5 < 10 > 5;

if (5 < 10) {
    return true;
} else {
    return false;
}

10 == 10;
10 != 9;
"#;

    let tests: Vec<(TokenType, String)> = vec![
        (TokenType::LET, "let".to_string()),
        (TokenType::IDENT, "five".to_string()),
        (TokenType::ASSIGN, "=".to_string()),
        (TokenType::INT, "5".to_string()),
        (TokenType::SEMICOLON, ";".to_string()),
        (TokenType::LET, "let".to_string()),
        (TokenType::IDENT, "ten".to_string()),
        (TokenType::ASSIGN, "=".to_string()),
        (TokenType::INT, "10".to_string()),
        (TokenType::SEMICOLON, ";".to_string()),
        (TokenType::LET, "let".to_string()),
        (TokenType::IDENT, "add".to_string()),
        (TokenType::ASSIGN, "=".to_string()),
        (TokenType::FUNCTION, "fn".to_string()),
        (TokenType::LPAREN, "(".to_string()),
        (TokenType::IDENT, "x".to_string()),
        (TokenType::COMMA, ",".to_string()),
        (TokenType::IDENT, "y".to_string()),
        (TokenType::RPAREN, ")".to_string()),
        (TokenType::LBRACE, "{".to_string()),
        (TokenType::IDENT, "x".to_string()),
        (TokenType::PLUS, "+".to_string()),
        (TokenType::IDENT, "y".to_string()),
        (TokenType::SEMICOLON, ";".to_string()),
        (TokenType::RBRACE, "}".to_string()),
        (TokenType::SEMICOLON, ";".to_string()),
        (TokenType::LET, "let".to_string()),
        (TokenType::IDENT, "result".to_string()),
        (TokenType::ASSIGN, "=".to_string()),
        (TokenType::IDENT, "add".to_string()),
        (TokenType::LPAREN, "(".to_string()),
        (TokenType::IDENT, "five".to_string()),
        (TokenType::COMMA, ",".to_string()),
        (TokenType::IDENT, "ten".to_string()),
        (TokenType::RPAREN, ")".to_string()),
        (TokenType::SEMICOLON, ";".to_string()),
        (TokenType::BANG, "!".to_string()),
        (TokenType::MINUS, "-".to_string()),
        (TokenType::SLASH, "/".to_string()),
        (TokenType::ASTERISK, "*".to_string()),
        (TokenType::INT, "5".to_string()),
        (TokenType::SEMICOLON, ";".to_string()),
        (TokenType::INT, "5".to_string()),
        (TokenType::LT, "<".to_string()),
        (TokenType::INT, "10".to_string()),
        (TokenType::GT, ">".to_string()),
        (TokenType::INT, "5".to_string()),
        (TokenType::SEMICOLON, ";".to_string()),
        (TokenType::IF, "if".to_string()),
        (TokenType::LPAREN, "(".to_string()),
        (TokenType::INT, "5".to_string()),
        (TokenType::LT, "<".to_string()),
        (TokenType::INT, "10".to_string()),
        (TokenType::RPAREN, ")".to_string()),
        (TokenType::LBRACE, "{".to_string()),
        (TokenType::RETURN, "return".to_string()),
        (TokenType::TRUE, "true".to_string()),
        (TokenType::SEMICOLON, ";".to_string()),
        (TokenType::RBRACE, "}".to_string()),
        (TokenType::ELSE, "else".to_string()),
        (TokenType::LBRACE, "{".to_string()),
        (TokenType::RETURN, "return".to_string()),
        (TokenType::FALSE, "false".to_string()),
        (TokenType::SEMICOLON, ";".to_string()),
        (TokenType::RBRACE, "}".to_string()),
        (TokenType::INT, "10".to_string()),
        (TokenType::EQ, "==".to_string()),
        (TokenType::INT, "10".to_string()),
        (TokenType::SEMICOLON, ";".to_string()),
        (TokenType::INT, "10".to_string()),
        (TokenType::NotEq, "!=".to_string()),
        (TokenType::INT, "9".to_string()),
        (TokenType::SEMICOLON, ";".to_string()),
        (TokenType::EOF, "".to_string()),
    ];

    let mut l = Lexer::new(input);

    for tt in tests {
        let tok = l.next_token();

        let expected_type = tt.0;
        let expected_literal = tt.1;

        println!("Token: {:?}", tok);
        assert_eq!(tok.token_type, expected_type);
        assert_eq!(tok.literal, expected_literal);
    }
}

fn all_tokens(input: &str) -> Vec<Token> {
    let mut l = Lexer::new(input);
    let mut out = Vec::new();
    loop {
        let tok = l.next_token();
        if tok.token_type == TokenType::EOF {
            return out;
        }
        out.push(tok);
    }
}

fn kinds(input: &str) -> Vec<(TokenType, String)> {
    all_tokens(input)
        .into_iter()
        .map(|t| (t.token_type, t.literal))
        .collect()
}

#[test]
fn relexing_joined_literals_gives_same_tokens() {
    for input in [
        "let five=5;x+y==10!=9",
        "if(a<b){return true;}else{return false;}",
        "abc123 def\t!x\r\n= =",
        "fn(x,y){x*y/2-1}",
    ] {
        let first = all_tokens(input);
        let joined = first
            .iter()
            .map(|t| t.literal.clone())
            .collect::<Vec<String>>()
            .join(" ");
        assert_eq!(kinds(&joined), kinds(input), "input {:?}", input);
    }
}

#[test]
fn end_of_input_repeats() {
    let mut l = Lexer::new("x");
    assert_eq!(l.next_token().token_type, TokenType::IDENT);
    for _ in 0..5 {
        let tok = l.next_token();
        assert_eq!(tok.token_type, TokenType::EOF);
        assert_eq!(tok.literal, "");
    }
}

#[test]
fn two_character_operators_are_greedy() {
    assert_eq!(kinds("=="), vec![(TokenType::EQ, "==".to_string())]);
    assert_eq!(kinds("!="), vec![(TokenType::NotEq, "!=".to_string())]);
    assert_eq!(
        kinds("= ="),
        vec![
            (TokenType::ASSIGN, "=".to_string()),
            (TokenType::ASSIGN, "=".to_string())
        ]
    );
    assert_eq!(
        kinds("!!="),
        vec![
            (TokenType::BANG, "!".to_string()),
            (TokenType::NotEq, "!=".to_string())
        ]
    );
}

#[test]
fn empty_and_blank_input_give_end_of_input() {
    assert_eq!(kinds(""), vec![]);
    assert_eq!(kinds(" \t\r\n  "), vec![]);
    let mut l = Lexer::new("");
    let tok = l.next_token();
    assert_eq!(tok.token_type, TokenType::EOF);
    assert_eq!(tok.literal, "");
}

#[test]
fn unknown_characters_are_illegal_tokens() {
    assert_eq!(
        kinds("a@b"),
        vec![
            (TokenType::IDENT, "a".to_string()),
            (TokenType::ILLEGAL, "@".to_string()),
            (TokenType::IDENT, "b".to_string())
        ]
    );
    assert_eq!(kinds("€"), vec![(TokenType::ILLEGAL, "€".to_string())]);
    assert_eq!(kinds("\0"), vec![(TokenType::ILLEGAL, "\0".to_string())]);
}

#[test]
fn non_ascii_letters_form_identifiers() {
    assert_eq!(kinds("café"), vec![(TokenType::IDENT, "café".to_string())]);
    assert_eq!(
        kinds("λx"),
        vec![(TokenType::IDENT, "λx".to_string())]
    );
}

#[test]
fn runs_are_maximal() {
    assert_eq!(
        kinds("abc123def"),
        vec![
            (TokenType::IDENT, "abc".to_string()),
            (TokenType::INT, "123".to_string()),
            (TokenType::IDENT, "def".to_string())
        ]
    );
    assert_eq!(
        kinds("lettuce let"),
        vec![
            (TokenType::IDENT, "lettuce".to_string()),
            (TokenType::LET, "let".to_string())
        ]
    );
}

#[test]
fn keywords_are_looked_up() {
    assert_eq!(lookup_ident("fn".to_string()), TokenType::FUNCTION);
    assert_eq!(lookup_ident("let".to_string()), TokenType::LET);
    assert_eq!(lookup_ident("true".to_string()), TokenType::TRUE);
    assert_eq!(lookup_ident("false".to_string()), TokenType::FALSE);
    assert_eq!(lookup_ident("if".to_string()), TokenType::IF);
    assert_eq!(lookup_ident("else".to_string()), TokenType::ELSE);
    assert_eq!(lookup_ident("return".to_string()), TokenType::RETURN);
    assert_eq!(lookup_ident("returns".to_string()), TokenType::IDENT);
    assert_eq!(lookup_ident("Let".to_string()), TokenType::IDENT);
}

#[test]
fn cursor_methods() {
    let mut l = Lexer::new("ab 12");
    assert_eq!(l.peek_char(), 'b');
    assert_eq!(l.get_substring(0, 2), "ab");
    assert_eq!(l.read_identifier(), "ab");
    l.skip_whitespace();
    assert_eq!(l.read_number(), "12");
    assert_eq!(l.peek_char(), '\0');
    l.read_char();
    assert_eq!(l.next_token().token_type, TokenType::EOF);
    let tok = l.new_token(TokenType::PLUS, '+');
    assert_eq!(tok.literal, "+");
    assert_eq!(tok.token_type, TokenType::PLUS);
}
