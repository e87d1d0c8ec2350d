use monkey::lexer::{u8to_String, Lexer};
use monkey::token::{Token, TokenType};

#[test]
fn test_token() {
    let input = String::from("=+(){},;");
    let tests = vec![
        TokenType::ASSIGN,
        TokenType::PLUS,
        TokenType::LPAREN,
        TokenType::RPAREN,
        TokenType::LBRACE,
        TokenType::RBRACE,
        TokenType::COMMA,
        TokenType::SEMICOLON,
        TokenType::EOF,
    ];
    let mut l = Lexer::new(input);
    for tt in tests {
        let tok = l.next_token();
        assert_eq!(tok.typ, tt);
    }
}

#[test]
fn test_next_token() {
        let input = String::from(
            r#"let five = 5;
        let ten = 10;
        let add = fn(x,y) {
          x + y ;
        };
        let result = add(five, ten);
        "#,
        );
        let tests = vec![
            Token::new(TokenType::LET, String::from("let")),
            Token::new(TokenType::IDENT, String::from("five")),
            Token::new(TokenType::ASSIGN, String::from("=")),
            Token::new(TokenType::INT, String::from("5")),
            Token::new(TokenType::SEMICOLON, String::from(";")),
            Token::new(TokenType::LET, String::from("let")),
            Token::new(TokenType::IDENT, String::from("ten")),
            Token::new(TokenType::ASSIGN, String::from("=")),
            Token::new(TokenType::INT, String::from("10")),
            Token::new(TokenType::SEMICOLON, String::from(";")),
            Token::new(TokenType::LET, String::from("let")),
            Token::new(TokenType::IDENT, String::from("add")),
            Token::new(TokenType::ASSIGN, String::from("=")),
            Token::new(TokenType::FUNCTION, String::from("fn")),
            Token::new(TokenType::LPAREN, String::from("(")),
            Token::new(TokenType::IDENT, String::from("x")),
            Token::new(TokenType::COMMA, String::from(",")),
            Token::new(TokenType::IDENT, String::from("y")),
            Token::new(TokenType::RPAREN, String::from(")")),
            Token::new(TokenType::LBRACE, String::from("{")),
            Token::new(TokenType::IDENT, String::from("x")),
            Token::new(TokenType::PLUS, String::from("+")),
            Token::new(TokenType::IDENT, String::from("y")),
            Token::new(TokenType::SEMICOLON, String::from(";")),
            Token::new(TokenType::RBRACE, String::from("}")),
            Token::new(TokenType::SEMICOLON, String::from(";")),
            Token::new(TokenType::LET, String::from("let")),
            Token::new(TokenType::IDENT, String::from("result")),
            Token::new(TokenType::ASSIGN, String::from("=")),
            Token::new(TokenType::IDENT, String::from("add")),
            Token::new(TokenType::LPAREN, String::from("(")),
            Token::new(TokenType::IDENT, String::from("five")),
            Token::new(TokenType::COMMA, String::from(",")),
            Token::new(TokenType::IDENT, String::from("ten")),
            Token::new(TokenType::RPAREN, String::from(")")),
            Token::new(TokenType::SEMICOLON, String::from(";")),
            Token::new(TokenType::EOF, String::from("")),
        ];
        let mut l = Lexer::new(input);
    for tt in tests {
        let tok = l.next_token();
        assert_eq!(tok, tt);
    }
}

#[allow(non_snake_case)]
#[test]
fn test_u8to_String() {
    let r = u8to_String(b'=');
    let l = String::from("=");
    assert_eq!(l, r);
}

fn kinds(input: &str) -> Vec<TokenType> {
    let mut l = Lexer::new(input.to_string());
    let mut out = Vec::new();
    loop {
        let t = l.next_token();
        out.push(t.typ);
        if t.typ == TokenType::EOF {
            break;
        }
    }
    out
}

#[test]
fn let_statement_tokens() {
    let mut l = Lexer::new(String::from("let five = 5;"));
    let expected = vec![
        Token::new(TokenType::LET, String::from("let")),
        Token::new(TokenType::IDENT, String::from("five")),
        Token::new(TokenType::ASSIGN, String::from("=")),
        Token::new(TokenType::INT, String::from("5")),
        Token::new(TokenType::SEMICOLON, String::from(";")),
        Token::new(TokenType::EOF, String::from("")),
    ];
    for e in expected {
        assert_eq!(l.next_token(), e);
    }
}

#[test]
fn operators_one_token_each() {
    assert_eq!(
        kinds("!-/*<>+,;(){}"),
        vec![
            TokenType::BANG,
            TokenType::MINUS,
            TokenType::SLASH,
            TokenType::ASTERISK,
            TokenType::LT,
            TokenType::GT,
            TokenType::PLUS,
            TokenType::COMMA,
            TokenType::SEMICOLON,
            TokenType::LPAREN,
            TokenType::RPAREN,
            TokenType::LBRACE,
            TokenType::RBRACE,
            TokenType::EOF,
        ]
    );
    assert_eq!(kinds("++"), vec![TokenType::PLUS, TokenType::PLUS, TokenType::EOF]);
}

#[test]
fn two_byte_operators() {
    let mut l = Lexer::new(String::from("10 == 10; 10 != 9; !x = y"));
    let expected = vec![
        Token::new(TokenType::INT, String::from("10")),
        Token::new(TokenType::EQ, String::from("==")),
        Token::new(TokenType::INT, String::from("10")),
        Token::new(TokenType::SEMICOLON, String::from(";")),
        Token::new(TokenType::INT, String::from("10")),
        Token::new(TokenType::NOT_EQ, String::from("!=")),
        Token::new(TokenType::INT, String::from("9")),
        Token::new(TokenType::SEMICOLON, String::from(";")),
        Token::new(TokenType::BANG, String::from("!")),
        Token::new(TokenType::IDENT, String::from("x")),
        Token::new(TokenType::ASSIGN, String::from("=")),
        Token::new(TokenType::IDENT, String::from("y")),
        Token::new(TokenType::EOF, String::from("")),
    ];
    for e in expected {
        assert_eq!(l.next_token(), e);
    }
}

#[test]
fn keywords_and_identifiers() {
    assert_eq!(
        kinds("fn let true false if else return foo_bar"),
        vec![
            TokenType::FUNCTION,
            TokenType::LET,
            TokenType::TRUE,
            TokenType::FALSE,
            TokenType::IF,
            TokenType::ELSE,
            TokenType::RETURN,
            TokenType::IDENT,
            TokenType::EOF,
        ]
    );
    assert_eq!(TokenType::lookup_ident("return"), TokenType::RETURN);
    assert_eq!(TokenType::lookup_ident("returns"), TokenType::IDENT);
}

#[test]
fn illegal_bytes_and_end_of_input() {
    let mut l = Lexer::new(String::from("@ 5"));
    assert_eq!(l.next_token(), Token::new(TokenType::ILLEGAL, String::from("@")));
    assert_eq!(l.next_token(), Token::new(TokenType::INT, String::from("5")));
    for _ in 0..3 {
        assert_eq!(l.next_token(), Token::new(TokenType::EOF, String::from("")));
    }
    assert_eq!(kinds(""), vec![TokenType::EOF]);
    assert_eq!(kinds(" \t\r\n"), vec![TokenType::EOF]);
}

#[test]
fn digits_then_letters_split() {
    let mut l = Lexer::new(String::from("12ab"));
    assert_eq!(l.next_token(), Token::new(TokenType::INT, String::from("12")));
    assert_eq!(l.next_token(), Token::new(TokenType::IDENT, String::from("ab")));
}
