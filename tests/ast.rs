use monkey::ast::{
    CallExpression, Expression, Identifier, InfixExpression, IntegerLiteral, LetStatement, Node,
    PrefixExpression, Program, Statement,
};
use monkey::precedence::{get_precedence, CALL, EQUALS, LESSGREATER, LOWEST, PRODUCT, SUM};
use monkey::token::{Token, TokenType};

fn ident(name: &str) -> Identifier {
    Identifier::new(Token::new(TokenType::IDENT, String::from(name)), String::from(name))
}

#[test]
fn test_string() {
    let mut program = Program::new();
    let token = Token::new(TokenType::LET, String::from("let"));
    let name = Identifier::new(
        Token::new(TokenType::IDENT, String::from("myVar")),
        String::from("myVar"),
    );
    let value = Identifier::new(
        Token::new(TokenType::IDENT, String::from("anotherVar")),
        String::from("anotherVar"),
    );
    let letstmt = LetStatement::new(token, name, Expression::Identifier(value));
    program.statements.push(Statement::Let(letstmt));
    assert_eq!(program.to_string(), "let myVar = anotherVar;");
    assert_eq!(program.token_literal(), "let");
}

#[test]
fn built_nodes_render() {
    let five = Expression::IntegerLiteral(IntegerLiteral::new(
        Token::new(TokenType::INT, String::from("5")),
        5,
    ));
    let neg = Expression::Prefix(Box::new(PrefixExpression::new(
        Token::new(TokenType::MINUS, String::from("-")),
        String::from("-"),
        five,
    )));
    let sum = Expression::Infix(Box::new(InfixExpression::new(
        Token::new(TokenType::PLUS, String::from("+")),
        Expression::Identifier(ident("a")),
        String::from("+"),
        neg,
    )));
    assert_eq!(sum.to_string(), "(a + (-5))");
    assert_eq!(sum.token_literal(), "+");
    let call = Expression::Call(Box::new(CallExpression::new(
        Token::new(TokenType::LPAREN, String::from("(")),
        Expression::Identifier(ident("f")),
        vec![sum, Expression::Identifier(ident("b"))],
    )));
    assert_eq!(call.to_string(), "f((a + (-5)),b)");
    let empty = Program::new();
    assert_eq!(empty.token_literal(), "");
}

#[test]
fn precedence_table() {
    assert_eq!(get_precedence(TokenType::EQ), EQUALS);
    assert_eq!(get_precedence(TokenType::NOT_EQ), EQUALS);
    assert_eq!(get_precedence(TokenType::LT), LESSGREATER);
    assert_eq!(get_precedence(TokenType::GT), LESSGREATER);
    assert_eq!(get_precedence(TokenType::PLUS), SUM);
    assert_eq!(get_precedence(TokenType::MINUS), SUM);
    assert_eq!(get_precedence(TokenType::ASTERISK), PRODUCT);
    assert_eq!(get_precedence(TokenType::SLASH), PRODUCT);
    assert_eq!(get_precedence(TokenType::LPAREN), CALL);
    assert_eq!(get_precedence(TokenType::IDENT), LOWEST);
    assert_eq!(get_precedence(TokenType::SEMICOLON), LOWEST);
}
