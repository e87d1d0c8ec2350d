use monkey::ast::{Expression, Node, Program, Statement};
use monkey::lexer::Lexer;
use monkey::parser::Parser;

fn parse(input: &str) -> (Program, Vec<String>) {
    let l = Lexer::new(input.to_string());
    let mut p = Parser::new(l);
    let prgm = p.parse_program();
    let errors = p.errors().clone();
    (prgm, errors)
}

fn integer_value(e: &Expression) -> i64 {
    match e {
        Expression::IntegerLiteral(i) => i.value,
        _ => panic!("value not IntegerLiteral"),
    }
}

#[test]
fn test_let_statements() {
    let input = r#"
        let x = 5;
        "#;
    let l = Lexer::new(input.to_string());
    let mut p = Parser::new(l);
    let prgm = p.parse_program();
    assert_eq!(prgm.get_statements_len(), 1);
    let tests = vec!["x"];
    for (i, tt) in tests.iter().enumerate() {
        let stmt = prgm.get_statement(i);
        assert_eq!(stmt.token_literal(), String::from("let"));
        if let Some(let_stmt) = prgm.get_let_statement(i) {
            assert_eq!(let_stmt.name.value, tt.to_string());
            assert_eq!(let_stmt.name.token_literal(), tt.to_string());
        } else {
            panic!("stmt not LetStatement");
        }
    }
}

#[test]
fn test_return_statment() {
    let input = r#"
        return 5;
        return 10;
        return 993 322;
        "#;
    let l = Lexer::new(input.to_string());
    let mut p = Parser::new(l);
    let prgm = p.parse_program();
    // `return 993` ends before `322`, which then stands as a statement of its own.
    assert_eq!(prgm.get_statements_len(), 4);
    for i in 0..3 {
        let stmt = prgm.get_statement(i);
        assert_eq!(stmt.token_literal(), String::from("return"));
    }
}

#[allow(non_snake_case)]
#[test]
fn test_indentifierExpression() {
    let input = "foobar;";
    let l = Lexer::new(input.to_string());
    let mut p = Parser::new(l);
    let prgm = p.parse_program();
    assert_eq!(prgm.get_statements_len(), 1);
    let stmt: &Statement = prgm.get_statement(0);
    if let Statement::Expression(exp_stmt) = stmt {
        if let Expression::Identifier(ident) = &exp_stmt.expression {
            assert_eq!(ident.value, String::from("foobar"));
            assert_eq!(ident.token_literal(), String::from("foobar"));
        } else {
            panic!("ident not Identifier")
        }
    } else {
        panic!("stmt not ExpressionStatement");
    }
}

#[test]
fn test_parse_prefix_expressions() {
    let tests = vec![("!5;", "!", 5i64), ("-15;", "-", 15i64)];
    for (input, operator, value) in tests {
        let (prgm, errors) = parse(input);
        assert!(errors.is_empty());
        assert_eq!(prgm.get_statements_len(), 1);
        if let Statement::Expression(exp_stmt) = prgm.get_statement(0) {
            if let Expression::Prefix(p) = &exp_stmt.expression {
                assert_eq!(p.operator, operator);
                assert_eq!(integer_value(&p.right), value);
            } else {
                panic!("ident not PrefixExpression")
            }
        } else {
            panic!("stmt not ExpressionStatement");
        }
    }
}

#[test]
fn test_parse_infix_expressions() {
    let tests = vec![
        ("5 + 5;", 5i64, "+", 5i64),
        ("5 - 5;", 5, "-", 5),
        ("5 * 5;", 5, "*", 5),
        ("5 / 5;", 5, "/", 5),
        ("5 > 5;", 5, ">", 5),
        ("5 < 5;", 5, "<", 5),
        ("5 == 5;", 5, "==", 5),
        ("5 != 5;", 5, "!=", 5),
    ];
    for (input, left, operator, right) in tests {
        let (prgm, errors) = parse(input);
        assert!(errors.is_empty());
        assert_eq!(prgm.get_statements_len(), 1);
        if let Statement::Expression(exp_stmt) = prgm.get_statement(0) {
            if let Expression::Infix(e) = &exp_stmt.expression {
                assert_eq!(e.operator, operator);
                assert_eq!(integer_value(&e.left), left);
                assert_eq!(integer_value(&e.right), right);
            } else {
                panic!("ident not PrefixExpression")
            }
        } else {
            panic!("stmt not ExpressionStatement");
        }
    }
}

fn assert_renders(input: &str, expect: &str) {
    let (prgm, errors) = parse(input);
    assert!(errors.is_empty(), "{:?}", errors);
    assert_eq!(prgm.get_statements_len(), 1);
    let stmt: &Statement = prgm.get_statement(0);
    assert_eq!(stmt.to_string(), expect);
}

#[test]
fn test_parse_operator_precedence() {
    assert_renders("1 + (2 + 3) + 4", "((1 + (2 + 3)) + 4)");
}

#[test]
fn test_parse_if() {
    assert_renders("if (x < y) { x } else { y }", "if(x < y) x else y");
}

#[test]
fn test_parse_function() {
    assert_renders("fn(x, y) {x + y; }", "fn(x,y)(x + y)");
}

#[test]
fn test_parse_call() {
    assert_renders("add( 1, 2 * 3, 4 + 5);", "add(1,(2 * 3),(4 + 5))");
}

#[test]
fn precedence_ladder() {
    assert_renders("-a * b", "((-a) * b)");
    assert_renders("!-a", "(!(-a))");
    assert_renders("a + b - c", "((a + b) - c)");
    assert_renders("a * b / c", "((a * b) / c)");
    assert_renders("a + b * c", "(a + (b * c))");
    assert_renders("5 > 4 == 3 < 4", "((5 > 4) == (3 < 4))");
    assert_renders("3 + 4 * 5 == 3 * 1 + 4 * 5", "((3 + (4 * 5)) == ((3 * 1) + (4 * 5)))");
    assert_renders("a + add(b * c) + d", "((a + add((b * c))) + d)");
    assert_renders("-f(x)", "(-f(x))");
    assert_renders("true != false", "(true != false)");
}

#[test]
fn rendering_is_a_fixed_point() {
    for input in ["a + b * c", "1 + (2 + 3) + 4", "add(1, 2 * 3, -f(x)(y))", "!(true == false)"] {
        let (prgm, errors) = parse(input);
        assert!(errors.is_empty());
        let text = prgm.to_string();
        let (again, errors2) = parse(&text);
        assert!(errors2.is_empty());
        assert_eq!(again.to_string(), text);
    }
}

#[test]
fn statements_render() {
    assert_renders("let x = 5;", "let x = 5;");
    assert_renders("let y = x", "let y = x;");
    assert_renders("return a + b;", "return (a + b);");
    assert_renders("f()", "f()");
    assert_renders("fn() { }", "fn()");
}

#[test]
fn if_without_and_with_empty_else() {
    let (prgm, _) = parse("if (x) { y }");
    match prgm.get_statement(0) {
        Statement::Expression(s) => match &s.expression {
            Expression::If(f) => assert!(f.alternative.is_none()),
            _ => panic!("not an if expression"),
        },
        _ => panic!("not an expression statement"),
    }
    assert_eq!(prgm.to_string(), "ifx y");
    let (prgm, _) = parse("if (x) { y } else { }");
    match prgm.get_statement(0) {
        Statement::Expression(s) => match &s.expression {
            Expression::If(f) => assert!(f.alternative.is_some()),
            _ => panic!("not an if expression"),
        },
        _ => panic!("not an expression statement"),
    }
    assert_eq!(prgm.to_string(), "ifx y else ");
}

#[test]
fn missing_comma_in_parameters() {
    let (_, errors) = parse("fn(x y) {}");
    assert!(!errors.is_empty());
    assert_eq!(errors[0], "expected next token to be RPAREN, got IDENT instead");
}

#[test]
fn missing_prefix_rule() {
    let l = Lexer::new(String::from("+5"));
    let mut p = Parser::new(l);
    let prgm = p.parse_program();
    assert!(!p.check_errors());
    assert_eq!(p.errors()[0], "no prefix parse function for PLUS");
    // The placeholder, then `5` as a statement of its own.
    assert_eq!(prgm.get_statements_len(), 2);
    match prgm.get_statement(0) {
        Statement::Expression(s) => match &s.expression {
            Expression::Error(m) => assert_eq!(m, "no prefix parse function for PLUS"),
            _ => panic!("expected a placeholder"),
        },
        _ => panic!("not an expression statement"),
    }
}

#[test]
fn unclosed_group_and_bad_let() {
    let (_, errors) = parse("(1 + 2");
    assert_eq!(errors, vec![String::from("expected next token to be RPAREN, got EOF instead")]);
    let (prgm, errors) = parse("let = 5;");
    assert_eq!(errors[0], "expected next token to be IDENT, got ASSIGN instead");
    assert!(prgm.get_let_statement(0).is_none());
}

#[test]
fn integer_literal_limits() {
    let (prgm, errors) = parse("9223372036854775807");
    assert!(errors.is_empty());
    match prgm.get_statement(0) {
        Statement::Expression(s) => assert_eq!(integer_value(&s.expression), i64::MAX),
        _ => panic!("not an expression statement"),
    }
    let (_, errors) = parse("9223372036854775808");
    assert_eq!(errors, vec![String::from("could not parse 9223372036854775808 as integer")]);
}

#[test]
fn empty_input() {
    let (prgm, errors) = parse("");
    assert_eq!(prgm.get_statements_len(), 0);
    assert!(errors.is_empty());
    assert_eq!(prgm.to_string(), "");
}
