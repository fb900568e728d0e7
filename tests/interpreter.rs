use fire_ferrets::ast::{Expr, Lit};
use fire_ferrets::interpreter::Interpreter;
use fire_ferrets::token::TokenKind;
use fire_ferrets::value::Value;

fn test_expr(input: Expr, expected: Value) {
    let mut interpreter = Interpreter::new();
    let actual = interpreter.visit_expr(&input);
    assert!(actual.is_ok());
    assert_eq!(actual.unwrap(), expected);
}

#[test]
fn test_integer_literal() {
    let input = Expr::Literal(Lit::Int(5));
    let expected = Value::Int(5);
    test_expr(input, expected);
}

#[test]
fn test_boolean_literal() {
    let input = Expr::Literal(Lit::Bool(true));
    let expected = Value::Bool(true);
    test_expr(input, expected);
    let input = Expr::Literal(Lit::Bool(false));
    let expected = Value::Bool(false);
    test_expr(input, expected);
}

#[test]
fn test_string_literal() {
    let input = Expr::Literal(Lit::Str("hello".to_string()));
    let expected = Value::Str("hello".to_string());
    test_expr(input, expected);
}

#[test]
fn test_binary_op() {
    let input = Expr::BinaryOp(
        TokenKind::Plus,
        Box::new(Expr::Literal(Lit::Int(5))),
        Box::new(Expr::Literal(Lit::Int(10))),
    );
    let expected = Value::Int(15);
    test_expr(input, expected);
}

#[test]
fn test_unary_op() {
    let input = Expr::UnaryOp(TokenKind::Minus, Box::new(Expr::Literal(Lit::Int(5))));
    let expected = Value::Int(-5);
    test_expr(input, expected);
}

#[test]
fn test_integer_equals() {
    let expected = Value::Int(5);
    let actual = Value::Int(5);
    assert_eq!(actual, expected);
    assert_ne!(actual, Value::Int(8));
}

#[test]
fn test_boolean_equals() {
    let expected = Value::Bool(true);
    let actual = Value::Bool(true);
    assert_eq!(actual, expected);
    assert_ne!(actual, Value::Bool(false));
}

#[test]
fn test_and_or() {
    let input = Expr::BinaryOp(
        TokenKind::Or,
        Box::new(Expr::BinaryOp(
            TokenKind::And,
            Box::new(Expr::Literal(Lit::Bool(true))),
            Box::new(Expr::Literal(Lit::Bool(true))),
        )),
        Box::new(Expr::Literal(Lit::Bool(false))),
    );
    let expected = Value::Bool(true);
    test_expr(input, expected);
}
