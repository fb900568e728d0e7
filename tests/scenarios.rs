use fire_ferrets::ast::{Expr, Lit, Stmt};
use fire_ferrets::interpreter::Interpreter;
use fire_ferrets::parser::{parse_program, ParseError, Parser, SyntaxError, SyntaxErrorKind};
use fire_ferrets::token::TokenKind;
use fire_ferrets::value::{RuntimeError, Value};

fn run_source(source: &str) -> (Interpreter, Result<(), RuntimeError>) {
    let stmts = parse_program(source).expect("source parses");
    let mut interpreter = Interpreter::new();
    let result = interpreter.run(&stmts);
    (interpreter, result)
}

fn pop(interpreter: &mut Interpreter) -> Result<Value, RuntimeError> {
    interpreter.visit_expr(&Expr::Ident("pop".to_string()))
}

fn value_of(expression: &str) -> Result<Value, RuntimeError> {
    let (mut interpreter, result) = run_source(&format!("push {}\n", expression));
    result?;
    pop(&mut interpreter)
}

fn sexpr(source: &str) -> String {
    let mut parser = Parser::new(source);
    parser.parse_stmt().expect("statement parses").to_text()
}

#[test]
fn push_then_pop_gives_the_literal_back() {
    for n in [0_i64, 7, 42, 9223372036854775807] {
        assert_eq!(value_of(&n.to_string()), Ok(Value::Int(n)));
    }
}

#[test]
fn precedence_of_multiplication() {
    assert_eq!(value_of("1 + 2 * 3"), Ok(Value::Int(7)));
    assert_eq!(value_of("(1 + 2) * 3"), Ok(Value::Int(9)));
}

#[test]
fn subtraction_is_left_associative() {
    assert_eq!(value_of("10 - 3 - 2"), Ok(Value::Int(5)));
}

#[test]
fn boolean_operators_short_circuit() {
    assert_eq!(value_of("false and (1/0 == 1)"), Ok(Value::Bool(false)));
    assert_eq!(value_of("true or (1/0 == 1)"), Ok(Value::Bool(true)));
    assert_eq!(value_of("true and (1/0 == 1)"), Err(RuntimeError::DivisionByZero));
}

#[test]
fn not_binds_tighter_than_and() {
    assert_eq!(value_of("not true and false"), Ok(Value::Bool(false)));
    assert_eq!(sexpr("push not true and false\n"), "(push (and (not true) false))");
}

#[test]
fn pop_is_reserved() {
    let (_, result) = run_source("set pop 5\n");
    assert_eq!(result, Err(RuntimeError::ReservedIdentifier));
    let (mut interpreter, result) = run_source("push 3\nset x pop\n");
    assert_eq!(result, Ok(()));
    assert_eq!(pop(&mut interpreter), Err(RuntimeError::EmptyStack));
    assert_eq!(interpreter.visit_expr(&Expr::Ident("x".to_string())), Ok(Value::Int(3)));
}

#[test]
fn stack_is_last_in_first_out() {
    let (_, result) = run_source("pop\n");
    assert_eq!(result, Err(RuntimeError::EmptyStack));
    let (mut interpreter, result) = run_source("push 1\npush 2\n");
    assert_eq!(result, Ok(()));
    assert_eq!(pop(&mut interpreter), Ok(Value::Int(2)));
    assert_eq!(pop(&mut interpreter), Ok(Value::Int(1)));
    assert_eq!(pop(&mut interpreter), Err(RuntimeError::EmptyStack));
}

#[test]
fn statements_round_trip_to_prefix_form() {
    assert_eq!(sexpr("set x 1 + 2\n"), "(set x (+ 1 2))");
    assert_eq!(sexpr("push -x * 3\n"), "(push (* (- x) 3))");
    assert_eq!(sexpr("check a <= b or c != d\n"), "(check (or (<= a b) (!= c d)))");
    assert_eq!(sexpr("pop\n"), "(pop)");
    assert_eq!(sexpr("print \"hi\" == pop\n"), "(print (== hi pop))");
}

#[test]
fn print_square() {
    let (interpreter, result) = run_source("set x 5\nprint x * x\n");
    assert_eq!(result, Ok(()));
    assert_eq!(interpreter.output(), &vec!["25".to_string()]);
}

#[test]
fn check_compares_two_pops() {
    // Operands are evaluated left to right: the left `pop` takes 2, the
    // right one takes 1.
    let (mut interpreter, result) = run_source("push 1\npush 2\ncheck pop == pop\n");
    assert_eq!(result, Ok(()));
    assert_eq!(pop(&mut interpreter), Ok(Value::Bool(false)));
    assert_eq!(pop(&mut interpreter), Err(RuntimeError::EmptyStack));
    let (mut interpreter, result) = run_source("push 2\npush 2\ncheck pop == pop\n");
    assert_eq!(result, Ok(()));
    assert_eq!(pop(&mut interpreter), Ok(Value::Bool(true)));
    let (mut interpreter, result) = run_source("push 1\npush 2\ncheck pop > pop\n");
    assert_eq!(result, Ok(()));
    assert_eq!(pop(&mut interpreter), Ok(Value::Bool(true)));
}

#[test]
fn string_truthiness_is_emptiness() {
    assert_eq!(value_of("not \"\""), Ok(Value::Bool(false)));
    assert_eq!(value_of("not \"a\""), Ok(Value::Bool(true)));
    let (mut interpreter, _) = run_source("check \"\"\ncheck 0\ncheck 3\n");
    assert_eq!(pop(&mut interpreter), Ok(Value::Bool(true)));
    assert_eq!(pop(&mut interpreter), Ok(Value::Bool(false)));
    assert_eq!(pop(&mut interpreter), Ok(Value::Bool(true)));
}

#[test]
fn string_escapes_are_replaced() {
    assert_eq!(value_of("\"a\\\"b\\\\c\""), Ok(Value::Str("a\"b\\c".to_string())));
}

#[test]
fn arithmetic_results() {
    assert_eq!(value_of("-7 / 2"), Ok(Value::Int(-3)));
    assert_eq!(value_of("7 / -2"), Ok(Value::Int(-3)));
    assert_eq!(value_of("3 >= 3"), Ok(Value::Bool(true)));
    assert_eq!(value_of("3 < 3"), Ok(Value::Bool(false)));
    assert_eq!(value_of("9223372036854775807 + 1"), Err(RuntimeError::Overflow));
    assert_eq!(value_of("true + 1"), Err(RuntimeError::ExpectedNumber));
    assert_eq!(value_of("\"a\" == \"a\""), Err(RuntimeError::ExpectedNumber));
    assert_eq!(value_of("-true"), Err(RuntimeError::ExpectedNumber));
    assert_eq!(value_of("y"), Err(RuntimeError::Undefined("y".to_string())));
}

#[test]
fn values_of_different_kinds_differ() {
    assert_ne!(Value::Int(1), Value::Bool(true));
    assert_ne!(Value::Str("1".to_string()), Value::Int(1));
    assert_eq!(Value::Str("a".to_string()), Value::Str("a".to_string()));
}

#[test]
fn printed_forms() {
    let (interpreter, result) = run_source("print -12\nprint true\nprint \"s t\"\nprint 1 == 2\n");
    assert_eq!(result, Ok(()));
    assert_eq!(
        interpreter.output(),
        &vec!["-12".to_string(), "true".to_string(), "s t".to_string(), "false".to_string()]
    );
}

#[test]
fn later_set_wins() {
    let (mut interpreter, result) = run_source("set x 1\nset x x + 1\npush x\n");
    assert_eq!(result, Ok(()));
    assert_eq!(pop(&mut interpreter), Ok(Value::Int(2)));
}

#[test]
fn run_stops_at_first_error() {
    let (interpreter, result) = run_source("print 1\npop\nprint 2\n");
    assert_eq!(result, Err(RuntimeError::EmptyStack));
    assert_eq!(interpreter.output(), &vec!["1".to_string()]);
}

#[test]
fn syntax_errors_carry_line_and_column() {
    let err = parse_program("push 1\npush )\n").unwrap_err();
    assert_eq!(
        err,
        ParseError::Syntax(SyntaxError {
            line: 2,
            column: 6,
            kind: SyntaxErrorKind::ExpectedExpression(TokenKind::RightParen),
        })
    );
    assert_eq!(err.message(), "Error at 2:6 = Expected expression, got )");
    let err = parse_program("x 1\n").unwrap_err();
    assert_eq!(err.message(), "Error at 1:1 = Expected statement, got identifier");
    let err = parse_program("push 1 2\n").unwrap_err();
    assert_eq!(err.message(), "Error at 1:8 = Expected operator or terminator");
    let err = parse_program("set 1 2\n").unwrap_err();
    assert_eq!(err.message(), "Error at 1:5 = Expected identifier, got integer literal");
    let err = parse_program("push (1\n").unwrap_err();
    assert_eq!(err.message(), "Error at 1:8 = Expected ), got newline");
    let err = parse_program("push 1").unwrap_err();
    assert_eq!(err.message(), "Error at 1:7 = Expected newline, got EOF");
    let err = parse_program("push 9223372036854775808\n").unwrap_err();
    assert_eq!(err.message(), "Error at 1:6 = Integer literal out of range");
}

#[test]
fn end_of_input_ends_the_program() {
    let stmts = parse_program("print 1\npush 2 +").unwrap();
    assert_eq!(stmts.len(), 1);
    assert_eq!(stmts[0], Stmt::Print(Expr::Literal(Lit::Int(1))));
    assert_eq!(parse_program("").unwrap().len(), 0);
    let mut parser = Parser::new("  ");
    assert_eq!(parser.parse_stmt(), Err(ParseError::UnexpectedEof));
    assert_eq!(ParseError::UnexpectedEof.message(), "Error: Unexpected EOF");
}

#[test]
fn runtime_error_messages() {
    assert_eq!(RuntimeError::Undefined("x".to_string()).message(), "x is undefined");
    assert_eq!(RuntimeError::EmptyStack.message(), "The stack is empty");
    assert_eq!(
        RuntimeError::ExpectedNumber.message(),
        "Error: Expected numerical expression"
    );
}

#[test]
fn parser_token_access() {
    let mut parser = Parser::new("print x");
    assert_eq!(parser.peek(), TokenKind::Print);
    let token = parser.next();
    assert_eq!(token.kind, TokenKind::Print);
    assert_eq!((token.span.start, token.span.end), (0, 5));
    assert_eq!(parser.consume(TokenKind::Ident), Ok(()));
    assert_eq!(parser.peek(), TokenKind::Eof);
    let mut parser = Parser::new("1 + 2");
    assert_eq!(parser.expr().unwrap().to_text(), "(+ 1 2)");
}

#[test]
fn literal_and_value_texts() {
    assert_eq!(Lit::Int(-9223372036854775808).to_text(), "-9223372036854775808");
    assert_eq!(Lit::Bool(false).to_text(), "false");
    assert_eq!(Value::Int(0).to_text(), "0");
    assert_eq!(Value::Str("q".to_string()).to_text(), "q");
    assert_eq!(Value::Int(4).to_int(), Ok(4));
    assert_eq!(Value::Bool(true).to_int(), Err(RuntimeError::ExpectedNumber));
}
