use toy_rs::ast::{BinaryOp, Expr, Literal, Stmt};
use toy_rs::interpreter::{eval_expression, eval_statement, Environment, NativeFn, Value};
use toy_rs::lexer::{Lexer, Token};
use toy_rs::parser::Parser;

const FUEL: u64 = 10_000;

#[test]
fn test_environment_define_and_get() {
    let mut env = Environment::new();
    assert_eq!(env.get("println"), Some(Value::NativeFunc(NativeFn::Println)));
    assert_eq!(env.get("x"), None);
    env.define("x".to_string(), Value::Int(1));
    assert_eq!(env.get("x"), Some(Value::Int(1)));
    env.define("x".to_string(), Value::Bool(true));
    assert_eq!(env.get("x"), Some(Value::Bool(true)));
}

#[test]
fn test_environment_clone_is_independent() {
    let mut env = Environment::new();
    env.define("x".to_string(), Value::Int(1));
    let mut copy = env.clone();
    copy.define("x".to_string(), Value::Int(2));
    copy.define("y".to_string(), Value::Int(3));
    assert_eq!(env.get("x"), Some(Value::Int(1)));
    assert_eq!(env.get("y"), None);
    assert_eq!(copy.get("x"), Some(Value::Int(2)));
}

#[test]
fn test_eval_expression_directly() {
    let mut env = Environment::new();
    let mut out: Vec<char> = Vec::new();
    let expr = Expr::Binary(
        Box::new(Expr::Literal(Literal::Int(2))),
        BinaryOp::Mul,
        Box::new(Expr::Literal(Literal::Int(3))),
    );
    assert_eq!(eval_expression(&expr, &mut env, &mut out, FUEL), Ok(Value::Int(6)));
    assert!(out.is_empty());
}

#[test]
fn test_eval_statement_directly() {
    let mut env = Environment::new();
    let mut out: Vec<char> = Vec::new();
    let stmt = Stmt::Let("a".to_string(), Expr::Literal(Literal::Int(9)));
    assert_eq!(eval_statement(&stmt, &mut env, &mut out, FUEL), Ok(Value::Unit));
    assert_eq!(env.get("a"), Some(Value::Int(9)));
}

#[test]
fn test_parse_expression_directly() {
    let lexer = Lexer::new("1 + 2");
    let mut parser = Parser::new(lexer).unwrap();
    let expr = parser.parse_expression(0).unwrap();
    assert_eq!(
        expr,
        Expr::Binary(
            Box::new(Expr::Literal(Literal::Int(1))),
            BinaryOp::Add,
            Box::new(Expr::Literal(Literal::Int(2))),
        )
    );
}

#[test]
fn test_parse_statement_directly() {
    let lexer = Lexer::new("let x = 1;");
    let mut parser = Parser::new(lexer).unwrap();
    let stmt = parser.parse_statement().unwrap();
    assert_eq!(stmt, Stmt::Let("x".to_string(), Expr::Literal(Literal::Int(1))));
}

#[test]
fn test_skip_whitespace_directly() {
    let mut lexer = Lexer::new("   \r\n\t 7");
    lexer.skip_whitespace();
    assert_eq!(lexer.next_token().unwrap(), Token::Int(7));
}
