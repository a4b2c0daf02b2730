use toy_rs::ast::{BinaryOp, Expr, Literal, Stmt, UnaryOp};
use toy_rs::lexer::Lexer;
use toy_rs::parser::{ParseError, Parser};

fn parse_helper(input: &str) -> Vec<Stmt> {
    let lexer = Lexer::new(input);
    let mut parser = Parser::new(lexer).unwrap();
    parser.parse_program().unwrap()
}

fn parse_err(input: &str) -> ParseError {
    let lexer = Lexer::new(input);
    let mut parser = Parser::new(lexer).unwrap();
    parser.parse_program().unwrap_err()
}

#[test]
fn test_let_statement() {
    let input = "let x = 5;";
    let statements = parse_helper(input);
    assert_eq!(statements.len(), 1);
    match &statements[0] {
        Stmt::Let(name, expr) => {
            assert_eq!(name, "x");
            match expr {
                Expr::Literal(Literal::Int(val)) => assert_eq!(*val, 5),
                _ => panic!("Expected integer literal"),
            }
        }
        _ => panic!("Expected Let statement"),
    }
}

#[test]
fn test_expression_precedence() {
    let input = "1 + 2 * 3;";
    let statements = parse_helper(input);
    assert_eq!(statements.len(), 1);
    match &statements[0] {
        Stmt::Expression(expr) => {
            // Should be (1 + (2 * 3))
            match expr {
                Expr::Binary(lhs, op, rhs) => {
                    assert_eq!(*op, BinaryOp::Add);
                    match &**lhs {
                        Expr::Literal(Literal::Int(v)) => assert_eq!(*v, 1),
                        _ => panic!("Left side should be 1"),
                    }
                    match &**rhs {
                        Expr::Binary(r_lhs, r_op, r_rhs) => {
                            assert_eq!(*r_op, BinaryOp::Mul);
                            match &**r_lhs {
                                Expr::Literal(Literal::Int(v)) => assert_eq!(*v, 2),
                                _ => panic!("Inner left should be 2"),
                            }
                            match &**r_rhs {
                                Expr::Literal(Literal::Int(v)) => assert_eq!(*v, 3),
                                _ => panic!("Inner right should be 3"),
                            }
                        }
                        _ => panic!("Right side should be multiplication"),
                    }
                }
                _ => panic!("Expected Binary expression"),
            }
        }
        _ => panic!("Expected Expression statement"),
    }
}

#[test]
fn test_implicit_return() {
    let input = "let x = 10; x + 5";
    let statements = parse_helper(input);
    assert_eq!(statements.len(), 2);
    match &statements[1] {
        Stmt::ImplicitReturn(expr) => match expr {
            Expr::Binary(lhs, op, rhs) => {
                assert_eq!(*op, BinaryOp::Add);
                match &**lhs {
                    Expr::Variable(name) => assert_eq!(name, "x"),
                    _ => panic!("Expected variable"),
                }
                match &**rhs {
                    Expr::Literal(Literal::Int(v)) => assert_eq!(*v, 5),
                    _ => panic!("Expected 5"),
                }
            }
            _ => panic!("Expected Binary expression"),
        },
        _ => panic!("Expected ImplicitReturn statement"),
    }
}

#[test]
fn test_unary_expression() {
    let input = "-5;";
    let statements = parse_helper(input);
    match &statements[0] {
        Stmt::Expression(Expr::Unary(op, expr)) => {
            assert_eq!(*op, UnaryOp::Neg);
            match &**expr {
                Expr::Literal(Literal::Int(v)) => assert_eq!(*v, 5),
                _ => panic!("Expected 5"),
            }
        }
        _ => panic!("Expected Unary expression"),
    }
}

#[test]
fn test_only_comments() {
    let input = "// first comment\n// second comment";
    let statements = parse_helper(input);
    assert_eq!(statements.len(), 0);
}

#[test]
fn test_while_statement() {
    let input = "while true { 1 }";
    let statements = parse_helper(input);
    assert_eq!(statements.len(), 1);
    match &statements[0] {
        Stmt::While(cond, body) => {
            match cond {
                Expr::Literal(Literal::Bool(b)) => assert_eq!(*b, true),
                _ => panic!("Expected boolean literal"),
            }
            match body {
                Expr::Block(stmts, tail) => {
                    assert_eq!(stmts.len(), 0);
                    match tail {
                        Some(expr) => match &**expr {
                            Expr::Literal(Literal::Int(v)) => assert_eq!(*v, 1),
                            _ => panic!("Expected 1"),
                        },
                        None => panic!("Expected tail expression"),
                    }
                }
                _ => panic!("Expected block"),
            }
        }
        _ => panic!("Expected While statement"),
    }
}

#[test]
fn test_assignment() {
    // Simple assignment
    let input = "x = 5;";
    let statements = parse_helper(input);
    match &statements[0] {
        Stmt::Assign(name, expr) => {
            assert_eq!(name, "x");
            match expr {
                Expr::Literal(Literal::Int(v)) => assert_eq!(*v, 5),
                _ => panic!("Expected 5"),
            }
        }
        _ => panic!("Expected Assign statement"),
    }

    // Compound assignment
    let input = "x += 1;";
    let statements = parse_helper(input);
    match &statements[0] {
        Stmt::Assign(name, expr) => {
            assert_eq!(name, "x");
            // x += 1 parses to x = x + 1
            match expr {
                Expr::Binary(lhs, op, rhs) => {
                    assert_eq!(*op, BinaryOp::Add);
                    match &**lhs {
                        Expr::Variable(n) => assert_eq!(n, "x"),
                        _ => panic!("Expected variable x"),
                    }
                    match &**rhs {
                        Expr::Literal(Literal::Int(v)) => assert_eq!(*v, 1),
                        _ => panic!("Expected 1"),
                    }
                }
                _ => panic!("Expected binary expression"),
            }
        }
        _ => panic!("Expected Assign statement"),
    }
}

#[test]
fn test_logical_precedence() {
    let input = "true || false && false;";
    let statements = parse_helper(input);
    match &statements[0] {
        Stmt::Expression(expr) => {
            // Expected: true || (false && false)
            match expr {
                Expr::Binary(lhs, op, rhs) => {
                    assert_eq!(*op, BinaryOp::Or);
                    match &**lhs {
                        Expr::Literal(Literal::Bool(b)) => assert!(b),
                        _ => panic!("Expected true"),
                    }
                    match &**rhs {
                        Expr::Binary(r_lhs, r_op, r_rhs) => {
                            assert_eq!(*r_op, BinaryOp::And);
                            match &**r_lhs {
                                Expr::Literal(Literal::Bool(b)) => assert!(!b),
                                _ => panic!("Expected false"),
                            }
                            match &**r_rhs {
                                Expr::Literal(Literal::Bool(b)) => assert!(!b),
                                _ => panic!("Expected false"),
                            }
                        }
                        _ => panic!("Expected AND expression on RHS"),
                    }
                }
                _ => panic!("Expected OR expression"),
            }
        }
        _ => panic!("Expected Expression statement"),
    }
}

#[test]
fn test_same_precedence_groups_right() {
    // a deliberate quirk of the grammar: chains of one precedence level
    // group to the right
    let statements = parse_helper("10 - 3 - 2;");
    match &statements[0] {
        Stmt::Expression(Expr::Binary(lhs, op, rhs)) => {
            assert_eq!(*op, BinaryOp::Sub);
            assert_eq!(**lhs, Expr::Literal(Literal::Int(10)));
            assert_eq!(
                **rhs,
                Expr::Binary(
                    Box::new(Expr::Literal(Literal::Int(3))),
                    BinaryOp::Sub,
                    Box::new(Expr::Literal(Literal::Int(2))),
                )
            );
        }
        _ => panic!("Expected Binary expression"),
    }
}

#[test]
fn test_call_with_arguments() {
    let statements = parse_helper("f(1, 2);");
    match &statements[0] {
        Stmt::Expression(Expr::Call(name, args)) => {
            assert_eq!(name, "f");
            assert_eq!(args.len(), 2);
            assert_eq!(args[0], Expr::Literal(Literal::Int(1)));
            assert_eq!(args[1], Expr::Literal(Literal::Int(2)));
        }
        _ => panic!("Expected Call expression"),
    }
}

#[test]
fn test_function_statement_shape() {
    let statements = parse_helper("fn add(a, b) { a + b }");
    match &statements[0] {
        Stmt::Fn(name, params, body) => {
            assert_eq!(name, "add");
            assert_eq!(params, &vec!["a".to_string(), "b".to_string()]);
            assert!(matches!(body, Expr::Block(..)));
        }
        _ => panic!("Expected Fn statement"),
    }
}

#[test]
fn test_if_else_chain_shape() {
    let statements = parse_helper("if a { 1 } else if b { 2 } else { 3 };");
    match &statements[0] {
        Stmt::Expression(Expr::If(_, _, Some(els))) => {
            assert!(matches!(&**els, Expr::If(_, _, Some(_))));
        }
        _ => panic!("Expected chained If expression"),
    }
}

#[test]
fn test_invalid_assignment_target() {
    assert_eq!(parse_err("1 = 2;"), ParseError::InvalidAssignTarget);
}

#[test]
fn test_missing_semicolon() {
    assert!(matches!(parse_err("let x = 5"), ParseError::Expected(..)));
    assert!(matches!(parse_err("1 2"), ParseError::ExpectedSemi(..)));
}

#[test]
fn test_let_without_name() {
    assert!(matches!(parse_err("let 5 = 3;"), ParseError::ExpectedName(..)));
}

#[test]
fn test_unexpected_token_in_expression() {
    assert!(matches!(parse_err("let x = ;"), ParseError::UnexpectedToken(..)));
}

#[test]
fn test_lex_error_reaches_parser() {
    assert!(matches!(parse_err("let x = @;"), ParseError::Lex(_)));
}

#[test]
fn test_block_expression_without_semicolon() {
    // a block-like expression may stand as a statement with no `;`
    let statements = parse_helper("if true { 1 } 2");
    assert_eq!(statements.len(), 2);
    assert!(matches!(&statements[0], Stmt::Expression(Expr::If(..))));
    assert!(matches!(&statements[1], Stmt::ImplicitReturn(_)));
}
