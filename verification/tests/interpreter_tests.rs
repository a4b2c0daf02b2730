use toy_rs::interpreter::{RuntimeError, Value};
use toy_rs::lexer::LexError;
use toy_rs::parser::ParseError;
use toy_rs::{run_program, ToyError};

const FUEL: u64 = 1_000_000;

fn eval_helper(input: &str) -> Value {
    run_program(input, FUEL).unwrap().0
}

fn eval_err(input: &str) -> ToyError {
    run_program(input, FUEL).unwrap_err()
}

#[test]
fn test_scope_mutation() {
    let input = "
            let x = 1;
            if true {
                x = 2;
            }
            x
        ";
    assert_eq!(eval_helper(input), Value::Int(2));
}

#[test]
fn test_while_loop() {
    let input = "
            let x = 5;
            let result = 0;
            while x > 0 {
                result += x;
                x -= 1;
            }
            result
        ";
    assert_eq!(eval_helper(input), Value::Int(15));
}

#[test]
fn test_logical_negation() {
    assert_eq!(eval_helper("!true"), Value::Bool(false));
    assert_eq!(eval_helper("!false"), Value::Bool(true));
    assert_eq!(eval_helper("!!true"), Value::Bool(true));
}

#[test]
fn test_precedence_complex() {
    // 1 + (2 * 3) - (4 / 2) = 1 + 6 - 2 = 5
    assert_eq!(eval_helper("1 + 2 * 3 - 4 / 2"), Value::Int(5));
}

#[test]
fn test_shadowing() {
    let input = "
            let x = 10;
            if true {
                let x = 20; // Shadowing
                x + 1 // 21
            }
            x // Should remain 10
        ";
    assert_eq!(eval_helper(input), Value::Int(10));
}

#[test]
fn test_if_expression_value() {
    let input = "
            let x = if true { 10 } else { 20 };
            x + 5
        ";
    assert_eq!(eval_helper(input), Value::Int(15));
}

#[test]
fn test_undefined_variable() {
    assert_eq!(
        eval_err("let x = 10; x + z"),
        ToyError::Runtime(RuntimeError::UndefinedVariable("z".to_string()))
    );
}

#[test]
fn test_println() {
    assert_eq!(eval_helper(r#"println("hello")"#), Value::Unit);
}

#[test]
fn test_println_output() {
    let (value, output) = run_program(r#"println("hello")"#, FUEL).unwrap();
    assert_eq!(value, Value::Unit);
    assert_eq!(output, "hello \n");
}

#[test]
fn test_println_spaces_arguments() {
    let (_, output) = run_program("println(1, 2, 3)", FUEL).unwrap();
    assert_eq!(output, "1 2 3 \n");
}

#[test]
fn test_fib_recursion() {
    let input = "fn fib(n) { if n < 2 { n } else { fib(n-1) + fib(n-2) } } fib(10)";
    assert_eq!(eval_helper(input), Value::Int(55));
}

#[test]
fn test_mixed_int_float_arithmetic() {
    let input = "let x = 10; let y = 12.5; x + y";
    assert_eq!(eval_helper(input), Value::Float((22.5f64).to_bits()));
}

#[test]
fn test_float_display() {
    let v = eval_helper("10 + 12.5");
    assert_eq!(v.display_string(), "22.5");
}

#[test]
fn test_float_arithmetic() {
    assert_eq!(eval_helper("1.5 + 2.25"), Value::Float((3.75f64).to_bits()));
    assert_eq!(eval_helper("2.5 - 1.25"), Value::Float((1.25f64).to_bits()));
    assert_eq!(eval_helper("1.5 * 2.0"), Value::Float((3.0f64).to_bits()));
    assert_eq!(eval_helper("7.5 / 2.5"), Value::Float((3.0f64).to_bits()));
    assert_eq!(eval_helper("-2.5"), Value::Float((-2.5f64).to_bits()));
}

#[test]
fn test_float_comparisons() {
    assert_eq!(eval_helper("1.5 < 2.5"), Value::Bool(true));
    assert_eq!(eval_helper("2.5 > 1.5"), Value::Bool(true));
    assert_eq!(eval_helper("1.5 == 1.5"), Value::Bool(true));
    assert_eq!(eval_helper("1.5 == 2.5"), Value::Bool(false));
}

#[test]
fn test_string_concatenation() {
    let input = r#"let name = "Toy User"; "Hello, " + name + "!""#;
    assert_eq!(eval_helper(input), Value::Str("Hello, Toy User!".to_string()));
}

#[test]
fn test_comments_are_skipped() {
    let input = "// a comment\nlet a = 10; let b = 20; a + b";
    assert_eq!(eval_helper(input), Value::Int(30));
}

#[test]
fn test_unary_negation() {
    assert_eq!(eval_helper("-5 + 3"), Value::Int(-2));
}

#[test]
fn test_integer_division_truncates() {
    assert_eq!(eval_helper("7 / 2"), Value::Int(3));
    assert_eq!(eval_helper("0 - 7 / 2"), Value::Int(-3));
    assert_eq!(eval_helper("(0 - 7) / 2"), Value::Int(-3));
}

#[test]
fn test_program_ending_in_let_is_unit() {
    assert_eq!(eval_helper("let x = 1;"), Value::Unit);
    assert_eq!(eval_helper("fn f() { 1 }"), Value::Unit);
    assert_eq!(eval_helper("let x = 1; while x > 0 { x -= 1; }"), Value::Unit);
    assert_eq!(eval_helper("1 + 1;"), Value::Unit);
    assert_eq!(eval_helper(""), Value::Unit);
}

#[test]
fn test_call_does_not_leak_bindings() {
    // the callee's own bindings and assignments stay in its clone of the
    // caller's environment
    let input = "let x = 1; fn f() { let y = 99; x = 5; 0 } f(); x";
    assert_eq!(eval_helper(input), Value::Int(1));
    let leak = "fn f() { let y = 99; 0 } f(); y";
    assert_eq!(
        eval_err(leak),
        ToyError::Runtime(RuntimeError::UndefinedVariable("y".to_string()))
    );
}

#[test]
fn test_function_sees_callers_names() {
    // dynamic scoping by clone: the callee sees what the caller sees
    let input = "let a = 7; fn f() { a + 1 } f()";
    assert_eq!(eval_helper(input), Value::Int(8));
}

#[test]
fn test_recursion_is_possible() {
    let input = "fn count(n) { if n == 0 { 0 } else { count(n - 1) } } count(100)";
    assert_eq!(eval_helper(input), Value::Int(0));
}

#[test]
fn test_function_display() {
    let v = eval_helper("fn f(a, b) { a } f");
    assert_eq!(v.display_string(), "<fn (a, b)>");
    let native = eval_helper("println");
    assert_eq!(native.display_string(), "<native fn>");
}

#[test]
fn test_value_display_forms() {
    assert_eq!(eval_helper("42").display_string(), "42");
    assert_eq!(eval_helper("-42").display_string(), "-42");
    assert_eq!(eval_helper("true").display_string(), "true");
    assert_eq!(eval_helper("!true").display_string(), "false");
    assert_eq!(eval_helper(r#""hi""#).display_string(), "hi");
    assert_eq!(eval_helper("1 + 1;").display_string(), "()");
}

#[test]
fn test_division_by_zero() {
    assert_eq!(eval_err("1 / 0"), ToyError::Runtime(RuntimeError::DivisionByZero));
}

#[test]
fn test_integer_overflow() {
    assert_eq!(
        eval_err("9223372036854775807 + 1"),
        ToyError::Runtime(RuntimeError::IntegerOverflow)
    );
}

#[test]
fn test_type_mismatch() {
    assert!(matches!(
        eval_err("1 + true"),
        ToyError::Runtime(RuntimeError::TypeMismatch(..))
    ));
    assert!(matches!(
        eval_err("-true"),
        ToyError::Runtime(RuntimeError::UnaryTypeMismatch(..))
    ));
    assert!(matches!(
        eval_err("1.5 < 2"),
        ToyError::Runtime(RuntimeError::TypeMismatch(..))
    ));
}

#[test]
fn test_non_bool_while_condition() {
    assert!(matches!(
        eval_err("while 1 { 2 }"),
        ToyError::Runtime(RuntimeError::NonBoolWhileCondition(_))
    ));
}

#[test]
fn test_call_errors() {
    assert_eq!(
        eval_err("g()"),
        ToyError::Runtime(RuntimeError::UndefinedFunction("g".to_string()))
    );
    assert!(matches!(
        eval_err("let x = 1; x()"),
        ToyError::Runtime(RuntimeError::NotCallable(_))
    ));
    assert_eq!(
        eval_err("fn f(a) { a } f(1, 2)"),
        ToyError::Runtime(RuntimeError::ArityMismatch(1, 2))
    );
}

#[test]
fn test_assign_undefined() {
    assert_eq!(
        eval_err("y = 1;"),
        ToyError::Runtime(RuntimeError::AssignUndefined("y".to_string()))
    );
}

#[test]
fn test_out_of_fuel() {
    assert_eq!(
        run_program("while true { 1 }", 50).unwrap_err(),
        ToyError::Runtime(RuntimeError::OutOfFuel)
    );
    assert_eq!(
        run_program("fn f() { f() } f()", 50).unwrap_err(),
        ToyError::Runtime(RuntimeError::OutOfFuel)
    );
}

#[test]
fn test_negative_literal_below_min_is_lex_error() {
    // negative numerals are unary negations, so the minimum itself cannot
    // be written as a literal: its magnitude is already out of range
    assert_eq!(
        eval_err("-9223372036854775808"),
        ToyError::Parse(ParseError::Lex(LexError::IntOutOfRange))
    );
}

#[test]
fn test_boolean_operators_evaluate_both_sides() {
    // no short-circuiting: the right side always runs
    assert_eq!(eval_helper("true || false"), Value::Bool(true));
    assert_eq!(eval_helper("false && true"), Value::Bool(false));
    assert!(matches!(
        eval_err("false && (1 / 0 == 0)"),
        ToyError::Runtime(RuntimeError::DivisionByZero)
    ));
}

#[test]
fn test_block_value_and_tail() {
    assert_eq!(eval_helper("let r = { let a = 2; a * 3 }; r"), Value::Int(6));
    assert_eq!(eval_helper("let r = { 1; 2; }; r"), Value::Unit);
    // a block-like expression standing alone at the top level is a plain
    // statement: its value is discarded
    assert_eq!(eval_helper("{ let a = 2; a * 3 }"), Value::Unit);
}

#[test]
fn test_nested_block_propagation() {
    let input = "let x = 1; { { x = 7; }; 0 } x";
    assert_eq!(eval_helper(input), Value::Int(7));
}

#[test]
fn test_tail_assignment_stays_inside() {
    // the tail expression runs after the block's write-back, so what it
    // assigns stays in the block's own scope
    let input = "let x = 1; { { x = 7; } } x";
    assert_eq!(eval_helper(input), Value::Int(1));
}

#[test]
fn test_if_without_else_is_unit() {
    assert_eq!(eval_helper("if false { 1 }"), Value::Unit);
}

#[test]
fn test_simple_precedence_value() {
    assert_eq!(eval_helper("1 + 2 * 3"), Value::Int(7));
}

#[test]
fn test_let_shadow_in_plain_if_block() {
    let input = "let x = 10; if true { let x = 20; } x";
    assert_eq!(eval_helper(input), Value::Int(10));
}
