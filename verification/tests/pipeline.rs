//! End-to-end runs of the pipeline: source text through the lexer, the
//! parser and the interpreter, checking the values printed.

use treelang::interpreter::{ExecOutcome, Interpreter};
use treelang::lexer::Lexer;
use treelang::object::Object;
use treelang::parser::Parser;

fn run(src: &str) -> (Vec<Object>, ExecOutcome) {
    let mut lx = Lexer::new(src);
    let toks = lx.tokenize();
    let mut p = Parser::new(toks);
    let stmts = p.parse().unwrap();
    let mut it = Interpreter::new();
    let out = it.interpret(&stmts, 1 << 20);
    (it.output, out)
}

fn number(bits_of: f64) -> u64 {
    bits_of.to_bits()
}

fn as_number(o: &Object) -> u64 {
    match o {
        Object::Number { bits } => *bits,
        other => panic!("expected a number, got {:?}", other),
    }
}

fn as_bool(o: &Object) -> bool {
    match o {
        Object::Boolean { value } => *value,
        other => panic!("expected a boolean, got {:?}", other),
    }
}

#[test]
fn arithmetic_precedence() {
    let (out, r) = run("print(1 + 2 * 3);");
    assert!(matches!(r, ExecOutcome::Done));
    assert_eq!(out.len(), 1);
    assert_eq!(as_number(&out[0]), number(7.0));
}

#[test]
fn block_shadowing() {
    let (out, r) = run("var x = 1; { var x = 2; print(x); } print(x);");
    assert!(matches!(r, ExecOutcome::Done));
    assert_eq!(out.len(), 2);
    assert_eq!(as_number(&out[0]), number(2.0));
    assert_eq!(as_number(&out[1]), number(1.0));
}

#[test]
fn function_return() {
    let (out, r) = run("fn add(a, b) { return a + b; } print(add(2, 3));");
    assert!(matches!(r, ExecOutcome::Done));
    assert_eq!(out.len(), 1);
    assert_eq!(as_number(&out[0]), number(5.0));
}

#[test]
fn closure_counter() {
    let src = "fn counter() { var i = 0; fn inc() { i = i + 1; return i; } return inc; } \
               var c = counter(); print(c()); print(c());";
    let (out, r) = run(src);
    assert!(matches!(r, ExecOutcome::Done));
    assert_eq!(out.len(), 2);
    assert_eq!(as_number(&out[0]), number(1.0));
    assert_eq!(as_number(&out[1]), number(2.0));
}

#[test]
fn no_cross_type_coercion() {
    let (out, r) = run("print(1 == \"1\");");
    assert!(matches!(r, ExecOutcome::Done));
    assert_eq!(out.len(), 1);
    assert!(!as_bool(&out[0]));
}

#[test]
fn lone_paren_reports_error() {
    let mut lx = Lexer::new("(");
    let toks = lx.tokenize();
    let mut p = Parser::new(toks);
    let stmts = p.parse().unwrap();
    assert!(p.error_count >= 1);
    assert_eq!(stmts.len(), 0);
}

#[test]
fn ieee_division() {
    let (out, r) = run("print(10 / 4); print(1 / 0); print(0 - 1 / 0);");
    assert!(matches!(r, ExecOutcome::Done));
    assert_eq!(as_number(&out[0]), number(2.5));
    assert_eq!(as_number(&out[1]), number(f64::INFINITY));
    assert_eq!(as_number(&out[2]), number(f64::NEG_INFINITY));
}

#[test]
fn ieee_nan_from_zero_over_zero() {
    let (out, r) = run("print(0 / 0);");
    assert!(matches!(r, ExecOutcome::Done));
    assert!(f64::from_bits(as_number(&out[0])).is_nan());
}

#[test]
fn ieee_rounding_matches_native() {
    let (out, r) = run("print(0.1 + 0.2); print(3.5 * 1.25 - 0.125);");
    assert!(matches!(r, ExecOutcome::Done));
    assert_eq!(as_number(&out[0]), number(0.1f64 + 0.2f64));
    assert_eq!(as_number(&out[1]), number(3.5f64 * 1.25f64 - 0.125f64));
}

#[test]
fn short_circuit_and_skips_effects() {
    let src = "var x = 0; fn boom() { x = 1; return true; } var r = false and boom(); \
               print(x); print(r);";
    let (out, r) = run(src);
    assert!(matches!(r, ExecOutcome::Done));
    assert_eq!(as_number(&out[0]), number(0.0));
    assert!(!as_bool(&out[1]));
}

#[test]
fn short_circuit_or_skips_effects() {
    let src = "var x = 0; fn boom() { x = 1; return false; } var r = true or boom(); \
               print(x); print(r);";
    let (out, r) = run(src);
    assert!(matches!(r, ExecOutcome::Done));
    assert_eq!(as_number(&out[0]), number(0.0));
    assert!(as_bool(&out[1]));
}

#[test]
fn logical_result_is_coerced_boolean() {
    let (out, r) = run("print(1 and 2); print(null or 3);");
    assert!(matches!(r, ExecOutcome::Done));
    assert!(as_bool(&out[0]));
    assert!(as_bool(&out[1]));
}

#[test]
fn assignment_mutates_outer_binding() {
    let (out, r) = run("var x = 1; { x = 2; } print(x);");
    assert!(matches!(r, ExecOutcome::Done));
    assert_eq!(as_number(&out[0]), number(2.0));
}

#[test]
fn while_loop_counts() {
    let (out, r) = run("var i = 0; while (i < 5) { i = i + 1; } print(i);");
    assert!(matches!(r, ExecOutcome::Done));
    assert_eq!(as_number(&out[0]), number(5.0));
}

#[test]
fn string_concatenation() {
    let (out, r) = run("print(\"foo\" + \"bar\");");
    assert!(matches!(r, ExecOutcome::Done));
    match &out[0] {
        Object::Str { text } => assert_eq!(text, "foobar"),
        other => panic!("expected text, got {:?}", other),
    }
}

#[test]
fn truthiness_of_zero_and_empty_string() {
    let (out, r) = run("if (0) { print(1); } if (\"\") { print(2); } if (null) { print(3); }");
    assert!(matches!(r, ExecOutcome::Done));
    assert_eq!(out.len(), 2);
    assert_eq!(as_number(&out[0]), number(1.0));
    assert_eq!(as_number(&out[1]), number(2.0));
}

#[test]
fn undefined_variable_fault() {
    let (out, r) = run("print(y);");
    assert_eq!(out.len(), 0);
    match r {
        ExecOutcome::Fault { error } => match error {
            treelang::error::RuntimeError::UndefinedVariable { token } => {
                assert_eq!(token.lexeme, "y");
            },
            other => panic!("wrong fault: {:?}", other),
        },
        other => panic!("expected a fault, got {:?}", other),
    }
}

#[test]
fn mixed_operand_fault() {
    let (_, r) = run("print(1 + true);");
    match r {
        ExecOutcome::Fault { error } => match error {
            treelang::error::RuntimeError::InvalidBinaryOperation { token, message } => {
                assert_eq!(token.lexeme, "+");
                assert_eq!(message, "Operator can only be used on numbers or strings");
            },
            other => panic!("wrong fault: {:?}", other),
        },
        other => panic!("expected a fault, got {:?}", other),
    }
}

#[test]
fn arity_mismatch_fault() {
    let (_, r) = run("fn f(a) { return a; } print(f(1, 2));");
    match r {
        ExecOutcome::Fault { error } => match error {
            treelang::error::RuntimeError::InvalidFunctionCall { message, .. } => {
                assert_eq!(message, "Incorrect number of arguments");
            },
            other => panic!("wrong fault: {:?}", other),
        },
        other => panic!("expected a fault, got {:?}", other),
    }
}

#[test]
fn calling_a_number_fault() {
    let (_, r) = run("print(1());");
    match r {
        ExecOutcome::Fault { error } => match error {
            treelang::error::RuntimeError::InvalidFunctionCall { message, .. } => {
                assert_eq!(message, "Can only call functions");
            },
            other => panic!("wrong fault: {:?}", other),
        },
        other => panic!("expected a fault, got {:?}", other),
    }
}

#[test]
fn class_execution_is_refused() {
    let (_, r) = run("class A { } print(1);");
    match r {
        ExecOutcome::Fault { error } => match error {
            treelang::error::RuntimeError::InvalidFunctionCall { message, .. } => {
                assert_eq!(message, "Class declarations are not supported at run time");
            },
            other => panic!("wrong fault: {:?}", other),
        },
        other => panic!("expected a fault, got {:?}", other),
    }
}

#[test]
fn exhausted_budget_reports_spent() {
    let mut lx = Lexer::new("while (true) { }");
    let toks = lx.tokenize();
    let mut p = Parser::new(toks);
    let stmts = p.parse().unwrap();
    let mut it = Interpreter::new();
    let r = it.interpret(&stmts, 10);
    assert!(matches!(r, ExecOutcome::Spent));
}

#[test]
fn function_without_return_yields_null() {
    let (out, r) = run("fn f() { } print(f());");
    assert!(matches!(r, ExecOutcome::Done));
    assert!(matches!(out[0], Object::Null));
}

#[test]
fn for_loop_desugars_and_runs() {
    // The initializer is parsed and discarded, so the counter must be
    // declared beforehand.
    let (out, r) = run("var i = 0; for (; i < 3; i = i + 1) { print(i); }");
    assert!(matches!(r, ExecOutcome::Done));
    assert_eq!(out.len(), 3);
    assert_eq!(as_number(&out[0]), number(0.0));
    assert_eq!(as_number(&out[2]), number(2.0));
}

#[test]
fn printed_numbers_render_as_shortest_decimal() {
    let (out, r) = run("print(1 + 2 * 3); fn add(a, b) { return a + b; } print(add(2, 3));");
    assert!(matches!(r, ExecOutcome::Done));
    let texts: Vec<String> = out
        .iter()
        .map(|o| format!("{}", f64::from_bits(as_number(o))))
        .collect();
    assert_eq!(texts, vec!["7".to_string(), "5".to_string()]);
}
