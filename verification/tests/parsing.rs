//! The parser and the printer: canonical parenthesized forms, the
//! precedence ladder, error recovery, and the numeric wrappers.

use treelang::ast::printer::AstPrinter;
use treelang::lexer::Lexer;
use treelang::numeric;
use treelang::parser::Parser;

fn expr_form(src: &str) -> String {
    let mut lx = Lexer::new(src);
    let toks = lx.tokenize();
    let mut p = Parser::new(toks);
    AstPrinter::print_expr(p.parse_expr().unwrap())
}

fn program_form(src: &str) -> String {
    let mut lx = Lexer::new(src);
    let toks = lx.tokenize();
    let mut p = Parser::new(toks);
    AstPrinter::print_stmt(p.parse().unwrap())
}

#[test]
fn precedence_binds_factor_over_term() {
    assert_eq!(expr_form("1 + 2 * 3"), "(+ 1.0 (* 2.0 3.0))");
}

#[test]
fn unary_and_grouping_forms() {
    assert_eq!(expr_form("-(1 + 2)"), "(- (group (+ 1.0 2.0)))");
    assert_eq!(expr_form("!true"), "(! true)");
}

#[test]
fn printing_is_stable() {
    let a = expr_form("1 + 2 * 3 - 4 / 5");
    let b = expr_form("1 + 2 * 3 - 4 / 5");
    assert_eq!(a, b);
}

#[test]
fn number_rendering_is_normalized() {
    assert_eq!(expr_form("7"), "7.0");
    assert_eq!(expr_form("7.25"), "7.25");
}

#[test]
fn assignment_is_right_associative() {
    assert_eq!(expr_form("a = b = 1"), "(= a (= b 1.0))");
}

#[test]
fn comparison_and_equality_forms() {
    assert_eq!(expr_form("1 < 2 == 3 >= 4"), "(== (< 1.0 2.0) (>= 3.0 4.0))");
}

#[test]
fn logical_forms() {
    assert_eq!(expr_form("a and b or c"), "(or (and a b) c)");
}

#[test]
fn statement_forms() {
    assert_eq!(program_form("print(1);"), "(print 1.0)\n");
    assert_eq!(program_form("var x = 2;"), "(var x 2.0)\n");
    assert_eq!(program_form("var x;"), "(var x)\n");
    assert_eq!(program_form("{ var y; }"), "(block (var y))\n");
    assert_eq!(program_form("if (a) print(1); else print(2);"),
        "(if a(print 1.0)(print 2.0))\n");
    assert_eq!(program_form("while (a) print(1);"), "(while a(print 1.0))\n");
    assert_eq!(program_form("fn f(a, b) { return a; }"), "(fun f ( a b) (return a))\n");
}

#[test]
fn for_desugars_into_while_and_block() {
    assert_eq!(
        program_form("for (; a; b) print(1);"),
        "(while a(block (print 1.0)(; b)))\n",
    );
    assert_eq!(program_form("for (;;) print(1);"), "(while true(print 1.0))\n");
}

#[test]
fn assignment_needs_variable_target() {
    let mut lx = Lexer::new("1 = 2;");
    let toks = lx.tokenize();
    let mut p = Parser::new(toks);
    let stmts = p.parse().unwrap();
    assert_eq!(stmts.len(), 0);
    assert!(p.error_count >= 1);
}

#[test]
fn recovery_continues_after_bad_declaration() {
    let mut lx = Lexer::new("var ; print(1);");
    let toks = lx.tokenize();
    let mut p = Parser::new(toks);
    let stmts = p.parse().unwrap();
    assert!(p.error_count >= 1);
    assert_eq!(stmts.len(), 1);
}

#[test]
fn empty_parens_report_expected_expression() {
    let mut lx = Lexer::new("();");
    let toks = lx.tokenize();
    let mut p = Parser::new(toks);
    let _ = p.parse().unwrap();
    assert!(p.error_count >= 1);
    let found = p.diagnostics.iter().any(|d| match d {
        treelang::error::ParserError::InvalidExpression { message, .. } => {
            message == "Expected expression inside parentheses"
        },
        _ => false,
    });
    assert!(found);
}

#[test]
fn numeric_wrappers_match_native_doubles() {
    let pairs = [(1.5f64, 2.25f64), (0.1, 0.2), (-3.75, 8.5), (1e300, 1e300), (5.0, 0.0)];
    for (a, b) in pairs {
        assert_eq!(numeric::num_add(a.to_bits(), b.to_bits()), (a + b).to_bits());
        assert_eq!(numeric::num_sub(a.to_bits(), b.to_bits()), (a - b).to_bits());
        assert_eq!(numeric::num_mul(a.to_bits(), b.to_bits()), (a * b).to_bits());
        assert_eq!(numeric::num_div(a.to_bits(), b.to_bits()), (a / b).to_bits());
    }
}

#[test]
fn numeric_parse_matches_native() {
    for s in ["0", "1", "123", "1.5", "0.1", "3.25", "1.0"] {
        assert_eq!(numeric::num_parse(s), Some(s.parse::<f64>().unwrap().to_bits()));
    }
    assert_eq!(numeric::num_parse(""), None);
}

#[test]
fn numeric_comparisons_match_native() {
    let vals = [0.0f64, -0.0, 1.0, -1.0, 2.5, f64::INFINITY, f64::NEG_INFINITY, f64::NAN];
    for a in vals {
        for b in vals {
            assert_eq!(numeric::num_lt(a.to_bits(), b.to_bits()), a < b);
            assert_eq!(numeric::num_le(a.to_bits(), b.to_bits()), a <= b);
            assert_eq!(numeric::num_eq(a.to_bits(), b.to_bits()), a == b);
        }
    }
    assert_eq!(numeric::num_neg(5.5f64.to_bits()), (-5.5f64).to_bits());
    assert!(f64::from_bits(numeric::num_neg(f64::NAN.to_bits())).is_nan());
}
