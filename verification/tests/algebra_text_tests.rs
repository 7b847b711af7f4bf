// Terms are read with `parse_algebra_term`, which answers `None` only where
// reading never ends; every input below is read to an end.

use numora::algebra::{parse_algebra_term, to_latex, AlgebraOp, AlgebraTerm};

fn read(source: &str) -> AlgebraTerm {
    parse_algebra_term(source).unwrap().unwrap()
}

fn latex(source: &str) -> String {
    to_latex(&read(source))
}

// One-line form of a term.

#[test]
fn displays_variable() {
    let expr = AlgebraTerm::variable("x".to_string());

    assert_eq!(expr.to_plain(), "x");
}

#[test]
fn displays_binary_expression() {
    let expr = AlgebraTerm::binary(
        AlgebraOp::Add,
        AlgebraTerm::variable("x".to_string()),
        AlgebraTerm::number("2".to_string()),
    );

    assert_eq!(expr.to_plain(), "(x + 2)");
}

// Reading.

#[test]
fn parses_number() {
    let expr = read("5");

    assert_eq!(expr.to_plain(), "5");
}

#[test]
fn parses_variable() {
    let expr = read("x");

    assert_eq!(expr.to_plain(), "x");
}

#[test]
fn parses_addition() {
    let expr = read("x + 2");

    assert_eq!(expr.to_plain(), "(x + 2)");
}

#[test]
fn respects_operator_precedence() {
    let expr = read("x + 2 * y");

    assert_eq!(expr.to_plain(), "(x + (2 * y))");
}

#[test]
fn parses_parentheses() {
    let expr = read("(x + 2) * y");

    assert_eq!(expr.to_plain(), "((x + 2) * y)");
}

#[test]
fn parses_power() {
    let expr = read("x ^ 2");

    assert_eq!(expr.to_plain(), "(x ^ 2)");
}

#[test]
fn power_is_right_associative() {
    let expr = read("x ^ 2 ^ 3");

    assert_eq!(expr.to_plain(), "(x ^ (2 ^ 3))");
}

#[test]
fn parses_unary_minus() {
    let expr = read("-x");

    assert_eq!(expr.to_plain(), "(0 - x)");
}

#[test]
fn algebra_module_parses_operator_precedence() {
    let expr = read("x + 2 * y");

    assert_eq!(expr.to_plain(), "(x + (2 * y))");
}

// LaTeX.

#[test]
fn renders_addition() {
    assert_eq!(latex("x + y"), "x + y");
}

#[test]
fn renders_subtraction() {
    assert_eq!(latex("x - y"), "x - y");
}

#[test]
fn renders_numeric_variable_multiplication() {
    assert_eq!(latex("2 * x"), "2x");
}

#[test]
fn renders_variable_numeric_multiplication_cleanly() {
    assert_eq!(latex("x * 2"), "2x");
}

#[test]
fn renders_general_multiplication_with_dot() {
    assert_eq!(latex("x * y"), "x \\cdot y");
}

#[test]
fn renders_fraction() {
    assert_eq!(latex("x / y"), "\\frac{x}{y}");
}

#[test]
fn renders_power() {
    assert_eq!(latex("x ^ 2"), "x^{2}");
}

#[test]
fn renders_power_with_grouped_base() {
    assert_eq!(latex("(x + 1) ^ 2"), "\\left(x + 1\\right)^{2}");
}

#[test]
fn renders_parentheses_for_multiplication_group() {
    assert_eq!(latex("2 * (x + 1)"), "2\\left(x + 1\\right)");
}

#[test]
fn renders_greek_symbol_names() {
    assert_eq!(latex("theta + lambda"), "\\theta + \\lambda");
}

#[test]
fn escapes_underscores() {
    assert_eq!(latex("x_1 + y_2"), "x\\_1 + y\\_2");
}

#[test]
fn latex_renders_basic_power() {
    assert_eq!(latex("x ^ 2"), "x^{2}");
}

#[test]
fn latex_renders_fraction() {
    assert_eq!(latex("x / y"), "\\frac{x}{y}");
}

#[test]
fn latex_renders_coefficient_multiplication() {
    assert_eq!(latex("2 * x"), "2x");
}

#[test]
fn latex_renders_grouped_expression_power() {
    assert_eq!(latex("(x + 1) ^ 2"), "\\left(x + 1\\right)^{2}");
}
