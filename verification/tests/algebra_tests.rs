use numora::algebra::explain::{AlgebraExplanation, AlgebraExplanationStep};
use numora::algebra::runner::{
    collect_section_lines, parse_assignment, parse_find_names, source_uses_steps_mode,
};
use numora::algebra::{
    parse_algebra_term, plan_simplify_program, render_simplify_results,
    source_contains_simplify_section, to_latex, AlgebraOp, AlgebraSimplifyResult, AlgebraTerm,
};
use numora::algebra::latex::escape_latex_identifier;

fn term(source: &str) -> AlgebraTerm {
    parse_algebra_term(source).unwrap().unwrap()
}

fn plain(source: &str) -> String {
    term(source).to_plain()
}

fn latex(source: &str) -> String {
    to_latex(&term(source))
}

fn parse_error(source: &str) -> String {
    parse_algebra_term(source).unwrap().unwrap_err().to_string()
}

#[test]
fn detects_simplify_section() {
    let source = r#"
@run algebra

simplify:
    result = x + 0

find:
    result
"#;

    assert!(source_contains_simplify_section(source));
}

#[test]
fn simplify_section_header_ignores_case_and_blanks() {
    assert!(source_contains_simplify_section("  SIMPLIFY:  \n a = 1"));
    assert!(!source_contains_simplify_section("given:\n    simplify = 1"));
    assert!(!source_contains_simplify_section(""));
}

#[test]
fn reads_numbers_names_and_operators() {
    assert_eq!(plain("42"), "42");
    assert_eq!(plain("x"), "x");
    assert_eq!(plain("x + 2"), "(x + 2)");
    assert_eq!(plain("2 + 3 * 4"), "(2 + (3 * 4))");
    assert_eq!(plain("(2 + 3) * 4"), "((2 + 3) * 4)");
    assert_eq!(plain("x ^ 2"), "(x ^ 2)");
    assert_eq!(plain("8 / 4 / 2"), "((8 / 4) / 2)");
    assert_eq!(plain("a - b - c"), "((a - b) - c)");
}

#[test]
fn power_groups_to_the_right() {
    assert_eq!(plain("x ^ 2 ^ 3"), "(x ^ (2 ^ 3))");
}

#[test]
fn leading_minus_subtracts_from_zero() {
    assert_eq!(plain("-x"), "(0 - x)");
    assert_eq!(plain("--3"), "(0 - (0 - 3))");
    assert_eq!(plain("-x ^ 2"), "((0 - x) ^ 2)");
}

#[test]
fn parsed_tree_has_the_expected_shape() {
    match term("x * 2") {
        AlgebraTerm::Binary { op, left, right } => {
            assert_eq!(op, AlgebraOp::Multiply);
            assert!(matches!(*left, AlgebraTerm::Variable(ref n) if n == "x"));
            assert!(matches!(*right, AlgebraTerm::Number(ref v) if v == "2"));
        }
        other => panic!("unexpected term {:?}", other),
    }
}

#[test]
fn rejects_invalid_character() {
    let result = parse_algebra_term("x @ 2").unwrap();

    assert!(result.is_err());
}

#[test]
fn names_the_invalid_character() {
    assert_eq!(
        parse_error("x $ 2"),
        "Parser Error: Unexpected character in algebra expression: '$'"
    );
}

#[test]
fn rejects_unclosed_parentheses() {
    let result = parse_algebra_term("(x + 2").unwrap();

    assert!(result.is_err());
}

#[test]
fn names_the_missing_closing_parenthesis() {
    assert_eq!(
        parse_error("(x + 1"),
        "Parser Error: Expected ')' after algebra expression"
    );
}

#[test]
fn rejects_numbers_with_two_points_or_no_digit() {
    assert_eq!(
        parse_error("1.2.3 + x"),
        "Parser Error: Invalid number in algebra expression: 1.2.3"
    );
    assert_eq!(parse_error("."), "Parser Error: Invalid number in algebra expression: .");
    assert_eq!(plain(".5 + 5."), "(.5 + 5.)");
}

#[test]
fn rejects_trailing_tokens_and_missing_operands() {
    assert_eq!(
        parse_error("x y"),
        "Parser Error: Unexpected token after algebra expression: Some(Identifier(\"y\"))"
    );
    assert_eq!(
        parse_error("x )"),
        "Parser Error: Unexpected token after algebra expression: Some(RightParen)"
    );
    assert_eq!(
        parse_error("x +"),
        "Parser Error: Unexpected token in algebra expression: Plus"
    );
    assert_eq!(
        parse_error("* x"),
        "Parser Error: Unexpected token in algebra expression: Star"
    );
    assert_eq!(parse_error(""), "Parser Error: Unexpected end of algebra expression");
}

#[test]
fn reading_never_ends_at_a_final_open_parenthesis() {
    assert!(parse_algebra_term("(").is_none());
    assert!(parse_algebra_term("2 * (").is_none());
    assert!(parse_algebra_term("x (").unwrap().is_err());
}

#[test]
fn renders_number() {
    assert_eq!(latex("5"), "5");
}

#[test]
fn renders_variable() {
    assert_eq!(latex("x"), "x");
}

#[test]
fn renders_sums_and_differences() {
    assert_eq!(latex("x + 1"), "x + 1");
    assert_eq!(latex("x - 1"), "x - 1");
    assert_eq!(latex("a - (b - c)"), "a - \\left(b - c\\right)");
    assert_eq!(latex("(a - b) - c"), "a - b - c");
}

#[test]
fn renders_products() {
    assert_eq!(latex("2 * x"), "2x");
    assert_eq!(latex("x * 2"), "2x");
    assert_eq!(latex("x * y"), "x \\cdot y");
    assert_eq!(latex("2 * (x + 1)"), "2\\left(x + 1\\right)");
    assert_eq!(latex("(x + 1) * 2"), "2\\left(x + 1\\right)");
    assert_eq!(latex("(x + 1) * y"), "\\left(x + 1\\right) \\cdot y");
}

#[test]
fn renders_fraction_and_powers() {
    assert_eq!(latex("x / y"), "\\frac{x}{y}");
    assert_eq!(latex("x ^ 2"), "x^{2}");
    assert_eq!(latex("(x + 1) ^ 2"), "\\left(x + 1\\right)^{2}");
    assert_eq!(latex("x ^ (y + 1)"), "x^{y + 1}");
}

#[test]
fn renders_precedence() {
    assert_eq!(latex("x + 2 * y"), "x + 2y");
}

#[test]
fn renders_precedence_of_general_products_and_fractions() {
    assert_eq!(latex("x + y * z"), "x + y \\cdot z");
    assert_eq!(latex("(x + y) / z"), "\\frac{x + y}{z}");
}

#[test]
fn renders_greek_symbol_names_and_escapes_underscores() {
    assert_eq!(latex("alpha + beta"), "\\alpha + \\beta");
    assert_eq!(latex("x_1 + omega"), "x\\_1 + \\omega");
    assert_eq!(escape_latex_identifier("my_long_name"), "my\\_long\\_name");
    assert_eq!(escape_latex_identifier("pi"), "\\pi");
    assert_eq!(escape_latex_identifier("Pi"), "Pi");
}

#[test]
fn explanation_holds_text_and_latex() {
    let before = term("x * 2 + 0");
    let after = term("x * 2");
    let step = AlgebraExplanationStep::describe(&before, &after, "Additive identity", "Adding zero.");

    assert_eq!(step.before, "((x * 2) + 0)");
    assert_eq!(step.after, "(x * 2)");
    assert_eq!(step.latex_before, "2x + 0");
    assert_eq!(step.latex_after, "2x");
    assert_eq!(step.rule, "Additive identity");
    assert_eq!(step.explanation, "Adding zero.");

    let explanation = AlgebraExplanation::describe(&before, &after, vec![step.clone()]);
    assert_eq!(explanation.original, "((x * 2) + 0)");
    assert_eq!(explanation.simplified, "(x * 2)");
    assert_eq!(explanation.latex_original, "2x + 0");
    assert_eq!(explanation.latex_simplified, "2x");
    assert_eq!(explanation.steps, vec![step]);
}

#[test]
fn steps_mode_comes_from_the_first_run_line() {
    assert!(source_uses_steps_mode("@run algebra steps\nsimplify:\n a = 1"));
    assert!(source_uses_steps_mode("   @run steps"));
    assert!(!source_uses_steps_mode("@run algebra\n@run steps"));
    assert!(!source_uses_steps_mode("simplify:\n a = steps"));
    assert!(!source_uses_steps_mode("@run algebra stepsx"));
}

#[test]
fn collects_section_lines() {
    let source = "@run algebra\nsimplify:\n  a = 1\n# note\n\n  b = 2\nfind:\n  a\nSIMPLIFY:\n  c = 3\n";

    assert_eq!(collect_section_lines(source, "simplify"), vec!["a = 1", "b = 2"]);
    assert_eq!(collect_section_lines(source, "find"), vec!["a", "SIMPLIFY:", "c = 3"]);
    assert_eq!(collect_section_lines(source, "FIND"), vec!["a", "SIMPLIFY:", "c = 3"]);
    assert!(collect_section_lines(source, "given").is_empty());
}

#[test]
fn splits_assignments() {
    assert_eq!(
        parse_assignment(" y = x + 0 = 1 "),
        Some(("y".to_string(), "x + 0 = 1".to_string()))
    );
    assert_eq!(parse_assignment("= 3"), None);
    assert_eq!(parse_assignment("y ="), None);
    assert_eq!(parse_assignment("y"), None);
}

#[test]
fn find_names_skip_blank_lines() {
    let lines = vec![" a ".to_string(), "   ".to_string(), "b".to_string()];

    assert_eq!(parse_find_names(&lines), vec!["a", "b"]);
}

fn plan_names(source: &str) -> Vec<(String, String)> {
    plan_simplify_program(source)
        .unwrap()
        .unwrap()
        .into_iter()
        .map(|r| (r.name, r.expression.to_plain()))
        .collect()
}

fn plan_error(source: &str) -> String {
    plan_simplify_program(source).unwrap().unwrap_err().to_string()
}

#[test]
fn plan_keeps_every_result_without_find() {
    let source = "@run algebra\n\nsimplify:\n    first = x + 0\n    second = 1 * y\n";

    assert_eq!(
        plan_names(source),
        vec![
            ("first".to_string(), "(x + 0)".to_string()),
            ("second".to_string(), "(1 * y)".to_string())
        ]
    );
}

#[test]
fn plan_follows_the_find_section() {
    let source = "simplify:\n    a = x\n    b = y\n    a = z\nfind:\n    b\n    a\n    a\n";

    assert_eq!(
        plan_names(source),
        vec![
            ("b".to_string(), "y".to_string()),
            ("a".to_string(), "x".to_string()),
            ("a".to_string(), "x".to_string())
        ]
    );
}

#[test]
fn plan_reports_each_error() {
    assert_eq!(
        plan_error("given:\n    x = 1\n"),
        "Evaluation Error: Missing simplify section."
    );
    assert_eq!(
        plan_error("simplify:\n    x + 1\n"),
        "Evaluation Error: Invalid simplify assignment: x + 1"
    );
    assert_eq!(
        plan_error("simplify:\n    r = x $ 1\n"),
        "Evaluation Error: Failed to parse algebra expression 'x $ 1': Parser Error: Unexpected character in algebra expression: '$'"
    );
    assert_eq!(
        plan_error("@run algebra\n\nsimplify:\n    result = x + 0\n\nfind:\n    missing\n"),
        "Evaluation Error: Missing simplify result: missing"
    );
}

#[test]
fn plan_never_ends_where_reading_never_ends() {
    assert!(plan_simplify_program("simplify:\n    r = 2 * (\n").is_none());
}

fn sample_result(name: &str, steps: bool) -> AlgebraSimplifyResult {
    let before = term("x + 0");
    let after = term("x");
    let mut list = Vec::new();
    if steps {
        list.push(AlgebraExplanationStep::describe(
            &before,
            &after,
            "Additive identity",
            "Adding zero does not change the value of an expression.",
        ));
    }
    let explanation = AlgebraExplanation::describe(&before, &after, list);
    AlgebraSimplifyResult::new(name.to_string(), after.to_plain(), explanation)
}

#[test]
fn renders_results_without_steps() {
    let results = vec![sample_result("first", true), sample_result("second", false)];

    assert_eq!(
        render_simplify_results(&results, false),
        "result: first = x\nlatex: first = x\nresult: second = x\nlatex: second = x"
    );
}

#[test]
fn renders_results_with_steps() {
    let results = vec![sample_result("result", true)];

    assert_eq!(
        render_simplify_results(&results, true),
        "result: result = x\nlatex: result = x\nsteps:\nrule: Additive identity\nbefore: (x + 0)\nafter: x\nlatex_before: x + 0\nlatex_after: x\nexplanation: Adding zero does not change the value of an expression."
    );
    assert_eq!(render_simplify_results(&[], true), "");
}

#[test]
fn algebra_one_line_form_reads_back() {
    for source in ["x", "2.5", "x + 2 * y", "(a - b) - c ^ 2 ^ 3", "-x / 4", "alpha * (beta + 1)"] {
        let once = plain(source);
        let again = plain(&once);

        assert_eq!(once, again);
    }
}

#[test]
fn number_tokens_in_messages_read_as_f64_values() {
    assert_eq!(
        parse_error("x 2"),
        "Parser Error: Unexpected token after algebra expression: Some(Number(2.0))"
    );
    assert_eq!(
        parse_error("x 0.50"),
        "Parser Error: Unexpected token after algebra expression: Some(Number(0.5))"
    );
}

#[test]
fn showing_steps_only_adds_step_lines() {
    let results = vec![sample_result("first", true), sample_result("second", false), sample_result("third", true)];
    let with_steps = render_simplify_results(&results, true);
    let without_steps = render_simplify_results(&results, false);
    let labels = ["rule: ", "before: ", "after: ", "latex_before: ", "latex_after: ", "explanation: "];
    let is_step_line = |line: &str| line == "steps:" || labels.iter().any(|label| line.starts_with(label));

    let kept: Vec<&str> = with_steps.lines().filter(|line| !is_step_line(line)).collect();
    let plain: Vec<&str> = without_steps.lines().collect();

    assert_eq!(kept, plain);
    assert!(plain.iter().all(|line| !is_step_line(line)));
    assert!(with_steps.lines().count() > plain.len());
}
