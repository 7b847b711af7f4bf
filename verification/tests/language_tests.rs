use numora::ast::{BinaryOperator, Expr, UnaryOperator};
use numora::config::LanguageConfig;
use numora::error::Numora;
use numora::includes::resolver::{IncludeExpansion, IncludeStep};
use numora::includes::IncludeResolver;
use numora::lexer::Lexer;
use numora::modes::ExecutionTarget;
use numora::parser::Parser;
use numora::program::{
    detect_run_mode, detect_run_modes, parse_assignment, parse_expression_to_ast,
    parse_math_program, validate_identifier, RunMode,
};
use numora::runtime::{Route, Runtime};
use numora::solver::{parse_equation, validate_solve_variable};
use numora::token::Token;
use numora::tracer::expr_to_string;
use numora::value::UnitDim;

fn text(expr: &Expr) -> String {
    expr_to_string(expr)
}

fn parsed(source: &str) -> String {
    text(&parse_expression_to_ast(source).unwrap())
}

#[test]
fn lexes_numbers_names_and_signs() {
    let tokens = Lexer::new("2.5 * x_1 ^ (3 - y), 7 = z").tokenize().unwrap();

    assert_eq!(
        tokens,
        vec![
            Token::Number("2.5".to_string()),
            Token::Star,
            Token::Identifier("x_1".to_string()),
            Token::Power,
            Token::LeftParen,
            Token::Number("3".to_string()),
            Token::Minus,
            Token::Identifier("y".to_string()),
            Token::RightParen,
            Token::Comma,
            Token::Number("7".to_string()),
            Token::Equal,
            Token::Identifier("z".to_string()),
            Token::End,
        ]
    );
}

#[test]
fn underscore_is_minus_between_numbers() {
    let with_underscore = Lexer::new("10 _ 3").tokenize().unwrap();
    let with_minus = Lexer::new("10 - 3").tokenize().unwrap();

    assert_eq!(with_underscore, with_minus);
    assert_eq!(parsed("10 _ 3"), "(10 - 3)");
}

#[test]
fn lexer_reports_bad_numbers_and_characters() {
    let error = |s: &str| Lexer::new(s).tokenize().unwrap_err().to_string();

    assert_eq!(error("1.2.3"), "Lexer Error: Number has more than one decimal point");
    assert_eq!(error("5. + 1"), "Lexer Error: Invalid number '5.'");
    assert_eq!(error(". 5"), "Lexer Error: Unexpected '.'");
    assert_eq!(error("2 $ 3"), "Lexer Error: Unknown character '$'");
    assert_eq!(Lexer::new(".5").tokenize().unwrap(), vec![Token::Number(".5".to_string()), Token::End]);
}

#[test]
fn parses_with_precedence_and_grouping() {
    assert_eq!(parsed("1 + 2 * 3"), "(1 + (2 * 3))");
    assert_eq!(parsed("(1 + 2) * 3"), "((1 + 2) * 3)");
    assert_eq!(parsed("2 ^ 3 ^ 2"), "((2 ^ 3) ^ 2)");
    assert_eq!(parsed("-5 + 10"), "(-5 + 10)");
    assert_eq!(parsed("10 - 3 - 2"), "((10 - 3) - 2)");
}

#[test]
fn parses_quantities_calls_and_symbols() {
    assert_eq!(parsed("5 m * 4 m"), "(5 m * 4 m)");
    assert_eq!(parsed("sumof(1, 2, 3)"), "sumof(1, 2, 3)");
    assert_eq!(parsed("pi()"), "pi()");
    assert_eq!(parsed("sqrt(x + 1) / 2"), "(sqrt((x + 1)) / 2)");
}

#[test]
fn builds_the_expected_tree() {
    let expr = parse_expression_to_ast("-x * 2").unwrap();

    match expr {
        Expr::Binary { left, operator, right } => {
            assert_eq!(operator, BinaryOperator::Multiply);
            assert!(matches!(
                *left,
                Expr::Unary { operator: UnaryOperator::Negative, ref expression }
                    if matches!(**expression, Expr::Symbol { ref name } if name == "x")
            ));
            assert!(matches!(*right, Expr::Number(ref v) if v == "2"));
        }
        other => panic!("unexpected tree {:?}", other),
    }
}

#[test]
fn parser_reports_unexpected_tokens() {
    let error = |s: &str| parse_expression_to_ast(s).unwrap_err().to_string();

    assert_eq!(error("1 2"), "Parser Error: Unexpected token: Number(2.0)");
    assert_eq!(error("5 x"), "Parser Error: Unexpected token: Identifier(\"x\")");
    assert_eq!(
        error("1 + * 2"),
        "Parser Error: Expected number, symbol, function, or '(' but found Star"
    );
    assert_eq!(error("(1 + 2"), "Parser Error: Expected ')' after expression");
    assert_eq!(
        error("f(1 2)"),
        "Parser Error: Expected ',' or ')' in function call but found Number(2.0)"
    );
    assert_eq!(error(""), "Parser Error: Expected number, symbol, function, or '(' but found End");
}

#[test]
fn parser_reads_from_given_tokens() {
    let tokens = vec![Token::Number("4".to_string()), Token::Slash, Token::Number("2".to_string()), Token::End];
    let expr = Parser::new(tokens).parse().unwrap();

    assert_eq!(text(&expr), "(4 / 2)");
}

#[test]
fn writes_expressions_on_one_line() {
    let expr = Expr::FunctionCall {
        name: "maxof".to_string(),
        arguments: vec![
            Expr::Number("1".to_string()),
            Expr::Unary {
                operator: UnaryOperator::Negative,
                expression: Box::new(Expr::Symbol { name: "x".to_string() }),
            },
            Expr::Quantity { number: "3".to_string(), unit: "kg".to_string() },
        ],
    };

    assert_eq!(text(&expr), "maxof(1, -x, 3 kg)");
}

#[test]
fn detects_run_mode_from_text() {
    assert_eq!(detect_run_mode("@run steps\n"), RunMode::Steps);
    assert_eq!(detect_run_mode("@run solve\n"), RunMode::Solve);
    assert_eq!(detect_run_mode("@run solve\n@run steps"), RunMode::Steps);
    assert_eq!(detect_run_mode("given:\n x = 1"), RunMode::Calculator);
}

#[test]
fn detects_modes_of_the_first_run_line() {
    assert_eq!(detect_run_modes("\n  @run algebra   steps \n@run solve"), vec!["algebra", "steps"]);
    assert_eq!(detect_run_modes("@run"), Vec::<String>::new());
    assert_eq!(detect_run_modes("given:\n x = 1"), Vec::<String>::new());
}

#[test]
fn reads_a_calculator_program() {
    let source = r#"
@run steps
// comment
# another

given:
    n = 7
    m = n + 1

formula:
    f = (n + 1) / 4

find:
    f
"#;

    let program = parse_math_program(source).unwrap();

    assert_eq!(program.run_mode, RunMode::Steps);
    assert_eq!(program.assignments.len(), 2);
    assert_eq!(program.assignments[1].name, "m");
    assert_eq!(program.assignments[1].expression, "n + 1");
    let formula = program.formula.unwrap();
    assert_eq!(formula.name, "f");
    assert_eq!(formula.expression, "(n + 1) / 4");
    assert_eq!(program.find.as_deref(), Some("f"));
    assert!(program.equation.is_none());
    assert!(program.solve.is_none());
}

#[test]
fn reports_the_find_name_else_the_formula_name() {
    let names = |list: &[&str]| list.iter().map(|n| n.to_string()).collect::<Vec<String>>();
    let with_find = parse_math_program("given:\n n = 1\nformula:\n f = n\nfind:\n n\n").unwrap();
    let without_find = parse_math_program("given:\n n = 1\nformula:\n f = n\n").unwrap();
    let given_only = parse_math_program("given:\n n = 1\n").unwrap();

    assert_eq!(with_find.result_name(&names(&["n", "f"])).unwrap(), "n");
    assert_eq!(
        with_find.result_name(&names(&["f"])).unwrap_err().to_string(),
        "Evaluation Error: Cannot find 'n'. It was not defined"
    );
    assert_eq!(without_find.result_name(&names(&["n", "f"])).unwrap(), "f");
    assert_eq!(
        without_find.result_name(&names(&["n"])).unwrap_err().to_string(),
        "Evaluation Error: Program has no formula or find target"
    );
    assert_eq!(
        given_only.result_name(&names(&["n"])).unwrap_err().to_string(),
        "Evaluation Error: Program has no formula or find target"
    );
}

#[test]
fn steps_and_solve_runs_need_their_sections() {
    let formula_only = parse_math_program("formula:\n f = 1\n").unwrap();
    let given_only = parse_math_program("given:\n n = 1\n").unwrap();
    let equation_only = parse_math_program("@run solve\nequation:\n x = 2\n").unwrap();
    let solve_only = parse_math_program("@run solve\nsolve:\n x\n").unwrap();
    let both = parse_math_program("@run solve\nequation:\n x = 2\nsolve:\n x\n").unwrap();

    assert_eq!(formula_only.steps_formula().unwrap().name, "f");
    assert_eq!(
        given_only.steps_formula().unwrap_err().to_string(),
        "Evaluation Error: @run steps needs a formula section"
    );
    assert_eq!(
        solve_only.solve_parts().unwrap_err().to_string(),
        "Evaluation Error: @run solve needs an equation section"
    );
    assert_eq!(
        equation_only.solve_parts().unwrap_err().to_string(),
        "Evaluation Error: @run solve needs a solve section"
    );
    let (equation, variable) = both.solve_parts().unwrap();
    assert_eq!(equation.left, "x");
    assert_eq!(equation.right, "2");
    assert_eq!(variable, "x");
}

#[test]
fn reads_a_solve_program_and_input_lines() {
    let program = parse_math_program("@run solve\nequation:\n  a^2 + b^2 = c^2\nsolve:\n  c\n").unwrap();
    let equation = program.equation.unwrap();

    assert_eq!(program.run_mode, RunMode::Solve);
    assert_eq!(equation.left, "a^2 + b^2");
    assert_eq!(equation.right, "c^2");
    assert_eq!(program.solve.as_deref(), Some("c"));

    let program = parse_math_program("input: 2 + 3").unwrap();
    let formula = program.formula.unwrap();
    assert_eq!(formula.name, "answer");
    assert_eq!(formula.expression, "2 + 3");
    assert_eq!(program.find.as_deref(), Some("answer"));
}

#[test]
fn program_reader_reports_the_first_error() {
    let error = |s: &str| parse_math_program(s).unwrap_err().to_string();

    assert_eq!(
        error("x = 1"),
        "Parser Error: Line outside a section: 'x = 1'. Expected given:, formula:, equation:, find:, or solve:"
    );
    assert_eq!(
        error("given:\n  x 1\n"),
        "Parser Error: Expected assignment like: n = 7, but found 'x 1'"
    );
    assert_eq!(error("given:\n  = 1\n"), "Parser Error: Assignment name cannot be empty");
    assert_eq!(error("given:\n  x =\n"), "Parser Error: Assignment 'x' has no expression after '='");
    assert_eq!(error("find:\n  2x\n"), "Parser Error: Identifier '2x' must start with a letter");
    assert_eq!(
        error("solve:\n  x-1\n"),
        "Parser Error: Identifier 'x-1' contains invalid character '-'"
    );
    assert_eq!(
        error("equation:\n  x + 1\n"),
        "Parser Error: Expected equation like: x + 3 = 10, but found 'x + 1'"
    );
}

#[test]
fn checks_names() {
    assert!(validate_identifier("speed_2").is_ok());
    assert_eq!(
        validate_identifier("").unwrap_err().to_string(),
        "Parser Error: Identifier cannot be empty"
    );
    assert_eq!(
        validate_solve_variable("9x").unwrap_err().to_string(),
        "Parser Error: Solve variable '9x' must start with a letter"
    );
    let assignment = parse_assignment(" area = w * h = 2 ").unwrap();
    assert_eq!(assignment.name, "area");
    assert_eq!(assignment.expression, "w * h = 2");
}

#[test]
fn reads_equations() {
    let equation = parse_equation(" x + 3 = 10 ").unwrap();

    assert_eq!(equation.left, "x + 3");
    assert_eq!(equation.right, "10");
    assert_eq!(
        parse_equation("= 10").unwrap_err().to_string(),
        "Parser Error: Equation left side cannot be empty"
    );
    assert_eq!(
        parse_equation("x =  ").unwrap_err().to_string(),
        "Parser Error: Equation right side cannot be empty"
    );
}

#[test]
fn reads_include_lines() {
    assert_eq!(IncludeResolver::parse_include("x = 1").unwrap(), None);
    assert_eq!(
        IncludeResolver::parse_include("@include \"math/vars.mth\"").unwrap(),
        Some("math/vars.mth".to_string())
    );
    assert_eq!(
        IncludeResolver::parse_include("@include@include \" a.mth \"").unwrap(),
        Some("a.mth".to_string())
    );
    assert_eq!(
        IncludeResolver::parse_include("@include common.mth").unwrap_err().to_string(),
        "Parser Error: Invalid include syntax: @include common.mth. Expected @include \"path/to/file.mth\""
    );
    assert_eq!(
        IncludeResolver::parse_include("@include \"\"").unwrap_err().to_string(),
        "Parser Error: Include path cannot be empty"
    );
}

#[test]
fn expands_a_source_without_includes_to_its_lines() {
    let mut expansion = IncludeExpansion::new("a\n  b\n", "/base".to_string());

    match expansion.next().unwrap() {
        IncludeStep::Done(text) => assert_eq!(text, "a\n  b\n"),
        IncludeStep::Resolve { .. } => panic!("no include expected"),
    }
}

#[test]
fn expands_nested_includes() {
    let mut expansion = IncludeExpansion::new("top\n@include \"common.mth\"\nend", "/base".to_string());

    match expansion.next().unwrap() {
        IncludeStep::Resolve { base, path } => {
            assert_eq!(base, "/base");
            assert_eq!(path, "common.mth");
        }
        IncludeStep::Done(_) => panic!("include expected"),
    }
    assert!(expansion.check_cycle("/base/common.mth").is_ok());
    expansion.enter("/base/common.mth".to_string(), "/base".to_string(), "  @include \"math/vars.mth\"");

    match expansion.next().unwrap() {
        IncludeStep::Resolve { base, path } => {
            assert_eq!(base, "/base");
            assert_eq!(path, "math/vars.mth");
        }
        IncludeStep::Done(_) => panic!("include expected"),
    }
    expansion.enter("/base/math/vars.mth".to_string(), "/base/math".to_string(), "given:\n    x = 10");

    match expansion.next().unwrap() {
        IncludeStep::Done(text) => {
            assert_eq!(text, "top\ngiven:\n    x = 10\n\n\nend\n");
        }
        IncludeStep::Resolve { .. } => panic!("no include expected"),
    }
}

#[test]
fn refuses_circular_includes_and_bad_lines() {
    let mut expansion = IncludeExpansion::new("@include \"a.mth\"", "/d".to_string());
    assert!(matches!(expansion.next().unwrap(), IncludeStep::Resolve { .. }));
    expansion.enter("/d/a.mth".to_string(), "/d".to_string(), "@include \"b.mth\"");
    assert!(matches!(expansion.next().unwrap(), IncludeStep::Resolve { .. }));
    expansion.enter("/d/b.mth".to_string(), "/d".to_string(), "@include \"a.mth\"");
    assert!(matches!(expansion.next().unwrap(), IncludeStep::Resolve { .. }));
    assert_eq!(
        expansion.check_cycle("/d/a.mth").unwrap_err().to_string(),
        "Evaluation Error: Circular include detected: /d/a.mth"
    );

    let mut bad = IncludeExpansion::new("@run calculator\n@include common.mth\n", "/d".to_string());
    assert!(bad.next().is_err());
}

#[test]
fn runtime_routes_sources() {
    let runtime = Runtime::new(LanguageConfig::default());

    assert_eq!(runtime.route("1 + 2 * 3").unwrap(), Route::Direct);
    assert_eq!(runtime.route("given:\n x = 1").unwrap(), Route::Program);
    assert_eq!(runtime.route("@run calculator").unwrap(), Route::Program);
    assert_eq!(runtime.route("   ").unwrap(), Route::Program);
    assert_eq!(
        runtime.route("@run ide").unwrap_err().to_string(),
        "Evaluation Error: IDE API feature is disabled"
    );

    let mut config = LanguageConfig::default();
    config.units_enabled = false;
    assert_eq!(
        Runtime::new(config).route("unit: m").unwrap_err().to_string(),
        "Evaluation Error: Units feature is disabled"
    );
}

#[test]
fn runtime_prepares_the_modes_of_a_program() {
    let runtime = Runtime::new(LanguageConfig::default());
    let source = "@run calculator steps\n\ngiven:\n    x = 1\n";

    let (context, target) = runtime.prepare(source).unwrap();
    assert_eq!(context.modes(), &["calculator", "steps"]);
    assert_eq!(target, ExecutionTarget::Calculator);

    let (context, target) = runtime.prepare("given:\n x = 1").unwrap();
    assert_eq!(context.modes(), &["calculator"]);
    assert_eq!(target, ExecutionTarget::Calculator);

    let (_, target) = runtime.prepare("@run algebra steps\nsimplify:\n r = x").unwrap();
    assert_eq!(target, ExecutionTarget::Algebra);
}

#[test]
fn runtime_refuses_badly_ordered_or_unknown_modes() {
    let runtime = Runtime::new(LanguageConfig::default());

    assert!(runtime.prepare("@run steps calculator\n").is_err());
    assert!(runtime.prepare("@run summary calculator\n").is_err());
    let message = format!("{:?}", runtime.prepare("@run unknown\n").unwrap_err());
    assert!(message.contains("Unknown run mode"));
    assert_eq!(
        runtime.prepare("@run summary").unwrap_err().to_string(),
        "Evaluation Error: Unknown execution mode: summary"
    );
}

#[test]
fn units_combine_by_their_exponents() {
    let length = UnitDim::length();
    let time = UnitDim::time();
    let mass = UnitDim::mass();

    assert_eq!(length.multiply(length).format(), "m^2");
    assert_eq!(length.divide(time).format(), "m/s");
    assert_eq!(mass.multiply(length).divide(time.power(2)).format(), "m*kg/s^2");
    assert_eq!(UnitDim::none().format(), "");
    assert_eq!(time.divide(length).divide(mass).format(), "s/m*kg");
    assert_eq!(length.multiply(time), time.multiply(length));
    assert_eq!(length.multiply(time).divide(time), length);
    assert_eq!(length.power(2).sqrt().unwrap(), length);
    assert!(UnitDim::none().is_dimensionless());
    assert!(!length.is_dimensionless());
}

#[test]
fn unit_errors_name_the_units() {
    let length = UnitDim::length();
    let time = UnitDim::time();

    assert_eq!(
        length.require_same(time, "add").unwrap_err().to_string(),
        "Evaluation Error: Cannot add values with different units: 'm' and 's'"
    );
    assert!(length.require_same(length, "add").is_ok());
    assert_eq!(
        length.sqrt().unwrap_err().to_string(),
        "Evaluation Error: sqrt() cannot cleanly simplify unit 'm'"
    );
    assert_eq!(UnitDim::of_unit("km").unwrap(), length);
    assert_eq!(UnitDim::of_unit("g").unwrap(), UnitDim::mass());
    assert_eq!(
        UnitDim::of_unit("ft").unwrap_err().to_string(),
        "Evaluation Error: Unknown unit 'ft'"
    );
}

#[test]
fn errors_show_their_stage() {
    assert_eq!(Numora::LexerError("a".to_string()).to_string(), "Lexer Error: a");
    assert_eq!(Numora::ParserError("b".to_string()).to_string(), "Parser Error: b");
    assert_eq!(Numora::EvaluationError("c".to_string()).to_string(), "Evaluation Error: c");
}

#[test]
fn default_config_enables_all_but_the_ide() {
    let config = LanguageConfig::default();

    assert!(config.calculator_enabled);
    assert!(config.variables_enabled);
    assert!(config.steps_enabled);
    assert!(config.equations_enabled);
    assert!(config.units_enabled);
    assert!(!config.ide_api_enabled);
    assert_eq!(Runtime::new(config).config().units_enabled, true);
}

#[test]
fn expression_one_line_form_reads_back() {
    for source in [
        "1 + 2 * 3",
        "-(x ^ 2) / 4",
        "sumof(1, 2.5, avgof(x, y))",
        "5 m * 4 m",
        "pi()",
        "--.5",
    ] {
        let once = parsed(source);
        let again = parsed(&once);

        assert_eq!(once, again);
    }
}

#[test]
fn steps_are_written_fully_parenthesised() {
    assert_eq!(parsed("(n + 1) / 4"), "((n + 1) / 4)");
    assert_eq!(parsed("PI * radius^2"), "(PI * (radius ^ 2))");
}

#[test]
fn lexer_is_left_at_the_end_of_its_text() {
    let mut lexer = Lexer::new("1 + 2");

    assert_eq!(lexer.tokenize().unwrap().len(), 4);
    let again = lexer.tokenize().unwrap();
    assert!(matches!(again.as_slice(), [Token::End]));
}

#[test]
fn extreme_even_exponents_still_halve_and_compare() {
    let extreme = UnitDim { length: i32::MIN, time: 0, mass: 2 };

    assert_eq!(
        extreme.sqrt().unwrap(),
        UnitDim { length: i32::MIN / 2, time: 0, mass: 1 }
    );
    assert!(extreme.require_same(extreme, "add").is_ok());
}
