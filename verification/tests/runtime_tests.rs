use numora::algebra::plan_simplify_program;
use numora::config::LanguageConfig;
use numora::modes::ExecutionTarget;
use numora::program::parse_math_program;
use numora::runtime::{Route, Runtime};

// A run is refused by `Runtime::prepare`, before anything is evaluated,
// when the modes on its `@run` line are out of order or unknown.

#[test]
fn mod_steps_calculator_is_invalid() {
    let runtime = Runtime::new(LanguageConfig::default());

    let source = r#"
@run steps calculator

given:
    x = 1

formula:
    result = x

find:
    result
"#;

    assert!(runtime.prepare(source).is_err());
}

#[test]
fn mod_summary_calculator_is_invalid() {
    let runtime = Runtime::new(LanguageConfig::default());

    let source = r#"
@run summary calculator

given:
    x = 1

formula:
    result = x

find:
    result
"#;

    assert!(runtime.prepare(source).is_err());
}

#[test]
fn mod_unknown_mode_is_invalid() {
    let runtime = Runtime::new(LanguageConfig::default());

    let source = r#"
@run unknown

given:
    x = 1

formula:
    result = x

find:
    result
"#;

    let error = runtime.prepare(source).unwrap_err();
    let message = format!("{:?}", error);

    assert!(message.contains("Unknown run mode"));
}

// A simplify program is refused by its plan, before anything is
// simplified, when `find:` names a result that no line assigns.

#[test]
fn rejects_missing_find_result() {
    let source = r#"
@run algebra

simplify:
    result = x + 0

find:
    missing
"#;

    let error = plan_simplify_program(source).unwrap().unwrap_err();

    assert!(error
        .to_string()
        .contains("Missing simplify result: missing"));
}

// An accepted run goes through the same verified steps: it is routed as a
// program, its modes are accepted and select a runner, and the program is
// read; what is left is the evaluation of its `f64` values.

fn accepted(source: &str) -> ExecutionTarget {
    let runtime = Runtime::new(LanguageConfig::default());

    assert_eq!(runtime.route(source).unwrap(), Route::Program);
    let (_, target) = runtime.prepare(source).unwrap();
    assert!(parse_math_program(source).is_ok());
    target
}

#[test]
fn mod_calculator_steps_is_valid() {
    let source = r#"
@run calculator steps

given:
    x = 1
    y = 2

formula:
    result = x + y

find:
    result
"#;

    assert_eq!(accepted(source), ExecutionTarget::Calculator);
}

#[test]
fn mod_physics_steps_is_valid() {
    let source = r#"
@run physics steps

given:
    x = 1
    y = 2

formula:
    result = x + y

find:
    result
"#;

    assert_eq!(accepted(source), ExecutionTarget::Physics);
}

#[test]
fn mod_solve_is_valid() {
    let source = r#"
    @run solve

    given:
        x = 2

    equation:
        y = x + 3

    solve:
        y
    "#;

    assert_eq!(accepted(source), ExecutionTarget::Solve);
}
