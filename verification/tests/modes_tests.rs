use numora::modes::{ExecutionTarget, Mode, ModeCategory, ModeContext, ModeExecutor, ModePipeline, ModeRegistry, Runner};

#[test]
fn context_stores_normalized_modes() {
    let context = ModeContext::new(vec!["calculator".to_string(), "steps".to_string()]);

    assert_eq!(context.modes(), &["calculator", "steps"]);
}

#[test]
fn execution_mode_is_first_mode() {
    let context = ModeContext::new(vec!["physics".to_string(), "steps".to_string()]);

    assert_eq!(context.execution_mode(), "physics");
}

#[test]
fn empty_context_defaults_to_calculator() {
    let context = ModeContext::new(vec![]);

    assert_eq!(context.execution_mode(), "calculator");
}

#[test]
fn detects_steps_mode() {
    let context = ModeContext::new(vec!["calculator".to_string(), "steps".to_string()]);

    assert!(context.wants_steps());
}

#[test]
fn pipeline_calculator_steps_is_valid() {
    let pipeline = ModePipeline::new(vec!["calculator".to_string(), "steps".to_string()]);

    assert!(pipeline.is_ok());
}

#[test]
fn pipeline_physics_steps_is_valid() {
    let pipeline = ModePipeline::new(vec!["physics".to_string(), "steps".to_string()]);

    assert!(pipeline.is_ok());
}

#[test]
fn pipeline_solve_is_valid() {
    let pipeline = ModePipeline::new(vec!["solve".to_string()]);

    assert!(pipeline.is_ok());
}

#[test]
fn solve_steps_is_valid() {
    let pipeline = ModePipeline::new(vec!["solve".to_string(), "steps".to_string()]);

    assert!(pipeline.is_ok());
}

#[test]
fn pipeline_steps_calculator_is_invalid() {
    let pipeline = ModePipeline::new(vec!["steps".to_string(), "calculator".to_string()]);

    assert!(pipeline.is_err());
}

#[test]
fn pipeline_summary_calculator_is_invalid() {
    let pipeline = ModePipeline::new(vec!["summary".to_string(), "calculator".to_string()]);

    assert!(pipeline.is_err());
}

#[test]
fn pipeline_unknown_mode_is_invalid() {
    let pipeline = ModePipeline::new(vec!["unknown".to_string()]);

    assert!(pipeline.is_err());
}

#[test]
fn steps_normalizes_to_calculator_steps() {
    let pipeline = ModePipeline::new(vec!["steps".to_string()]).unwrap();

    assert_eq!(
        pipeline.modes(),
        &["calculator".to_string(), "steps".to_string()]
    );
}

#[test]
fn empty_modes_default_to_calculator() {
    let pipeline = ModePipeline::new(vec![]).unwrap();

    assert_eq!(pipeline.modes(), &["calculator".to_string()]);
}

#[test]
fn unknown_mode_message_lists_available_modes() {
    let error = ModePipeline::new(vec!["calculator".to_string(), "fast".to_string()]).unwrap_err();

    assert_eq!(
        error.to_string(),
        "Evaluation Error: Unknown run mode 'fast'. Available modes: calculator, algebra, physics, solve, steps, summary"
    );
}

#[test]
fn misplaced_mode_message_names_the_mode() {
    let error = ModePipeline::new(vec![
        "calculator".to_string(),
        "summary".to_string(),
        "physics".to_string(),
    ])
    .unwrap_err();

    assert_eq!(
        error.to_string(),
        "Evaluation Error: Invalid run mode order: 'physics' cannot run after an output mode. Use execution modes first, then output modes. Example: '@run calculator steps'"
    );
}

#[test]
fn unknown_mode_is_reported_before_order() {
    let error = ModePipeline::new(vec!["steps".to_string(), "calculator".to_string(), "nope".to_string()])
        .unwrap_err();

    assert!(error.to_string().contains("Unknown run mode 'nope'"));
}

#[test]
fn accepted_modes_are_accepted_again() {
    let first = ModePipeline::new(vec!["steps".to_string()]).unwrap();
    let again = ModePipeline::new(first.modes().to_vec()).unwrap();

    assert_eq!(again.modes(), first.modes());
}

#[test]
fn pipeline_hands_its_modes_to_the_context() {
    let context = ModePipeline::new(vec!["algebra".to_string(), "summary".to_string()])
        .unwrap()
        .into_context();

    assert_eq!(context.modes(), &["algebra", "summary"]);
    assert!(context.wants_summary());
    assert!(!context.wants_steps());
    assert!(context.has_mode("algebra"));
    assert!(!context.has_mode("physics"));
}

#[test]
fn registry_knows_each_mode() {
    assert!(ModeRegistry::is_known("calculator"));
    assert!(ModeRegistry::is_execution("algebra"));
    assert!(ModeRegistry::is_execution("physics"));
    assert!(ModeRegistry::is_execution("solve"));
    assert!(ModeRegistry::is_output("steps"));
    assert!(ModeRegistry::is_output("summary"));
    assert!(!ModeRegistry::is_known("ide"));
    assert!(!ModeRegistry::is_output("calculator"));
    assert!(!ModeRegistry::is_execution("steps"));

    let mode = ModeRegistry::get("summary").unwrap();
    assert_eq!(mode.name, "summary");
    assert_eq!(mode.category, ModeCategory::Output);
    assert!(ModeRegistry::get("unknown").is_none());
}

#[test]
fn mode_reports_its_category() {
    let mode = Mode::new("physics", ModeCategory::Execution);

    assert!(mode.is_execution());
    assert!(!mode.is_output());
}

#[test]
fn executor_selects_runner_for_execution_mode() {
    let select = |modes: Vec<&str>| {
        ModeExecutor::select(&ModeContext::new(modes.into_iter().map(String::from).collect()))
    };

    assert_eq!(select(vec!["calculator", "steps"]).unwrap(), ExecutionTarget::Calculator);
    assert_eq!(select(vec!["algebra"]).unwrap(), ExecutionTarget::Algebra);
    assert_eq!(select(vec!["physics"]).unwrap(), ExecutionTarget::Physics);
    assert_eq!(select(vec!["solve"]).unwrap(), ExecutionTarget::Solve);
    assert_eq!(select(vec![]).unwrap(), ExecutionTarget::Calculator);
    assert_eq!(
        select(vec!["summary"]).unwrap_err().to_string(),
        "Evaluation Error: Unknown execution mode: summary"
    );
}

#[test]
fn executor_picks_the_runner_that_does_the_work() {
    let context = |modes: Vec<&str>| ModeContext::new(modes.into_iter().map(String::from).collect());
    let plain = "given:\n    x = 1\n";
    let simplify = "simplify:\n    r = x + 0\n";

    assert_eq!(
        ModeExecutor::runner(plain, &context(vec!["calculator"]), ExecutionTarget::Calculator),
        Runner::Calculator
    );
    assert_eq!(
        ModeExecutor::runner(plain, &context(vec!["physics", "steps"]), ExecutionTarget::Physics),
        Runner::Steps
    );
    assert_eq!(
        ModeExecutor::runner(simplify, &context(vec!["algebra", "steps"]), ExecutionTarget::Algebra),
        Runner::AlgebraSimplify
    );
    assert_eq!(
        ModeExecutor::runner(plain, &context(vec!["algebra", "steps"]), ExecutionTarget::Algebra),
        Runner::Steps
    );
    assert_eq!(
        ModeExecutor::runner(simplify, &context(vec!["solve"]), ExecutionTarget::Solve),
        Runner::Solve
    );
}
