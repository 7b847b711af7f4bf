//! Which program runner a mode context selects.

use vstd::prelude::*;

use crate::algebra::runner::{has_simplify_section, source_contains_simplify_section};
use crate::error::{evaluation_error, Numora};
use crate::modes::context::{execution_mode_of, ModeContext};
use crate::text::{append_str, str_eq, string_from};

verus! {

/// The program runner an execution mode stands for.
#[derive(Debug, Clone, Copy, PartialEq, Eq, Structural)]
pub enum ExecutionTarget {
    Calculator,
    Algebra,
    Physics,
    Solve,
}

/// The runner for an execution mode's name, or `None` for a name that has none.
pub open spec fn target_of(mode: Seq<char>) -> Option<ExecutionTarget> {
    if mode == "calculator"@ {
        Some(ExecutionTarget::Calculator)
    } else if mode == "algebra"@ {
        Some(ExecutionTarget::Algebra)
    } else if mode == "physics"@ {
        Some(ExecutionTarget::Physics)
    } else if mode == "solve"@ {
        Some(ExecutionTarget::Solve)
    } else {
        None
    }
}

/// Picks the runner for a mode context.
pub struct ModeExecutor;

impl ModeExecutor {
    /// The runner for the context's execution mode; an unknown execution
    /// mode is an evaluation error naming it.
    pub fn select(context: &ModeContext) -> (r: Result<ExecutionTarget, Numora>)
        ensures
            match target_of(execution_mode_of(context@)) {
                Some(t) => r == Ok::<ExecutionTarget, Numora>(t),
                None => evaluation_error(r, "Unknown execution mode: "@ + execution_mode_of(context@)),
            },
    {
        let mode = context.execution_mode();
        if str_eq(mode, "calculator") {
            Ok(ExecutionTarget::Calculator)
        } else if str_eq(mode, "algebra") {
            Ok(ExecutionTarget::Algebra)
        } else if str_eq(mode, "physics") {
            Ok(ExecutionTarget::Physics)
        } else if str_eq(mode, "solve") {
            Ok(ExecutionTarget::Solve)
        } else {
            let mut msg = string_from("Unknown execution mode: ");
            append_str(&mut msg, mode);
            Err(Numora::EvaluationError(msg))
        }
    }
}

/// The runner that does the work of a program.
#[derive(Debug, Clone, Copy, PartialEq, Eq, Structural)]
pub enum Runner {
    /// Evaluates the formula and reports the result.
    Calculator,
    /// Evaluates the formula and reports each step.
    Steps,
    /// Simplifies each line of the `simplify:` section.
    AlgebraSimplify,
    /// Solves the equation for its variable.
    Solve,
}

/// The runner for a target: calculator and physics programs run with steps
/// when the modes ask for them; an algebra program with a `simplify:`
/// section is simplified, any other runs as a calculator program.
pub open spec fn runner_of(target: ExecutionTarget, steps: bool, simplify: bool) -> Runner {
    match target {
        ExecutionTarget::Solve => Runner::Solve,
        ExecutionTarget::Algebra if simplify => Runner::AlgebraSimplify,
        _ => if steps {
            Runner::Steps
        } else {
            Runner::Calculator
        },
    }
}

impl ModeExecutor {
    /// The runner for the program `source`, run for `target` with the modes
    /// of `context`.
    pub fn runner(source: &str, context: &ModeContext, target: ExecutionTarget) -> (r: Runner)
        ensures
            r == runner_of(target, context@.contains("steps"@), has_simplify_section(source@)),
    {
        match target {
            ExecutionTarget::Solve => Runner::Solve,
            ExecutionTarget::Algebra if source_contains_simplify_section(source) => Runner::AlgebraSimplify,
            _ => if context.wants_steps() {
                Runner::Steps
            } else {
                Runner::Calculator
            },
        }
    }
}

} // verus!
