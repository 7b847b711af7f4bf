//! The table of run modes the language knows.

use vstd::prelude::*;

use crate::modes::mode::{Mode, ModeCategory};
use crate::text::str_eq;

verus! {

/// The category of the mode called `name`, or `None` for an unknown name.
pub open spec fn mode_category(name: Seq<char>) -> Option<ModeCategory> {
    if name == "calculator"@ || name == "algebra"@ || name == "physics"@ || name == "solve"@ {
        Some(ModeCategory::Execution)
    } else if name == "steps"@ || name == "summary"@ {
        Some(ModeCategory::Output)
    } else {
        None
    }
}

/// Is `name` a known execution mode?
pub open spec fn is_execution_mode(name: Seq<char>) -> bool {
    mode_category(name) == Some(ModeCategory::Execution)
}

/// Is `name` a known output mode?
pub open spec fn is_output_mode(name: Seq<char>) -> bool {
    mode_category(name) == Some(ModeCategory::Output)
}

/// The modes the language knows.
pub struct ModeRegistry;

impl ModeRegistry {
    /// The mode called `name`, if the language knows it.
    pub fn get(name: &str) -> (r: Option<Mode>)
        ensures
            r is Some <==> mode_category(name@) is Some,
            r matches Some(m) ==> m.name@ == name@ && Some(m.category) == mode_category(name@),
    {
        if str_eq(name, "calculator") {
            Some(Mode::new("calculator", ModeCategory::Execution))
        } else if str_eq(name, "algebra") {
            Some(Mode::new("algebra", ModeCategory::Execution))
        } else if str_eq(name, "physics") {
            Some(Mode::new("physics", ModeCategory::Execution))
        } else if str_eq(name, "solve") {
            Some(Mode::new("solve", ModeCategory::Execution))
        } else if str_eq(name, "steps") {
            Some(Mode::new("steps", ModeCategory::Output))
        } else if str_eq(name, "summary") {
            Some(Mode::new("summary", ModeCategory::Output))
        } else {
            None
        }
    }

    pub fn is_known(name: &str) -> (r: bool)
        ensures
            r == mode_category(name@) is Some,
    {
        Self::get(name).is_some()
    }

    pub fn is_execution(name: &str) -> (r: bool)
        ensures
            r == is_execution_mode(name@),
    {
        match Self::get(name) {
            Some(mode) => mode.is_execution(),
            None => false,
        }
    }

    pub fn is_output(name: &str) -> (r: bool)
        ensures
            r == is_output_mode(name@),
    {
        match Self::get(name) {
            Some(mode) => mode.is_output(),
            None => false,
        }
    }
}

} // verus!
