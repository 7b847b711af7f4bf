//! A run mode: its name and whether it runs a program or shapes its output.

use vstd::prelude::*;

verus! {

/// Execution modes run a program; output modes change what is printed.
#[derive(Debug, Clone, Copy, PartialEq, Eq, Structural)]
pub enum ModeCategory {
    Execution,
    Output,
}

/// A known run mode.
#[derive(Debug, Clone, PartialEq, Eq)]
pub struct Mode {
    pub name: &'static str,
    pub category: ModeCategory,
}

impl Mode {
    pub fn new(name: &'static str, category: ModeCategory) -> (m: Self)
        ensures
            m.name == name,
            m.category == category,
    {
        Self { name, category }
    }

    pub fn is_execution(&self) -> (r: bool)
        ensures
            r == (self.category == ModeCategory::Execution),
    {
        self.category == ModeCategory::Execution
    }

    pub fn is_output(&self) -> (r: bool)
        ensures
            r == (self.category == ModeCategory::Output),
    {
        self.category == ModeCategory::Output
    }
}

} // verus!
