//! The modes a program runs with, after they were checked and normalised.

use vstd::prelude::*;

use crate::text::{str_eq, string_views};

verus! {

/// The execution mode of a mode list: its first entry, or `calculator`
/// when the list is empty.
pub open spec fn execution_mode_of(modes: Seq<Seq<char>>) -> Seq<char> {
    if modes.len() > 0 {
        modes[0]
    } else {
        "calculator"@
    }
}

#[derive(Debug, Clone, PartialEq, Eq)]
pub struct ModeContext {
    normalized_modes: Vec<String>,
}

impl View for ModeContext {
    type V = Seq<Seq<char>>;

    closed spec fn view(&self) -> Seq<Seq<char>> {
        string_views(self.normalized_modes@)
    }
}

impl ModeContext {
    pub fn new(normalized_modes: Vec<String>) -> (c: Self)
        ensures
            c@ == string_views(normalized_modes@),
    {
        Self { normalized_modes }
    }

    pub fn modes(&self) -> (r: &[String])
        ensures
            string_views(r@) == self@,
    {
        self.normalized_modes.as_slice()
    }

    /// The mode that decides how the program runs.
    pub fn execution_mode(&self) -> (r: &str)
        ensures
            r@ == execution_mode_of(self@),
    {
        if self.normalized_modes.len() > 0 {
            self.normalized_modes[0].as_str()
        } else {
            "calculator"
        }
    }

    pub fn has_mode(&self, mode: &str) -> (r: bool)
        ensures
            r == self@.contains(mode@),
    {
        let mut i: usize = 0;
        while i < self.normalized_modes.len()
            invariant
                i <= self.normalized_modes@.len(),
                self@ == string_views(self.normalized_modes@),
                forall|k: int| 0 <= k < i ==> self@[k] != mode@,
            decreases self.normalized_modes@.len() - i,
        {
            if str_eq(self.normalized_modes[i].as_str(), mode) {
                assert(self@[i as int] == mode@);
                return true;
            }
            i = i + 1;
        }
        false
    }

    pub fn wants_steps(&self) -> (r: bool)
        ensures
            r == self@.contains("steps"@),
    {
        self.has_mode("steps")
    }

    pub fn wants_summary(&self) -> (r: bool)
        ensures
            r == self@.contains("summary"@),
    {
        self.has_mode("summary")
    }
}

} // verus!
