//! Reading the modes named on a `@run` line: defaults, the `steps`
//! shorthand, and the rule that output modes come after execution modes.

use vstd::prelude::*;

use crate::error::{evaluation_error, Numora};
use crate::modes::context::ModeContext;
use crate::modes::registry::{is_execution_mode, is_output_mode, mode_category, ModeRegistry};
use crate::text::{append_str, str_eq, string_from, string_views};

verus! {

/// No modes means `calculator`, and `steps` alone means `calculator steps`.
pub open spec fn normalize_modes(modes: Seq<Seq<char>>) -> Seq<Seq<char>> {
    if modes.len() == 0 {
        seq!["calculator"@]
    } else if modes.len() == 1 && modes[0] == "steps"@ {
        seq!["calculator"@, "steps"@]
    } else {
        modes
    }
}

/// Every mode is known to the registry.
pub open spec fn all_known(modes: Seq<Seq<char>>) -> bool {
    forall|i: int| 0 <= i < modes.len() ==> (#[trigger] mode_category(modes[i])) is Some
}

/// No execution mode comes after an output mode.
pub open spec fn well_ordered(modes: Seq<Seq<char>>) -> bool {
    forall|i: int, j: int|
        0 <= i < j < modes.len() && is_output_mode(#[trigger] modes[i]) ==> !is_execution_mode(
            #[trigger] modes[j],
        )
}

/// Index of the first unknown mode at or after `i`, or the length.
pub open spec fn first_unknown_from(modes: Seq<Seq<char>>, i: int) -> int
    decreases modes.len() - i,
{
    if i < 0 || i >= modes.len() {
        modes.len() as int
    } else if mode_category(modes[i]) is None {
        i
    } else {
        first_unknown_from(modes, i + 1)
    }
}

/// Is there an output mode before position `j`?
pub open spec fn output_before(modes: Seq<Seq<char>>, j: int) -> bool {
    exists|i: int| 0 <= i < j && is_output_mode(#[trigger] modes[i])
}

/// Index of the first execution mode at or after `j` that follows an output
/// mode, or the length.
pub open spec fn first_misplaced_from(modes: Seq<Seq<char>>, j: int) -> int
    decreases modes.len() - j,
{
    if j < 0 || j >= modes.len() {
        modes.len() as int
    } else if is_execution_mode(modes[j]) && output_before(modes, j) {
        j
    } else {
        first_misplaced_from(modes, j + 1)
    }
}

/// The message for an unknown mode.
pub open spec fn unknown_mode_message(mode: Seq<char>) -> Seq<char> {
    "Unknown run mode '"@ + mode
        + "'. Available modes: calculator, algebra, physics, solve, steps, summary"@
}

/// The message for an execution mode placed after an output mode.
pub open spec fn misplaced_mode_message(mode: Seq<char>) -> Seq<char> {
    "Invalid run mode order: '"@ + mode
        + "' cannot run after an output mode. Use execution modes first, then output modes. Example: '@run calculator steps'"@
}

/// Normalising never leaves a list empty, and a normalised list is
/// normalised already: a list the pipeline accepted is accepted again as it is.
pub proof fn lemma_normalize_settles(modes: Seq<Seq<char>>)
    ensures
        normalize_modes(modes).len() > 0,
        normalize_modes(normalize_modes(modes)) == normalize_modes(modes),
{
    reveal_strlit("steps");
    reveal_strlit("calculator");
    assert("calculator"@.len() != "steps"@.len());
    let n = normalize_modes(modes);
    if modes.len() == 0 {
        assert(n =~= seq!["calculator"@]);
        assert(n[0] != "steps"@);
    } else if modes.len() == 1 && modes[0] == "steps"@ {
        assert(n.len() == 2);
    }
}

proof fn lemma_first_unknown(modes: Seq<Seq<char>>, s: int, i: int)
    requires
        0 <= s <= i <= modes.len(),
        forall|k: int| s <= k < i ==> (#[trigger] mode_category(modes[k])) is Some,
        i < modes.len() ==> mode_category(modes[i]) is None,
    ensures
        first_unknown_from(modes, s) == i,
    decreases i - s,
{
    if s < i {
        lemma_first_unknown(modes, s + 1, i);
    }
}

proof fn lemma_first_misplaced(modes: Seq<Seq<char>>, s: int, j: int)
    requires
        0 <= s <= j <= modes.len(),
        forall|k: int| s <= k < j ==> !(is_execution_mode(#[trigger] modes[k]) && output_before(modes, k)),
        j < modes.len() ==> is_execution_mode(modes[j]) && output_before(modes, j),
    ensures
        first_misplaced_from(modes, s) == j,
    decreases j - s,
{
    if s < j {
        lemma_first_misplaced(modes, s + 1, j);
    }
}

#[derive(Debug, Clone)]
pub struct ModePipeline {
    modes: Vec<String>,
}

impl View for ModePipeline {
    type V = Seq<Seq<char>>;

    closed spec fn view(&self) -> Seq<Seq<char>> {
        string_views(self.modes@)
    }
}

impl ModePipeline {
    /// Normalises the requested modes and accepts them when every one is
    /// known and no execution mode follows an output mode.
    pub fn new(run_modes: Vec<String>) -> (r: Result<Self, Numora>)
        ensures
            ({
                let n = normalize_modes(string_views(run_modes@));
                &&& r is Ok <==> all_known(n) && well_ordered(n)
                &&& r matches Ok(p) ==> p@ == n
                &&& !all_known(n) ==> evaluation_error(r, unknown_mode_message(n[first_unknown_from(n, 0)]))
                &&& all_known(n) && !well_ordered(n) ==> evaluation_error(
                    r,
                    misplaced_mode_message(n[first_misplaced_from(n, 0)]),
                )
            }),
    {
        let modes = Self::normalize(run_modes);
        Self::validate_known_modes(&modes)?;
        Self::validate_order(&modes)?;
        Ok(Self { modes })
    }

    pub fn modes(&self) -> (r: &[String])
        ensures
            string_views(r@) == self@,
    {
        self.modes.as_slice()
    }

    pub fn into_context(self) -> (c: ModeContext)
        ensures
            c@ == self@,
    {
        ModeContext::new(self.modes)
    }

    fn normalize(run_modes: Vec<String>) -> (r: Vec<String>)
        ensures
            string_views(r@) == normalize_modes(string_views(run_modes@)),
    {
        if run_modes.len() == 0 {
            let mut r: Vec<String> = Vec::new();
            r.push(string_from("calculator"));
            assert(string_views(r@) =~= seq!["calculator"@]);
            return r;
        }
        if run_modes.len() == 1 && str_eq(run_modes[0].as_str(), "steps") {
            let mut r: Vec<String> = Vec::new();
            r.push(string_from("calculator"));
            r.push(string_from("steps"));
            assert(string_views(r@) =~= seq!["calculator"@, "steps"@]);
            return r;
        }
        run_modes
    }

    fn validate_known_modes(modes: &Vec<String>) -> (r: Result<(), Numora>)
        ensures
            r is Ok <==> all_known(string_views(modes@)),
            r is Err ==> evaluation_error(
                r,
                unknown_mode_message(string_views(modes@)[first_unknown_from(string_views(modes@), 0)]),
            ),
    {
        let ghost ms = string_views(modes@);
        let mut i: usize = 0;
        while i < modes.len()
            invariant
                i <= modes@.len(),
                ms == string_views(modes@),
                forall|k: int| 0 <= k < i ==> (#[trigger] mode_category(ms[k])) is Some,
            decreases modes@.len() - i,
        {
            if !ModeRegistry::is_known(modes[i].as_str()) {
                proof {
                    lemma_first_unknown(ms, 0, i as int);
                }
                let mut msg = string_from("Unknown run mode '");
                append_str(&mut msg, modes[i].as_str());
                append_str(
                    &mut msg,
                    "'. Available modes: calculator, algebra, physics, solve, steps, summary",
                );
                return Err(Numora::EvaluationError(msg));
            }
            i = i + 1;
        }
        Ok(())
    }

    fn validate_order(modes: &Vec<String>) -> (r: Result<(), Numora>)
        requires
            all_known(string_views(modes@)),
        ensures
            r is Ok <==> well_ordered(string_views(modes@)),
            r is Err ==> evaluation_error(
                r,
                misplaced_mode_message(
                    string_views(modes@)[first_misplaced_from(string_views(modes@), 0)],
                ),
            ),
    {
        let ghost ms = string_views(modes@);
        let mut output_mode_seen = false;
        let mut j: usize = 0;
        while j < modes.len()
            invariant
                j <= modes@.len(),
                ms == string_views(modes@),
                all_known(ms),
                output_mode_seen == output_before(ms, j as int),
                forall|k: int| 0 <= k < j ==> !(is_execution_mode(#[trigger] ms[k]) && output_before(ms, k)),
            decreases modes@.len() - j,
        {
            let name = modes[j].as_str();
            if ModeRegistry::is_output(name) {
                output_mode_seen = true;
                assert(output_before(ms, j + 1)) by {
                    assert(is_output_mode(ms[j as int]));
                }
            } else {
                if output_mode_seen && ModeRegistry::is_execution(name) {
                    proof {
                        lemma_first_misplaced(ms, 0, j as int);
                        let i = choose|i: int| 0 <= i < j && is_output_mode(#[trigger] ms[i]);
                        assert(0 <= i < j < ms.len() && is_output_mode(ms[i]) && is_execution_mode(
                            ms[j as int],
                        ));
                        assert(!well_ordered(ms));
                    }
                    let mut msg = string_from("Invalid run mode order: '");
                    append_str(&mut msg, name);
                    append_str(
                        &mut msg,
                        "' cannot run after an output mode. Use execution modes first, then output modes. Example: '@run calculator steps'",
                    );
                    return Err(Numora::EvaluationError(msg));
                }
                assert(output_before(ms, j + 1) == output_before(ms, j as int)) by {
                    if output_before(ms, j + 1) {
                        let i = choose|i: int| 0 <= i < j + 1 && is_output_mode(#[trigger] ms[i]);
                        assert(i != j);
                    }
                }
            }
            j = j + 1;
        }
        assert forall|i: int, k: int|
            0 <= i < k < ms.len() && is_output_mode(#[trigger] ms[i]) implies !is_execution_mode(
            #[trigger] ms[k],
        ) by {
            assert(output_before(ms, k));
        }
        Ok(())
    }
}

} // verus!
