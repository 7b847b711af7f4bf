//! The explanation of a simplification: the expression before and after,
//! each as text and as LaTeX, and the rules applied on the way.

use vstd::prelude::*;

use crate::algebra::expression::{plain_text, AlgebraTerm};
use crate::algebra::latex::{latex, to_latex};
use crate::text::string_from;

verus! {

/// One rule applied in a simplification.
#[derive(Debug, Clone, PartialEq, Eq)]
pub struct AlgebraExplanationStep {
    pub before: String,
    pub after: String,
    pub latex_before: String,
    pub latex_after: String,
    pub rule: String,
    pub explanation: String,
}

/// A simplification with the rules applied in it.
#[derive(Debug, Clone, PartialEq, Eq)]
pub struct AlgebraExplanation {
    pub original: String,
    pub simplified: String,
    pub latex_original: String,
    pub latex_simplified: String,
    pub steps: Vec<AlgebraExplanationStep>,
}

impl AlgebraExplanationStep {
    /// The step from `before` to `after` by the named rule, with both
    /// expressions written as text and as LaTeX.
    pub fn describe(before: &AlgebraTerm, after: &AlgebraTerm, rule: &str, explanation: &str) -> (s: Self)
        ensures
            s.before@ == plain_text(before@),
            s.after@ == plain_text(after@),
            s.latex_before@ == latex(before@),
            s.latex_after@ == latex(after@),
            s.rule@ == rule@,
            s.explanation@ == explanation@,
    {
        AlgebraExplanationStep {
            before: before.to_plain(),
            after: after.to_plain(),
            latex_before: to_latex(before),
            latex_after: to_latex(after),
            rule: string_from(rule),
            explanation: string_from(explanation),
        }
    }
}

impl AlgebraExplanation {
    /// The explanation of the simplification of `original` into
    /// `simplified` by `steps`, both expressions written as text and as LaTeX.
    pub fn describe(
        original: &AlgebraTerm,
        simplified: &AlgebraTerm,
        steps: Vec<AlgebraExplanationStep>,
    ) -> (e: Self)
        ensures
            e.original@ == plain_text(original@),
            e.simplified@ == plain_text(simplified@),
            e.latex_original@ == latex(original@),
            e.latex_simplified@ == latex(simplified@),
            e.steps@ == steps@,
    {
        AlgebraExplanation {
            original: original.to_plain(),
            simplified: simplified.to_plain(),
            latex_original: to_latex(original),
            latex_simplified: to_latex(simplified),
            steps,
        }
    }
}

} // verus!
