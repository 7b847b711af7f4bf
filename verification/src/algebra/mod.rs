//! Simplifying algebra: the expression trees, their reading and rendering,
//! and the parts of a `simplify:` program that do not compute with numbers.

pub mod explain;
pub mod expression;
pub mod latex;
pub mod lines;
pub mod parser;
pub mod roundtrip;
pub mod runner;

pub use explain::{AlgebraExplanation, AlgebraExplanationStep};
pub use expression::{AlgebraOp, AlgebraTerm};
pub use latex::to_latex;
pub use parser::parse_algebra_term;
pub use runner::{
    plan_simplify_program, render_simplify_results, source_contains_simplify_section,
    AlgebraSimplifyResult, SimplifyRequest,
};
