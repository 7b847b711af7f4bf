pub mod resolver;
pub mod sections;

pub use resolver::IncludeResolver;
pub use sections::{merge_sources, MathSections};
