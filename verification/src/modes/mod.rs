pub mod context;
pub mod executor;
pub mod mode;
pub mod pipeline;
pub mod registry;

pub use context::ModeContext;
pub use executor::{ExecutionTarget, ModeExecutor, Runner};
pub use mode::{Mode, ModeCategory};
pub use pipeline::ModePipeline;
pub use registry::ModeRegistry;
