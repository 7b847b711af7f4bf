pub mod algebra;
pub mod error;
pub mod includes;
pub mod modes;
pub mod text;
pub mod value;
pub mod lexer;
pub mod numeral;
pub mod token;
pub mod tracer;
pub mod ast;
pub mod parser;
pub mod program;
pub mod roundtrip;
pub mod solver;
pub mod config;
pub mod runtime;
