//! The error type shared by every stage of the language.

use vstd::prelude::*;

use crate::text::{append_str, string_from};

verus! {

/// An error of one of the three stages: reading characters, reading the
/// grammar, or evaluating.
#[derive(Debug, Clone)]
pub enum Numora {
    LexerError(String),
    ParserError(String),
    EvaluationError(String),
}

impl Numora {
    /// The text the error is shown with: the stage's name, a colon and the message.
    pub open spec fn display(&self) -> Seq<char> {
        match self {
            Numora::LexerError(msg) => "Lexer Error: "@ + msg@,
            Numora::ParserError(msg) => "Parser Error: "@ + msg@,
            Numora::EvaluationError(msg) => "Evaluation Error: "@ + msg@,
        }
    }

    /// The message without the stage's name.
    pub open spec fn message(&self) -> Seq<char> {
        match self {
            Numora::LexerError(msg) => msg@,
            Numora::ParserError(msg) => msg@,
            Numora::EvaluationError(msg) => msg@,
        }
    }

    /// Renders the error as [`Numora::display`] describes.
    pub fn to_string(&self) -> (s: String)
        ensures
            s@ == self.display(),
    {
        match self {
            Numora::LexerError(msg) => {
                let mut s = string_from("Lexer Error: ");
                append_str(&mut s, msg.as_str());
                s
            },
            Numora::ParserError(msg) => {
                let mut s = string_from("Parser Error: ");
                append_str(&mut s, msg.as_str());
                s
            },
            Numora::EvaluationError(msg) => {
                let mut s = string_from("Evaluation Error: ");
                append_str(&mut s, msg.as_str());
                s
            },
        }
    }
}

/// `r` is an evaluation error with message `msg`.
pub open spec fn evaluation_error<T>(r: Result<T, Numora>, msg: Seq<char>) -> bool {
    match r {
        Err(Numora::EvaluationError(m)) => m@ == msg,
        _ => false,
    }
}

/// `r` is a parser error with message `msg`.
pub open spec fn parser_error<T>(r: Result<T, Numora>, msg: Seq<char>) -> bool {
    match r {
        Err(Numora::ParserError(m)) => m@ == msg,
        _ => false,
    }
}

/// `r` is a lexer error with message `msg`.
pub open spec fn lexer_error<T>(r: Result<T, Numora>, msg: Seq<char>) -> bool {
    match r {
        Err(Numora::LexerError(m)) => m@ == msg,
        _ => false,
    }
}

} // verus!
