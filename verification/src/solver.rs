//! Equations: reading `left = right` lines and checking the variable to solve for.
//! The numeric root search itself works on floating-point values and is not
//! part of this library.

use vstd::prelude::*;

use crate::error::{parser_error, Numora};
use crate::program::{check_name, name_error};
use crate::text::{append_chars, chars_of, split_once, split_once_chars, string_from, string_of, trim, trim_chars};

verus! {

/// An equation as its two sides' source text.
#[derive(Debug, Clone)]
pub struct Equation {
    pub left: String,
    pub right: String,
}

/// The two trimmed sides of an equation line, or the message for a malformed line.
pub open spec fn equation_of(line: Seq<char>) -> Result<(Seq<char>, Seq<char>), Seq<char>> {
    match split_once(line, '=') {
        None => Err("Expected equation like: x + 3 = 10, but found '"@ + line + "'"@),
        Some((a, b)) => if trim(a).len() == 0 {
            Err("Equation left side cannot be empty"@)
        } else if trim(b).len() == 0 {
            Err("Equation right side cannot be empty"@)
        } else {
            Ok((trim(a), trim(b)))
        },
    }
}

/// Splits an equation line at its first `=`.
pub fn parse_equation(line: &str) -> (r: Result<Equation, Numora>)
    ensures
        match equation_of(line@) {
            Ok((a, b)) => r matches Ok(e) && e.left@ == a && e.right@ == b,
            Err(m) => parser_error(r, m),
        },
{
    let v = chars_of(line);
    match split_once_chars(&v, '=') {
        None => {
            let mut msg = string_from("Expected equation like: x + 3 = 10, but found '");
            append_chars(&mut msg, &v);
            let q = chars_of("'");
            append_chars(&mut msg, &q);
            Err(Numora::ParserError(msg))
        },
        Some((a, b)) => {
            let left = trim_chars(&a);
            let right = trim_chars(&b);
            if left.len() == 0 {
                return Err(Numora::ParserError(string_from("Equation left side cannot be empty")));
            }
            if right.len() == 0 {
                return Err(Numora::ParserError(string_from("Equation right side cannot be empty")));
            }
            Ok(Equation { left: string_of(&left), right: string_of(&right) })
        },
    }
}

/// The variable to solve for must be an identifier.
pub fn validate_solve_variable(name: &str) -> (r: Result<(), Numora>)
    ensures
        match name_error(name@, "Solve variable"@) {
            Some(m) => parser_error(r, m),
            None => r is Ok,
        },
{
    let v = chars_of(name);
    check_name(&v, "Solve variable")
}

} // verus!
