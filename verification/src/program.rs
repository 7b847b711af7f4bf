//! Reading `.mth` calculator programs: the run mode, `given:` assignments, the
//! `formula:`, an `equation:`, and the `find:` and `solve:` targets.

use vstd::prelude::*;

use crate::ast::{Expr, ExprView};
use crate::error::{evaluation_error, lexer_error, parser_error, Numora};
use crate::lexer::{lex, Lexer};
use crate::parser::{parse_tokens, Parser};
use crate::lexer::{alpha, ident_char, is_alpha, is_ident_char};
use crate::solver::{equation_of, parse_equation, Equation};
use crate::text::{
    append_chars, append_str, chars_of, contains, contains_chars, eq_chars, lines, lines_of, split_once,
    split_once_chars, split_words, starts_with, starts_with_chars, str_eq, string_from, string_of,
    string_views, sub_chars, trim, trim_chars, views, words,
};

verus! {

#[derive(Debug, Clone, Copy, PartialEq, Eq, Structural)]
pub enum RunMode {
    Calculator,
    Steps,
    Solve,
}

/// The run mode a source asks for by its text: `@run steps` first, then `@run solve`.
pub open spec fn run_mode_of(source: Seq<char>) -> RunMode {
    if contains(source, "@run steps"@) {
        RunMode::Steps
    } else if contains(source, "@run solve"@) {
        RunMode::Solve
    } else {
        RunMode::Calculator
    }
}

/// The run mode a source asks for, as [`run_mode_of`] describes.
pub fn detect_run_mode(source: &str) -> (r: RunMode)
    ensures
        r == run_mode_of(source@),
{
    let v = chars_of(source);
    let steps = chars_of("@run steps");
    let solve = chars_of("@run solve");
    if contains_chars(&v, &steps) {
        RunMode::Steps
    } else if contains_chars(&v, &solve) {
        RunMode::Solve
    } else {
        RunMode::Calculator
    }
}

/// An expression read from its text: its tree, or the message of the first
/// error with `true` when the lexer found it and `false` when the parser did.
pub open spec fn expression_outcome(source: Seq<char>) -> Result<ExprView, (bool, Seq<char>)> {
    match lex(source) {
        Err(m) => Err((true, m)),
        Ok(ts) => match parse_tokens(ts) {
            Ok(e) => Ok(e),
            Err(m) => Err((false, m)),
        },
    }
}

/// Reads one expression: a lexer error, a parser error, or its tree.
pub fn parse_expression_to_ast(source: &str) -> (r: Result<Expr, Numora>)
    ensures
        match expression_outcome(source@) {
            Ok(e) => r matches Ok(x) && x@ == e,
            Err((true, m)) => lexer_error(r, m),
            Err((false, m)) => parser_error(r, m),
        },
{
    let mut lexer = Lexer::new(source);
    let tokens = match lexer.tokenize() {
        Ok(ts) => ts,
        Err(e) => return Err(e),
    };
    let mut parser = Parser::new(tokens);
    parser.parse()
}

/// Index of the first line at or after `i` whose trimmed text starts with
/// `@run`, or the number of lines when there is none.
pub open spec fn run_line_from(ls: Seq<Seq<char>>, i: int) -> int
    decreases ls.len() - i,
{
    if i < 0 || i >= ls.len() {
        ls.len() as int
    } else if starts_with(trim(ls[i]), "@run"@) {
        i
    } else {
        run_line_from(ls, i + 1)
    }
}

/// The modes a source asks for: the words after `@run` on its first `@run`
/// line, none when it has no such line.
pub open spec fn requested_modes(source: Seq<char>) -> Seq<Seq<char>> {
    let ls = lines(source);
    let k = run_line_from(ls, 0);
    if k < ls.len() && words(ls[k]).len() > 0 {
        words(ls[k]).skip(1)
    } else {
        Seq::empty()
    }
}

proof fn lemma_run_line_is(ls: Seq<Seq<char>>, i: int, k: int)
    requires
        0 <= i <= k <= ls.len(),
        forall|m: int| i <= m < k ==> !starts_with(trim(#[trigger] ls[m]), "@run"@),
        k < ls.len() ==> starts_with(trim(ls[k]), "@run"@),
    ensures
        run_line_from(ls, i) == k,
    decreases k - i,
{
    if i < k {
        lemma_run_line_is(ls, i + 1, k);
    }
}

/// The modes named on the first `@run` line of a source, in order.
pub fn detect_run_modes(source: &str) -> (r: Vec<String>)
    ensures
        string_views(r@) == requested_modes(source@),
{
    let ls = lines_of(source);
    let ghost all = lines(source@);
    let run = chars_of("@run");
    let mut i: usize = 0;
    while i < ls.len()
        invariant
            i <= ls@.len(),
            views(ls@) == all,
            all == lines(source@),
            run@ == "@run"@,
            forall|m: int| 0 <= m < i ==> !starts_with(trim(#[trigger] all[m]), "@run"@),
        decreases ls@.len() - i,
    {
        let t = trim_chars(&ls[i]);
        if starts_with_chars(&t, &run) {
            proof {
                lemma_run_line_is(all, 0, i as int);
            }
            let ws = split_words(&ls[i]);
            let ghost ws_all = words(all[i as int]);
            let mut r: Vec<String> = Vec::new();
            if ws.len() == 0 {
                assert(string_views(r@) =~= Seq::<Seq<char>>::empty());
                return r;
            }
            let mut j: usize = 1;
            assert(string_views(r@) =~= ws_all.subrange(1, 1));
            while j < ws.len()
                invariant
                    1 <= j <= ws@.len(),
                    views(ws@) == ws_all,
                    string_views(r@) == ws_all.subrange(1, j as int),
                decreases ws@.len() - j,
            {
                let w = string_of(&ws[j]);
                let ghost before = r@;
                r.push(w);
                assert(string_views(r@) =~= string_views(before).push(w@));
                assert(ws_all.subrange(1, j + 1) =~= ws_all.subrange(1, j as int).push(ws_all[j as int]));
                j = j + 1;
            }
            assert(ws_all.subrange(1, ws@.len() as int) =~= ws_all.skip(1));
            return r;
        }
        i = i + 1;
    }
    proof {
        lemma_run_line_is(all, 0, i as int);
    }
    Vec::new()
}

/// Index of the first character at or after `i` that may not continue an identifier.
pub open spec fn bad_char_from(name: Seq<char>, i: int) -> int
    decreases name.len() - i,
{
    if i < 0 || i >= name.len() {
        name.len() as int
    } else if !is_ident_char(name[i]) {
        i
    } else {
        bad_char_from(name, i + 1)
    }
}

/// Why `name` is not an identifier (a letter, then letters, digits and `_`),
/// with `what` naming the role of the name; `None` for an identifier.
pub open spec fn name_error(name: Seq<char>, what: Seq<char>) -> Option<Seq<char>> {
    if name.len() == 0 {
        Some(what + " cannot be empty"@)
    } else if !is_alpha(name[0]) {
        Some(what + " '"@ + name + "' must start with a letter"@)
    } else if bad_char_from(name, 1) < name.len() {
        Some(
            what + " '"@ + name + "' contains invalid character '"@ + seq![name[bad_char_from(name, 1)]]
                + "'"@,
        )
    } else {
        None
    }
}

proof fn lemma_bad_char(name: Seq<char>, i: int, k: int)
    requires
        0 <= i <= k <= name.len(),
        forall|m: int| i <= m < k ==> is_ident_char(#[trigger] name[m]),
        k < name.len() ==> !is_ident_char(name[k]),
    ensures
        bad_char_from(name, i) == k,
    decreases k - i,
{
    if i < k {
        lemma_bad_char(name, i + 1, k);
    }
}

/// Checks that `name` is an identifier; `what` names its role in the message.
pub fn check_name(name: &[char], what: &str) -> (r: Result<(), Numora>)
    ensures
        match name_error(name@, what@) {
            Some(m) => parser_error(r, m),
            None => r is Ok,
        },
{
    if name.len() == 0 {
        let mut msg = string_from(what);
        let t = chars_of(" cannot be empty");
        append_chars(&mut msg, &t);
        return Err(Numora::ParserError(msg));
    }
    if !alpha(name[0]) {
        let mut msg = string_from(what);
        let t1 = chars_of(" '");
        append_chars(&mut msg, &t1);
        append_chars(&mut msg, name);
        let t2 = chars_of("' must start with a letter");
        append_chars(&mut msg, &t2);
        return Err(Numora::ParserError(msg));
    }
    let mut i: usize = 1;
    while i < name.len()
        invariant
            1 <= i <= name@.len(),
            is_alpha(name@[0]),
            forall|m: int| 1 <= m < i ==> is_ident_char(#[trigger] name@[m]),
        decreases name@.len() - i,
    {
        if !ident_char(name[i]) {
            proof {
                lemma_bad_char(name@, 1, i as int);
            }
            let mut msg = string_from(what);
            let t1 = chars_of(" '");
            append_chars(&mut msg, &t1);
            append_chars(&mut msg, name);
            let t2 = chars_of("' contains invalid character '");
            append_chars(&mut msg, &t2);
            let mut c: Vec<char> = Vec::new();
            c.push(name[i]);
            assert(c@ =~= seq![name@[i as int]]);
            append_chars(&mut msg, &c);
            let t3 = chars_of("'");
            append_chars(&mut msg, &t3);
            return Err(Numora::ParserError(msg));
        }
        i = i + 1;
    }
    proof {
        lemma_bad_char(name@, 1, i as int);
    }
    Ok(())
}

/// A name must be an identifier.
pub fn validate_identifier(name: &str) -> (r: Result<(), Numora>)
    ensures
        match name_error(name@, "Identifier"@) {
            Some(m) => parser_error(r, m),
            None => r is Ok,
        },
{
    let v = chars_of(name);
    check_name(&v, "Identifier")
}

/// `name = expression`, both as source text.
#[derive(Debug, Clone)]
pub struct Assignment {
    pub name: String,
    pub expression: String,
}

/// The trimmed name and expression of an assignment line, or the message
/// for a malformed one.
pub open spec fn assignment_of(line: Seq<char>) -> Result<(Seq<char>, Seq<char>), Seq<char>> {
    match split_once(line, '=') {
        None => Err("Expected assignment like: n = 7, but found '"@ + line + "'"@),
        Some((a, b)) => {
            let name = trim(a);
            let expression = trim(b);
            if name.len() == 0 {
                Err("Assignment name cannot be empty"@)
            } else if expression.len() == 0 {
                Err("Assignment '"@ + name + "' has no expression after '='"@)
            } else {
                match name_error(name, "Identifier"@) {
                    Some(m) => Err(m),
                    None => Ok((name, expression)),
                }
            }
        },
    }
}

/// Splits an assignment line at its first `=`.
pub fn parse_assignment(line: &str) -> (r: Result<Assignment, Numora>)
    ensures
        match assignment_of(line@) {
            Ok((n, e)) => r matches Ok(a) && a.name@ == n && a.expression@ == e,
            Err(m) => parser_error(r, m),
        },
{
    let v = chars_of(line);
    match split_once_chars(&v, '=') {
        None => {
            let mut msg = string_from("Expected assignment like: n = 7, but found '");
            append_chars(&mut msg, &v);
            let q = chars_of("'");
            append_chars(&mut msg, &q);
            Err(Numora::ParserError(msg))
        },
        Some((a, b)) => {
            let name = trim_chars(&a);
            let expression = trim_chars(&b);
            if name.len() == 0 {
                return Err(Numora::ParserError(string_from("Assignment name cannot be empty")));
            }
            if expression.len() == 0 {
                let mut msg = string_from("Assignment '");
                append_chars(&mut msg, &name);
                let t = chars_of("' has no expression after '='");
                append_chars(&mut msg, &t);
                return Err(Numora::ParserError(msg));
            }
            match check_name(&name, "Identifier") {
                Ok(()) => {},
                Err(e) => return Err(e),
            }
            Ok(Assignment { name: string_of(&name), expression: string_of(&expression) })
        },
    }
}


/// A program as plain sequences.
pub struct ProgramModel {
    pub run_mode: RunMode,
    pub assignments: Seq<(Seq<char>, Seq<char>)>,
    pub formula: Option<(Seq<char>, Seq<char>)>,
    pub equation: Option<(Seq<char>, Seq<char>)>,
    pub find: Option<Seq<char>>,
    pub solve: Option<Seq<char>>,
}

/// The section of a program that lines are read into.
#[derive(Debug, Clone, Copy, PartialEq, Eq, Structural)]
pub enum ProgramSection {
    Preamble,
    Given,
    Formula,
    Equation,
    Find,
    Solve,
}

/// A program before any line is read.
pub open spec fn initial_program() -> ProgramModel {
    ProgramModel {
        run_mode: RunMode::Calculator,
        assignments: Seq::empty(),
        formula: None,
        equation: None,
        find: None,
        solve: None,
    }
}

/// The section a trimmed line opens, if it is a header.
pub open spec fn program_header(t: Seq<char>) -> Option<ProgramSection> {
    if t == "given:"@ {
        Some(ProgramSection::Given)
    } else if t == "formula:"@ {
        Some(ProgramSection::Formula)
    } else if t == "equation:"@ {
        Some(ProgramSection::Equation)
    } else if t == "find:"@ {
        Some(ProgramSection::Find)
    } else if t == "solve:"@ {
        Some(ProgramSection::Solve)
    } else {
        None
    }
}

/// Reading one line of a program. Blank lines and comments are skipped; the
/// three exact `@run` lines set the run mode and other `@run` lines are left
/// to the mode pipeline; headers switch section; any other line is read as
/// the current section asks.
pub open spec fn read_program_line(st: (ProgramModel, ProgramSection), raw: Seq<char>) -> Result<
    (ProgramModel, ProgramSection),
    Seq<char>,
> {
    let t = trim(raw);
    let m = st.0;
    let sec = st.1;
    if t.len() == 0 || starts_with(t, "//"@) || starts_with(t, "#"@) {
        Ok(st)
    } else if t == "@run calculator"@ {
        Ok((ProgramModel { run_mode: RunMode::Calculator, ..m }, sec))
    } else if t == "@run steps"@ {
        Ok((ProgramModel { run_mode: RunMode::Steps, ..m }, sec))
    } else if t == "@run solve"@ {
        Ok((ProgramModel { run_mode: RunMode::Solve, ..m }, sec))
    } else if starts_with(t, "@run"@) {
        Ok(st)
    } else {
        match program_header(t) {
            Some(s) => Ok((m, s)),
            None => match sec {
                ProgramSection::Given => match assignment_of(t) {
                    Ok(a) => Ok((ProgramModel { assignments: m.assignments.push(a), ..m }, sec)),
                    Err(e) => Err(e),
                },
                ProgramSection::Formula => match assignment_of(t) {
                    Ok(a) => Ok((ProgramModel { formula: Some(a), ..m }, sec)),
                    Err(e) => Err(e),
                },
                ProgramSection::Equation => match equation_of(t) {
                    Ok(q) => Ok((ProgramModel { equation: Some(q), ..m }, sec)),
                    Err(e) => Err(e),
                },
                ProgramSection::Find => match name_error(t, "Identifier"@) {
                    Some(e) => Err(e),
                    None => Ok((ProgramModel { find: Some(t), ..m }, sec)),
                },
                ProgramSection::Solve => match name_error(t, "Identifier"@) {
                    Some(e) => Err(e),
                    None => Ok((ProgramModel { solve: Some(t), ..m }, sec)),
                },
                ProgramSection::Preamble => if starts_with(t, "input:"@) {
                    Ok(
                        (
                            ProgramModel {
                                formula: Some(("answer"@, trim(t.skip(6)))),
                                find: Some("answer"@),
                                ..m
                            },
                            sec,
                        ),
                    )
                } else {
                    Err(
                        "Line outside a section: '"@ + t
                            + "'. Expected given:, formula:, equation:, find:, or solve:"@,
                    )
                },
            },
        }
    }
}

/// Reading the lines `ls` one after another, stopping at the first error.
pub open spec fn read_program(ls: Seq<Seq<char>>) -> Result<(ProgramModel, ProgramSection), Seq<char>>
    decreases ls.len(),
{
    if ls.len() == 0 {
        Ok((initial_program(), ProgramSection::Preamble))
    } else {
        match read_program(ls.drop_last()) {
            Err(e) => Err(e),
            Ok(st) => read_program_line(st, ls.last()),
        }
    }
}

/// The program a source holds, or the message of its first error.
pub open spec fn program_of(source: Seq<char>) -> Result<ProgramModel, Seq<char>> {
    match read_program(lines(source)) {
        Ok((m, _)) => Ok(m),
        Err(e) => Err(e),
    }
}

proof fn lemma_read_program_err(ls: Seq<Seq<char>>, k: int)
    requires
        0 <= k <= ls.len(),
        read_program(ls.take(k)) is Err,
    ensures
        read_program(ls) == read_program(ls.take(k)),
    decreases ls.len() - k,
{
    if k < ls.len() {
        assert(ls.drop_last().take(k) =~= ls.take(k));
        lemma_read_program_err(ls.drop_last(), k);
    } else {
        assert(ls.take(k) =~= ls);
    }
}

/// A calculator program.
#[derive(Debug, Clone)]
pub struct MathProgram {
    pub run_mode: RunMode,
    pub assignments: Vec<Assignment>,
    pub formula: Option<Assignment>,
    pub equation: Option<Equation>,
    pub find: Option<String>,
    pub solve: Option<String>,
}

/// An assignment as a pair of sequences.
pub open spec fn assignment_model(a: Assignment) -> (Seq<char>, Seq<char>) {
    (a.name@, a.expression@)
}

impl MathProgram {
    /// The program as plain sequences.
    pub open spec fn model(&self) -> ProgramModel {
        ProgramModel {
            run_mode: self.run_mode,
            assignments: self.assignments@.map_values(|a: Assignment| assignment_model(a)),
            formula: match self.formula {
                Some(a) => Some(assignment_model(a)),
                None => None,
            },
            equation: match self.equation {
                Some(q) => Some((q.left@, q.right@)),
                None => None,
            },
            find: match self.find {
                Some(f) => Some(f@),
                None => None,
            },
            solve: match self.solve {
                Some(f) => Some(f@),
                None => None,
            },
        }
    }
}

fn program_header_of(t: &[char]) -> (r: Option<ProgramSection>)
    ensures
        r == program_header(t@),
{
    let given = chars_of("given:");
    let formula = chars_of("formula:");
    let equation = chars_of("equation:");
    let find = chars_of("find:");
    let solve = chars_of("solve:");
    if eq_chars(t, &given) {
        Some(ProgramSection::Given)
    } else if eq_chars(t, &formula) {
        Some(ProgramSection::Formula)
    } else if eq_chars(t, &equation) {
        Some(ProgramSection::Equation)
    } else if eq_chars(t, &find) {
        Some(ProgramSection::Find)
    } else if eq_chars(t, &solve) {
        Some(ProgramSection::Solve)
    } else {
        None
    }
}

fn read_line(program: &mut MathProgram, section: &mut ProgramSection, raw: &[char]) -> (r: Result<(), Numora>)
    ensures
        match read_program_line((old(program).model(), *old(section)), raw@) {
            Ok((m, s)) => r is Ok && final(program).model() == m && *final(section) == s,
            Err(e) => parser_error(r, e),
        },
{
    let t = trim_chars(raw);
    let slashes = chars_of("//");
    let hash = chars_of("#");
    if t.len() == 0 || starts_with_chars(&t, &slashes) || starts_with_chars(&t, &hash) {
        return Ok(());
    }
    let run_calculator = chars_of("@run calculator");
    let run_steps = chars_of("@run steps");
    let run_solve = chars_of("@run solve");
    let run = chars_of("@run");
    if eq_chars(&t, &run_calculator) {
        program.run_mode = RunMode::Calculator;
        return Ok(());
    }
    if eq_chars(&t, &run_steps) {
        program.run_mode = RunMode::Steps;
        return Ok(());
    }
    if eq_chars(&t, &run_solve) {
        program.run_mode = RunMode::Solve;
        return Ok(());
    }
    if starts_with_chars(&t, &run) {
        return Ok(());
    }
    match program_header_of(&t) {
        Some(s) => {
            *section = s;
            return Ok(());
        },
        None => {},
    }
    let line = string_of(&t);
    match *section {
        ProgramSection::Given => {
            let assignment = match parse_assignment(line.as_str()) {
                Ok(a) => a,
                Err(e) => return Err(e),
            };
            let ghost a = assignment;
            program.assignments.push(assignment);
            assert(program.model().assignments =~= old(program).model().assignments.push(
                assignment_model(a),
            ));
        },
        ProgramSection::Formula => {
            let assignment = match parse_assignment(line.as_str()) {
                Ok(a) => a,
                Err(e) => return Err(e),
            };
            program.formula = Some(assignment);
        },
        ProgramSection::Equation => {
            let equation = match parse_equation(line.as_str()) {
                Ok(q) => q,
                Err(e) => return Err(e),
            };
            program.equation = Some(equation);
        },
        ProgramSection::Find => {
            match check_name(&t, "Identifier") {
                Ok(()) => {},
                Err(e) => return Err(e),
            }
            program.find = Some(line);
        },
        ProgramSection::Solve => {
            match check_name(&t, "Identifier") {
                Ok(()) => {},
                Err(e) => return Err(e),
            }
            program.solve = Some(line);
        },
        ProgramSection::Preamble => {
            let input = chars_of("input:");
            if starts_with_chars(&t, &input) {
                proof {
                    reveal_strlit("input:");
                }
                let rest = sub_chars(&t, 6, t.len());
                let expression = trim_chars(&rest);
                assert(rest@ =~= t@.skip(6)) by {
                    reveal_strlit("input:");
                }
                program.formula = Some(
                    Assignment { name: string_from("answer"), expression: string_of(&expression) },
                );
                program.find = Some(string_from("answer"));
            } else {
                let mut msg = string_from("Line outside a section: '");
                append_chars(&mut msg, &t);
                let tail = chars_of("'. Expected given:, formula:, equation:, find:, or solve:");
                append_chars(&mut msg, &tail);
                return Err(Numora::ParserError(msg));
            }
        },
    }
    Ok(())
}

/// Reads a calculator program line by line.
pub fn parse_math_program(source: &str) -> (r: Result<MathProgram, Numora>)
    ensures
        match program_of(source@) {
            Ok(m) => r matches Ok(p) && p.model() == m,
            Err(e) => parser_error(r, e),
        },
{
    let mut program = MathProgram {
        run_mode: RunMode::Calculator,
        assignments: Vec::new(),
        formula: None,
        equation: None,
        find: None,
        solve: None,
    };
    assert(program.model().assignments =~= Seq::<(Seq<char>, Seq<char>)>::empty());
    let mut section = ProgramSection::Preamble;
    let ls = lines_of(source);
    let ghost all = lines(source@);
    let mut i: usize = 0;
    while i < ls.len()
        invariant
            i <= ls@.len(),
            views(ls@) == all,
            all == lines(source@),
            read_program(all.take(i as int)) == Ok::<(ProgramModel, ProgramSection), Seq<char>>(
                (program.model(), section),
            ),
        decreases ls@.len() - i,
    {
        proof {
            assert(all.take(i + 1).drop_last() =~= all.take(i as int));
            assert(all.take(i + 1).last() == ls@[i as int]@);
        }
        let ghost before = (program.model(), section);
        let step = read_line(&mut program, &mut section, &ls[i]);
        match step {
            Ok(()) => {},
            Err(e) => {
                proof {
                    let stepped = read_program_line(before, all[i as int]);
                    assert(read_program(all.take(i + 1)) == stepped);
                    lemma_read_program_err(all, i + 1);
                    assert(stepped matches Err(msg) && parser_error(step, msg));
                }
                return Err(e);
            },
        }
        i = i + 1;
    }
    assert(all.take(ls@.len() as int) =~= all);
    Ok(program)
}

/// The name whose value a calculator run reports, given the names that the
/// run defined: the `find:` name, which must be defined; else the formula's
/// name, where the run defined it.
pub open spec fn report_name(p: ProgramModel, defined: Seq<Seq<char>>) -> Result<Seq<char>, Seq<char>> {
    match p.find {
        Some(f) => if defined.contains(f) {
            Ok(f)
        } else {
            Err("Cannot find '"@ + f + "'. It was not defined"@)
        },
        None => match p.formula {
            Some((n, _)) if defined.contains(n) => Ok(n),
            _ => Err("Program has no formula or find target"@),
        },
    }
}

/// Is `name` one of `names`?
fn names_contain(names: &[String], name: &str) -> (r: bool)
    ensures
        r == string_views(names@).contains(name@),
{
    let mut i: usize = 0;
    while i < names.len()
        invariant
            0 <= i <= names@.len(),
            forall|k: int| 0 <= k < i ==> (#[trigger] names@[k])@ != name@,
        decreases names@.len() - i,
    {
        if str_eq(names[i].as_str(), name) {
            assert(string_views(names@)[i as int] == name@);
            return true;
        }
        i = i + 1;
    }
    proof {
        if string_views(names@).contains(name@) {
            let k = choose|k: int| 0 <= k < names@.len() && string_views(names@)[k] == name@;
            assert(names@[k]@ == name@);
        }
    }
    false
}

impl MathProgram {
    /// The name whose value a run reports, once the run has defined the
    /// names in `defined`.
    pub fn result_name(&self, defined: &[String]) -> (r: Result<String, Numora>)
        ensures
            match report_name(self.model(), string_views(defined@)) {
                Ok(n) => r matches Ok(s) && s@ == n,
                Err(m) => evaluation_error(r, m),
            },
    {
        match &self.find {
            Some(f) => {
                if names_contain(defined, f.as_str()) {
                    Ok(f.clone())
                } else {
                    let mut msg = string_from("Cannot find '");
                    append_str(&mut msg, f.as_str());
                    append_str(&mut msg, "'. It was not defined");
                    Err(Numora::EvaluationError(msg))
                }
            },
            None => {
                match &self.formula {
                    Some(a) => {
                        if names_contain(defined, a.name.as_str()) {
                            return Ok(a.name.clone());
                        }
                    },
                    None => {},
                }
                Err(Numora::EvaluationError(string_from("Program has no formula or find target")))
            },
        }
    }
    /// The formula a steps run traces; such a run needs one.
    pub fn steps_formula(&self) -> (r: Result<&Assignment, Numora>)
        ensures
            match self.formula {
                Some(a) => r matches Ok(b) && *b == a,
                None => evaluation_error(r, "@run steps needs a formula section"@),
            },
    {
        match &self.formula {
            Some(a) => Ok(a),
            None => Err(Numora::EvaluationError(string_from("@run steps needs a formula section"))),
        }
    }

    /// The equation and the variable a solve run looks for; such a run
    /// needs both, and the equation is asked for first.
    pub fn solve_parts(&self) -> (r: Result<(&Equation, &String), Numora>)
        ensures
            match (self.equation, self.solve) {
                (Some(q), Some(v)) => r matches Ok((a, b)) && *a == q && *b == v,
                (None, _) => evaluation_error(r, "@run solve needs an equation section"@),
                (Some(_), None) => evaluation_error(r, "@run solve needs a solve section"@),
            },
    {
        match &self.equation {
            None => Err(Numora::EvaluationError(string_from("@run solve needs an equation section"))),
            Some(q) => match &self.solve {
                None => Err(Numora::EvaluationError(string_from("@run solve needs a solve section"))),
                Some(v) => Ok((q, v)),
            },
        }
    }
}

} // verus!
