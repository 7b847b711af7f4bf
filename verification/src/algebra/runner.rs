//! The parts of running a `simplify:` program that do not compute with
//! numbers: finding its sections, reading and checking its assignments,
//! choosing the results that `find:` asks for, and writing them out.

use vstd::prelude::*;

use crate::algebra::explain::{AlgebraExplanation, AlgebraExplanationStep};
use crate::algebra::expression::{AlgebraTerm, TermView};
use crate::algebra::parser::{algebra_outcome, parse_algebra_term};
use crate::error::{evaluation_error, Numora};
use crate::text::{
    append_str, str_eq, string_from,
    chars_of, eq_chars, lines, lines_of, split_once, split_once_chars, split_words, starts_with,
    starts_with_chars, string_of, string_views, trim, trim_chars, trim_end, trim_end_chars, trim_start, trim_start_chars,
    views, words,
};

verus! {

/// The code of `c` with ASCII capitals lowered (`char::to_ascii_lowercase`).
pub open spec fn lower_code(c: char) -> int {
    if 'A' <= c && c <= 'Z' {
        c as int + 32
    } else {
        c as int
    }
}

/// `str::eq_ignore_ascii_case`.
pub open spec fn eq_ignore_case(a: Seq<char>, b: Seq<char>) -> bool {
    a.len() == b.len() && forall|i: int| 0 <= i < a.len() ==> lower_code(#[trigger] a[i]) == lower_code(b[i])
}

fn lower(c: char) -> (r: u32)
    ensures
        r == lower_code(c),
{
    if 'A' <= c && c <= 'Z' {
        (c as u32) + 32
    } else {
        c as u32
    }
}

fn eq_ignore_case_chars(a: &[char], b: &[char]) -> (r: bool)
    ensures
        r == eq_ignore_case(a@, b@),
{
    if a.len() != b.len() {
        return false;
    }
    let mut i: usize = 0;
    while i < a.len()
        invariant
            a@.len() == b@.len(),
            i <= a@.len(),
            forall|k: int| 0 <= k < i ==> lower_code(#[trigger] a@[k]) == lower_code(b@[k]),
        decreases a@.len() - i,
    {
        if lower(a[i]) != lower(b[i]) {
            return false;
        }
        i = i + 1;
    }
    true
}

/// Some line of the source, blanks around it aside, is `simplify:` in any
/// letter case.
pub open spec fn has_simplify_section(source: Seq<char>) -> bool {
    exists|i: int| 0 <= i < lines(source).len() && eq_ignore_case(trim(#[trigger] lines(source)[i]), "simplify:"@)
}

/// Does the source have a `simplify:` section?
pub fn source_contains_simplify_section(source: &str) -> (r: bool)
    ensures
        r == has_simplify_section(source@),
{
    let ls = lines_of(source);
    let ghost all = lines(source@);
    let header = chars_of("simplify:");
    let mut i: usize = 0;
    while i < ls.len()
        invariant
            i <= ls@.len(),
            views(ls@) == all,
            all == lines(source@),
            header@ == "simplify:"@,
            forall|k: int| 0 <= k < i ==> !eq_ignore_case(trim(#[trigger] all[k]), "simplify:"@),
        decreases ls@.len() - i,
    {
        let t = trim_chars(&ls[i]);
        if eq_ignore_case_chars(&t, &header) {
            assert(eq_ignore_case(trim(all[i as int]), "simplify:"@));
            return true;
        }
        i = i + 1;
    }
    false
}

/// Index of the first line at or after `i` that starts with `@run` once its
/// leading blanks are removed, or the number of lines.
pub open spec fn run_line_start_from(ls: Seq<Seq<char>>, i: int) -> int
    decreases ls.len() - i,
{
    if i < 0 || i >= ls.len() {
        ls.len() as int
    } else if starts_with(trim_start(ls[i]), "@run"@) {
        i
    } else {
        run_line_start_from(ls, i + 1)
    }
}

/// The first `@run` line of the source names the `steps` mode.
pub open spec fn uses_steps_mode(source: Seq<char>) -> bool {
    let ls = lines(source);
    let k = run_line_start_from(ls, 0);
    k < ls.len() && words(ls[k]).contains("steps"@)
}

proof fn lemma_run_line_start(ls: Seq<Seq<char>>, i: int, k: int)
    requires
        0 <= i <= k <= ls.len(),
        forall|m: int| i <= m < k ==> !starts_with(trim_start(#[trigger] ls[m]), "@run"@),
        k < ls.len() ==> starts_with(trim_start(ls[k]), "@run"@),
    ensures
        run_line_start_from(ls, i) == k,
    decreases k - i,
{
    if i < k {
        lemma_run_line_start(ls, i + 1, k);
    }
}

/// Does the first `@run` line of the source ask for steps?
pub fn source_uses_steps_mode(source: &str) -> (r: bool)
    ensures
        r == uses_steps_mode(source@),
{
    let ls = lines_of(source);
    let ghost all = lines(source@);
    let run = chars_of("@run");
    let steps = chars_of("steps");
    let mut i: usize = 0;
    while i < ls.len()
        invariant
            i <= ls@.len(),
            views(ls@) == all,
            all == lines(source@),
            run@ == "@run"@,
            steps@ == "steps"@,
            forall|m: int| 0 <= m < i ==> !starts_with(trim_start(#[trigger] all[m]), "@run"@),
        decreases ls@.len() - i,
    {
        let t = trim_start_chars(&ls[i]);
        if starts_with_chars(&t, &run) {
            proof {
                lemma_run_line_start(all, 0, i as int);
            }
            let ws = split_words(&ls[i]);
            let ghost w = words(all[i as int]);
            let mut j: usize = 0;
            while j < ws.len()
                invariant
                    j <= ws@.len(),
                    views(ws@) == w,
                    steps@ == "steps"@,
                    all == lines(source@),
                    i < all.len(),
                    run_line_start_from(all, 0) == i,
                    w == words(all[i as int]),
                    forall|m: int| 0 <= m < j ==> w[m] != "steps"@,
                decreases ws@.len() - j,
            {
                if eq_chars(&ws[j], &steps) {
                    assert(w[j as int] == "steps"@);
                    assert(w.contains("steps"@));
                    return true;
                }
                j = j + 1;
            }
            return false;
        }
        i = i + 1;
    }
    proof {
        lemma_run_line_start(all, 0, i as int);
    }
    false
}

/// The section headers a program may hold.
pub open spec fn is_section_header(t: Seq<char>) -> bool {
    t == "given:"@ || t == "formula:"@ || t == "simplify:"@ || t == "equation:"@ || t == "find:"@
        || t == "solve:"@
}

/// The trimmed lines of the section called `name`, read from the lines `ls`
/// on, `inside` telling whether the reading is in that section. Blank
/// lines, `#` comments and `@run` lines are skipped, and every header
/// starts or ends the section.
pub open spec fn section_lines_from(ls: Seq<Seq<char>>, name: Seq<char>, inside: bool) -> Seq<Seq<char>>
    decreases ls.len(),
{
    if ls.len() == 0 {
        Seq::empty()
    } else {
        let t = trim(ls[0]);
        if t.len() == 0 || starts_with(t, "#"@) || starts_with(t, "@run"@) {
            section_lines_from(ls.skip(1), name, inside)
        } else if is_section_header(t) {
            section_lines_from(ls.skip(1), name, eq_ignore_case(t, name + ":"@))
        } else if inside {
            seq![t] + section_lines_from(ls.skip(1), name, inside)
        } else {
            section_lines_from(ls.skip(1), name, inside)
        }
    }
}

/// The trimmed lines of the section called `name` in a source.
pub open spec fn section_lines(source: Seq<char>, name: Seq<char>) -> Seq<Seq<char>> {
    section_lines_from(lines(source), name, false)
}

proof fn lemma_skip_next<A>(ls: Seq<A>, i: int)
    requires
        0 <= i < ls.len(),
    ensures
        ls.skip(i).len() > 0,
        ls.skip(i)[0] == ls[i],
        ls.skip(i).skip(1) == ls.skip(i + 1),
{
    assert(ls.skip(i).skip(1) =~= ls.skip(i + 1));
}

/// The trimmed lines of the section called `section_name`, in order.
pub fn collect_section_lines(source: &str, section_name: &str) -> (r: Vec<String>)
    ensures
        string_views(r@) == section_lines(source@, section_name@),
{
    let ls = lines_of(source);
    let ghost all = lines(source@);
    let ghost name = section_name@;
    let mut target = chars_of(section_name);
    target.push(':');
    let hash = chars_of("#");
    let run = chars_of("@run");
    let mut out: Vec<String> = Vec::new();
    let mut inside = false;
    let mut i: usize = 0;
    proof {
        reveal_strlit(":");
        assert(target@ =~= name + ":"@);
        assert(all.skip(0) =~= all);
        assert(string_views(out@) + section_lines_from(all.skip(0), name, false) =~= section_lines(
            source@,
            name,
        ));
    }
    while i < ls.len()
        invariant
            i <= ls@.len(),
            views(ls@) == all,
            all == lines(source@),
            name == section_name@,
            target@ == name + ":"@,
            hash@ == "#"@,
            run@ == "@run"@,
            string_views(out@) + section_lines_from(all.skip(i as int), name, inside) == section_lines(
                source@,
                name,
            ),
        decreases ls@.len() - i,
    {
        proof {
            lemma_skip_next(all, i as int);
        }
        let t = trim_chars(&ls[i]);
        if t.len() == 0 || starts_with_chars(&t, &hash) || starts_with_chars(&t, &run) {
        } else if header_line(&t) {
            inside = eq_ignore_case_chars(&t, &target);
        } else if inside {
            let ghost before = out@;
            out.push(string_of(&t));
            proof {
                assert(string_views(out@) =~= string_views(before).push(t@));
                assert(string_views(before) + (seq![t@] + section_lines_from(all.skip(i + 1), name, inside))
                    =~= string_views(out@) + section_lines_from(all.skip(i + 1), name, inside));
            }
        }
        i = i + 1;
    }
    proof {
        assert(all.skip(ls@.len() as int) =~= Seq::<Seq<char>>::empty());
        assert(string_views(out@) + Seq::<Seq<char>>::empty() =~= string_views(out@));
    }
    out
}

fn header_line(t: &[char]) -> (r: bool)
    ensures
        r == is_section_header(t@),
{
    let given = chars_of("given:");
    let formula = chars_of("formula:");
    let simplify = chars_of("simplify:");
    let equation = chars_of("equation:");
    let find = chars_of("find:");
    let solve = chars_of("solve:");
    eq_chars(t, &given) || eq_chars(t, &formula) || eq_chars(t, &simplify) || eq_chars(t, &equation)
        || eq_chars(t, &find) || eq_chars(t, &solve)
}

/// A `name = expression` line with both sides trimmed, when neither is empty.
pub open spec fn simplify_assignment(line: Seq<char>) -> Option<(Seq<char>, Seq<char>)> {
    match split_once(line, '=') {
        Some((a, b)) => if trim(a).len() == 0 || trim(b).len() == 0 {
            None
        } else {
            Some((trim(a), trim(b)))
        },
        None => None,
    }
}

/// Splits `name = expression` at its first `=`; `None` when there is no `=`
/// or a side is blank.
pub fn parse_assignment(line: &str) -> (r: Option<(String, String)>)
    ensures
        match simplify_assignment(line@) {
            Some((n, e)) => r matches Some((a, b)) && a@ == n && b@ == e,
            None => r is None,
        },
{
    let v = chars_of(line);
    match split_once_chars(&v, '=') {
        Some((a, b)) => {
            let name = trim_chars(&a);
            let expression = trim_chars(&b);
            if name.len() == 0 || expression.len() == 0 {
                None
            } else {
                Some((string_of(&name), string_of(&expression)))
            }
        },
        None => None,
    }
}

/// The names a `find:` section asks for: its lines trimmed, blank ones left out.
pub open spec fn find_names(ls: Seq<Seq<char>>) -> Seq<Seq<char>>
    decreases ls.len(),
{
    if ls.len() == 0 {
        Seq::empty()
    } else {
        find_names(ls.drop_last()) + if trim(ls.last()).len() > 0 {
            seq![trim(ls.last())]
        } else {
            Seq::empty()
        }
    }
}

/// The names the `find:` lines ask for.
pub fn parse_find_names(lines: &[String]) -> (r: Vec<String>)
    ensures
        string_views(r@) == find_names(string_views(lines@)),
{
    let ghost ls = string_views(lines@);
    let mut out: Vec<String> = Vec::new();
    let mut i: usize = 0;
    while i < lines.len()
        invariant
            i <= lines@.len(),
            ls == string_views(lines@),
            string_views(out@) == find_names(ls.take(i as int)),
        decreases lines@.len() - i,
    {
        let v = chars_of(lines[i].as_str());
        let t = trim_chars(&v);
        proof {
            assert(ls.take(i + 1).drop_last() =~= ls.take(i as int));
            assert(ls.take(i + 1).last() == ls[i as int]);
        }
        if t.len() > 0 {
            let ghost before = out@;
            out.push(string_of(&t));
            assert(string_views(out@) =~= string_views(before) + seq![t@]);
        } else {
            assert(string_views(out@) =~= string_views(out@) + Seq::<Seq<char>>::empty());
        }
        i = i + 1;
    }
    assert(ls.take(lines@.len() as int) =~= ls);
    out
}

/// One `simplify:` line read: `None` when reading its expression never
/// ends, else its name and expression, or the message for a line that is
/// no assignment or whose expression cannot be read.
pub open spec fn read_simplify_line(line: Seq<char>) -> Option<Result<(Seq<char>, TermView), Seq<char>>> {
    match simplify_assignment(line) {
        None => Some(Err("Invalid simplify assignment: "@ + line)),
        Some((n, e)) => match algebra_outcome(e) {
            None => None,
            Some(Err(m)) => Some(
                Err("Failed to parse algebra expression '"@ + e + "': Parser Error: "@ + m),
            ),
            Some(Ok(t)) => Some(Ok((n, t))),
        },
    }
}

/// The `simplify:` lines read from the first on, stopping at the first
/// line that cannot be read.
pub open spec fn read_simplify_lines(ls: Seq<Seq<char>>) -> Option<
    Result<Seq<(Seq<char>, TermView)>, Seq<char>>,
>
    decreases ls.len(),
{
    if ls.len() == 0 {
        Some(Ok(Seq::empty()))
    } else {
        match read_simplify_line(ls[0]) {
            None => None,
            Some(Err(m)) => Some(Err(m)),
            Some(Ok(x)) => prepend_requests(seq![x], read_simplify_lines(ls.skip(1))),
        }
    }
}

/// Puts `rs` in front of the requests of a successful reading.
pub open spec fn prepend_requests(
    rs: Seq<(Seq<char>, TermView)>,
    o: Option<Result<Seq<(Seq<char>, TermView)>, Seq<char>>>,
) -> Option<Result<Seq<(Seq<char>, TermView)>, Seq<char>>> {
    match o {
        Some(Ok(rest)) => Some(Ok(rs + rest)),
        other => other,
    }
}

/// Index of the first request at or after `i` called `name`, or the number
/// of requests.
pub open spec fn first_named(rs: Seq<(Seq<char>, TermView)>, name: Seq<char>, i: int) -> int
    decreases rs.len() - i,
{
    if i < 0 || i >= rs.len() {
        rs.len() as int
    } else if rs[i].0 == name {
        i
    } else {
        first_named(rs, name, i + 1)
    }
}

/// For each name in order, the first request called so, or the message for
/// the first name that no request has.
pub open spec fn select_requests(rs: Seq<(Seq<char>, TermView)>, names: Seq<Seq<char>>) -> Result<
    Seq<(Seq<char>, TermView)>,
    Seq<char>,
>
    decreases names.len(),
{
    if names.len() == 0 {
        Ok(Seq::empty())
    } else {
        let k = first_named(rs, names[0], 0);
        if k >= rs.len() {
            Err("Missing simplify result: "@ + names[0])
        } else {
            match select_requests(rs, names.skip(1)) {
                Ok(rest) => Ok(seq![rs[k]] + rest),
                Err(m) => Err(m),
            }
        }
    }
}

/// What a `simplify:` program asks to have simplified, in the order of its
/// output: `None` when reading an expression never ends, else the requests
/// that `find:` names (all of them when it names none), or the message of
/// the first error.
pub open spec fn simplify_plan(source: Seq<char>) -> Option<Result<Seq<(Seq<char>, TermView)>, Seq<char>>> {
    let simplify = section_lines(source, "simplify"@);
    if simplify.len() == 0 {
        Some(Err("Missing simplify section."@))
    } else {
        match read_simplify_lines(simplify) {
            None => None,
            Some(Err(m)) => Some(Err(m)),
            Some(Ok(rs)) => {
                let names = find_names(section_lines(source, "find"@));
                if names.len() == 0 {
                    Some(Ok(rs))
                } else {
                    match select_requests(rs, names) {
                        Ok(x) => Some(Ok(x)),
                        Err(m) => Some(Err(m)),
                    }
                }
            },
        }
    }
}

/// A name and the expression it is to be simplified from.
#[derive(Debug)]
pub struct SimplifyRequest {
    pub name: String,
    pub expression: AlgebraTerm,
}

/// The views of a list of requests.
pub open spec fn request_views(rs: Seq<SimplifyRequest>) -> Seq<(Seq<char>, TermView)> {
    rs.map_values(|r: SimplifyRequest| (r.name@, r.expression@))
}

proof fn lemma_prepend_requests(
    a: Seq<(Seq<char>, TermView)>,
    b: Seq<(Seq<char>, TermView)>,
    o: Option<Result<Seq<(Seq<char>, TermView)>, Seq<char>>>,
)
    ensures
        prepend_requests(a, prepend_requests(b, o)) == prepend_requests(a + b, o),
{
    match o {
        Some(Ok(x)) => {
            assert(a + (b + x) =~= (a + b) + x);
        },
        _ => {},
    }
}

fn read_request(line: &str) -> (r: Option<Result<SimplifyRequest, Numora>>)
    ensures
        match read_simplify_line(line@) {
            None => r is None,
            Some(Ok((n, t))) => r matches Some(Ok(q)) && q.name@ == n && q.expression@ == t,
            Some(Err(m)) => r matches Some(e) && evaluation_error(e, m),
        },
{
    let (name, source) = match parse_assignment(line) {
        Some(pair) => pair,
        None => {
            let mut msg = string_from("Invalid simplify assignment: ");
            append_str(&mut msg, line);
            return Some(Err(Numora::EvaluationError(msg)));
        },
    };
    let expression = match parse_algebra_term(source.as_str()) {
        None => return None,
        Some(Err(e)) => {
            let mut msg = string_from("Failed to parse algebra expression '");
            append_str(&mut msg, source.as_str());
            append_str(&mut msg, "': ");
            let shown = e.to_string();
            append_str(&mut msg, shown.as_str());
            proof {
                reveal_strlit("': ");
                reveal_strlit("Parser Error: ");
                reveal_strlit("': Parser Error: ");
                let m = e.message();
                assert(shown@ == "Parser Error: "@ + m);
                assert(msg@ =~= "Failed to parse algebra expression '"@ + source@
                    + "': Parser Error: "@ + m);
            }
            return Some(Err(Numora::EvaluationError(msg)));
        },
        Some(Ok(t)) => t,
    };
    Some(Ok(SimplifyRequest { name, expression }))
}

fn read_requests(ls: &Vec<String>) -> (r: Option<Result<Vec<SimplifyRequest>, Numora>>)
    ensures
        match read_simplify_lines(string_views(ls@)) {
            None => r is None,
            Some(Ok(rs)) => r matches Some(Ok(v)) && request_views(v@) == rs,
            Some(Err(m)) => r matches Some(e) && evaluation_error(e, m),
        },
{
    let ghost all = string_views(ls@);
    let mut out: Vec<SimplifyRequest> = Vec::new();
    let mut i: usize = 0;
    proof {
        assert(all.skip(0) =~= all);
        assert(request_views(out@) =~= Seq::<(Seq<char>, TermView)>::empty());
        match read_simplify_lines(all) {
            Some(Ok(x)) => {
                assert(Seq::<(Seq<char>, TermView)>::empty() + x =~= x);
            },
            _ => {},
        }
    }
    while i < ls.len()
        invariant
            i <= ls@.len(),
            all == string_views(ls@),
            read_simplify_lines(all) == prepend_requests(request_views(out@), read_simplify_lines(all.skip(i as int))),
        decreases ls@.len() - i,
    {
        proof {
            lemma_skip_next(all, i as int);
        }
        let request = match read_request(ls[i].as_str()) {
            None => return None,
            Some(Err(e)) => return Some(Err(e)),
            Some(Ok(q)) => q,
        };
        let ghost before = request_views(out@);
        let ghost item = (request.name@, request.expression@);
        out.push(request);
        proof {
            assert(request_views(out@) =~= before + seq![item]);
            lemma_prepend_requests(before, seq![item], read_simplify_lines(all.skip(i + 1)));
        }
        i = i + 1;
    }
    proof {
        assert(all.skip(ls@.len() as int) =~= Seq::<Seq<char>>::empty());
        assert(request_views(out@) + Seq::<(Seq<char>, TermView)>::empty() =~= request_views(out@));
    }
    Some(Ok(out))
}

fn select(rs: &Vec<SimplifyRequest>, names: &Vec<String>) -> (r: Result<Vec<SimplifyRequest>, Numora>)
    ensures
        match select_requests(request_views(rs@), string_views(names@)) {
            Ok(x) => r matches Ok(v) && request_views(v@) == x,
            Err(m) => evaluation_error(r, m),
        },
{
    let ghost all = request_views(rs@);
    let ghost ns = string_views(names@);
    let mut out: Vec<SimplifyRequest> = Vec::new();
    let mut i: usize = 0;
    proof {
        assert(ns.skip(0) =~= ns);
        assert(request_views(out@) =~= Seq::<(Seq<char>, TermView)>::empty());
        match select_requests(all, ns) {
            Ok(x) => {
                assert(Seq::<(Seq<char>, TermView)>::empty() + x =~= x);
            },
            _ => {},
        }
    }
    while i < names.len()
        invariant
            i <= names@.len(),
            all == request_views(rs@),
            ns == string_views(names@),
            select_requests(all, ns) == (match select_requests(all, ns.skip(i as int)) {
                Ok(rest) => Ok::<Seq<(Seq<char>, TermView)>, Seq<char>>(request_views(out@) + rest),
                Err(m) => Err(m),
            }),
        decreases names@.len() - i,
    {
        proof {
            lemma_skip_next(ns, i as int);
        }
        let name = names[i].as_str();
        let mut k: usize = 0;
        while k < rs.len() && !str_eq(rs[k].name.as_str(), name)
            invariant
                k <= rs@.len(),
                all == request_views(rs@),
                forall|m: int| 0 <= m < k ==> (#[trigger] all[m]).0 != name@,
            decreases rs@.len() - k,
        {
            k = k + 1;
        }
        proof {
            lemma_first_named(all, name@, 0, k as int);
        }
        if k == rs.len() {
            let mut msg = string_from("Missing simplify result: ");
            append_str(&mut msg, name);
            return Err(Numora::EvaluationError(msg));
        }
        let ghost before = request_views(out@);
        let picked = SimplifyRequest {
            name: string_from(rs[k].name.as_str()),
            expression: rs[k].expression.duplicate(),
        };
        out.push(picked);
        proof {
            assert(request_views(out@) =~= before + seq![all[k as int]]);
            match select_requests(all, ns.skip(i + 1)) {
                Ok(rest) => {
                    assert(before + (seq![all[k as int]] + rest) =~= request_views(out@) + rest);
                },
                Err(_) => {},
            }
        }
        i = i + 1;
    }
    proof {
        assert(ns.skip(names@.len() as int) =~= Seq::<Seq<char>>::empty());
        assert(request_views(out@) + Seq::<(Seq<char>, TermView)>::empty() =~= request_views(out@));
    }
    Ok(out)
}

proof fn lemma_first_named(rs: Seq<(Seq<char>, TermView)>, name: Seq<char>, i: int, k: int)
    requires
        0 <= i <= k <= rs.len(),
        forall|m: int| i <= m < k ==> (#[trigger] rs[m]).0 != name,
        k < rs.len() ==> rs[k].0 == name,
    ensures
        first_named(rs, name, i) == k,
    decreases k - i,
{
    if i < k {
        lemma_first_named(rs, name, i + 1, k);
    }
}

/// The requests of a `simplify:` program, in the order of its output, as
/// [`simplify_plan`] describes; its errors are evaluation errors.
pub fn plan_simplify_program(source: &str) -> (r: Option<Result<Vec<SimplifyRequest>, Numora>>)
    ensures
        match simplify_plan(source@) {
            None => r is None,
            Some(Ok(rs)) => r matches Some(Ok(v)) && request_views(v@) == rs,
            Some(Err(m)) => r matches Some(e) && evaluation_error(e, m),
        },
{
    let simplify_lines = collect_section_lines(source, "simplify");
    let find_lines = collect_section_lines(source, "find");
    if simplify_lines.len() == 0 {
        return Some(Err(Numora::EvaluationError(string_from("Missing simplify section."))));
    }
    let results = match read_requests(&simplify_lines) {
        None => return None,
        Some(Err(e)) => return Some(Err(e)),
        Some(Ok(rs)) => rs,
    };
    let requested = parse_find_names(find_lines.as_slice());
    if requested.len() == 0 {
        return Some(Ok(results));
    }
    match select(&results, &requested) {
        Ok(v) => Some(Ok(v)),
        Err(e) => Some(Err(e)),
    }
}

/// A simplified expression, ready to be written out.
#[derive(Debug, Clone, PartialEq, Eq)]
pub struct AlgebraSimplifyResult {
    name: String,
    simplified: String,
    explanation: AlgebraExplanation,
}

impl AlgebraSimplifyResult {
    /// The name the expression was assigned to.
    pub closed spec fn name_text(&self) -> Seq<char> {
        self.name@
    }

    /// The simplified expression as text.
    pub closed spec fn simplified_text(&self) -> Seq<char> {
        self.simplified@
    }

    /// How the expression was simplified.
    pub closed spec fn explanation_of(&self) -> AlgebraExplanation {
        self.explanation
    }

    pub fn new(name: String, simplified: String, explanation: AlgebraExplanation) -> (r: Self)
        ensures
            r.name_text() == name@,
            r.simplified_text() == simplified@,
            r.explanation_of() == explanation,
    {
        AlgebraSimplifyResult { name, simplified, explanation }
    }
}

/// The lines that show one step.
pub open spec fn step_text(s: AlgebraExplanationStep) -> Seq<char> {
    "rule: "@ + s.rule@ + "\n"@ + "before: "@ + s.before@ + "\n"@ + "after: "@ + s.after@ + "\n"@
        + "latex_before: "@ + s.latex_before@ + "\n"@ + "latex_after: "@ + s.latex_after@ + "\n"@
        + "explanation: "@ + s.explanation@ + "\n"@
}

/// The lines that show the steps, in order.
pub open spec fn steps_text(ss: Seq<AlgebraExplanationStep>) -> Seq<char>
    decreases ss.len(),
{
    if ss.len() == 0 {
        Seq::empty()
    } else {
        steps_text(ss.drop_last()) + step_text(ss.last())
    }
}

/// The lines that show one result: `result: name = simplified`, then
/// `latex: name = latex`, then, when steps are shown, `steps:` and the steps.
pub open spec fn result_text(r: AlgebraSimplifyResult, show_steps: bool) -> Seq<char> {
    "result: "@ + r.name_text() + " = "@ + r.simplified_text() + "\n"@ + "latex: "@ + r.name_text()
        + " = "@ + r.explanation_of().latex_simplified@ + "\n"@ + if show_steps {
        "steps:\n"@ + steps_text(r.explanation_of().steps@)
    } else {
        Seq::empty()
    }
}

/// The lines that show the results, in order.
pub open spec fn results_text(rs: Seq<AlgebraSimplifyResult>, show_steps: bool) -> Seq<char>
    decreases rs.len(),
{
    if rs.len() == 0 {
        Seq::empty()
    } else {
        results_text(rs.drop_last(), show_steps) + result_text(rs.last(), show_steps)
    }
}

fn append_field(out: &mut String, label: &str, value: &str)
    ensures
        final(out)@ == old(out)@ + label@ + value@ + "\n"@,
{
    append_str(out, label);
    append_str(out, value);
    append_str(out, "\n");
}

fn append_step(out: &mut String, step: &AlgebraExplanationStep)
    ensures
        final(out)@ == old(out)@ + step_text(*step),
{
    append_field(out, "rule: ", step.rule.as_str());
    append_field(out, "before: ", step.before.as_str());
    append_field(out, "after: ", step.after.as_str());
    append_field(out, "latex_before: ", step.latex_before.as_str());
    append_field(out, "latex_after: ", step.latex_after.as_str());
    append_field(out, "explanation: ", step.explanation.as_str());
    assert(out@ =~= old(out)@ + step_text(*step));
}

fn append_result(out: &mut String, result: &AlgebraSimplifyResult, show_steps: bool)
    ensures
        final(out)@ == old(out)@ + result_text(*result, show_steps),
{
    append_str(out, "result: ");
    append_str(out, result.name.as_str());
    append_str(out, " = ");
    append_str(out, result.simplified.as_str());
    append_str(out, "\n");
    append_str(out, "latex: ");
    append_str(out, result.name.as_str());
    append_str(out, " = ");
    append_str(out, result.explanation.latex_simplified.as_str());
    append_str(out, "\n");
    let ghost head = out@;
    if show_steps {
        append_str(out, "steps:\n");
        let steps = &result.explanation.steps;
        let mut i: usize = 0;
        while i < steps.len()
            invariant
                i <= steps@.len(),
                out@ == head + "steps:\n"@ + steps_text(steps@.take(i as int)),
            decreases steps@.len() - i,
        {
            append_step(out, &steps[i]);
            proof {
                assert(steps@.take(i + 1).drop_last() =~= steps@.take(i as int));
            }
            i = i + 1;
            assert(out@ =~= head + "steps:\n"@ + steps_text(steps@.take(i as int)));
        }
        assert(steps@.take(steps@.len() as int) =~= steps@);
        assert(out@ =~= old(out)@ + result_text(*result, show_steps));
    } else {
        assert(out@ =~= old(out)@ + result_text(*result, show_steps));
    }
}

/// Writes the results one after another, as [`results_text`] describes,
/// without the blanks at the end.
pub fn render_simplify_results(results: &[AlgebraSimplifyResult], show_steps: bool) -> (s: String)
    ensures
        s@ == trim_end(results_text(results@, show_steps)),
{
    let mut out = String::new();
    let mut i: usize = 0;
    while i < results.len()
        invariant
            i <= results@.len(),
            out@ == results_text(results@.take(i as int), show_steps),
        decreases results@.len() - i,
    {
        append_result(&mut out, &results[i], show_steps);
        proof {
            assert(results@.take(i + 1).drop_last() =~= results@.take(i as int));
        }
        i = i + 1;
    }
    assert(results@.take(results@.len() as int) =~= results@);
    let chars = chars_of(out.as_str());
    let trimmed = trim_end_chars(&chars);
    string_of(&trimmed)
}

} // verus!
