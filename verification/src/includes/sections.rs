//! Splitting `.mth` sources into their sections and joining several sources
//! into one program, one header per section.

use vstd::prelude::*;

use crate::error::Numora;
use crate::text::{
    chars_of, eq_chars, lines, lines_of, starts_with, starts_with_chars, string_of,
    string_views, trim, trim_chars, trim_end, trim_end_chars, views,
};

verus! {

/// The sections of a `.mth` source; `Leading` holds lines before any header.
#[derive(Debug, Clone, Copy, PartialEq, Eq, Structural)]
pub enum Section {
    Leading,
    Given,
    Formula,
    Simplify,
    Equation,
    Find,
    Solve,
}

/// What a [`MathSections`] holds, as plain sequences.
pub struct SectionsModel {
    pub run_line: Option<Seq<char>>,
    pub leading: Seq<Seq<char>>,
    pub given: Seq<Seq<char>>,
    pub formula: Seq<Seq<char>>,
    pub simplify: Seq<Seq<char>>,
    pub equation: Seq<Seq<char>>,
    pub find: Seq<Seq<char>>,
    pub solve: Seq<Seq<char>>,
}

/// No run line and no lines.
pub open spec fn empty_model() -> SectionsModel {
    SectionsModel {
        run_line: None,
        leading: Seq::empty(),
        given: Seq::empty(),
        formula: Seq::empty(),
        simplify: Seq::empty(),
        equation: Seq::empty(),
        find: Seq::empty(),
        solve: Seq::empty(),
    }
}

/// The section a trimmed line opens, if it is a header.
pub open spec fn header_of(t: Seq<char>) -> Option<Section> {
    if t == "given:"@ {
        Some(Section::Given)
    } else if t == "formula:"@ {
        Some(Section::Formula)
    } else if t == "simplify:"@ {
        Some(Section::Simplify)
    } else if t == "equation:"@ {
        Some(Section::Equation)
    } else if t == "find:"@ {
        Some(Section::Find)
    } else if t == "solve:"@ {
        Some(Section::Solve)
    } else {
        None
    }
}

/// `m` with `line` added at the end of section `sec`.
pub open spec fn add_line(m: SectionsModel, sec: Section, line: Seq<char>) -> SectionsModel {
    match sec {
        Section::Leading => SectionsModel { leading: m.leading.push(line), ..m },
        Section::Given => SectionsModel { given: m.given.push(line), ..m },
        Section::Formula => SectionsModel { formula: m.formula.push(line), ..m },
        Section::Simplify => SectionsModel { simplify: m.simplify.push(line), ..m },
        Section::Equation => SectionsModel { equation: m.equation.push(line), ..m },
        Section::Find => SectionsModel { find: m.find.push(line), ..m },
        Section::Solve => SectionsModel { solve: m.solve.push(line), ..m },
    }
}

/// Reading one more line: a `@run` line is kept if it is the first one,
/// a header switches the section, and any other line joins the current one.
pub open spec fn read_line(st: (SectionsModel, Section), line: Seq<char>) -> (SectionsModel, Section) {
    let t = trim(line);
    if starts_with(t, "@run"@) {
        if st.0.run_line is None {
            (SectionsModel { run_line: Some(line), ..st.0 }, st.1)
        } else {
            st
        }
    } else {
        match header_of(t) {
            Some(sec) => (st.0, sec),
            None => (add_line(st.0, st.1, line), st.1),
        }
    }
}

/// The sections after reading the lines `ls`, with the section that is open last.
pub open spec fn read_lines(ls: Seq<Seq<char>>) -> (SectionsModel, Section)
    decreases ls.len(),
{
    if ls.len() == 0 {
        (empty_model(), Section::Leading)
    } else {
        read_line(read_lines(ls.drop_last()), ls.last())
    }
}

/// `a` followed by `b`: the first run line wins and every section's lines are joined.
pub open spec fn merge_models(a: SectionsModel, b: SectionsModel) -> SectionsModel {
    SectionsModel {
        run_line: if a.run_line is None { b.run_line } else { a.run_line },
        leading: a.leading + b.leading,
        given: a.given + b.given,
        formula: a.formula + b.formula,
        simplify: a.simplify + b.simplify,
        equation: a.equation + b.equation,
        find: a.find + b.find,
        solve: a.solve + b.solve,
    }
}

/// Does the line hold anything but whitespace?
pub open spec fn is_blank(line: Seq<char>) -> bool {
    trim(line).len() == 0
}

/// The non-blank lines of a section, each without trailing whitespace and
/// followed by a line feed.
pub open spec fn render_lines(ls: Seq<Seq<char>>) -> Seq<char>
    decreases ls.len(),
{
    if ls.len() == 0 {
        Seq::empty()
    } else if is_blank(ls.last()) {
        render_lines(ls.drop_last())
    } else {
        render_lines(ls.drop_last()) + trim_end(ls.last()) + seq!['\n']
    }
}

/// A section with its header, or nothing when all its lines are blank.
pub open spec fn render_section(title: Seq<char>, ls: Seq<Seq<char>>) -> Seq<char> {
    if render_lines(ls).len() == 0 {
        Seq::empty()
    } else {
        title + seq!['\n'] + render_lines(ls) + seq!['\n']
    }
}

/// The source text of a set of sections, before the final trim.
pub open spec fn render_untrimmed(m: SectionsModel) -> Seq<char> {
    let run = match m.run_line {
        Some(r) => trim_end(r) + seq!['\n', '\n'],
        None => Seq::empty(),
    };
    run + render_section("given:"@, m.given) + render_section("formula:"@, m.formula)
        + render_section("simplify:"@, m.simplify) + render_section("equation:"@, m.equation)
        + render_section("find:"@, m.find) + render_section("solve:"@, m.solve)
}

/// The source text of a set of sections.
pub open spec fn render_model(m: SectionsModel) -> Seq<char> {
    trim(render_untrimmed(m))
}

/// The sections of several sources read one after another and merged.
pub open spec fn merge_all(sources: Seq<Seq<char>>) -> SectionsModel
    decreases sources.len(),
{
    if sources.len() == 0 {
        empty_model()
    } else {
        merge_models(merge_all(sources.drop_last()), read_lines(lines(sources.last())).0)
    }
}

/// The sections of a `.mth` source.
#[derive(Debug, Clone, PartialEq, Eq)]
pub struct MathSections {
    run_line: Option<String>,
    leading_lines: Vec<String>,
    given_lines: Vec<String>,
    formula_lines: Vec<String>,
    simplify_lines: Vec<String>,
    equation_lines: Vec<String>,
    find_lines: Vec<String>,
    solve_lines: Vec<String>,
}

impl View for MathSections {
    type V = SectionsModel;

    closed spec fn view(&self) -> SectionsModel {
        SectionsModel {
            run_line: match self.run_line {
                Some(r) => Some(r@),
                None => None,
            },
            leading: string_views(self.leading_lines@),
            given: string_views(self.given_lines@),
            formula: string_views(self.formula_lines@),
            simplify: string_views(self.simplify_lines@),
            equation: string_views(self.equation_lines@),
            find: string_views(self.find_lines@),
            solve: string_views(self.solve_lines@),
        }
    }
}

impl Default for MathSections {
    fn default() -> (r: Self)
        ensures
            r@ == empty_model(),
    {
        let r = MathSections {
            run_line: None,
            leading_lines: Vec::new(),
            given_lines: Vec::new(),
            formula_lines: Vec::new(),
            simplify_lines: Vec::new(),
            equation_lines: Vec::new(),
            find_lines: Vec::new(),
            solve_lines: Vec::new(),
        };
        assert(r@.leading =~= Seq::<Seq<char>>::empty());
        assert(r@.given =~= Seq::<Seq<char>>::empty());
        assert(r@.formula =~= Seq::<Seq<char>>::empty());
        assert(r@.simplify =~= Seq::<Seq<char>>::empty());
        assert(r@.equation =~= Seq::<Seq<char>>::empty());
        assert(r@.find =~= Seq::<Seq<char>>::empty());
        assert(r@.solve =~= Seq::<Seq<char>>::empty());
        r
    }
}

impl MathSections {
    fn push_to(&mut self, sec: Section, line: String)
        ensures
            final(self)@ == add_line(old(self)@, sec, line@),
    {
        proof {
            lemma_string_views_push(self.leading_lines@, line);
            lemma_string_views_push(self.given_lines@, line);
            lemma_string_views_push(self.formula_lines@, line);
            lemma_string_views_push(self.simplify_lines@, line);
            lemma_string_views_push(self.equation_lines@, line);
            lemma_string_views_push(self.find_lines@, line);
            lemma_string_views_push(self.solve_lines@, line);
        }
        match sec {
            Section::Leading => self.leading_lines.push(line),
            Section::Given => self.given_lines.push(line),
            Section::Formula => self.formula_lines.push(line),
            Section::Simplify => self.simplify_lines.push(line),
            Section::Equation => self.equation_lines.push(line),
            Section::Find => self.find_lines.push(line),
            Section::Solve => self.solve_lines.push(line),
        }
    }

    fn header(t: &[char]) -> (r: Option<Section>)
        ensures
            r == header_of(t@),
    {
        let given = chars_of("given:");
        let formula = chars_of("formula:");
        let simplify = chars_of("simplify:");
        let equation = chars_of("equation:");
        let find = chars_of("find:");
        let solve = chars_of("solve:");
        if eq_chars(t, &given) {
            Some(Section::Given)
        } else if eq_chars(t, &formula) {
            Some(Section::Formula)
        } else if eq_chars(t, &simplify) {
            Some(Section::Simplify)
        } else if eq_chars(t, &equation) {
            Some(Section::Equation)
        } else if eq_chars(t, &find) {
            Some(Section::Find)
        } else if eq_chars(t, &solve) {
            Some(Section::Solve)
        } else {
            None
        }
    }

    /// Reads the sections of a source line by line.
    pub fn from_source(source: &str) -> (r: Result<Self, Numora>)
        ensures
            r matches Ok(m) && m@ == read_lines(lines(source@)).0,
    {
        let mut sections = MathSections::default();
        let mut current_section = Section::Leading;
        let ls = lines_of(source);
        let ghost all = lines(source@);
        let run = chars_of("@run");
        let mut i: usize = 0;
        while i < ls.len()
            invariant
                i <= ls@.len(),
                views(ls@) == all,
                run@ == "@run"@,
                (sections@, current_section) == read_lines(all.take(i as int)),
            decreases ls@.len() - i,
        {
            let line = &ls[i];
            let trimmed = trim_chars(line);
            proof {
                assert(all.take(i + 1).drop_last() =~= all.take(i as int));
                assert(all.take(i + 1).last() == line@);
            }
            if starts_with_chars(&trimmed, &run) {
                if sections.run_line.is_none() {
                    sections.run_line = Some(string_of(line));
                }
            } else {
                match Self::header(&trimmed) {
                    Some(sec) => {
                        current_section = sec;
                    },
                    None => {
                        sections.push_to(current_section, string_of(line));
                    },
                }
            }
            i = i + 1;
        }
        assert(all.take(ls@.len() as int) =~= all);
        Ok(sections)
    }

    /// Appends `other`: the first run line wins and each section's lines are joined.
    pub fn merge(&mut self, other: MathSections)
        ensures
            final(self)@ == merge_models(old(self)@, other@),
    {
        let mut other = other;
        if self.run_line.is_none() {
            self.run_line = other.run_line.clone();
        }
        proof {
            lemma_string_views_add(self.leading_lines@, other.leading_lines@);
            lemma_string_views_add(self.given_lines@, other.given_lines@);
            lemma_string_views_add(self.formula_lines@, other.formula_lines@);
            lemma_string_views_add(self.simplify_lines@, other.simplify_lines@);
            lemma_string_views_add(self.equation_lines@, other.equation_lines@);
            lemma_string_views_add(self.find_lines@, other.find_lines@);
            lemma_string_views_add(self.solve_lines@, other.solve_lines@);
        }
        self.leading_lines.append(&mut other.leading_lines);
        self.given_lines.append(&mut other.given_lines);
        self.formula_lines.append(&mut other.formula_lines);
        self.simplify_lines.append(&mut other.simplify_lines);
        self.equation_lines.append(&mut other.equation_lines);
        self.find_lines.append(&mut other.find_lines);
        self.solve_lines.append(&mut other.solve_lines);
    }

    /// Writes the sections back as source text, each non-empty section once.
    pub fn to_source(&self) -> (r: String)
        ensures
            r@ == render_model(self@),
    {
        let mut output: Vec<char> = Vec::new();
        match &self.run_line {
            Some(run_line) => {
                let v = chars_of(run_line.as_str());
                let mut t = trim_end_chars(&v);
                output.append(&mut t);
                output.push('\n');
                output.push('\n');
            },
            None => {},
        }
        let ghost run = output@;
        Self::push_section(&mut output, "given:", &self.given_lines);
        Self::push_section(&mut output, "formula:", &self.formula_lines);
        Self::push_section(&mut output, "simplify:", &self.simplify_lines);
        Self::push_section(&mut output, "equation:", &self.equation_lines);
        Self::push_section(&mut output, "find:", &self.find_lines);
        Self::push_section(&mut output, "solve:", &self.solve_lines);
        proof {
            let m = self@;
            let r = match m.run_line {
                Some(r) => trim_end(r) + seq!['\n', '\n'],
                None => Seq::empty(),
            };
            assert(run =~= r);
            assert(output@ =~= render_untrimmed(m));
        }
        let t = trim_chars(&output);
        string_of(&t)
    }

    fn push_section(output: &mut Vec<char>, title: &str, lines: &Vec<String>)
        ensures
            final(output)@ == old(output)@ + render_section(title@, string_views(lines@)),
    {
        let ghost ls = string_views(lines@);
        let mut body: Vec<char> = Vec::new();
        let mut i: usize = 0;
        while i < lines.len()
            invariant
                i <= lines@.len(),
                ls == string_views(lines@),
                body@ == render_lines(ls.take(i as int)),
            decreases lines@.len() - i,
        {
            let v = chars_of(lines[i].as_str());
            let t = trim_chars(&v);
            proof {
                assert(ls.take(i + 1).drop_last() =~= ls.take(i as int));
                assert(ls.take(i + 1).last() == v@);
            }
            if t.len() != 0 {
                let mut e = trim_end_chars(&v);
                body.append(&mut e);
                body.push('\n');
            }
            i = i + 1;
        }
        assert(ls.take(lines@.len() as int) =~= ls);
        if body.len() == 0 {
            assert(output@ =~= old(output)@ + render_section(title@, ls));
            return;
        }
        let mut tv = chars_of(title);
        output.append(&mut tv);
        output.push('\n');
        output.append(&mut body);
        output.push('\n');
        assert(output@ =~= old(output)@ + render_section(title@, ls));
    }
}

/// Reads every source's sections, merges them in order and writes the result.
pub fn merge_sources(sources: &[String]) -> (r: Result<String, Numora>)
    ensures
        r matches Ok(s) && s@ == render_model(merge_all(string_views(sources@))),
{
    let mut merged = MathSections::default();
    let ghost ss = string_views(sources@);
    let mut i: usize = 0;
    while i < sources.len()
        invariant
            i <= sources@.len(),
            ss == string_views(sources@),
            merged@ == merge_all(ss.take(i as int)),
        decreases sources@.len() - i,
    {
        let sections = MathSections::from_source(sources[i].as_str())?;
        proof {
            assert(ss.take(i + 1).drop_last() =~= ss.take(i as int));
            assert(ss.take(i + 1).last() == sources@[i as int]@);
        }
        merged.merge(sections);
        i = i + 1;
    }
    assert(ss.take(sources@.len() as int) =~= ss);
    Ok(merged.to_source())
}

/// Merging sections is associative.
pub proof fn lemma_merge_associative(a: SectionsModel, b: SectionsModel, c: SectionsModel)
    ensures
        merge_models(merge_models(a, b), c) == merge_models(a, merge_models(b, c)),
{
    let l = merge_models(merge_models(a, b), c);
    let r = merge_models(a, merge_models(b, c));
    assert(l.leading =~= r.leading);
    assert(l.given =~= r.given);
    assert(l.formula =~= r.formula);
    assert(l.simplify =~= r.simplify);
    assert(l.equation =~= r.equation);
    assert(l.find =~= r.find);
    assert(l.solve =~= r.solve);
}

/// Merging with no sections, on either side, changes nothing.
pub proof fn lemma_merge_identity(a: SectionsModel)
    ensures
        merge_models(empty_model(), a) == a,
        merge_models(a, empty_model()) == a,
{
    let l = merge_models(empty_model(), a);
    let r = merge_models(a, empty_model());
    assert(l.leading =~= a.leading && r.leading =~= a.leading);
    assert(l.given =~= a.given && r.given =~= a.given);
    assert(l.formula =~= a.formula && r.formula =~= a.formula);
    assert(l.simplify =~= a.simplify && r.simplify =~= a.simplify);
    assert(l.equation =~= a.equation && r.equation =~= a.equation);
    assert(l.find =~= a.find && r.find =~= a.find);
    assert(l.solve =~= a.solve && r.solve =~= a.solve);
}

/// Merging sources in two batches and merging the two results gives the
/// same sections as merging all the sources at once.
pub proof fn lemma_merge_all_split(first: Seq<Seq<char>>, second: Seq<Seq<char>>)
    ensures
        merge_all(first + second) == merge_models(merge_all(first), merge_all(second)),
    decreases second.len(),
{
    if second.len() == 0 {
        assert(first + second =~= first);
        lemma_merge_identity(merge_all(first));
    } else {
        let both = first + second;
        assert(both.drop_last() =~= first + second.drop_last());
        assert(both.last() == second.last());
        lemma_merge_all_split(first, second.drop_last());
        lemma_merge_associative(
            merge_all(first),
            merge_all(second.drop_last()),
            read_lines(lines(second.last())).0,
        );
    }
}

/// The first run line among the sources, each read on its own.
pub open spec fn first_run_line(sources: Seq<Seq<char>>) -> Option<Seq<char>>
    decreases sources.len(),
{
    if sources.len() == 0 {
        None
    } else {
        match read_lines(lines(sources[0])).0.run_line {
            Some(r) => Some(r),
            None => first_run_line(sources.skip(1)),
        }
    }
}

/// Merged sources keep the run line of the first source that has one.
pub proof fn lemma_merge_keeps_first_run_line(sources: Seq<Seq<char>>)
    ensures
        merge_all(sources).run_line == first_run_line(sources),
    decreases sources.len(),
{
    if sources.len() > 0 {
        let head = sources.take(1);
        let rest = sources.skip(1);
        assert(head + rest =~= sources);
        lemma_merge_all_split(head, rest);
        assert(head.drop_last() =~= Seq::<Seq<char>>::empty());
        assert(head.last() == sources[0]);
        assert(merge_all(head) == merge_models(
            merge_all(Seq::<Seq<char>>::empty()),
            read_lines(lines(sources[0])).0,
        ));
        assert(merge_all(head).run_line == read_lines(lines(sources[0])).0.run_line);
        lemma_merge_keeps_first_run_line(rest);
    }
}

proof fn lemma_string_views_push(v: Seq<String>, s: String)
    ensures
        string_views(v.push(s)) == string_views(v).push(s@),
{
    assert(string_views(v.push(s)) =~= string_views(v).push(s@));
}

proof fn lemma_string_views_add(v: Seq<String>, w: Seq<String>)
    ensures
        string_views(v + w) == string_views(v) + string_views(w),
{
    assert(string_views(v + w) =~= string_views(v) + string_views(w));
}

/// The lines a model holds in section `sec`.
pub open spec fn section_lines_of(m: SectionsModel, sec: Section) -> Seq<Seq<char>> {
    match sec {
        Section::Leading => m.leading,
        Section::Given => m.given,
        Section::Formula => m.formula,
        Section::Simplify => m.simplify,
        Section::Equation => m.equation,
        Section::Find => m.find,
        Section::Solve => m.solve,
    }
}

/// The lines of section `sec` of each source read on its own, the first
/// source's first.
pub open spec fn lines_in_source_order(sources: Seq<Seq<char>>, sec: Section) -> Seq<Seq<char>>
    decreases sources.len(),
{
    if sources.len() == 0 {
        Seq::empty()
    } else {
        section_lines_of(read_lines(lines(sources[0])).0, sec) + lines_in_source_order(sources.skip(1), sec)
    }
}

/// Merging keeps every section's lines in the order of the sources: the
/// lines of a section of the merged sources are that section's lines in the
/// first source, then in the second, and so on.
pub proof fn lemma_merge_keeps_source_order(sources: Seq<Seq<char>>, sec: Section)
    ensures
        section_lines_of(merge_all(sources), sec) == lines_in_source_order(sources, sec),
    decreases sources.len(),
{
    if sources.len() > 0 {
        let head = sources.take(1);
        let rest = sources.skip(1);
        assert(head + rest =~= sources);
        lemma_merge_all_split(head, rest);
        assert(head.drop_last() =~= Seq::<Seq<char>>::empty());
        assert(head.last() == sources[0]);
        let m0 = read_lines(lines(sources[0])).0;
        assert(merge_all(head) == merge_models(merge_all(Seq::<Seq<char>>::empty()), m0));
        assert(merge_all(Seq::<Seq<char>>::empty()) == empty_model());
        lemma_merge_identity(m0);
        lemma_merge_keeps_source_order(rest, sec);
        let merged = merge_models(m0, merge_all(rest));
        assert(section_lines_of(merged, sec) == section_lines_of(m0, sec) + section_lines_of(merge_all(rest), sec));
    }
}

/// A line that is neither a `@run` line nor a section header.
pub open spec fn is_body_line(line: Seq<char>) -> bool {
    !starts_with(trim(line), "@run"@) && header_of(trim(line)) is None
}

/// The lines under a header belong to its section, in their order: reading
/// a header of section `sec` and then lines that are neither headers nor
/// `@run` lines puts exactly those lines into `sec`, leaves every other
/// section empty and keeps `sec` open.
pub proof fn lemma_lines_join_their_section(header: Seq<char>, body: Seq<Seq<char>>, sec: Section)
    requires
        !starts_with(trim(header), "@run"@),
        header_of(trim(header)) == Some(sec),
        forall|i: int| 0 <= i < body.len() ==> is_body_line(#[trigger] body[i]),
    ensures
        read_lines(seq![header] + body).1 == sec,
        section_lines_of(read_lines(seq![header] + body).0, sec) == body,
        forall|other: Section| other != sec ==> section_lines_of(read_lines(seq![header] + body).0, other)
            == Seq::<Seq<char>>::empty(),
        read_lines(seq![header] + body).0.run_line is None,
    decreases body.len(),
{
    let ls = seq![header] + body;
    if body.len() == 0 {
        assert(ls =~= seq![header]);
        assert(ls.drop_last() =~= Seq::<Seq<char>>::empty());
        assert(read_lines(ls.drop_last()) == (empty_model(), Section::Leading));
        assert(read_lines(ls) == (empty_model(), sec));
        assert(body =~= Seq::<Seq<char>>::empty());
    } else {
        let front = body.drop_last();
        assert forall|i: int| 0 <= i < front.len() implies is_body_line(#[trigger] front[i]) by {
            assert(front[i] == body[i]);
        }
        lemma_lines_join_their_section(header, front, sec);
        assert(ls.drop_last() =~= seq![header] + front);
        assert(ls.last() == body.last());
        assert(is_body_line(body[body.len() - 1]));
        let prev = read_lines(seq![header] + front);
        assert(read_lines(ls) == read_line(prev, body.last()));
        assert(read_lines(ls) == (add_line(prev.0, sec, body.last()), sec));
        let m = read_lines(ls).0;
        assert(section_lines_of(m, sec) =~= front.push(body.last()));
        assert(front.push(body.last()) =~= body);
        assert forall|other: Section| other != sec implies section_lines_of(m, other)
            == Seq::<Seq<char>>::empty() by {
            assert(section_lines_of(m, other) == section_lines_of(prev.0, other));
        }
    }
}

} // verus!
