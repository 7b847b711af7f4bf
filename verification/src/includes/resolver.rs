//! `@include "path"` lines: reading one, and expanding a source whose
//! included files are fetched by the caller.
//!
//! Expansion is a state machine. [`IncludeExpansion::next`] copies lines
//! until it meets an include line, and then asks the caller to resolve the
//! path against a base directory. The caller finds the file, checks with
//! [`IncludeExpansion::check_cycle`] that it is not being expanded already,
//! reads it, and hands its text to [`IncludeExpansion::enter`]. When the
//! source has been read to its end, `next` hands back the expanded text.

use vstd::prelude::*;

use crate::error::{evaluation_error, parser_error, Numora};
use crate::text::{
    append_chars, append_str, chars_of, ends_with, ends_with_chars, lines, lines_of, matches_at,
    push_char, starts_with, starts_with_chars, str_eq, string_from, string_of, sub_chars, trim,
    trim_chars, views,
};

verus! {

/// `s` with every leading copy of `p` removed (`str::trim_start_matches`).
pub open spec fn strip_repeated(s: Seq<char>, p: Seq<char>) -> Seq<char>
    decreases s.len(),
{
    if p.len() > 0 && starts_with(s, p) {
        strip_repeated(s.skip(p.len() as int), p)
    } else {
        s
    }
}

/// `s` without its leading `c`s.
pub open spec fn drop_leading(s: Seq<char>, c: char) -> Seq<char>
    decreases s.len(),
{
    if s.len() > 0 && s[0] == c {
        drop_leading(s.drop_first(), c)
    } else {
        s
    }
}

/// `s` without its trailing `c`s.
pub open spec fn drop_trailing(s: Seq<char>, c: char) -> Seq<char>
    decreases s.len(),
{
    if s.len() > 0 && s.last() == c {
        drop_trailing(s.drop_last(), c)
    } else {
        s
    }
}

/// The message for an include line that is not `@include "path"`.
pub open spec fn include_syntax_message(line: Seq<char>) -> Seq<char> {
    "Invalid include syntax: "@ + line + ". Expected @include \"path/to/file.mth\""@
}

/// What a trimmed line says about includes: `Ok(None)` when it is no
/// include line, `Ok(Some(path))` for `@include "path"`, or the message of
/// its error.
pub open spec fn include_of(line: Seq<char>) -> Result<Option<Seq<char>>, Seq<char>> {
    if !starts_with(line, "@include"@) {
        Ok(None)
    } else {
        let rest = trim(strip_repeated(line, "@include"@));
        if !starts_with(rest, "\""@) || !ends_with(rest, "\""@) {
            Err(include_syntax_message(line))
        } else {
            let path = trim(drop_trailing(drop_leading(rest, '"'), '"'));
            if path.len() == 0 {
                Err("Include path cannot be empty"@)
            } else {
                Ok(Some(path))
            }
        }
    }
}

fn strip_repeated_chars(s: &[char], p: &[char]) -> (r: Vec<char>)
    ensures
        r@ == strip_repeated(s@, p@),
{
    let mut i: usize = 0;
    assert(s@.skip(0) =~= s@);
    loop
        invariant
            i <= s@.len(),
            strip_repeated(s@.skip(i as int), p@) == strip_repeated(s@, p@),
        ensures
            i <= s@.len(),
            strip_repeated(s@.skip(i as int), p@) == s@.skip(i as int),
            strip_repeated(s@.skip(i as int), p@) == strip_repeated(s@, p@),
        decreases s@.len() - i,
    {
        let ghost rest = s@.skip(i as int);
        if p.len() == 0 {
            break;
        }
        let found = matches_at(s, i, p);
        if !found {
            proof {
                if p@.len() <= rest.len() {
                    assert(rest.take(p@.len() as int) =~= s@.subrange(i as int, i + p@.len()));
                }
            }
            break;
        }
        proof {
            assert(rest.take(p@.len() as int) =~= s@.subrange(i as int, i + p@.len()));
            assert(rest.skip(p@.len() as int) =~= s@.skip(i + p@.len()));
        }
        let n = s.len();
        assert(i + p@.len() <= n);
        i = i + p.len();
    }
    let r = sub_chars(s, i, s.len());
    assert(r@ =~= s@.skip(i as int));
    r
}

fn drop_leading_chars(s: &[char], c: char) -> (r: Vec<char>)
    ensures
        r@ == drop_leading(s@, c),
{
    let mut i: usize = 0;
    assert(s@.skip(0) =~= s@);
    while i < s.len() && s[i] == c
        invariant
            i <= s@.len(),
            drop_leading(s@.skip(i as int), c) == drop_leading(s@, c),
        decreases s@.len() - i,
    {
        assert(s@.skip(i as int).drop_first() =~= s@.skip(i + 1));
        i = i + 1;
    }
    let r = sub_chars(s, i, s.len());
    assert(r@ =~= s@.skip(i as int));
    r
}

fn drop_trailing_chars(s: &[char], c: char) -> (r: Vec<char>)
    ensures
        r@ == drop_trailing(s@, c),
{
    let mut j: usize = s.len();
    assert(s@.take(s@.len() as int) =~= s@);
    while j > 0 && s[j - 1] == c
        invariant
            j <= s@.len(),
            drop_trailing(s@.take(j as int), c) == drop_trailing(s@, c),
        decreases j,
    {
        assert(s@.take(j as int).drop_last() =~= s@.take(j - 1));
        j = j - 1;
    }
    let r = sub_chars(s, 0, j);
    assert(r@ =~= s@.take(j as int));
    r
}

/// Reads `@include` lines.
pub struct IncludeResolver;

impl IncludeResolver {
    /// Reads a trimmed line: `Ok(None)` for a line that is no include,
    /// the path of `@include "path"`, or a parser error for an include line
    /// of another shape or with an empty path.
    pub fn parse_include(line: &str) -> (r: Result<Option<String>, Numora>)
        ensures
            match include_of(line@) {
                Ok(None) => r matches Ok(None),
                Ok(Some(p)) => r matches Ok(Some(s)) && s@ == p,
                Err(m) => parser_error(r, m),
            },
    {
        let v = chars_of(line);
        Self::parse_include_chars(&v)
    }

    fn parse_include_chars(line: &[char]) -> (r: Result<Option<String>, Numora>)
        ensures
            match include_of(line@) {
                Ok(None) => r matches Ok(None),
                Ok(Some(p)) => r matches Ok(Some(s)) && s@ == p,
                Err(m) => parser_error(r, m),
            },
    {
        let keyword = chars_of("@include");
        if !starts_with_chars(line, &keyword) {
            return Ok(None);
        }
        let stripped = strip_repeated_chars(line, &keyword);
        let rest = trim_chars(&stripped);
        let quote = chars_of("\"");
        if !starts_with_chars(&rest, &quote) || !ends_with_chars(&rest, &quote) {
            let mut msg = string_from("Invalid include syntax: ");
            append_chars(&mut msg, line);
            append_str(&mut msg, ". Expected @include \"path/to/file.mth\"");
            return Err(Numora::ParserError(msg));
        }
        let inner = drop_leading_chars(&rest, '"');
        let inner = drop_trailing_chars(&inner, '"');
        let path = trim_chars(&inner);
        if path.len() == 0 {
            return Err(Numora::ParserError(string_from("Include path cannot be empty")));
        }
        Ok(Some(string_of(&path)))
    }
}

/// One source being expanded: the lines still to read, the directory its
/// includes are resolved against, the path it was reached by (empty for the
/// source expansion started with) and its expansion so far.
pub struct FrameModel {
    pub lines: Seq<Seq<char>>,
    pub base: Seq<char>,
    pub key: Seq<char>,
    pub output: Seq<char>,
}

/// Where an expansion stops: at an include to resolve (its base directory
/// and path), at its end (the expanded text), or at an include line that is
/// refused (the message).
pub enum Advance {
    Resolve(Seq<char>, Seq<char>),
    Done(Seq<char>),
    Refused(Seq<char>),
}

/// The number of lines still to read, over all frames.
pub open spec fn remaining_lines(fs: Seq<FrameModel>) -> nat
    decreases fs.len(),
{
    if fs.len() == 0 {
        0
    } else {
        remaining_lines(fs.drop_last()) + fs.last().lines.len()
    }
}

/// Replacing the innermost frame changes the lines still to read by the
/// difference in its own lines.
pub proof fn lemma_remaining_update_last(fs: Seq<FrameModel>, x: FrameModel)
    requires
        fs.len() > 0,
    ensures
        remaining_lines(fs.update(fs.len() - 1, x)) == remaining_lines(fs.drop_last())
            + x.lines.len(),
{
    assert(fs.update(fs.len() - 1, x).drop_last() =~= fs.drop_last());
}

/// An included file is being expanded when a frame above the first was
/// reached by its path.
pub open spec fn on_stack(fs: Seq<FrameModel>, key: Seq<char>) -> bool {
    exists|i: int| 1 <= i < fs.len() && (#[trigger] fs[i]).key == key
}

/// No included file is being expanded inside itself.
pub open spec fn acyclic(fs: Seq<FrameModel>) -> bool {
    forall|i: int, j: int| 1 <= i < j < fs.len() ==> (#[trigger] fs[i]).key != (#[trigger] fs[j]).key
}

/// Expansion until the next stop. A line of the innermost source that is no
/// include line is copied with a newline; an include line stops it; a source
/// read to its end is copied with a newline into the one that included it;
/// the first source read to its end is the result.
pub open spec fn advance(fs: Seq<FrameModel>) -> (Seq<FrameModel>, Advance)
    decreases remaining_lines(fs), fs.len(),
{
    if fs.len() == 0 {
        (fs, Advance::Done(Seq::empty()))
    } else {
        let last = fs.len() - 1;
        let top = fs[last];
        if top.lines.len() > 0 {
            let line = top.lines[0];
            let rest = FrameModel { lines: top.lines.skip(1), ..top };
            match include_of(trim(line)) {
                Err(m) => (fs.update(last, rest), Advance::Refused(m)),
                Ok(Some(path)) => (fs.update(last, rest), Advance::Resolve(top.base, path)),
                Ok(None) => {
                    let copied = FrameModel { output: top.output + line.push('\n'), ..rest };
                    proof {
                        lemma_remaining_update_last(fs, copied);
                        lemma_remaining_update_last(fs, top);
                        assert(fs.update(last, top) =~= fs);
                    }
                    advance(fs.update(last, copied))
                },
            }
        } else if fs.len() == 1 {
            (fs, Advance::Done(top.output))
        } else {
            let below = fs.drop_last();
            let parent = below[last - 1];
            let merged = FrameModel { output: parent.output + top.output.push('\n'), ..parent };
            proof {
                lemma_remaining_update_last(below, merged);
                lemma_remaining_update_last(below, parent);
                assert(below.update(last - 1, parent) =~= below);
            }
            advance(below.update(last - 1, merged))
        }
    }
}

/// The lines, each followed by a newline.
pub open spec fn joined(ls: Seq<Seq<char>>) -> Seq<char>
    decreases ls.len(),
{
    if ls.len() == 0 {
        Seq::empty()
    } else {
        ls[0].push('\n') + joined(ls.skip(1))
    }
}

/// No line is an include line, nor an include line that is refused.
pub open spec fn without_includes(ls: Seq<Seq<char>>) -> bool {
    forall|i: int|
        0 <= i < ls.len() ==> include_of(trim(#[trigger] ls[i])) == Ok::<
            Option<Seq<char>>,
            Seq<char>,
        >(None)
}

proof fn lemma_frame_without_includes(f: FrameModel)
    requires
        without_includes(f.lines),
    ensures
        advance(seq![f]) == (
            seq![FrameModel { lines: Seq::empty(), output: f.output + joined(f.lines), ..f }],
            Advance::Done(f.output + joined(f.lines)),
        ),
    decreases f.lines.len(),
{
    if f.lines.len() == 0 {
        assert(f.output + joined(f.lines) =~= f.output);
        assert(f.lines =~= Seq::<Seq<char>>::empty());
    } else {
        let line = f.lines[0];
        let copied = FrameModel { lines: f.lines.skip(1), output: f.output + line.push('\n'), ..f };
        assert(include_of(trim(f.lines[0])) == Ok::<Option<Seq<char>>, Seq<char>>(None));
        assert(seq![f].update(0, copied) =~= seq![copied]);
        assert(without_includes(copied.lines)) by {
            assert forall|i: int| 0 <= i < copied.lines.len() implies include_of(
                trim(#[trigger] copied.lines[i]),
            ) == Ok::<Option<Seq<char>>, Seq<char>>(None) by {
                assert(copied.lines[i] == f.lines[i + 1]);
            }
        }
        lemma_frame_without_includes(copied);
        assert(copied.output + joined(copied.lines) =~= f.output + joined(f.lines));
    }
}

/// A source without include lines expands to its own lines, each followed
/// by a newline.
pub proof fn lemma_source_without_includes(source: Seq<char>, base: Seq<char>)
    requires
        without_includes(lines(source)),
    ensures
        advance(
            seq![
                FrameModel {
                    lines: lines(source),
                    base: base,
                    key: Seq::empty(),
                    output: Seq::empty(),
                },
            ],
        ).1 == Advance::Done(joined(lines(source))),
{
    let f = FrameModel { lines: lines(source), base: base, key: Seq::empty(), output: Seq::empty() };
    lemma_frame_without_includes(f);
    assert(f.output + joined(f.lines) =~= joined(lines(source)));
}

/// Where [`IncludeExpansion::next`] stopped.
pub enum IncludeStep {
    /// Resolve `path` against the directory `base`, then check and enter the file.
    Resolve { base: String, path: String },
    /// The source is expanded.
    Done(String),
}

struct Frame {
    lines: Vec<Vec<char>>,
    next: usize,
    base: String,
    key: String,
    output: String,
}

impl Frame {
    spec fn model(&self) -> FrameModel {
        FrameModel {
            lines: views(self.lines@).skip(self.next as int),
            base: self.base@,
            key: self.key@,
            output: self.output@,
        }
    }

    spec fn wf(&self) -> bool {
        self.next <= self.lines@.len()
    }
}

/// The expansion of a source and of the files it includes.
pub struct IncludeExpansion {
    frames: Vec<Frame>,
}

impl View for IncludeExpansion {
    type V = Seq<FrameModel>;

    closed spec fn view(&self) -> Seq<FrameModel> {
        self.frames@.map_values(|f: Frame| f.model())
    }
}

impl IncludeExpansion {
    /// The frames are well formed and the first one is the source.
    pub closed spec fn wf(&self) -> bool {
        &&& self.frames@.len() >= 1
        &&& forall|i: int| 0 <= i < self.frames@.len() ==> (#[trigger] self.frames@[i]).wf()
        &&& acyclic(self@)
    }

    /// Starts the expansion of `source`, whose includes are resolved against `base`.
    pub fn new(source: &str, base: String) -> (r: Self)
        ensures
            r.wf(),
            acyclic(r@),
            r@ == seq![
                FrameModel {
                    lines: lines(source@),
                    base: base@,
                    key: Seq::empty(),
                    output: Seq::empty(),
                },
            ],
    {
        let ls = lines_of(source);
        let frame = Frame { lines: ls, next: 0, base, key: String::new(), output: String::new() };
        let mut frames: Vec<Frame> = Vec::new();
        frames.push(frame);
        let r = Self { frames };
        assert(views(r.frames@[0].lines@).skip(0) =~= views(r.frames@[0].lines@));
        assert(r@ =~= seq![
            FrameModel {
                lines: lines(source@),
                base: base@,
                key: Seq::empty(),
                output: Seq::empty(),
            },
        ]);
        r
    }

    /// Expands until an include has to be resolved or the source is read to
    /// its end; an include line that is refused is a parser error.
    pub fn next(&mut self) -> (r: Result<IncludeStep, Numora>)
        requires
            old(self).wf(),
        ensures
            final(self).wf(),
            acyclic(final(self)@),
            final(self)@ == advance(old(self)@).0,
            match advance(old(self)@).1 {
                Advance::Resolve(b, p) => r matches Ok(IncludeStep::Resolve { base, path })
                    && base@ == b && path@ == p,
                Advance::Done(o) => r matches Ok(IncludeStep::Done(s)) && s@ == o,
                Advance::Refused(m) => parser_error(r, m),
            },
    {
        loop
            invariant
                self.wf(),
                advance(self@) == advance(old(self)@),
            decreases remaining_lines(self@), self@.len(),
        {
            let ghost fs = self@;
            let ghost last = fs.len() - 1;
            let ghost frames0 = self.frames@;
            let mut top = self.frames.pop().unwrap();
            proof {
                assert(self.frames@ =~= frames0.drop_last());
                assert(self.frames@.map_values(|f: Frame| f.model()) =~= fs.drop_last());
                assert(top == frames0[last]);
            }
            if top.next < top.lines.len() {
                let line = sub_chars(&top.lines[top.next], 0, top.lines[top.next].len());
                proof {
                    assert(line@ =~= fs[last].lines[0]);
                }
                top.next = top.next + 1;
                let t = trim_chars(&line);
                let ghost rest = FrameModel { lines: fs[last].lines.skip(1), ..fs[last] };
                proof {
                    assert(top.model().lines =~= rest.lines);
                }
                match Self::parse_include_line(&t) {
                    Err(e) => {
                        self.frames.push(top);
                        proof {
                            assert(self@ =~= fs.update(last, rest));
                        }
                        return Err(e);
                    },
                    Ok(Some(path)) => {
                        let base = top.base.clone();
                        self.frames.push(top);
                        proof {
                            assert(self@ =~= fs.update(last, rest));
                        }
                        return Ok(IncludeStep::Resolve { base, path });
                    },
                    Ok(None) => {
                        append_chars(&mut top.output, &line);
                        push_char(&mut top.output, '\n');
                        self.frames.push(top);
                        proof {
                            let copied = FrameModel {
                                output: fs[last].output + line@.push('\n'),
                                ..rest
                            };
                            assert(top.model().output =~= copied.output);
                            assert(self@ =~= fs.update(last, copied));
                            lemma_remaining_update_last(fs, copied);
                            lemma_remaining_update_last(fs, fs[last]);
                            assert(fs.update(last, fs[last]) =~= fs);
                        }
                    },
                }
            } else if self.frames.len() == 0 {
                let out = top.output.clone();
                self.frames.push(top);
                proof {
                    assert(self.frames@ =~= frames0);
                }
                return Ok(IncludeStep::Done(out));
            } else {
                let ghost below = fs.drop_last();
                let ghost frames1 = self.frames@;
                let mut parent = self.frames.pop().unwrap();
                append_str(&mut parent.output, top.output.as_str());
                push_char(&mut parent.output, '\n');
                self.frames.push(parent);
                proof {
                    let merged = FrameModel {
                        output: below[last - 1].output + fs[last].output.push('\n'),
                        ..below[last - 1]
                    };
                    assert(parent.model() =~= merged);
                    assert(self.frames@ =~= frames1.drop_last().push(parent));
                    assert(self@ =~= below.update(last - 1, merged));
                    lemma_remaining_update_last(below, merged);
                    lemma_remaining_update_last(below, below[last - 1]);
                    assert(below.update(last - 1, below[last - 1]) =~= below);
                }
            }
        }
    }

    /// Refuses a file that is being expanded already: entering it again
    /// would never end.
    pub fn check_cycle(&self, key: &str) -> (r: Result<(), Numora>)
        requires
            self.wf(),
        ensures
            on_stack(self@, key@) ==> evaluation_error(r, "Circular include detected: "@ + key@),
            !on_stack(self@, key@) ==> r is Ok,
    {
        let mut i: usize = 1;
        while i < self.frames.len()
            invariant
                1 <= i <= self.frames@.len(),
                self@ == self.frames@.map_values(|f: Frame| f.model()),
                forall|k: int| 1 <= k < i ==> (#[trigger] self@[k]).key != key@,
            decreases self.frames@.len() - i,
        {
            if str_eq(self.frames[i].key.as_str(), key) {
                assert(self@[i as int].key == key@);
                let mut msg = string_from("Circular include detected: ");
                append_str(&mut msg, key);
                return Err(Numora::EvaluationError(msg));
            }
            i = i + 1;
        }
        Ok(())
    }

    /// Starts expanding the file reached by the path `key`, whose text is
    /// `contents` and whose includes are resolved against `base`.
    pub fn enter(&mut self, key: String, base: String, contents: &str)
        requires
            old(self).wf(),
            !on_stack(old(self)@, key@),
        ensures
            final(self).wf(),
            acyclic(final(self)@),
            final(self)@ == old(self)@.push(
                FrameModel {
                    lines: lines(contents@),
                    base: base@,
                    key: key@,
                    output: Seq::empty(),
                },
            ),
    {
        let ls = lines_of(contents);
        let frame = Frame { lines: ls, next: 0, base, key, output: String::new() };
        let ghost old_frames = self.frames@;
        self.frames.push(frame);
        proof {
            assert(views(frame.lines@).skip(0) =~= views(frame.lines@));
            assert(self.frames@ =~= old_frames.push(frame));
            assert(self@ =~= old(self)@.push(frame.model()));
        }
    }

    fn parse_include_line(line: &[char]) -> (r: Result<Option<String>, Numora>)
        ensures
            match include_of(line@) {
                Ok(None) => r matches Ok(None),
                Ok(Some(p)) => r matches Ok(Some(s)) && s@ == p,
                Err(m) => parser_error(r, m),
            },
    {
        IncludeResolver::parse_include_chars(line)
    }
}

/// An include is resolved against the file it is read from: after a file is
/// entered with base directory `base`, an include line `@include "p"` at its
/// start makes the next stop resolve `p` against `base`, whatever the
/// directories of the files that included it.
pub proof fn lemma_include_resolves_against_its_file(
    fs: Seq<FrameModel>,
    key: Seq<char>,
    base: Seq<char>,
    contents: Seq<char>,
    path: Seq<char>,
)
    requires
        lines(contents).len() > 0,
        include_of(trim(lines(contents)[0])) == Ok::<Option<Seq<char>>, Seq<char>>(Some(path)),
    ensures
        advance(
            fs.push(FrameModel { lines: lines(contents), base: base, key: key, output: Seq::empty() }),
        ).1 == Advance::Resolve(base, path),
{
    let g = fs.push(FrameModel { lines: lines(contents), base: base, key: key, output: Seq::empty() });
    assert(g[g.len() - 1].base == base);
    assert(g[g.len() - 1].lines == lines(contents));
}

/// An included file without include lines of its own is copied, line by
/// line and each line followed by a newline, into the file that included
/// it, followed by one more newline, at the place of the include; the
/// expansion then goes on in that file.
pub proof fn lemma_included_file_is_copied_in_place(fs: Seq<FrameModel>, f: FrameModel)
    requires
        fs.len() >= 1,
        without_includes(f.lines),
    ensures
        advance(fs.push(f)) == advance(
            fs.update(
                fs.len() - 1,
                FrameModel {
                    output: fs[fs.len() - 1].output + (f.output + joined(f.lines)).push('\n'),
                    ..fs[fs.len() - 1]
                },
            ),
        ),
    decreases f.lines.len(),
{
    let g = fs.push(f);
    assert(g.drop_last() =~= fs);
    assert(g[g.len() - 1] == f);
    if f.lines.len() == 0 {
        assert(f.output + joined(f.lines) =~= f.output);
    } else {
        let line = f.lines[0];
        let copied = FrameModel { lines: f.lines.skip(1), output: f.output + line.push('\n'), ..f };
        assert(include_of(trim(f.lines[0])) == Ok::<Option<Seq<char>>, Seq<char>>(None));
        assert(g.update(g.len() - 1, copied) =~= fs.push(copied));
        assert(without_includes(copied.lines)) by {
            assert forall|i: int| 0 <= i < copied.lines.len() implies include_of(
                trim(#[trigger] copied.lines[i]),
            ) == Ok::<Option<Seq<char>>, Seq<char>>(None) by {
                assert(copied.lines[i] == f.lines[i + 1]);
            }
        }
        lemma_included_file_is_copied_in_place(fs, copied);
        assert(copied.output + joined(copied.lines) =~= f.output + joined(f.lines));
    }
}

} // verus!
