//! The lines of the output of a `simplify:` program, and what showing the
//! steps adds to them.
use vstd::prelude::*;

use crate::algebra::explain::AlgebraExplanationStep;
use crate::algebra::runner::{
    result_text, results_text, step_text, steps_text, AlgebraSimplifyResult,
};
use crate::text::starts_with;

verus! {

/// The lines of a text, each without its `\n`; a last line without `\n`
/// counts too. `cur` holds the start of the line being read.
pub open spec fn lines_from(s: Seq<char>, cur: Seq<char>) -> Seq<Seq<char>>
    decreases s.len(),
{
    if s.len() == 0 {
        if cur.len() == 0 {
            Seq::empty()
        } else {
            seq![cur]
        }
    } else if s[0] == '\n' {
        seq![cur] + lines_from(s.skip(1), Seq::empty())
    } else {
        lines_from(s.skip(1), cur.push(s[0]))
    }
}

/// The lines of a text.
pub open spec fn text_lines(s: Seq<char>) -> Seq<Seq<char>> {
    lines_from(s, Seq::empty())
}

/// Each line followed by `\n`.
pub open spec fn join_lines(ls: Seq<Seq<char>>) -> Seq<char>
    decreases ls.len(),
{
    if ls.len() == 0 {
        Seq::empty()
    } else {
        join_lines(ls.drop_last()) + ls.last() + "\n"@
    }
}

/// A text without a line break in it.
pub open spec fn one_line(s: Seq<char>) -> bool {
    forall|i: int| 0 <= i < s.len() ==> s[i] != '\n'
}

/// A line that only showing the steps writes: `steps:`, or a line of a step.
pub open spec fn is_step_line(l: Seq<char>) -> bool {
    ||| l == "steps:"@
    ||| starts_with(l, "rule: "@)
    ||| starts_with(l, "before: "@)
    ||| starts_with(l, "after: "@)
    ||| starts_with(l, "latex_before: "@)
    ||| starts_with(l, "latex_after: "@)
    ||| starts_with(l, "explanation: "@)
}

/// The lines that are not step lines, in order.
pub open spec fn drop_step_lines(ls: Seq<Seq<char>>) -> Seq<Seq<char>>
    decreases ls.len(),
{
    if ls.len() == 0 {
        Seq::empty()
    } else if is_step_line(ls.last()) {
        drop_step_lines(ls.drop_last())
    } else {
        drop_step_lines(ls.drop_last()).push(ls.last())
    }
}

/// The lines of one step.
pub open spec fn step_lines(s: AlgebraExplanationStep) -> Seq<Seq<char>> {
    seq![
        "rule: "@ + s.rule@,
        "before: "@ + s.before@,
        "after: "@ + s.after@,
        "latex_before: "@ + s.latex_before@,
        "latex_after: "@ + s.latex_after@,
        "explanation: "@ + s.explanation@,
    ]
}

/// The lines of the steps, in order.
pub open spec fn steps_lines(ss: Seq<AlgebraExplanationStep>) -> Seq<Seq<char>>
    decreases ss.len(),
{
    if ss.len() == 0 {
        Seq::empty()
    } else {
        steps_lines(ss.drop_last()) + step_lines(ss.last())
    }
}

/// The lines of one result: its `result:` and `latex:` lines, then, when the
/// steps are shown, `steps:` and the lines of each step.
pub open spec fn result_lines(r: AlgebraSimplifyResult, show_steps: bool) -> Seq<Seq<char>> {
    seq![
        "result: "@ + r.name_text() + " = "@ + r.simplified_text(),
        "latex: "@ + r.name_text() + " = "@ + r.explanation_of().latex_simplified@,
    ] + if show_steps {
        seq!["steps:"@] + steps_lines(r.explanation_of().steps@)
    } else {
        Seq::empty()
    }
}

/// The lines of the results, in order.
pub open spec fn results_lines(rs: Seq<AlgebraSimplifyResult>, show_steps: bool) -> Seq<Seq<char>>
    decreases rs.len(),
{
    if rs.len() == 0 {
        Seq::empty()
    } else {
        results_lines(rs.drop_last(), show_steps) + result_lines(rs.last(), show_steps)
    }
}

/// No field of the result holds a line break.
pub open spec fn plain_result(r: AlgebraSimplifyResult) -> bool {
    &&& one_line(r.name_text())
    &&& one_line(r.simplified_text())
    &&& one_line(r.explanation_of().latex_simplified@)
    &&& forall|k: int|
        0 <= k < r.explanation_of().steps@.len() ==> plain_step(
            #[trigger] r.explanation_of().steps@[k],
        )
}

/// No field of the step holds a line break.
pub open spec fn plain_step(s: AlgebraExplanationStep) -> bool {
    &&& one_line(s.rule@)
    &&& one_line(s.before@)
    &&& one_line(s.after@)
    &&& one_line(s.latex_before@)
    &&& one_line(s.latex_after@)
    &&& one_line(s.explanation@)
}

proof fn lemma_lines_from_line(l: Seq<char>, rest: Seq<char>, cur: Seq<char>)
    requires
        one_line(l),
    ensures
        lines_from(l + "\n"@ + rest, cur) == seq![cur + l] + lines_from(rest, Seq::empty()),
    decreases l.len(),
{
    reveal_strlit("\n");
    let s = l + "\n"@ + rest;
    if l.len() == 0 {
        assert(s[0] == '\n');
        assert(s.skip(1) =~= rest);
        assert(cur + l =~= cur);
    } else {
        assert(s[0] == l[0]);
        assert(s.skip(1) =~= l.skip(1) + "\n"@ + rest);
        lemma_lines_from_line(l.skip(1), rest, cur.push(l[0]));
        assert(cur.push(l[0]) + l.skip(1) =~= cur + l);
    }
}

proof fn lemma_join_lines(ls: Seq<Seq<char>>, rest: Seq<char>)
    requires
        forall|i: int| 0 <= i < ls.len() ==> one_line(#[trigger] ls[i]),
    ensures
        text_lines(join_lines(ls) + rest) == ls + text_lines(rest),
    decreases ls.len(),
{
    if ls.len() == 0 {
        assert(join_lines(ls) + rest =~= rest);
        assert(ls + text_lines(rest) =~= text_lines(rest));
    } else {
        let front = ls.drop_last();
        let tail = ls.last() + "\n"@ + rest;
        assert(join_lines(ls) + rest =~= join_lines(front) + tail);
        lemma_join_lines(front, tail);
        assert(ls[ls.len() - 1] == ls.last());
        lemma_lines_from_line(ls.last(), rest, Seq::empty());
        assert(Seq::<char>::empty() + ls.last() =~= ls.last());
        assert(front + (seq![ls.last()] + text_lines(rest)) =~= ls + text_lines(rest));
    }
}

proof fn lemma_join_add(a: Seq<Seq<char>>, b: Seq<Seq<char>>)
    ensures
        join_lines(a + b) == join_lines(a) + join_lines(b),
    decreases b.len(),
{
    if b.len() == 0 {
        assert(a + b =~= a);
        assert(join_lines(a) + join_lines(b) =~= join_lines(a));
    } else {
        assert((a + b).drop_last() =~= a + b.drop_last());
        assert((a + b).last() == b.last());
        lemma_join_add(a, b.drop_last());
        assert(join_lines(a + b) =~= join_lines(a) + join_lines(b));
    }
}

proof fn lemma_drop_add(a: Seq<Seq<char>>, b: Seq<Seq<char>>)
    ensures
        drop_step_lines(a + b) == drop_step_lines(a) + drop_step_lines(b),
    decreases b.len(),
{
    if b.len() == 0 {
        assert(a + b =~= a);
        assert(drop_step_lines(a) + drop_step_lines(b) =~= drop_step_lines(a));
    } else {
        assert((a + b).drop_last() =~= a + b.drop_last());
        assert((a + b).last() == b.last());
        lemma_drop_add(a, b.drop_last());
        assert(drop_step_lines(a + b) =~= drop_step_lines(a) + drop_step_lines(b));
    }
}

proof fn lemma_labelled(label: Seq<char>, v: Seq<char>)
    ensures
        starts_with(label + v, label),
{
    assert((label + v).take(label.len() as int) =~= label);
}

proof fn lemma_one_line_labelled(label: Seq<char>, v: Seq<char>)
    requires
        one_line(label),
        one_line(v),
    ensures
        one_line(label + v),
{
    assert forall|i: int| 0 <= i < (label + v).len() implies (label + v)[i] != '\n' by {
        if i < label.len() {
            assert((label + v)[i] == label[i]);
        } else {
            assert((label + v)[i] == v[i - label.len()]);
        }
    }
}

proof fn lemma_step(s: AlgebraExplanationStep)
    requires
        plain_step(s),
    ensures
        step_text(s) == join_lines(step_lines(s)),
        drop_step_lines(step_lines(s)) == Seq::<Seq<char>>::empty(),
        forall|i: int| 0 <= i < step_lines(s).len() ==> one_line(#[trigger] step_lines(s)[i]),
{
    let ls = step_lines(s);
    reveal_with_fuel(join_lines, 7);
    reveal_with_fuel(drop_step_lines, 7);
    assert(step_text(s) =~= join_lines(ls));
    reveal_strlit("rule: ");
    reveal_strlit("before: ");
    reveal_strlit("after: ");
    reveal_strlit("latex_before: ");
    reveal_strlit("latex_after: ");
    reveal_strlit("explanation: ");
    lemma_labelled("rule: "@, s.rule@);
    lemma_labelled("before: "@, s.before@);
    lemma_labelled("after: "@, s.after@);
    lemma_labelled("latex_before: "@, s.latex_before@);
    lemma_labelled("latex_after: "@, s.latex_after@);
    lemma_labelled("explanation: "@, s.explanation@);
    assert(ls.drop_last().drop_last().drop_last().drop_last().drop_last().drop_last() =~= Seq::<
        Seq<char>,
    >::empty());
    lemma_one_line_labelled("rule: "@, s.rule@);
    lemma_one_line_labelled("before: "@, s.before@);
    lemma_one_line_labelled("after: "@, s.after@);
    lemma_one_line_labelled("latex_before: "@, s.latex_before@);
    lemma_one_line_labelled("latex_after: "@, s.latex_after@);
    lemma_one_line_labelled("explanation: "@, s.explanation@);
}

proof fn lemma_steps(ss: Seq<AlgebraExplanationStep>)
    requires
        forall|k: int| 0 <= k < ss.len() ==> plain_step(#[trigger] ss[k]),
    ensures
        steps_text(ss) == join_lines(steps_lines(ss)),
        drop_step_lines(steps_lines(ss)) == Seq::<Seq<char>>::empty(),
        forall|i: int| 0 <= i < steps_lines(ss).len() ==> one_line(#[trigger] steps_lines(ss)[i]),
    decreases ss.len(),
{
    if ss.len() > 0 {
        let front = ss.drop_last();
        assert forall|k: int| 0 <= k < front.len() implies plain_step(#[trigger] front[k]) by {
            assert(front[k] == ss[k]);
        }
        lemma_steps(front);
        assert(plain_step(ss[ss.len() - 1]));
        lemma_step(ss.last());
        lemma_join_add(steps_lines(front), step_lines(ss.last()));
        lemma_drop_add(steps_lines(front), step_lines(ss.last()));
        assert(drop_step_lines(steps_lines(ss)) =~= Seq::<Seq<char>>::empty());
        let all = steps_lines(ss);
        assert forall|i: int| 0 <= i < all.len() implies one_line(#[trigger] all[i]) by {
            if i < steps_lines(front).len() {
                assert(all[i] == steps_lines(front)[i]);
            } else {
                assert(all[i] == step_lines(ss.last())[i - steps_lines(front).len()]);
            }
        }
    }
}

proof fn lemma_not_step_line(label: Seq<char>, v: Seq<char>)
    requires
        label == "result: "@ || label == "latex: "@,
    ensures
        !is_step_line(label + v),
{
    reveal_strlit("result: ");
    reveal_strlit("latex: ");
    reveal_strlit("steps:");
    reveal_strlit("rule: ");
    reveal_strlit("before: ");
    reveal_strlit("after: ");
    reveal_strlit("latex_before: ");
    reveal_strlit("latex_after: ");
    reveal_strlit("explanation: ");
    let l = label + v;
    assert(l[0] == label[0]);
    assert(l[1] == label[1]);
    assert(l[5] == label[5]);
    if starts_with(l, "rule: "@) {
        assert(l.take(6)[1] == l[1]);
    }
    if starts_with(l, "latex_before: "@) {
        assert(l.take(14)[5] == l[5]);
    }
    if starts_with(l, "latex_after: "@) {
        assert(l.take(13)[5] == l[5]);
    }
    if starts_with(l, "before: "@) {
        assert(l.take(8)[0] == l[0]);
    }
    if starts_with(l, "after: "@) {
        assert(l.take(7)[0] == l[0]);
    }
    if starts_with(l, "explanation: "@) {
        assert(l.take(13)[0] == l[0]);
    }
    if l == "steps:"@ {
        assert(l[0] == 's');
    }
}

proof fn lemma_result(r: AlgebraSimplifyResult, show_steps: bool)
    requires
        plain_result(r),
    ensures
        result_text(r, show_steps) == join_lines(result_lines(r, show_steps)),
        drop_step_lines(result_lines(r, show_steps)) == result_lines(r, false),
        forall|i: int|
            0 <= i < result_lines(r, show_steps).len() ==> one_line(#[trigger] result_lines(r, show_steps)[i]),
{
    let ss = r.explanation_of().steps@;
    lemma_steps(ss);
    let first = "result: "@ + r.name_text() + " = "@ + r.simplified_text();
    let second = "latex: "@ + r.name_text() + " = "@ + r.explanation_of().latex_simplified@;
    let head = seq![first, second];
    reveal_with_fuel(join_lines, 3);
    reveal_with_fuel(drop_step_lines, 3);
    assert(join_lines(head) =~= "result: "@ + r.name_text() + " = "@ + r.simplified_text() + "\n"@
        + "latex: "@ + r.name_text() + " = "@ + r.explanation_of().latex_simplified@ + "\n"@);
    assert(first =~= "result: "@ + (r.name_text() + " = "@ + r.simplified_text()));
    assert(second =~= "latex: "@ + (r.name_text() + " = "@ + r.explanation_of().latex_simplified@));
    lemma_not_step_line("result: "@, r.name_text() + " = "@ + r.simplified_text());
    lemma_not_step_line("latex: "@, r.name_text() + " = "@ + r.explanation_of().latex_simplified@);
    assert(head.drop_last().drop_last() =~= Seq::<Seq<char>>::empty());
    assert(head.drop_last() =~= seq![first]);
    assert(drop_step_lines(head) =~= head);
    reveal_strlit("result: ");
    reveal_strlit("latex: ");
    reveal_strlit(" = ");
    reveal_strlit("steps:");
    lemma_one_line_labelled(r.name_text(), " = "@);
    lemma_one_line_labelled(r.name_text() + " = "@, r.simplified_text());
    lemma_one_line_labelled(r.name_text() + " = "@, r.explanation_of().latex_simplified@);
    lemma_one_line_labelled("result: "@, r.name_text() + " = "@ + r.simplified_text());
    lemma_one_line_labelled("latex: "@, r.name_text() + " = "@ + r.explanation_of().latex_simplified@);
    assert(result_lines(r, false) =~= head);
    if show_steps {
        let tail = seq!["steps:"@] + steps_lines(ss);
        assert(result_lines(r, true) == head + tail);
        lemma_join_add(head, tail);
        lemma_join_add(seq!["steps:"@], steps_lines(ss));
        reveal_strlit("steps:\n");
        reveal_strlit("\n");
        assert(seq!["steps:"@].drop_last() =~= Seq::<Seq<char>>::empty());
        assert(join_lines(seq!["steps:"@]) =~= "steps:\n"@);
        assert(result_text(r, true) =~= join_lines(head) + ("steps:\n"@ + steps_text(ss)));
        lemma_drop_add(head, tail);
        lemma_drop_add(seq!["steps:"@], steps_lines(ss));
        assert(drop_step_lines(seq!["steps:"@]) =~= Seq::<Seq<char>>::empty());
        assert(drop_step_lines(tail) =~= Seq::<Seq<char>>::empty());
        assert(drop_step_lines(head + tail) =~= head);
        let all = head + tail;
        assert forall|i: int| 0 <= i < all.len() implies one_line(#[trigger] all[i]) by {
            if i >= 3 {
                assert(all[i] == steps_lines(ss)[i - 3]);
            }
        }
    } else {
        assert(result_lines(r, false) =~= head);
        assert(result_text(r, false) =~= join_lines(head));
    }
}

proof fn lemma_results(rs: Seq<AlgebraSimplifyResult>, show_steps: bool)
    requires
        forall|i: int| 0 <= i < rs.len() ==> plain_result(#[trigger] rs[i]),
    ensures
        results_text(rs, show_steps) == join_lines(results_lines(rs, show_steps)),
        drop_step_lines(results_lines(rs, show_steps)) == results_lines(rs, false),
        forall|i: int|
            0 <= i < results_lines(rs, show_steps).len() ==> one_line(#[trigger] results_lines(rs, show_steps)[i]),
    decreases rs.len(),
{
    if rs.len() == 0 {
        assert(join_lines(Seq::<Seq<char>>::empty()) =~= Seq::<char>::empty());
    } else {
        let front = rs.drop_last();
        assert forall|i: int| 0 <= i < front.len() implies plain_result(#[trigger] front[i]) by {
            assert(front[i] == rs[i]);
        }
        lemma_results(front, show_steps);
        assert(plain_result(rs[rs.len() - 1]));
        lemma_result(rs.last(), show_steps);
        lemma_join_add(results_lines(front, show_steps), result_lines(rs.last(), show_steps));
        lemma_drop_add(results_lines(front, show_steps), result_lines(rs.last(), show_steps));
        lemma_results(front, false);
        let all = results_lines(rs, show_steps);
        let a = results_lines(front, show_steps);
        assert forall|i: int| 0 <= i < all.len() implies one_line(#[trigger] all[i]) by {
            if i < a.len() {
                assert(all[i] == a[i]);
            } else {
                assert(all[i] == result_lines(rs.last(), show_steps)[i - a.len()]);
            }
        }
    }
}

/// Showing the steps only adds lines: where no field of a result holds a
/// line break, the output with the steps, less its `steps:` lines and the
/// lines of each step, is the output without them, line for line; and the
/// output without them has no such line. The lines without the steps are
/// each result's `result:` and `latex:` lines, in the order of the results.
pub proof fn lemma_steps_only_add_lines(rs: Seq<AlgebraSimplifyResult>)
    requires
        forall|i: int| 0 <= i < rs.len() ==> plain_result(#[trigger] rs[i]),
    ensures
        text_lines(results_text(rs, false)) == results_lines(rs, false),
        text_lines(results_text(rs, true)) == results_lines(rs, true),
        drop_step_lines(text_lines(results_text(rs, true))) == text_lines(results_text(rs, false)),
        drop_step_lines(text_lines(results_text(rs, false))) == text_lines(results_text(rs, false)),
{
    lemma_results(rs, true);
    lemma_results(rs, false);
    lemma_join_lines(results_lines(rs, true), Seq::empty());
    lemma_join_lines(results_lines(rs, false), Seq::empty());
    assert(join_lines(results_lines(rs, true)) + Seq::<char>::empty() =~= join_lines(results_lines(rs, true)));
    assert(join_lines(results_lines(rs, false)) + Seq::<char>::empty() =~= join_lines(results_lines(rs, false)));
    assert(text_lines(Seq::<char>::empty()) =~= Seq::<Seq<char>>::empty());
    assert(results_lines(rs, true) + Seq::<Seq<char>>::empty() =~= results_lines(rs, true));
    assert(results_lines(rs, false) + Seq::<Seq<char>>::empty() =~= results_lines(rs, false));
}

} // verus!
