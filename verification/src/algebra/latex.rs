//! LaTeX for algebra expressions: sums and products are parenthesised only
//! where the surrounding operator binds tighter, a number next to a name
//! is written before it without a sign, quotients are fractions, and
//! Greek letter names become their symbols.

use vstd::prelude::*;

use crate::algebra::expression::{AlgebraOp, AlgebraTerm, TermView};
use crate::text::{append_str, chars_of, push_char, str_eq, string_from};

verus! {

/// How tightly an operator binds: sums and differences 1, products and
/// quotients 2, powers 3.
pub open spec fn precedence_of(op: AlgebraOp) -> u8 {
    match op {
        AlgebraOp::Add | AlgebraOp::Subtract => 1,
        AlgebraOp::Multiply | AlgebraOp::Divide => 2,
        AlgebraOp::Power => 3,
    }
}

/// Executable [`precedence_of`].
pub fn precedence(op: AlgebraOp) -> (p: u8)
    ensures
        p == precedence_of(op),
{
    match op {
        AlgebraOp::Add | AlgebraOp::Subtract => 1,
        AlgebraOp::Multiply | AlgebraOp::Divide => 2,
        AlgebraOp::Power => 3,
    }
}

/// The LaTeX command for a Greek letter's name.
pub open spec fn greek_symbol(name: Seq<char>) -> Option<Seq<char>> {
    if name == "alpha"@ {
        Some("\\alpha"@)
    } else if name == "beta"@ {
        Some("\\beta"@)
    } else if name == "gamma"@ {
        Some("\\gamma"@)
    } else if name == "delta"@ {
        Some("\\delta"@)
    } else if name == "theta"@ {
        Some("\\theta"@)
    } else if name == "lambda"@ {
        Some("\\lambda"@)
    } else if name == "mu"@ {
        Some("\\mu"@)
    } else if name == "pi"@ {
        Some("\\pi"@)
    } else if name == "sigma"@ {
        Some("\\sigma"@)
    } else if name == "omega"@ {
        Some("\\omega"@)
    } else {
        None
    }
}

/// `name` with each underscore escaped as `\_`.
pub open spec fn escape_underscores(name: Seq<char>) -> Seq<char>
    decreases name.len(),
{
    if name.len() == 0 {
        Seq::empty()
    } else {
        escape_underscores(name.drop_last()) + if name.last() == '_' {
            "\\_"@
        } else {
            seq![name.last()]
        }
    }
}

/// How a variable's name is written in LaTeX.
pub open spec fn latex_name(name: Seq<char>) -> Seq<char> {
    match greek_symbol(name) {
        Some(g) => g,
        None => escape_underscores(name),
    }
}

/// A sum or a difference.
pub open spec fn is_sum_like(t: TermView) -> bool {
    match t {
        TermView::Binary { op, .. } => op == AlgebraOp::Add || op == AlgebraOp::Subtract,
        _ => false,
    }
}

/// `body` in LaTeX's stretching parentheses.
pub open spec fn grouped(body: Seq<char>) -> Seq<char> {
    "\\left("@ + body + "\\right)"@
}

/// The LaTeX of `t` below an operator that binds with strength `parent`.
pub open spec fn latex_of(t: TermView, parent: u8) -> Seq<char>
    decreases t,
{
    match t {
        TermView::Number(v) => v,
        TermView::Variable(n) => latex_name(n),
        TermView::Binary { op, left, right } => {
            let p = precedence_of(op);
            let body = match op {
                AlgebraOp::Add => latex_of(*left, p) + " + "@ + latex_of(*right, p),
                AlgebraOp::Subtract => latex_of(*left, p) + " - "@ + latex_of(*right, (p + 1) as u8),
                AlgebraOp::Multiply => if (*left is Number) && (*right is Variable) {
                    latex_of(*left, p) + latex_of(*right, p)
                } else if (*left is Variable) && (*right is Number) {
                    latex_of(*right, p) + latex_of(*left, p)
                } else if (*left is Number) && is_sum_like(*right) {
                    latex_of(*left, p) + grouped(latex_of(*right, 0))
                } else if is_sum_like(*left) && (*right is Number) {
                    latex_of(*right, p) + grouped(latex_of(*left, 0))
                } else {
                    latex_of(*left, p) + " \\cdot "@ + latex_of(*right, p)
                },
                AlgebraOp::Divide => "\\frac{"@ + latex_of(*left, 0) + "}{"@ + latex_of(*right, 0)
                    + "}"@,
                AlgebraOp::Power => (if *left is Binary {
                    grouped(latex_of(*left, 0))
                } else {
                    latex_of(*left, 0)
                }) + "^{"@ + latex_of(*right, 0) + "}"@,
            };
            if p < parent {
                grouped(body)
            } else {
                body
            }
        },
    }
}

/// The LaTeX of a whole expression.
pub open spec fn latex(t: TermView) -> Seq<char> {
    latex_of(t, 0)
}

/// Writes a variable's name for LaTeX: Greek letter names as their
/// commands, other names with their underscores escaped.
pub fn escape_latex_identifier(name: &str) -> (s: String)
    ensures
        s@ == latex_name(name@),
{
    if str_eq(name, "alpha") {
        string_from("\\alpha")
    } else if str_eq(name, "beta") {
        string_from("\\beta")
    } else if str_eq(name, "gamma") {
        string_from("\\gamma")
    } else if str_eq(name, "delta") {
        string_from("\\delta")
    } else if str_eq(name, "theta") {
        string_from("\\theta")
    } else if str_eq(name, "lambda") {
        string_from("\\lambda")
    } else if str_eq(name, "mu") {
        string_from("\\mu")
    } else if str_eq(name, "pi") {
        string_from("\\pi")
    } else if str_eq(name, "sigma") {
        string_from("\\sigma")
    } else if str_eq(name, "omega") {
        string_from("\\omega")
    } else {
        let v = chars_of(name);
        let mut s = String::new();
        let mut i: usize = 0;
        while i < v.len()
            invariant
                i <= v@.len(),
                s@ == escape_underscores(v@.take(i as int)),
            decreases v@.len() - i,
        {
            if v[i] == '_' {
                append_str(&mut s, "\\_");
            } else {
                push_char(&mut s, v[i]);
            }
            proof {
                assert(v@.take(i + 1).drop_last() =~= v@.take(i as int));
                assert(s@ =~= escape_underscores(v@.take(i + 1)));
            }
            i = i + 1;
        }
        assert(v@.take(v@.len() as int) =~= v@);
        s
    }
}

fn grouped_text(body: &str) -> (s: String)
    ensures
        s@ == grouped(body@),
{
    let mut s = string_from("\\left(");
    append_str(&mut s, body);
    append_str(&mut s, "\\right)");
    s
}

fn is_sum_term(t: &AlgebraTerm) -> (r: bool)
    ensures
        r == is_sum_like(t@),
{
    match t {
        AlgebraTerm::Binary { op, .. } => match op {
            AlgebraOp::Add | AlgebraOp::Subtract => true,
            _ => false,
        },
        _ => false,
    }
}

fn render_expr(t: &AlgebraTerm, parent: u8) -> (s: String)
    ensures
        s@ == latex_of(t@, parent),
    decreases t,
{
    match t {
        AlgebraTerm::Number(v) => string_from(v.as_str()),
        AlgebraTerm::Variable(n) => escape_latex_identifier(n.as_str()),
        AlgebraTerm::Binary { op, left, right } => {
            let p = precedence(*op);
            let body = match op {
                AlgebraOp::Add => {
                    let mut s = render_expr(left, p);
                    append_str(&mut s, " + ");
                    let r = render_expr(right, p);
                    append_str(&mut s, r.as_str());
                    s
                },
                AlgebraOp::Subtract => {
                    let mut s = render_expr(left, p);
                    append_str(&mut s, " - ");
                    let r = render_expr(right, p + 1);
                    append_str(&mut s, r.as_str());
                    s
                },
                AlgebraOp::Multiply => {
                    let left_number = matches!(**left, AlgebraTerm::Number(_));
                    let left_variable = matches!(**left, AlgebraTerm::Variable(_));
                    let right_number = matches!(**right, AlgebraTerm::Number(_));
                    let right_variable = matches!(**right, AlgebraTerm::Variable(_));
                    if left_number && right_variable {
                        let mut s = render_expr(left, p);
                        let r = render_expr(right, p);
                        append_str(&mut s, r.as_str());
                        s
                    } else if left_variable && right_number {
                        let mut s = render_expr(right, p);
                        let l = render_expr(left, p);
                        append_str(&mut s, l.as_str());
                        s
                    } else if left_number && is_sum_term(right) {
                        let mut s = render_expr(left, p);
                        let r = render_expr(right, 0);
                        let g = grouped_text(r.as_str());
                        append_str(&mut s, g.as_str());
                        s
                    } else if is_sum_term(left) && right_number {
                        let mut s = render_expr(right, p);
                        let l = render_expr(left, 0);
                        let g = grouped_text(l.as_str());
                        append_str(&mut s, g.as_str());
                        s
                    } else {
                        let mut s = render_expr(left, p);
                        append_str(&mut s, " \\cdot ");
                        let r = render_expr(right, p);
                        append_str(&mut s, r.as_str());
                        s
                    }
                },
                AlgebraOp::Divide => {
                    let mut s = string_from("\\frac{");
                    let l = render_expr(left, 0);
                    append_str(&mut s, l.as_str());
                    append_str(&mut s, "}{");
                    let r = render_expr(right, 0);
                    append_str(&mut s, r.as_str());
                    append_str(&mut s, "}");
                    s
                },
                AlgebraOp::Power => {
                    let mut s = if matches!(**left, AlgebraTerm::Binary { .. }) {
                        let inner = render_expr(left, 0);
                        grouped_text(inner.as_str())
                    } else {
                        render_expr(left, 0)
                    };
                    append_str(&mut s, "^{");
                    let r = render_expr(right, 0);
                    append_str(&mut s, r.as_str());
                    append_str(&mut s, "}");
                    s
                },
            };
            if p < parent {
                grouped_text(body.as_str())
            } else {
                body
            }
        },
    }
}

/// The LaTeX of a whole expression, as [`latex`] describes.
pub fn to_latex(term: &AlgebraTerm) -> (s: String)
    ensures
        s@ == latex(term@),
{
    render_expr(term, 0)
}

/// A difference keeps the parentheses its meaning needs: when the right
/// operand of `l - r` is itself a sum or a difference, it is written whole
/// inside `\left(` and `\right)`, so `a - (b + c)` never reads as
/// `a - b + c`.
pub proof fn lemma_difference_groups_its_right_sum(l: TermView, r: TermView)
    requires
        is_sum_like(r),
    ensures
        latex(TermView::Binary { op: AlgebraOp::Subtract, left: Box::new(l), right: Box::new(r) })
            == latex_of(l, 1) + " - "@ + "\\left("@ + latex(r) + "\\right)"@,
{
    let t = TermView::Binary { op: AlgebraOp::Subtract, left: Box::new(l), right: Box::new(r) };
    assert(latex_of(r, 2) == grouped(latex_of(r, 0)));
    assert(latex(t) == latex_of(l, 1) + " - "@ + latex_of(r, 2));
}

/// Below a parent operator, a term is written as it is written alone, and
/// in parentheses exactly when it is an operation that binds less tightly
/// than the parent.
pub proof fn lemma_latex_below(t: TermView, parent: u8)
    ensures
        latex_of(t, parent) == (match t {
            TermView::Binary { op, .. } => if precedence_of(op) < parent {
                "\\left("@ + latex(t) + "\\right)"@
            } else {
                latex(t)
            },
            _ => latex(t),
        }),
{
}

/// The form of `l o r` in LaTeX, for each operator `o`:
/// - a sum is `l + r`, each written as alone;
/// - a difference is `l - r`, with `r` in parentheses when it is a sum or
///   a difference;
/// - a quotient is `\frac{l}{r}`;
/// - a power is `l^{r}`, with `l` in parentheses when it is an operation;
/// - a product of two operations is `l \cdot r`, each in parentheses when it
///   is a sum or a difference.
pub proof fn lemma_latex_of_operations(l: TermView, r: TermView)
    ensures
        latex(TermView::Binary { op: AlgebraOp::Add, left: Box::new(l), right: Box::new(r) })
            == latex(l) + " + "@ + latex(r),
        latex(TermView::Binary { op: AlgebraOp::Subtract, left: Box::new(l), right: Box::new(r) })
            == latex(l) + " - "@ + (if is_sum_like(r) {
            "\\left("@ + latex(r) + "\\right)"@
        } else {
            latex(r)
        }),
        latex(TermView::Binary { op: AlgebraOp::Divide, left: Box::new(l), right: Box::new(r) })
            == "\\frac{"@ + latex(l) + "}{"@ + latex(r) + "}"@,
        latex(TermView::Binary { op: AlgebraOp::Power, left: Box::new(l), right: Box::new(r) })
            == (if l is Binary {
            "\\left("@ + latex(l) + "\\right)"@
        } else {
            latex(l)
        }) + "^{"@ + latex(r) + "}"@,
        (l is Binary && r is Binary) ==> latex(
            TermView::Binary { op: AlgebraOp::Multiply, left: Box::new(l), right: Box::new(r) },
        ) == (if is_sum_like(l) {
            "\\left("@ + latex(l) + "\\right)"@
        } else {
            latex(l)
        }) + " \\cdot "@ + (if is_sum_like(r) {
            "\\left("@ + latex(r) + "\\right)"@
        } else {
            latex(r)
        }),
{
    lemma_latex_below(l, 1);
    lemma_latex_below(r, 1);
    lemma_latex_below(r, 2);
    lemma_latex_below(l, 2);
}

/// A number next to a name or to a sum is written first and without a
/// sign: `2 * x` and `x * 2` are both `2x`, and `2 * (x + 1)` and
/// `(x + 1) * 2` are both `2\left(x + 1\right)`.
pub proof fn lemma_latex_coefficients(v: Seq<char>, n: Seq<char>, s: TermView)
    requires
        is_sum_like(s),
    ensures
        latex(TermView::Binary {
            op: AlgebraOp::Multiply,
            left: Box::new(TermView::Number(v)),
            right: Box::new(TermView::Variable(n)),
        }) == v + latex_name(n),
        latex(TermView::Binary {
            op: AlgebraOp::Multiply,
            left: Box::new(TermView::Variable(n)),
            right: Box::new(TermView::Number(v)),
        }) == v + latex_name(n),
        latex(TermView::Binary {
            op: AlgebraOp::Multiply,
            left: Box::new(TermView::Number(v)),
            right: Box::new(s),
        }) == v + "\\left("@ + latex(s) + "\\right)"@,
        latex(TermView::Binary {
            op: AlgebraOp::Multiply,
            left: Box::new(s),
            right: Box::new(TermView::Number(v)),
        }) == v + "\\left("@ + latex(s) + "\\right)"@,
{
    assert(latex_of(TermView::Variable(n), 2) == latex_name(n));
    assert(latex_of(TermView::Number(v), 2) == v);
}

} // verus!
