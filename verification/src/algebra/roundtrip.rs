//! Writing an algebra expression on one line and reading it back gives the
//! same expression: the one-line form puts every operation in parentheses,
//! so reading it needs no precedence.

use vstd::prelude::*;

use crate::algebra::expression::{op_symbol, plain_text, AlgebraOp, TermView};
use crate::algebra::parser::{
    algebra_lex_from, algebra_outcome, algebra_parse, algebra_power, algebra_primary,
    algebra_product, algebra_product_rest, algebra_single, algebra_sum, algebra_sum_rest,
    algebra_unary, bin, prepend_tokens, valid_decimal, AlgebraParse, AlgebraTokenView,
};
use crate::lexer::{ident_end, is_alpha, is_ident_char, is_number_char, number_end};

verus! {

/// A term that reading can produce: numbers are runs of digits and points
/// that `f64` accepts, and names start with a letter or `_` and go on with
/// letters, digits and `_`.
pub open spec fn readable(t: TermView) -> bool
    decreases t,
{
    match t {
        TermView::Number(v) => v.len() > 0 && valid_decimal(v) && forall|k: int|
            0 <= k < v.len() ==> is_number_char(#[trigger] v[k]),
        TermView::Variable(n) => n.len() > 0 && (is_alpha(n[0]) || n[0] == '_') && forall|k: int|
            0 <= k < n.len() ==> is_ident_char(#[trigger] n[k]),
        TermView::Binary { left, right, .. } => readable(*left) && readable(*right),
    }
}

/// The token an operator is read from.
pub open spec fn op_token(op: AlgebraOp) -> AlgebraTokenView {
    match op {
        AlgebraOp::Add => AlgebraTokenView::Plus,
        AlgebraOp::Subtract => AlgebraTokenView::Minus,
        AlgebraOp::Multiply => AlgebraTokenView::Star,
        AlgebraOp::Divide => AlgebraTokenView::Slash,
        AlgebraOp::Power => AlgebraTokenView::Caret,
    }
}

/// The tokens of a term's one-line form.
pub open spec fn term_tokens(t: TermView) -> Seq<AlgebraTokenView>
    decreases t,
{
    match t {
        TermView::Number(v) => seq![AlgebraTokenView::Number(v)],
        TermView::Variable(n) => seq![AlgebraTokenView::Identifier(n)],
        TermView::Binary { op, left, right } => seq![AlgebraTokenView::LeftParen] + term_tokens(*left)
            + seq![op_token(op)] + term_tokens(*right) + seq![AlgebraTokenView::RightParen],
    }
}

/// Reading may stop after a term at `k`: the text ends there, or a blank or
/// `)` follows.
pub open spec fn ends_term(s: Seq<char>, k: int) -> bool {
    k == s.len() || (0 <= k < s.len() && (s[k] == ' ' || s[k] == ')'))
}

proof fn lemma_number_end_at(s: Seq<char>, i: int, k: int)
    requires
        0 <= i <= k <= s.len(),
        forall|m: int| i <= m < k ==> is_number_char(#[trigger] s[m]),
        k < s.len() ==> !is_number_char(s[k]),
    ensures
        number_end(s, i) == k,
    decreases k - i,
{
    if i < k {
        lemma_number_end_at(s, i + 1, k);
    }
}

proof fn lemma_ident_end_at(s: Seq<char>, i: int, k: int)
    requires
        0 <= i <= k <= s.len(),
        forall|m: int| i <= m < k ==> is_ident_char(#[trigger] s[m]),
        k < s.len() ==> !is_ident_char(s[k]),
    ensures
        ident_end(s, i) == k,
    decreases k - i,
{
    if i < k {
        lemma_ident_end_at(s, i + 1, k);
    }
}

proof fn lemma_prepend_assoc(
    a: Seq<AlgebraTokenView>,
    b: Seq<AlgebraTokenView>,
    r: Result<Seq<AlgebraTokenView>, Seq<char>>,
)
    ensures
        prepend_tokens(a, prepend_tokens(b, r)) == prepend_tokens(a + b, r),
{
    match r {
        Ok(x) => {
            assert(a + (b + x) =~= (a + b) + x);
        },
        Err(_) => {},
    }
}

/// Where the one-line form of `t` stands in `s` at `i`, followed by a place
/// where a term may end, reading yields the term's tokens and goes on after it.
proof fn lemma_lex_term(s: Seq<char>, i: int, t: TermView)
    requires
        readable(t),
        0 <= i,
        i + plain_text(t).len() <= s.len(),
        s.subrange(i, i + plain_text(t).len()) == plain_text(t),
        ends_term(s, i + plain_text(t).len()),
    ensures
        algebra_lex_from(s, i) == prepend_tokens(
            term_tokens(t),
            algebra_lex_from(s, i + plain_text(t).len()),
        ),
    decreases t,
{
    let p = plain_text(t);
    let e = i + p.len();
    assert forall|m: int| 0 <= m < p.len() implies s[i + m] == #[trigger] p[m] by {
        assert(s.subrange(i, e)[m] == s[i + m]);
    }
    match t {
        TermView::Number(v) => {
            assert(s[i] == v[0]);
            assert forall|m: int| i <= m < e implies is_number_char(#[trigger] s[m]) by {
                assert(s[i + (m - i)] == p[m - i]);
            }
            lemma_number_end_at(s, i, e);
            assert(s.subrange(i, e) == v);
        },
        TermView::Variable(n) => {
            assert(s[i] == n[0]);
            assert forall|m: int| i <= m < e implies is_ident_char(#[trigger] s[m]) by {
                assert(s[i + (m - i)] == p[m - i]);
            }
            lemma_ident_end_at(s, i, e);
            assert(s.subrange(i, e) == n);
        },
        TermView::Binary { op, left, right } => {
            let l = plain_text(*left);
            let r = plain_text(*right);
            let sym = op_symbol(op);
            reveal_strlit("(");
            reveal_strlit(")");
            reveal_strlit(" ");
            reveal_strlit("+");
            reveal_strlit("-");
            reveal_strlit("*");
            reveal_strlit("/");
            reveal_strlit("^");
            assert(sym.len() == 1);
            assert(p == "("@ + l + " "@ + sym + " "@ + r + ")"@);
            let a = i + 1;
            let b = a + l.len();
            let c = b + 3;
            let d = c + r.len();
            assert(p.len() == 1 + l.len() + 3 + r.len() + 1);
            assert(s[i] == '(') by {
                assert(p[0] == '(');
                assert(s[i + 0] == p[0]);
            }
            assert(s.subrange(a, b) =~= l) by {
                assert forall|m: int| 0 <= m < l.len() implies s.subrange(a, b)[m] == l[m] by {
                    assert(p[1 + m] == l[m]);
                }
            }
            assert(s[b] == ' ') by {
                assert(p[1 + l.len() as int] == ' ');
            }
            assert(s[b + 1] == sym[0]) by {
                assert(p[2 + l.len() as int] == sym[0]);
            }
            assert(s[b + 2] == ' ') by {
                assert(p[3 + l.len() as int] == ' ');
            }
            assert(s.subrange(c, d) =~= r) by {
                assert forall|m: int| 0 <= m < r.len() implies s.subrange(c, d)[m] == r[m] by {
                    assert(p[4 + l.len() as int + m] == r[m]);
                }
            }
            assert(s[d] == ')') by {
                assert(p[4 + l.len() + r.len() as int] == ')');
            }
            assert(algebra_single(s[b + 1]) == Some(op_token(op)));
            lemma_lex_term(s, a, *left);
            lemma_lex_term(s, c, *right);
            let rest = algebra_lex_from(s, e);
            assert(algebra_lex_from(s, d) == prepend_tokens(seq![AlgebraTokenView::RightParen], rest));
            let after_right = prepend_tokens(term_tokens(*right), algebra_lex_from(s, d));
            assert(algebra_lex_from(s, b + 2) == algebra_lex_from(s, c));
            assert(algebra_lex_from(s, b + 1) == prepend_tokens(seq![op_token(op)], algebra_lex_from(s, c)));
            assert(algebra_lex_from(s, b) == algebra_lex_from(s, b + 1));
            assert(algebra_lex_from(s, i) == prepend_tokens(seq![AlgebraTokenView::LeftParen], algebra_lex_from(s, a)));
            lemma_prepend_assoc(term_tokens(*right), seq![AlgebraTokenView::RightParen], rest);
            lemma_prepend_assoc(seq![op_token(op)], term_tokens(*right) + seq![AlgebraTokenView::RightParen], rest);
            lemma_prepend_assoc(
                term_tokens(*left),
                seq![op_token(op)] + (term_tokens(*right) + seq![AlgebraTokenView::RightParen]),
                rest,
            );
            lemma_prepend_assoc(
                seq![AlgebraTokenView::LeftParen],
                term_tokens(*left) + (seq![op_token(op)] + (term_tokens(*right) + seq![
                    AlgebraTokenView::RightParen,
                ])),
                rest,
            );
            assert(seq![AlgebraTokenView::LeftParen] + (term_tokens(*left) + (seq![op_token(op)] + (
            term_tokens(*right) + seq![AlgebraTokenView::RightParen]))) =~= term_tokens(t));
        },
    }
}

/// The tokens `u` stand in `ts` from `x` on.
pub open spec fn tokens_at(ts: Seq<AlgebraTokenView>, x: int, u: Seq<AlgebraTokenView>) -> bool {
    0 <= x && x + u.len() <= ts.len() && ts.subrange(x, x + u.len()) == u
}

proof fn lemma_tokens_at_index(ts: Seq<AlgebraTokenView>, x: int, u: Seq<AlgebraTokenView>, m: int)
    requires
        tokens_at(ts, x, u),
        0 <= m < u.len(),
    ensures
        ts[x + m] == u[m],
{
    assert(ts.subrange(x, x + u.len())[m] == ts[x + m]);
}

proof fn lemma_tokens_at_part(
    ts: Seq<AlgebraTokenView>,
    x: int,
    u: Seq<AlgebraTokenView>,
    start: int,
    w: Seq<AlgebraTokenView>,
)
    requires
        tokens_at(ts, x, u),
        0 <= start,
        start + w.len() <= u.len(),
        u.subrange(start, start + w.len()) == w,
    ensures
        tokens_at(ts, x + start, w),
{
    assert forall|m: int| 0 <= m < w.len() implies ts.subrange(x + start, x + start + w.len())[m]
        == w[m] by {
        lemma_tokens_at_index(ts, x, u, start + m);
        assert(u.subrange(start, start + w.len())[m] == u[start + m]);
    }
    assert(ts.subrange(x + start, x + start + w.len()) =~= w);
}

/// A readable term's tokens at `x` read as that term, up to the token after them.
proof fn lemma_primary_term(ts: Seq<AlgebraTokenView>, x: int, t: TermView)
    requires
        readable(t),
        tokens_at(ts, x, term_tokens(t)),
    ensures
        algebra_primary(ts, x) == AlgebraParse::Parsed(t, x + term_tokens(t).len()),
        algebra_unary(ts, x) == AlgebraParse::Parsed(t, x + term_tokens(t).len()),
    decreases t, 1int,
{
    let u = term_tokens(t);
    lemma_tokens_at_index(ts, x, u, 0);
    match t {
        TermView::Number(v) => {},
        TermView::Variable(n) => {},
        TermView::Binary { op, left, right } => {
            let l = term_tokens(*left);
            let r = term_tokens(*right);
            let a = x + 1;
            let j = a + l.len();
            let c = j + 1;
            let k = c + r.len();
            assert(u == seq![AlgebraTokenView::LeftParen] + l + seq![op_token(op)] + r + seq![
                AlgebraTokenView::RightParen,
            ]);
            assert(u.subrange(1, 1 + l.len() as int) =~= l);
            assert(u.subrange(2 + l.len() as int, 2 + l.len() + r.len() as int) =~= r);
            lemma_tokens_at_part(ts, x, u, 1, l);
            lemma_tokens_at_part(ts, x, u, 2 + l.len() as int, r);
            lemma_tokens_at_index(ts, x, u, 1 + l.len() as int);
            lemma_tokens_at_index(ts, x, u, 2 + l.len() + r.len() as int);
            assert(ts[j] == op_token(op));
            assert(ts[k] == AlgebraTokenView::RightParen);
            lemma_levels(ts, a, *left);
            lemma_levels(ts, c, *right);
            assert(bin(op, *left, *right) == t);
            match op {
                AlgebraOp::Power => {
                    lemma_primary_term(ts, a, *left);
                    assert(algebra_power(ts, a) == AlgebraParse::Parsed(t, k));
                    assert(algebra_product(ts, a) == AlgebraParse::Parsed(t, k));
                    assert(algebra_sum(ts, a) == AlgebraParse::Parsed(t, k));
                },
                AlgebraOp::Multiply | AlgebraOp::Divide => {
                    assert(algebra_product_rest(ts, t, k) == AlgebraParse::Parsed(t, k));
                    assert(algebra_product(ts, a) == AlgebraParse::Parsed(t, k));
                    assert(algebra_sum(ts, a) == AlgebraParse::Parsed(t, k));
                },
                AlgebraOp::Add | AlgebraOp::Subtract => {
                    assert(algebra_sum_rest(ts, t, k) == AlgebraParse::Parsed(t, k));
                    assert(algebra_sum(ts, a) == AlgebraParse::Parsed(t, k));
                },
            }
        },
    }
}

/// A readable term's tokens at `x` read as that term at each level of the
/// grammar that the token after them does not continue.
proof fn lemma_levels(ts: Seq<AlgebraTokenView>, x: int, t: TermView)
    requires
        readable(t),
        tokens_at(ts, x, term_tokens(t)),
    ensures
        ({
            let e = x + term_tokens(t).len();
            &&& (e == ts.len() || !(ts[e] is Caret)) ==> algebra_power(ts, x)
                == AlgebraParse::Parsed(t, e)
            &&& (e == ts.len() || !(ts[e] is Caret || ts[e] is Star || ts[e] is Slash))
                ==> algebra_product(ts, x) == AlgebraParse::Parsed(t, e)
            &&& (e == ts.len() || !(ts[e] is Caret || ts[e] is Star || ts[e] is Slash
                || ts[e] is Plus || ts[e] is Minus)) ==> algebra_sum(ts, x) == AlgebraParse::Parsed(
                t,
                e,
            )
        }),
    decreases t, 2int,
{
    lemma_primary_term(ts, x, t);
}

/// Reading the one-line form of a readable term gives the term back.
pub proof fn lemma_read_back(t: TermView)
    requires
        readable(t),
    ensures
        algebra_outcome(plain_text(t)) == Some(Ok::<TermView, Seq<char>>(t)),
{
    let s = plain_text(t);
    assert(s.subrange(0, s.len() as int) =~= s);
    lemma_lex_term(s, 0, t);
    let ts = term_tokens(t);
    assert(prepend_tokens(ts, Ok::<Seq<AlgebraTokenView>, Seq<char>>(Seq::empty())) == Ok::<
        Seq<AlgebraTokenView>,
        Seq<char>,
    >(ts)) by {
        assert(ts + Seq::<AlgebraTokenView>::empty() =~= ts);
    }
    assert(ts.subrange(0, ts.len() as int) =~= ts);
    lemma_levels(ts, 0, t);
    assert(algebra_parse(ts) == Some(Ok::<TermView, Seq<char>>(t)));
}

} // verus!
