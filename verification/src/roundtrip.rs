//! Writing a calculator expression on one line (as step traces do) and
//! reading the line back gives the same expression.

use vstd::prelude::*;

use crate::ast::{BinaryOperator, ExprView, UnaryOperator};
use crate::lexer::{
    dots, ident_end, is_alpha, is_ident_char, is_number_char, lex, lex_from,
    number_end, prepend, single_token, starts_number,
};
use crate::parser::{
    is_unit_name, parse_arguments, parse_call, parse_power, parse_primary, parse_product,
    parse_sum, parse_tokens, parse_unary, power_rest, product_rest, sum_rest, tok,
};
use crate::program::expression_outcome;
use crate::token::TokenView;
use crate::tracer::{args_text, binary_symbol, expr_text};

verus! {

/// A number as the lexer reads it: digits with at most one point, starting
/// with a digit or with a point and a digit, not ending in a point.
pub open spec fn number_lexeme(v: Seq<char>) -> bool {
    &&& v.len() > 0
    &&& forall|k: int| 0 <= k < v.len() ==> is_number_char(#[trigger] v[k])
    &&& starts_number(v, 0)
    &&& dots(v) <= 1
    &&& v.last() != '.'
}

/// A name as the lexer reads it: a letter, then letters, digits and `_`.
pub open spec fn identifier(n: Seq<char>) -> bool {
    &&& n.len() > 0
    &&& is_alpha(n[0])
    &&& forall|k: int| 0 <= k < n.len() ==> is_ident_char(#[trigger] n[k])
}

/// An expression that reading can produce.
pub open spec fn readable_expr(e: ExprView) -> bool
    decreases e,
{
    match e {
        ExprView::Number(v) => number_lexeme(v),
        ExprView::Quantity { number, unit } => number_lexeme(number) && is_unit_name(unit),
        ExprView::Symbol { name } => identifier(name),
        ExprView::FunctionCall { name, arguments } => identifier(name) && readable_args(arguments),
        ExprView::Unary { expression, .. } => readable_expr(*expression),
        ExprView::Binary { left, right, .. } => readable_expr(*left) && readable_expr(*right),
    }
}

/// Every argument is readable.
pub open spec fn readable_args(args: Seq<ExprView>) -> bool
    decreases args,
{
    if args.len() == 0 {
        true
    } else {
        readable_args(args.drop_last()) && readable_expr(args.last())
    }
}

/// The token a binary operator is read from.
pub open spec fn operator_token(op: BinaryOperator) -> TokenView {
    match op {
        BinaryOperator::Add => TokenView::Plus,
        BinaryOperator::Subtract => TokenView::Minus,
        BinaryOperator::Multiply => TokenView::Star,
        BinaryOperator::Divide => TokenView::Slash,
        BinaryOperator::Power => TokenView::Power,
    }
}

/// The tokens of an expression's one-line form.
pub open spec fn expr_tokens(e: ExprView) -> Seq<TokenView>
    decreases e,
{
    match e {
        ExprView::Number(v) => seq![TokenView::Number(v)],
        ExprView::Quantity { number, unit } => seq![
            TokenView::Number(number),
            TokenView::Identifier(unit),
        ],
        ExprView::Symbol { name } => seq![TokenView::Identifier(name)],
        ExprView::FunctionCall { name, arguments } => seq![
            TokenView::Identifier(name),
            TokenView::LeftParen,
        ] + args_tokens(arguments) + seq![TokenView::RightParen],
        ExprView::Unary { expression, .. } => seq![TokenView::Minus] + expr_tokens(*expression),
        ExprView::Binary { left, operator, right } => seq![TokenView::LeftParen] + expr_tokens(
            *left,
        ) + seq![operator_token(operator)] + expr_tokens(*right) + seq![TokenView::RightParen],
    }
}

/// The tokens of arguments separated by `, `.
pub open spec fn args_tokens(args: Seq<ExprView>) -> Seq<TokenView>
    decreases args,
{
    if args.len() == 0 {
        Seq::empty()
    } else if args.len() == 1 {
        expr_tokens(args[0])
    } else {
        args_tokens(args.drop_last()) + seq![TokenView::Comma] + expr_tokens(args.last())
    }
}

/// Reading may stop after an expression at `k`: the text ends there, or a
/// blank, `)` or `,` follows.
pub open spec fn ends_expr(s: Seq<char>, k: int) -> bool {
    k == s.len() || (0 <= k < s.len() && (s[k] == ' ' || s[k] == ')' || s[k] == ','))
}

/// `p` stands in `s` from `i` on.
pub open spec fn text_at(s: Seq<char>, i: int, p: Seq<char>) -> bool {
    0 <= i && i + p.len() <= s.len() && s.subrange(i, i + p.len()) == p
}

proof fn lemma_text_at_index(s: Seq<char>, i: int, p: Seq<char>, m: int)
    requires
        text_at(s, i, p),
        0 <= m < p.len(),
    ensures
        s[i + m] == p[m],
{
    assert(s.subrange(i, i + p.len())[m] == s[i + m]);
}

proof fn lemma_text_at_part(s: Seq<char>, i: int, p: Seq<char>, start: int, w: Seq<char>)
    requires
        text_at(s, i, p),
        0 <= start,
        start + w.len() <= p.len(),
        p.subrange(start, start + w.len()) == w,
    ensures
        text_at(s, i + start, w),
{
    assert forall|m: int| 0 <= m < w.len() implies s.subrange(i + start, i + start + w.len())[m]
        == w[m] by {
        lemma_text_at_index(s, i, p, start + m);
        assert(p.subrange(start, start + w.len())[m] == p[start + m]);
    }
    assert(s.subrange(i + start, i + start + w.len()) =~= w);
}

proof fn lemma_number_end_at(s: Seq<char>, i: int, k: int)
    requires
        0 <= i <= k <= s.len(),
        forall|m: int| i <= m < k ==> is_number_char(#[trigger] s[m]),
        k < s.len() ==> !is_number_char(s[k]),
    ensures
        number_end(s, i) == k,
    decreases k - i,
{
    if i < k {
        lemma_number_end_at(s, i + 1, k);
    }
}

proof fn lemma_ident_end_at(s: Seq<char>, i: int, k: int)
    requires
        0 <= i <= k <= s.len(),
        forall|m: int| i <= m < k ==> is_ident_char(#[trigger] s[m]),
        k < s.len() ==> !is_ident_char(s[k]),
    ensures
        ident_end(s, i) == k,
    decreases k - i,
{
    if i < k {
        lemma_ident_end_at(s, i + 1, k);
    }
}

proof fn lemma_prepend_assoc(a: Seq<TokenView>, b: Seq<TokenView>, r: Result<Seq<TokenView>, Seq<char>>)
    ensures
        prepend(a, prepend(b, r)) == prepend(a + b, r),
{
    match r {
        Ok(x) => {
            assert(a + (b + x) =~= (a + b) + x);
        },
        Err(_) => {},
    }
}

/// A number lexeme at `i` that ends where a number may end reads as one token.
proof fn lemma_lex_number(s: Seq<char>, i: int, v: Seq<char>)
    requires
        number_lexeme(v),
        text_at(s, i, v),
        i + v.len() == s.len() || !is_number_char(s[i + v.len()]),
    ensures
        lex_from(s, i) == prepend(seq![TokenView::Number(v)], lex_from(s, i + v.len())),
{
    let e = i + v.len();
    assert forall|m: int| i <= m < e implies is_number_char(#[trigger] s[m]) by {
        lemma_text_at_index(s, i, v, m - i);
    }
    lemma_text_at_index(s, i, v, 0);
    if v.len() > 1 {
        lemma_text_at_index(s, i, v, 1);
    }
    lemma_number_end_at(s, i, e);
    assert(starts_number(s, i));
}

/// An identifier at `i` that ends where a name may end reads as one token.
proof fn lemma_lex_identifier(s: Seq<char>, i: int, n: Seq<char>)
    requires
        identifier(n),
        text_at(s, i, n),
        i + n.len() == s.len() || !is_ident_char(s[i + n.len()]),
    ensures
        lex_from(s, i) == prepend(seq![TokenView::Identifier(n)], lex_from(s, i + n.len())),
{
    let e = i + n.len();
    assert forall|m: int| i <= m < e implies is_ident_char(#[trigger] s[m]) by {
        lemma_text_at_index(s, i, n, m - i);
    }
    lemma_text_at_index(s, i, n, 0);
    lemma_ident_end_at(s, i, e);
}

proof fn lemma_unit_identifier(u: Seq<char>)
    requires
        is_unit_name(u),
    ensures
        identifier(u),
{
    reveal_strlit("m");
    reveal_strlit("cm");
    reveal_strlit("km");
    reveal_strlit("s");
    reveal_strlit("kg");
    reveal_strlit("g");
}

/// Where the one-line form of a readable expression stands in `s` at `i`,
/// followed by a place where an expression may end, reading yields the
/// expression's tokens and goes on after it.
proof fn lemma_lex_expr(s: Seq<char>, i: int, e: ExprView)
    requires
        readable_expr(e),
        text_at(s, i, expr_text(e)),
        ends_expr(s, i + expr_text(e).len()),
    ensures
        lex_from(s, i) == prepend(expr_tokens(e), lex_from(s, i + expr_text(e).len())),
    decreases e,
{
    let p = expr_text(e);
    let end = i + p.len();
    reveal_strlit(" ");
    reveal_strlit("(");
    reveal_strlit(")");
    reveal_strlit("-");
    match e {
        ExprView::Number(v) => {
            lemma_lex_number(s, i, v);
        },
        ExprView::Quantity { number, unit } => {
            assert(p == number + " "@ + unit);
            let a = i + (number.len() as int);
            assert(p.subrange(0, (number.len() as int) as int) =~= number);
            assert(p.subrange((number.len() as int) + 1, (number.len() as int) + 1 + (unit.len() as int)) =~= unit);
            lemma_text_at_part(s, i, p, 0, number);
            lemma_text_at_part(s, i, p, (number.len() as int) + 1, unit);
            lemma_text_at_index(s, i, p, (number.len() as int) as int);
            assert(s[a] == ' ');
            lemma_lex_number(s, i, number);
            lemma_unit_identifier(unit);
            lemma_lex_identifier(s, a + 1, unit);
            assert(lex_from(s, a) == lex_from(s, a + 1));
            lemma_prepend_assoc(seq![TokenView::Number(number)], seq![TokenView::Identifier(unit)], lex_from(s, end));
            assert(seq![TokenView::Number(number)] + seq![TokenView::Identifier(unit)] =~= expr_tokens(e));
        },
        ExprView::Symbol { name } => {
            lemma_lex_identifier(s, i, name);
        },
        ExprView::FunctionCall { name, arguments } => {
            let args = args_text(arguments);
            assert(p == name + "("@ + args + ")"@);
            let a = i + (name.len() as int);
            let b = a + 1;
            let c = b + (args.len() as int);
            assert(p.subrange(0, (name.len() as int) as int) =~= name);
            assert(p.subrange((name.len() as int) + 1, (name.len() as int) + 1 + (args.len() as int)) =~= args);
            lemma_text_at_part(s, i, p, 0, name);
            lemma_text_at_part(s, i, p, (name.len() as int) + 1, args);
            lemma_text_at_index(s, i, p, (name.len() as int) as int);
            lemma_text_at_index(s, i, p, (name.len() as int) + 1 + (args.len() as int));
            assert(s[a] == '(');
            assert(s[c] == ')');
            lemma_lex_identifier(s, i, name);
            lemma_lex_args(s, b, arguments);
            let rest = lex_from(s, end);
            assert(lex_from(s, c) == prepend(seq![TokenView::RightParen], rest));
            assert(lex_from(s, a) == prepend(seq![TokenView::LeftParen], lex_from(s, b)));
            lemma_prepend_assoc(args_tokens(arguments), seq![TokenView::RightParen], rest);
            lemma_prepend_assoc(seq![TokenView::LeftParen], args_tokens(arguments) + seq![TokenView::RightParen], rest);
            lemma_prepend_assoc(
                seq![TokenView::Identifier(name)],
                seq![TokenView::LeftParen] + (args_tokens(arguments) + seq![TokenView::RightParen]),
                rest,
            );
            assert(seq![TokenView::Identifier(name)] + (seq![TokenView::LeftParen] + (args_tokens(
                arguments,
            ) + seq![TokenView::RightParen])) =~= expr_tokens(e));
        },
        ExprView::Unary { operator, expression } => {
            match operator {
                UnaryOperator::Negative => {},
            }
            let inner = expr_text(*expression);
            assert(p == "-"@ + inner);
            assert(p.subrange(1, 1 + (inner.len() as int)) =~= inner);
            lemma_text_at_part(s, i, p, 1, inner);
            lemma_text_at_index(s, i, p, 0);
            assert(s[i] == '-');
            lemma_lex_expr(s, i + 1, *expression);
            lemma_prepend_assoc(seq![TokenView::Minus], expr_tokens(*expression), lex_from(s, end));
        },
        ExprView::Binary { left, operator, right } => {
            let l = expr_text(*left);
            let r = expr_text(*right);
            let sym = binary_symbol(operator);
            reveal_strlit("+");
            reveal_strlit("*");
            reveal_strlit("/");
            reveal_strlit("^");
            assert(sym.len() == 1);
            assert(p == "("@ + l + " "@ + sym + " "@ + r + ")"@);
            let a = i + 1;
            let b = a + (l.len() as int);
            let c = b + 3;
            let d = c + (r.len() as int);
            assert(p.subrange(1, 1 + (l.len() as int)) =~= l);
            assert(p.subrange(4 + (l.len() as int), 4 + (l.len() as int) + (r.len() as int)) =~= r);
            lemma_text_at_part(s, i, p, 1, l);
            lemma_text_at_part(s, i, p, 4 + (l.len() as int), r);
            lemma_text_at_index(s, i, p, 0);
            lemma_text_at_index(s, i, p, 1 + (l.len() as int));
            lemma_text_at_index(s, i, p, 2 + (l.len() as int));
            lemma_text_at_index(s, i, p, 3 + (l.len() as int));
            lemma_text_at_index(s, i, p, 4 + (l.len() as int) + (r.len() as int));
            assert(s[i] == '(');
            assert(s[b] == ' ');
            assert(s[b + 1] == sym[0]);
            assert(s[b + 2] == ' ');
            assert(s[d] == ')');
            assert(single_token(s[b + 1]) == Some(operator_token(operator)));
            lemma_lex_expr(s, a, *left);
            lemma_lex_expr(s, c, *right);
            let rest = lex_from(s, end);
            assert(lex_from(s, d) == prepend(seq![TokenView::RightParen], rest));
            assert(lex_from(s, b + 2) == lex_from(s, c));
            assert(lex_from(s, b + 1) == prepend(seq![operator_token(operator)], lex_from(s, b + 2)));
            assert(lex_from(s, b) == lex_from(s, b + 1));
            assert(lex_from(s, i) == prepend(seq![TokenView::LeftParen], lex_from(s, a)));
            lemma_prepend_assoc(expr_tokens(*right), seq![TokenView::RightParen], rest);
            lemma_prepend_assoc(seq![operator_token(operator)], expr_tokens(*right) + seq![TokenView::RightParen], rest);
            lemma_prepend_assoc(
                expr_tokens(*left),
                seq![operator_token(operator)] + (expr_tokens(*right) + seq![TokenView::RightParen]),
                rest,
            );
            lemma_prepend_assoc(
                seq![TokenView::LeftParen],
                expr_tokens(*left) + (seq![operator_token(operator)] + (expr_tokens(*right) + seq![
                    TokenView::RightParen,
                ])),
                rest,
            );
            assert(seq![TokenView::LeftParen] + (expr_tokens(*left) + (seq![operator_token(operator)]
                + (expr_tokens(*right) + seq![TokenView::RightParen]))) =~= expr_tokens(e));
        },
    }
}

/// The same for arguments separated by `, `.
proof fn lemma_lex_args(s: Seq<char>, i: int, args: Seq<ExprView>)
    requires
        readable_args(args),
        text_at(s, i, args_text(args)),
        ends_expr(s, i + args_text(args).len()),
    ensures
        lex_from(s, i) == prepend(args_tokens(args), lex_from(s, i + args_text(args).len())),
    decreases args,
{
    reveal_strlit(", ");
    let p = args_text(args);
    let end = i + p.len();
    if (args.len() as int) == 0 {
        assert(prepend(Seq::empty(), lex_from(s, i)) == lex_from(s, i)) by {
            match lex_from(s, i) {
                Ok(x) => {
                    assert(Seq::<TokenView>::empty() + x =~= x);
                },
                Err(_) => {},
            }
        }
    } else if (args.len() as int) == 1 {
        lemma_lex_expr(s, i, args[0]);
    } else {
        let front = args.drop_last();
        let f = args_text(front);
        let t = expr_text(args.last());
        assert(p == f + ", "@ + t);
        assert(p.subrange(0, (f.len() as int) as int) =~= f);
        assert(p.subrange((f.len() as int) + 2, (f.len() as int) + 2 + (t.len() as int)) =~= t);
        lemma_text_at_part(s, i, p, 0, f);
        lemma_text_at_part(s, i, p, (f.len() as int) + 2, t);
        lemma_text_at_index(s, i, p, (f.len() as int) as int);
        lemma_text_at_index(s, i, p, (f.len() as int) + 1);
        let a = i + (f.len() as int);
        assert(s[a] == ',');
        assert(s[a + 1] == ' ');
        lemma_lex_args(s, i, front);
        lemma_lex_expr(s, a + 2, args.last());
        let rest = lex_from(s, end);
        assert(lex_from(s, a + 1) == lex_from(s, a + 2));
        assert(lex_from(s, a) == prepend(seq![TokenView::Comma], lex_from(s, a + 1)));
        lemma_prepend_assoc(seq![TokenView::Comma], expr_tokens(args.last()), rest);
        lemma_prepend_assoc(args_tokens(front), seq![TokenView::Comma] + expr_tokens(args.last()), rest);
        assert(args_tokens(front) + (seq![TokenView::Comma] + expr_tokens(args.last())) =~= args_tokens(args));
    }
}

/// A token after which an expression may end: an operator, `,`, `)` or the end.
pub open spec fn follows(t: TokenView) -> bool {
    t is Plus || t is Minus || t is Star || t is Slash || t is Power || t is Comma || t is RightParen
        || t is End
}

/// The tokens `u` stand in `ts` from `x` on.
pub open spec fn tokens_at(ts: Seq<TokenView>, x: int, u: Seq<TokenView>) -> bool {
    0 <= x && x + u.len() <= ts.len() && ts.subrange(x, x + u.len()) == u
}

proof fn lemma_tokens_at_index(ts: Seq<TokenView>, x: int, u: Seq<TokenView>, m: int)
    requires
        tokens_at(ts, x, u),
        0 <= m < u.len(),
    ensures
        ts[x + m] == u[m],
        tok(ts, x + m) == u[m],
{
    assert(ts.subrange(x, x + u.len())[m] == ts[x + m]);
}

proof fn lemma_tokens_at_part(ts: Seq<TokenView>, x: int, u: Seq<TokenView>, start: int, w: Seq<TokenView>)
    requires
        tokens_at(ts, x, u),
        0 <= start,
        start + w.len() <= u.len(),
        u.subrange(start, start + w.len()) == w,
    ensures
        tokens_at(ts, x + start, w),
{
    assert forall|m: int| 0 <= m < w.len() implies ts.subrange(x + start, x + start + w.len())[m]
        == w[m] by {
        lemma_tokens_at_index(ts, x, u, start + m);
        assert(u.subrange(start, start + w.len())[m] == u[start + m]);
    }
    assert(ts.subrange(x + start, x + start + w.len()) =~= w);
}

proof fn lemma_readable_args(args: Seq<ExprView>)
    requires
        readable_args(args),
    ensures
        forall|k: int| 0 <= k < args.len() ==> readable_expr(#[trigger] args[k]),
    decreases args.len(),
{
    if args.len() > 0 {
        lemma_readable_args(args.drop_last());
        assert forall|k: int| 0 <= k < args.len() implies readable_expr(#[trigger] args[k]) by {
            if k < args.len() - 1 {
                assert(args.drop_last()[k] == args[k]);
            }
        }
    }
}

/// The tokens of several arguments are those of the first, a comma, and
/// those of the rest.
proof fn lemma_args_tokens_front(args: Seq<ExprView>)
    requires
        args.len() >= 2,
    ensures
        args_tokens(args) == expr_tokens(args[0]) + seq![TokenView::Comma] + args_tokens(args.skip(1)),
    decreases args.len(),
{
    let rest = args.skip(1);
    if args.len() == 2 {
        assert(args.drop_last().len() == 1);
        assert(args.drop_last()[0] == args[0]);
        assert(args_tokens(args.drop_last()) == expr_tokens(args[0]));
        assert(rest.len() == 1);
        assert(rest[0] == args.last());
        assert(args_tokens(rest) == expr_tokens(args.last()));
    } else {
        lemma_args_tokens_front(args.drop_last());
        assert(args.drop_last().skip(1) =~= rest.drop_last());
        assert(rest.last() == args.last());
        assert(args.drop_last()[0] == args[0]);
        assert(args_tokens(rest) == args_tokens(rest.drop_last()) + seq![TokenView::Comma] + expr_tokens(
            rest.last(),
        ));
        assert(args_tokens(args) =~= expr_tokens(args[0]) + seq![TokenView::Comma] + args_tokens(rest));
    }
}

/// A readable expression's tokens at `x`, followed by a token after which an
/// expression may end, read as that expression at the level of a unary minus.
proof fn lemma_unary_expr(ts: Seq<TokenView>, x: int, e: ExprView)
    requires
        readable_expr(e),
        tokens_at(ts, x, expr_tokens(e)),
        follows(tok(ts, x + expr_tokens(e).len())),
    ensures
        parse_unary(ts, x) == Ok::<(ExprView, int), Seq<char>>((e, x + expr_tokens(e).len())),
    decreases e, 1int,
{
    let u = expr_tokens(e);
    let end = x + u.len();
    lemma_tokens_at_index(ts, x, u, 0);
    match e {
        ExprView::Number(v) => {
            assert(parse_primary(ts, x) == Ok::<(ExprView, int), Seq<char>>((e, end)));
        },
        ExprView::Quantity { number, unit } => {
            lemma_tokens_at_index(ts, x, u, 1);
            assert(parse_primary(ts, x) == Ok::<(ExprView, int), Seq<char>>((e, end)));
        },
        ExprView::Symbol { name } => {
            assert(parse_primary(ts, x) == Ok::<(ExprView, int), Seq<char>>((e, end)));
        },
        ExprView::FunctionCall { .. } => {
            lemma_call_expr(ts, x, e);
        },
        ExprView::Unary { operator, expression } => {
            match operator {
                UnaryOperator::Negative => {},
            }
            let inner = expr_tokens(*expression);
            assert(u.subrange(1, 1 + (inner.len() as int)) =~= inner);
            lemma_tokens_at_part(ts, x, u, 1, inner);
            lemma_unary_expr(ts, x + 1, *expression);
        },
        ExprView::Binary { .. } => {
            lemma_binary_expr(ts, x, e);
        },
    }
}

/// A call's tokens at `x` read as the call.
#[verifier::spinoff_prover]
proof fn lemma_call_expr(ts: Seq<TokenView>, x: int, e: ExprView)
    requires
        e is FunctionCall,
        readable_expr(e),
        tokens_at(ts, x, expr_tokens(e)),
        follows(tok(ts, x + expr_tokens(e).len())),
    ensures
        parse_primary(ts, x) == Ok::<(ExprView, int), Seq<char>>((e, x + expr_tokens(e).len())),
    decreases e, 0int,
{
    let u = expr_tokens(e);
    let end = x + u.len();
    lemma_tokens_at_index(ts, x, u, 0);
    let name = e->FunctionCall_name;
    let arguments = e->arguments;
    let a = args_tokens(arguments);
    lemma_tokens_at_index(ts, x, u, 1);
    lemma_tokens_at_index(ts, x, u, 2 + (a.len() as int));
    assert(u == seq![TokenView::Identifier(name), TokenView::LeftParen] + a + seq![
        TokenView::RightParen,
    ]);
    if arguments.len() == 0 {
        assert(a.len() == 0);
        assert(arguments =~= Seq::<ExprView>::empty());
        assert(parse_call(ts, name, x + 1) == Ok::<(ExprView, int), Seq<char>>((e, end)));
    } else {
        assert(u.subrange(2, 2 + (a.len() as int)) =~= a);
        lemma_tokens_at_part(ts, x, u, 2, a);
        lemma_readable_args(arguments);
        lemma_arguments(ts, x + 2, name, Seq::empty(), arguments);
        assert(Seq::<ExprView>::empty() + arguments =~= arguments);
        assert(tok(ts, x + 2) != TokenView::RightParen) by {
            lemma_first_token(arguments[0]);
            lemma_args_first(arguments);
            lemma_tokens_at_index(ts, x + 2, a, 0);
        }
        assert(parse_call(ts, name, x + 1) == Ok::<(ExprView, int), Seq<char>>((e, end)));
    }
}

/// A binary operation's tokens at `x` read as the operation.
#[verifier::spinoff_prover]
proof fn lemma_binary_expr(ts: Seq<TokenView>, x: int, e: ExprView)
    requires
        e is Binary,
        readable_expr(e),
        tokens_at(ts, x, expr_tokens(e)),
        follows(tok(ts, x + expr_tokens(e).len())),
    ensures
        parse_primary(ts, x) == Ok::<(ExprView, int), Seq<char>>((e, x + expr_tokens(e).len())),
    decreases e, 0int,
{
    let u = expr_tokens(e);
    let end = x + u.len();
    lemma_tokens_at_index(ts, x, u, 0);
    let left = e->left;
    let operator = e->Binary_operator;
    let right = e->right;
    let l = expr_tokens(*left);
    let r = expr_tokens(*right);
    let a = x + 1;
    let j = a + l.len();
    let c = j + 1;
    let k = c + r.len();
    assert(u == seq![TokenView::LeftParen] + l + seq![operator_token(operator)] + r + seq![
        TokenView::RightParen,
    ]);
    assert(u.subrange(1, 1 + (l.len() as int)) =~= l);
    assert(u.subrange(2 + (l.len() as int), 2 + (l.len() as int) + (r.len() as int)) =~= r);
    lemma_tokens_at_part(ts, x, u, 1, l);
    lemma_tokens_at_part(ts, x, u, 2 + (l.len() as int), r);
    lemma_tokens_at_index(ts, x, u, 1 + (l.len() as int));
    lemma_tokens_at_index(ts, x, u, 2 + (l.len() as int) + (r.len() as int));
    assert(tok(ts, j) == operator_token(operator));
    assert(tok(ts, k) == TokenView::RightParen);
    lemma_levels(ts, a, *left);
    lemma_levels(ts, c, *right);
    assert(e == ExprView::Binary { left: Box::new(*left), operator, right: Box::new(*right) });
    match operator {
        BinaryOperator::Power => {
            lemma_unary_expr(ts, a, *left);
            lemma_unary_expr(ts, c, *right);
            assert(power_rest(ts, e, k) == Ok::<(ExprView, int), Seq<char>>((e, k)));
            assert(parse_power(ts, a) == Ok::<(ExprView, int), Seq<char>>((e, k)));
            assert(product_rest(ts, e, k) == Ok::<(ExprView, int), Seq<char>>((e, k)));
            assert(parse_product(ts, a) == Ok::<(ExprView, int), Seq<char>>((e, k)));
            assert(sum_rest(ts, e, k) == Ok::<(ExprView, int), Seq<char>>((e, k)));
        },
        BinaryOperator::Multiply | BinaryOperator::Divide => {
            assert(product_rest(ts, e, k) == Ok::<(ExprView, int), Seq<char>>((e, k)));
            assert(parse_product(ts, a) == Ok::<(ExprView, int), Seq<char>>((e, k)));
            assert(sum_rest(ts, e, k) == Ok::<(ExprView, int), Seq<char>>((e, k)));
        },
        BinaryOperator::Add | BinaryOperator::Subtract => {
            assert(sum_rest(ts, e, k) == Ok::<(ExprView, int), Seq<char>>((e, k)));
        },
    }
    assert(parse_sum(ts, a) == Ok::<(ExprView, int), Seq<char>>((e, k)));
}

/// The first token of an expression is never `)`.
proof fn lemma_first_token(e: ExprView)
    ensures
        expr_tokens(e).len() > 0,
        expr_tokens(e)[0] != TokenView::RightParen,
{
}

/// The first token of several arguments is that of the first argument.
proof fn lemma_args_first(args: Seq<ExprView>)
    requires
        args.len() > 0,
    ensures
        args_tokens(args).len() > 0,
        args_tokens(args)[0] == expr_tokens(args[0])[0],
    decreases args.len(),
{
    lemma_first_token(args[0]);
    if args.len() >= 2 {
        lemma_args_tokens_front(args);
    }
}

/// A readable expression's tokens at `x` read as that expression at each
/// level of the grammar that the token after them does not continue.
proof fn lemma_levels(ts: Seq<TokenView>, x: int, e: ExprView)
    requires
        readable_expr(e),
        tokens_at(ts, x, expr_tokens(e)),
        follows(tok(ts, x + expr_tokens(e).len())),
    ensures
        ({
            let end = x + expr_tokens(e).len();
            let t = tok(ts, end);
            &&& !(t is Power) ==> parse_power(ts, x) == Ok::<(ExprView, int), Seq<char>>((e, end))
            &&& !(t is Power || t is Star || t is Slash) ==> parse_product(ts, x) == Ok::<
                (ExprView, int),
                Seq<char>,
            >((e, end))
            &&& !(t is Power || t is Star || t is Slash || t is Plus || t is Minus) ==> parse_sum(
                ts,
                x,
            ) == Ok::<(ExprView, int), Seq<char>>((e, end))
        }),
    decreases e, 2int,
{
    lemma_unary_expr(ts, x, e);
}

/// Arguments whose tokens stand at `j`, followed by `)`, complete the call
/// of `name` whose arguments `done` were read already.
proof fn lemma_arguments(ts: Seq<TokenView>, j: int, name: Seq<char>, done: Seq<ExprView>, rem: Seq<ExprView>)
    requires
        rem.len() > 0,
        forall|k: int| 0 <= k < rem.len() ==> readable_expr(#[trigger] rem[k]),
        tokens_at(ts, j, args_tokens(rem)),
        tok(ts, j + args_tokens(rem).len()) == TokenView::RightParen,
    ensures
        parse_arguments(ts, name, done, j) == Ok::<(ExprView, int), Seq<char>>(
            (
                ExprView::FunctionCall { name, arguments: done + rem },
                j + args_tokens(rem).len() + 1,
            ),
        ),
    decreases rem, 0int,
{
    let a = args_tokens(rem);
    let first = expr_tokens(rem[0]);
    if rem.len() == 1 {
        assert(a == first);
        lemma_levels(ts, j, rem[0]);
        assert(done.push(rem[0]) =~= done + rem);
    } else {
        lemma_args_tokens_front(rem);
        let rest = rem.skip(1);
        let b = args_tokens(rest);
        assert(a.subrange(0, (first.len() as int) as int) =~= first);
        assert(a.subrange((first.len() as int) + 1, (first.len() as int) + 1 + (b.len() as int)) =~= b);
        lemma_tokens_at_part(ts, j, a, 0, first);
        lemma_tokens_at_part(ts, j, a, (first.len() as int) + 1, b);
        lemma_tokens_at_index(ts, j, a, (first.len() as int) as int);
        assert(tok(ts, j + (first.len() as int)) == TokenView::Comma);
        lemma_levels(ts, j, rem[0]);
        assert forall|k: int| 0 <= k < rest.len() implies readable_expr(#[trigger] rest[k]) by {
            assert(rest[k] == rem[k + 1]);
        }
        lemma_arguments(ts, j + (first.len() as int) + 1, name, done.push(rem[0]), rest);
        assert(done.push(rem[0]) + rest =~= done + rem);
    }
}

/// Reading the one-line form of a readable expression gives the expression back.
pub proof fn lemma_expression_read_back(e: ExprView)
    requires
        readable_expr(e),
    ensures
        expression_outcome(expr_text(e)) == Ok::<ExprView, (bool, Seq<char>)>(e),
{
    let s = expr_text(e);
    assert(s.subrange(0, s.len() as int) =~= s);
    lemma_lex_expr(s, 0, e);
    let u = expr_tokens(e);
    let ts = u + seq![TokenView::End];
    assert(lex(s) == Ok::<Seq<TokenView>, Seq<char>>(ts));
    assert(ts.subrange(0, u.len() as int) =~= u);
    assert(tok(ts, u.len() as int) == TokenView::End);
    lemma_levels(ts, 0, e);
    assert(parse_tokens(ts) == Ok::<ExprView, Seq<char>>(e));
}

} // verus!
