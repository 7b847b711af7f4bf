//! The one-line form of calculator expressions that step traces are
//! written in.

use vstd::prelude::*;

use crate::ast::{expr_views, BinaryOperator, Expr, ExprView, UnaryOperator};
use crate::text::{append_str, push_char, string_from};

verus! {

/// The sign a binary operator is written with.
pub open spec fn binary_symbol(op: BinaryOperator) -> Seq<char> {
    match op {
        BinaryOperator::Add => "+"@,
        BinaryOperator::Subtract => "-"@,
        BinaryOperator::Multiply => "*"@,
        BinaryOperator::Divide => "/"@,
        BinaryOperator::Power => "^"@,
    }
}

/// An expression on one line: numbers and names as they are, a quantity as
/// its number and unit, a call with its arguments separated by `, `, a
/// negation with a leading `-`, and every binary operation in parentheses.
pub open spec fn expr_text(e: ExprView) -> Seq<char>
    decreases e,
{
    match e {
        ExprView::Number(v) => v,
        ExprView::Quantity { number, unit } => number + " "@ + unit,
        ExprView::Symbol { name } => name,
        ExprView::FunctionCall { name, arguments } => name + "("@ + args_text(arguments) + ")"@,
        ExprView::Unary { operator, expression } => match operator {
            UnaryOperator::Negative => "-"@ + expr_text(*expression),
        },
        ExprView::Binary { left, operator, right } => "("@ + expr_text(*left) + " "@ + binary_symbol(
            operator,
        ) + " "@ + expr_text(*right) + ")"@,
    }
}

/// Arguments separated by `, `.
pub open spec fn args_text(args: Seq<ExprView>) -> Seq<char>
    decreases args,
{
    if args.len() == 0 {
        Seq::empty()
    } else if args.len() == 1 {
        expr_text(args[0])
    } else {
        args_text(args.drop_last()) + ", "@ + expr_text(args.last())
    }
}

proof fn lemma_expr_views_index(args: Seq<Expr>)
    ensures
        expr_views(args).len() == args.len(),
        forall|i: int| 0 <= i < args.len() ==> (#[trigger] expr_views(args)[i]) == args[i]@,
    decreases args.len(),
{
    if args.len() > 0 {
        lemma_expr_views_index(args.drop_last());
    }
}

fn binary_sign(op: BinaryOperator) -> (s: &'static str)
    ensures
        s@ == binary_symbol(op),
{
    match op {
        BinaryOperator::Add => "+",
        BinaryOperator::Subtract => "-",
        BinaryOperator::Multiply => "*",
        BinaryOperator::Divide => "/",
        BinaryOperator::Power => "^",
    }
}

/// Writes an expression as [`expr_text`] describes.
pub fn expr_to_string(expr: &Expr) -> (s: String)
    ensures
        s@ == expr_text(expr@),
    decreases expr,
{
    match expr {
        Expr::Number(v) => string_from(v.as_str()),
        Expr::Quantity { number, unit } => {
            let mut s = string_from(number.as_str());
            push_char(&mut s, ' ');
            append_str(&mut s, unit.as_str());
            proof {
                reveal_strlit(" ");
            }
            s
        },
        Expr::Symbol { name } => string_from(name.as_str()),
        Expr::FunctionCall { name, arguments } => {
            let ghost args = expr_views(arguments@);
            proof {
                lemma_expr_views_index(arguments@);
            }
            let mut s = string_from(name.as_str());
            append_str(&mut s, "(");
            let mut i: usize = 0;
            assert(args.take(0) =~= Seq::<ExprView>::empty());
            while i < arguments.len()
                invariant
                    i <= arguments@.len(),
                    *expr matches Expr::FunctionCall { arguments: a, .. } && a == *arguments,
                    args == expr_views(arguments@),
                    args.len() == arguments@.len(),
                    forall|k: int| 0 <= k < arguments@.len() ==> (#[trigger] args[k]) == arguments@[k]@,
                    s@ == name@ + "("@ + args_text(args.take(i as int)),
                decreases arguments@.len() - i,
            {
                proof {
                    assert(decreases_to!(*arguments => arguments@));
                    assert(decreases_to!(arguments@ => arguments@[i as int]));
                    assert(decreases_to!(*expr => (*expr)->arguments));
                }
                let a = expr_to_string(&arguments[i]);
                if i > 0 {
                    append_str(&mut s, ", ");
                }
                append_str(&mut s, a.as_str());
                proof {
                    let t = args.take(i + 1);
                    assert(t.drop_last() =~= args.take(i as int));
                    assert(t.last() == arguments@[i as int]@);
                    if i == 0 {
                        assert(args.take(0) =~= Seq::<ExprView>::empty());
                    }
                    assert(s@ =~= name@ + "("@ + args_text(t));
                }
                i = i + 1;
            }
            append_str(&mut s, ")");
            assert(args.take(arguments@.len() as int) =~= args);
            s
        },
        Expr::Unary { operator, expression } => match operator {
            UnaryOperator::Negative => {
                let mut s = string_from("-");
                let inner = expr_to_string(expression);
                append_str(&mut s, inner.as_str());
                s
            },
        },
        Expr::Binary { left, operator, right } => {
            let mut s = string_from("(");
            let l = expr_to_string(left);
            append_str(&mut s, l.as_str());
            push_char(&mut s, ' ');
            append_str(&mut s, binary_sign(*operator));
            push_char(&mut s, ' ');
            let r = expr_to_string(right);
            append_str(&mut s, r.as_str());
            append_str(&mut s, ")");
            proof {
                reveal_strlit(" ");
                assert(s@ =~= expr_text(expr@));
            }
            s
        },
    }
}

} // verus!
