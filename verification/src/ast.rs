//! The syntax tree of calculator expressions.

use vstd::prelude::*;

verus! {

#[derive(Debug, Clone, Copy, PartialEq, Eq, Structural)]
pub enum BinaryOperator {
    Add,
    Subtract,
    Multiply,
    Divide,
    Power,
}

#[derive(Debug, Clone, Copy, PartialEq, Eq, Structural)]
pub enum UnaryOperator {
    Negative,
}

/// An expression. Numbers, also those of quantities, are kept as text.
#[derive(Debug)]
pub enum Expr {
    Number(String),
    Quantity { number: String, unit: String },
    Symbol { name: String },
    FunctionCall { name: String, arguments: Vec<Expr> },
    Binary { left: Box<Expr>, operator: BinaryOperator, right: Box<Expr> },
    Unary { operator: UnaryOperator, expression: Box<Expr> },
}

/// An expression with its texts as character sequences.
pub enum ExprView {
    Number(Seq<char>),
    Quantity { number: Seq<char>, unit: Seq<char> },
    Symbol { name: Seq<char> },
    FunctionCall { name: Seq<char>, arguments: Seq<ExprView> },
    Binary { left: Box<ExprView>, operator: BinaryOperator, right: Box<ExprView> },
    Unary { operator: UnaryOperator, expression: Box<ExprView> },
}

/// The views of a sequence of expressions.
pub open spec fn expr_views(args: Seq<Expr>) -> Seq<ExprView>
    decreases args,
{
    if args.len() == 0 {
        Seq::empty()
    } else {
        expr_views(args.drop_last()).push(args.last().view_expr())
    }
}

impl Expr {
    /// The expression with its texts as character sequences.
    pub open spec fn view_expr(&self) -> ExprView
        decreases self,
    {
        match self {
            Expr::Number(t) => ExprView::Number(t@),
            Expr::Quantity { number, unit } => ExprView::Quantity { number: number@, unit: unit@ },
            Expr::Symbol { name } => ExprView::Symbol { name: name@ },
            Expr::FunctionCall { name, arguments } => ExprView::FunctionCall {
                name: name@,
                arguments: expr_views(arguments@),
            },
            Expr::Binary { left, operator, right } => ExprView::Binary {
                left: Box::new(left.view_expr()),
                operator: *operator,
                right: Box::new(right.view_expr()),
            },
            Expr::Unary { operator, expression } => ExprView::Unary {
                operator: *operator,
                expression: Box::new(expression.view_expr()),
            },
        }
    }
}

impl View for Expr {
    type V = ExprView;

    open spec fn view(&self) -> ExprView {
        self.view_expr()
    }
}

} // verus!
