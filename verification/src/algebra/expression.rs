//! Algebra expressions as trees. Numbers are kept as the text they are
//! written with, so that the tree can be read, rendered and compared without
//! computing with them.

use vstd::prelude::*;

use crate::text::{append_str, push_char, string_from};

verus! {

#[derive(Debug, Clone, Copy, PartialEq, Eq, Structural)]
pub enum AlgebraOp {
    Add,
    Subtract,
    Multiply,
    Divide,
    Power,
}

/// The sign an operator is written with.
pub open spec fn op_symbol(op: AlgebraOp) -> Seq<char> {
    match op {
        AlgebraOp::Add => "+"@,
        AlgebraOp::Subtract => "-"@,
        AlgebraOp::Multiply => "*"@,
        AlgebraOp::Divide => "/"@,
        AlgebraOp::Power => "^"@,
    }
}

impl AlgebraOp {
    /// The sign the operator is written with.
    pub fn symbol(&self) -> (s: &'static str)
        ensures
            s@ == op_symbol(*self),
    {
        match self {
            AlgebraOp::Add => "+",
            AlgebraOp::Subtract => "-",
            AlgebraOp::Multiply => "*",
            AlgebraOp::Divide => "/",
            AlgebraOp::Power => "^",
        }
    }
}

/// An algebra expression whose numbers are written out as text.
#[derive(Debug)]
pub enum AlgebraTerm {
    Number(String),
    Variable(String),
    Binary { op: AlgebraOp, left: Box<AlgebraTerm>, right: Box<AlgebraTerm> },
}

/// An algebra expression with its texts as character sequences.
pub enum TermView {
    Number(Seq<char>),
    Variable(Seq<char>),
    Binary { op: AlgebraOp, left: Box<TermView>, right: Box<TermView> },
}

impl AlgebraTerm {
    /// The term with its texts as character sequences.
    pub open spec fn view_term(&self) -> TermView
        decreases self,
    {
        match self {
            AlgebraTerm::Number(t) => TermView::Number(t@),
            AlgebraTerm::Variable(n) => TermView::Variable(n@),
            AlgebraTerm::Binary { op, left, right } => TermView::Binary {
                op: *op,
                left: Box::new(left.view_term()),
                right: Box::new(right.view_term()),
            },
        }
    }
}

impl View for AlgebraTerm {
    type V = TermView;

    open spec fn view(&self) -> TermView {
        self.view_term()
    }
}

/// The one-line form of a term: numbers and names as written, and every
/// operation in parentheses with spaces around its sign.
pub open spec fn plain_text(t: TermView) -> Seq<char>
    decreases t,
{
    match t {
        TermView::Number(v) => v,
        TermView::Variable(n) => n,
        TermView::Binary { op, left, right } => "("@ + plain_text(*left) + " "@ + op_symbol(op)
            + " "@ + plain_text(*right) + ")"@,
    }
}

impl AlgebraTerm {
    /// A number written as `text`.
    pub fn number(text: String) -> (t: Self)
        ensures
            t@ == TermView::Number(text@),
    {
        AlgebraTerm::Number(text)
    }

    /// A variable called `name`.
    pub fn variable(name: String) -> (t: Self)
        ensures
            t@ == TermView::Variable(name@),
    {
        AlgebraTerm::Variable(name)
    }

    /// `left op right`.
    pub fn binary(op: AlgebraOp, left: AlgebraTerm, right: AlgebraTerm) -> (t: Self)
        ensures
            t@ == (TermView::Binary { op, left: Box::new(left@), right: Box::new(right@) }),
    {
        AlgebraTerm::Binary { op, left: Box::new(left), right: Box::new(right) }
    }

    /// A copy of the term.
    pub fn duplicate(&self) -> (r: Self)
        ensures
            r@ == self@,
        decreases self,
    {
        match self {
            AlgebraTerm::Number(v) => AlgebraTerm::Number(string_from(v.as_str())),
            AlgebraTerm::Variable(n) => AlgebraTerm::Variable(string_from(n.as_str())),
            AlgebraTerm::Binary { op, left, right } => {
                let l = left.duplicate();
                let r = right.duplicate();
                AlgebraTerm::binary(*op, l, r)
            },
        }
    }

    /// Writes the term as [`plain_text`] describes.
    pub fn to_plain(&self) -> (s: String)
        ensures
            s@ == plain_text(self@),
        decreases self,
    {
        match self {
            AlgebraTerm::Number(v) => string_from(v.as_str()),
            AlgebraTerm::Variable(n) => string_from(n.as_str()),
            AlgebraTerm::Binary { op, left, right } => {
                let mut s = string_from("(");
                let l = left.to_plain();
                append_str(&mut s, l.as_str());
                push_char(&mut s, ' ');
                append_str(&mut s, op.symbol());
                push_char(&mut s, ' ');
                let r = right.to_plain();
                append_str(&mut s, r.as_str());
                push_char(&mut s, ')');
                proof {
                    reveal_strlit("(");
                    reveal_strlit(" ");
                    reveal_strlit(")");
                    assert(s@ =~= plain_text(self@));
                }
                s
            },
        }
    }
}

} // verus!
