//! Tokens of the expression language.

use vstd::prelude::*;

verus! {

/// A token. A number keeps its source text, which the lexer has checked to
/// be digits with at most one decimal point, not ending in one.
#[derive(Debug, Clone, PartialEq)]
pub enum Token {
    Number(String),
    Identifier(String),
    Plus,
    Minus,
    Star,
    Slash,
    Power,
    Comma,
    Equal,
    LeftParen,
    RightParen,
    End,
}

/// A token with its text as a character sequence.
pub enum TokenView {
    Number(Seq<char>),
    Identifier(Seq<char>),
    Plus,
    Minus,
    Star,
    Slash,
    Power,
    Comma,
    Equal,
    LeftParen,
    RightParen,
    End,
}

impl View for Token {
    type V = TokenView;

    open spec fn view(&self) -> TokenView {
        match self {
            Token::Number(t) => TokenView::Number(t@),
            Token::Identifier(t) => TokenView::Identifier(t@),
            Token::Plus => TokenView::Plus,
            Token::Minus => TokenView::Minus,
            Token::Star => TokenView::Star,
            Token::Slash => TokenView::Slash,
            Token::Power => TokenView::Power,
            Token::Comma => TokenView::Comma,
            Token::Equal => TokenView::Equal,
            Token::LeftParen => TokenView::LeftParen,
            Token::RightParen => TokenView::RightParen,
            Token::End => TokenView::End,
        }
    }
}

/// The views of a sequence of tokens.
pub open spec fn token_views(ts: Seq<Token>) -> Seq<TokenView> {
    ts.map_values(|t: Token| t@)
}

} // verus!
