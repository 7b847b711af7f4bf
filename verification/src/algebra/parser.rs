//! Reading algebra expressions: `+ -` bind loosest and group to the left,
//! then `* /`, then `^`, which groups to the right; a leading minus is
//! `0 - operand`.

use vstd::prelude::*;

use crate::algebra::expression::{AlgebraOp, AlgebraTerm, TermView};
use crate::error::{parser_error, Numora};
use crate::lexer::{
    alpha, digit, dots, ident_char, ident_end, is_alpha, is_ident_char, is_number_char,
    lemma_ident_end, lemma_number_end, number_end,
};
use crate::text::{append_chars, chars_of, push_char, string_from, string_of};

use crate::numeral::{float_debug_chars, float_debug_text};

verus! {

/// A token of an algebra expression; a number keeps its text.
#[derive(Debug)]
pub enum AlgebraToken {
    Number(String),
    Identifier(String),
    Plus,
    Minus,
    Star,
    Slash,
    Caret,
    LeftParen,
    RightParen,
}

/// An algebra token with its text as a character sequence.
pub enum AlgebraTokenView {
    Number(Seq<char>),
    Identifier(Seq<char>),
    Plus,
    Minus,
    Star,
    Slash,
    Caret,
    LeftParen,
    RightParen,
}

impl View for AlgebraToken {
    type V = AlgebraTokenView;

    open spec fn view(&self) -> AlgebraTokenView {
        match self {
            AlgebraToken::Number(t) => AlgebraTokenView::Number(t@),
            AlgebraToken::Identifier(t) => AlgebraTokenView::Identifier(t@),
            AlgebraToken::Plus => AlgebraTokenView::Plus,
            AlgebraToken::Minus => AlgebraTokenView::Minus,
            AlgebraToken::Star => AlgebraTokenView::Star,
            AlgebraToken::Slash => AlgebraTokenView::Slash,
            AlgebraToken::Caret => AlgebraTokenView::Caret,
            AlgebraToken::LeftParen => AlgebraTokenView::LeftParen,
            AlgebraToken::RightParen => AlgebraTokenView::RightParen,
        }
    }
}

/// The views of a token list.
pub open spec fn algebra_token_views(ts: Seq<AlgebraToken>) -> Seq<AlgebraTokenView> {
    ts.map_values(|t: AlgebraToken| t@)
}

/// How a token is named in messages; a number as [`float_debug_text`]
/// writes it, which is the `{:?}` form of its `f64` value for the texts that
/// [`crate::numeral::debug_digits_exact`] admits.
pub open spec fn algebra_token_text(t: AlgebraTokenView) -> Seq<char> {
    match t {
        AlgebraTokenView::Number(s) => "Number("@ + float_debug_text(s) + ")"@,
        AlgebraTokenView::Identifier(s) => "Identifier(\""@ + s + "\")"@,
        AlgebraTokenView::Plus => "Plus"@,
        AlgebraTokenView::Minus => "Minus"@,
        AlgebraTokenView::Star => "Star"@,
        AlgebraTokenView::Slash => "Slash"@,
        AlgebraTokenView::Caret => "Caret"@,
        AlgebraTokenView::LeftParen => "LeftParen"@,
        AlgebraTokenView::RightParen => "RightParen"@,
    }
}

/// The token a single character stands for, if any.
pub open spec fn algebra_single(c: char) -> Option<AlgebraTokenView> {
    if c == '+' {
        Some(AlgebraTokenView::Plus)
    } else if c == '-' {
        Some(AlgebraTokenView::Minus)
    } else if c == '*' {
        Some(AlgebraTokenView::Star)
    } else if c == '/' {
        Some(AlgebraTokenView::Slash)
    } else if c == '^' {
        Some(AlgebraTokenView::Caret)
    } else if c == '(' {
        Some(AlgebraTokenView::LeftParen)
    } else if c == ')' {
        Some(AlgebraTokenView::RightParen)
    } else {
        None
    }
}

/// The blanks an algebra expression may hold between tokens.
pub open spec fn is_blank(c: char) -> bool {
    c == ' ' || c == '\t' || c == '\r' || c == '\n'
}

/// A run of digits and points is a number when it holds at most one point
/// and at least one digit, which is what `f64`'s parser accepts of such a run.
pub open spec fn valid_decimal(t: Seq<char>) -> bool {
    dots(t) <= 1 && dots(t) < t.len()
}

/// Puts `ts` in front of the tokens of a successful result.
pub open spec fn prepend_tokens(
    ts: Seq<AlgebraTokenView>,
    r: Result<Seq<AlgebraTokenView>, Seq<char>>,
) -> Result<Seq<AlgebraTokenView>, Seq<char>> {
    match r {
        Ok(rest) => Ok(ts + rest),
        Err(e) => Err(e),
    }
}

/// The tokens of `s` from position `i` on, or the message of the first
/// character that cannot start a token.
pub open spec fn algebra_lex_from(s: Seq<char>, i: int) -> Result<Seq<AlgebraTokenView>, Seq<char>>
    decreases s.len() - i,
{
    if i < 0 || i >= s.len() {
        Ok(Seq::empty())
    } else if is_blank(s[i]) {
        algebra_lex_from(s, i + 1)
    } else if algebra_single(s[i]) is Some {
        prepend_tokens(seq![algebra_single(s[i])->0], algebra_lex_from(s, i + 1))
    } else if is_number_char(s[i]) {
        let j = number_end(s, i);
        let text = s.subrange(i, j);
        proof {
            lemma_number_end(s, i);
        }
        if valid_decimal(text) {
            prepend_tokens(seq![AlgebraTokenView::Number(text)], algebra_lex_from(s, j))
        } else {
            Err("Invalid number in algebra expression: "@ + text)
        }
    } else if is_alpha(s[i]) || s[i] == '_' {
        let j = ident_end(s, i);
        proof {
            lemma_ident_end(s, i);
        }
        prepend_tokens(seq![AlgebraTokenView::Identifier(s.subrange(i, j))], algebra_lex_from(s, j))
    } else {
        Err("Unexpected character in algebra expression: '"@ + seq![s[i]] + "'"@)
    }
}

proof fn lemma_prepend_tokens(
    a: Seq<AlgebraTokenView>,
    b: Seq<AlgebraTokenView>,
    r: Result<Seq<AlgebraTokenView>, Seq<char>>,
)
    ensures
        prepend_tokens(a, prepend_tokens(b, r)) == prepend_tokens(a + b, r),
{
    match r {
        Ok(x) => {
            assert(a + (b + x) =~= (a + b) + x);
        },
        Err(_) => {},
    }
}

fn single_token(c: char) -> (r: Option<AlgebraToken>)
    ensures
        match algebra_single(c) {
            Some(t) => r matches Some(x) && x@ == t,
            None => r is None,
        },
{
    if c == '+' {
        Some(AlgebraToken::Plus)
    } else if c == '-' {
        Some(AlgebraToken::Minus)
    } else if c == '*' {
        Some(AlgebraToken::Star)
    } else if c == '/' {
        Some(AlgebraToken::Slash)
    } else if c == '^' {
        Some(AlgebraToken::Caret)
    } else if c == '(' {
        Some(AlgebraToken::LeftParen)
    } else if c == ')' {
        Some(AlgebraToken::RightParen)
    } else {
        None
    }
}

proof fn lemma_dots_push(t: Seq<char>, c: char)
    ensures
        dots(t.push(c)) == dots(t) + if c == '.' { 1nat } else { 0nat },
{
    assert(t.push(c).drop_last() =~= t);
}

/// Splits an algebra expression into tokens.
pub fn tokenize_algebra(source: &[char]) -> (r: Result<Vec<AlgebraToken>, Numora>)
    ensures
        match algebra_lex_from(source@, 0) {
            Ok(ts) => r matches Ok(v) && algebra_token_views(v@) == ts,
            Err(m) => parser_error(r, m),
        },
{
    let ghost s = source@;
    let mut tokens: Vec<AlgebraToken> = Vec::new();
    let mut i: usize = 0;
    assert(algebra_lex_from(s, 0) == prepend_tokens(algebra_token_views(tokens@), algebra_lex_from(s, 0))) by {
        assert(algebra_token_views(tokens@) =~= Seq::<AlgebraTokenView>::empty());
        match algebra_lex_from(s, 0) {
            Ok(x) => {
                assert(Seq::<AlgebraTokenView>::empty() + x =~= x);
            },
            Err(_) => {},
        }
    }
    while i < source.len()
        invariant
            i <= s.len(),
            source@ == s,
            algebra_lex_from(s, 0) == prepend_tokens(algebra_token_views(tokens@), algebra_lex_from(s, i as int)),
        decreases s.len() - i,
    {
        let ghost before = algebra_token_views(tokens@);
        let c = source[i];
        proof {
            lemma_number_end(s, i as int);
            lemma_ident_end(s, i as int);
        }
        if c == ' ' || c == '\t' || c == '\r' || c == '\n' {
            i = i + 1;
        } else if let Some(t) = single_token(c) {
            let ghost tv = t@;
            tokens.push(t);
            i = i + 1;
            proof {
                assert(algebra_token_views(tokens@) =~= before + seq![tv]);
                lemma_prepend_tokens(before, seq![tv], algebra_lex_from(s, i as int));
            }
        } else if digit(c) || c == '.' {
            let start = i;
            let mut text: Vec<char> = Vec::new();
            let mut dot_count: usize = 0;
            while i < source.len() && (digit(source[i]) || source[i] == '.')
                invariant
                    start <= i <= s.len(),
                    source@ == s,
                    i <= number_end(s, start as int),
                    number_end(s, start as int) <= s.len(),
                    forall|k: int| start <= k < number_end(s, start as int) ==> is_number_char(#[trigger] s[k]),
                    number_end(s, start as int) < s.len() ==> !is_number_char(s[number_end(s, start as int)]),
                    text@ == s.subrange(start as int, i as int),
                    dot_count == dots(text@),
                    dot_count <= i - start,
                decreases s.len() - i,
            {
                let d = source[i];
                proof {
                    lemma_dots_push(text@, d);
                }
                if d == '.' {
                    dot_count = dot_count + 1;
                }
                text.push(d);
                i = i + 1;
                assert(text@ =~= s.subrange(start as int, i as int));
            }
            proof {
                if i < number_end(s, start as int) {
                    assert(is_number_char(s[i as int]));
                }
            }
            if dot_count > 1 || dot_count >= text.len() {
                let mut msg = string_from("Invalid number in algebra expression: ");
                append_chars(&mut msg, &text);
                return Err(Numora::ParserError(msg));
            }
            let ghost tv = AlgebraTokenView::Number(text@);
            tokens.push(AlgebraToken::Number(string_of(&text)));
            proof {
                assert(algebra_token_views(tokens@) =~= before + seq![tv]);
                lemma_prepend_tokens(before, seq![tv], algebra_lex_from(s, i as int));
            }
        } else if alpha(c) || c == '_' {
            let start = i;
            let mut text: Vec<char> = Vec::new();
            while i < source.len() && ident_char(source[i])
                invariant
                    start <= i <= s.len(),
                    source@ == s,
                    i <= ident_end(s, start as int),
                    ident_end(s, start as int) <= s.len(),
                    forall|k: int| start <= k < ident_end(s, start as int) ==> is_ident_char(#[trigger] s[k]),
                    ident_end(s, start as int) < s.len() ==> !is_ident_char(s[ident_end(s, start as int)]),
                    text@ == s.subrange(start as int, i as int),
                decreases s.len() - i,
            {
                text.push(source[i]);
                i = i + 1;
                assert(text@ =~= s.subrange(start as int, i as int));
            }
            proof {
                if i < ident_end(s, start as int) {
                    assert(is_ident_char(s[i as int]));
                }
            }
            let ghost tv = AlgebraTokenView::Identifier(text@);
            tokens.push(AlgebraToken::Identifier(string_of(&text)));
            proof {
                assert(algebra_token_views(tokens@) =~= before + seq![tv]);
                lemma_prepend_tokens(before, seq![tv], algebra_lex_from(s, i as int));
            }
        } else {
            let mut msg = string_from("Unexpected character in algebra expression: '");
            push_char(&mut msg, c);
            push_char(&mut msg, '\'');
            proof {
                reveal_strlit("'");
                assert(msg@ =~= "Unexpected character in algebra expression: '"@ + seq![c] + "'"@);
            }
            return Err(Numora::ParserError(msg));
        }
    }
    assert(algebra_token_views(tokens@) + Seq::<AlgebraTokenView>::empty() =~= algebra_token_views(tokens@));
    Ok(tokens)
}

/// Where reading a part of an expression ends: with the part and the
/// position after it, with a message, or never. It never ends when the
/// reader runs out of tokens at a `(`: at the end the reader takes the
/// last token again, and a `(` starts another expression there.
pub enum AlgebraParse {
    Parsed(TermView, int),
    Failed(Seq<char>),
    Endless,
}

/// The number `0`, which a leading minus subtracts from.
pub open spec fn zero() -> TermView {
    TermView::Number("0"@)
}

/// The binary term `left op right`.
pub open spec fn bin(op: AlgebraOp, left: TermView, right: TermView) -> TermView {
    TermView::Binary { op, left: Box::new(left), right: Box::new(right) }
}

/// Sums and differences starting at `i`.
pub open spec fn algebra_sum(ts: Seq<AlgebraTokenView>, i: int) -> AlgebraParse
    decreases ts.len() - i, 10int,
{
    if i < 0 || i > ts.len() {
        AlgebraParse::Failed(Seq::empty())
    } else {
        match algebra_product(ts, i) {
            AlgebraParse::Parsed(left, j) => if i <= j <= ts.len() {
                algebra_sum_rest(ts, left, j)
            } else {
                AlgebraParse::Failed(Seq::empty())
            },
            other => other,
        }
    }
}

/// Further `+ term` and `- term` after `left`, which ends at `j`.
pub open spec fn algebra_sum_rest(ts: Seq<AlgebraTokenView>, left: TermView, j: int) -> AlgebraParse
    decreases ts.len() - j, 8int,
{
    if j < 0 || j > ts.len() {
        AlgebraParse::Failed(Seq::empty())
    } else if j < ts.len() && (ts[j] is Plus || ts[j] is Minus) {
        let op = if ts[j] is Plus { AlgebraOp::Add } else { AlgebraOp::Subtract };
        match algebra_product(ts, j + 1) {
            AlgebraParse::Parsed(right, k) => if j < k <= ts.len() {
                algebra_sum_rest(ts, bin(op, left, right), k)
            } else {
                AlgebraParse::Failed(Seq::empty())
            },
            other => other,
        }
    } else {
        AlgebraParse::Parsed(left, j)
    }
}

/// Products and quotients starting at `i`.
pub open spec fn algebra_product(ts: Seq<AlgebraTokenView>, i: int) -> AlgebraParse
    decreases ts.len() - i, 9int,
{
    if i < 0 || i > ts.len() {
        AlgebraParse::Failed(Seq::empty())
    } else {
        match algebra_power(ts, i) {
            AlgebraParse::Parsed(left, j) => if i <= j <= ts.len() {
                algebra_product_rest(ts, left, j)
            } else {
                AlgebraParse::Failed(Seq::empty())
            },
            other => other,
        }
    }
}

/// Further `* factor` and `/ factor` after `left`, which ends at `j`.
pub open spec fn algebra_product_rest(ts: Seq<AlgebraTokenView>, left: TermView, j: int) -> AlgebraParse
    decreases ts.len() - j, 6int,
{
    if j < 0 || j > ts.len() {
        AlgebraParse::Failed(Seq::empty())
    } else if j < ts.len() && (ts[j] is Star || ts[j] is Slash) {
        let op = if ts[j] is Star { AlgebraOp::Multiply } else { AlgebraOp::Divide };
        match algebra_power(ts, j + 1) {
            AlgebraParse::Parsed(right, k) => if j < k <= ts.len() {
                algebra_product_rest(ts, bin(op, left, right), k)
            } else {
                AlgebraParse::Failed(Seq::empty())
            },
            other => other,
        }
    } else {
        AlgebraParse::Parsed(left, j)
    }
}

/// A power at `i`: an operand, and when `^` follows, the power it is raised to.
pub open spec fn algebra_power(ts: Seq<AlgebraTokenView>, i: int) -> AlgebraParse
    decreases ts.len() - i, 5int,
{
    if i < 0 || i > ts.len() {
        AlgebraParse::Failed(Seq::empty())
    } else {
        match algebra_unary(ts, i) {
            AlgebraParse::Parsed(left, j) => if i <= j <= ts.len() {
                if j < ts.len() && ts[j] is Caret {
                    match algebra_power(ts, j + 1) {
                        AlgebraParse::Parsed(right, k) => AlgebraParse::Parsed(
                            bin(AlgebraOp::Power, left, right),
                            k,
                        ),
                        other => other,
                    }
                } else {
                    AlgebraParse::Parsed(left, j)
                }
            } else {
                AlgebraParse::Failed(Seq::empty())
            },
            other => other,
        }
    }
}

/// A leading minus, or a primary expression, at `i`.
pub open spec fn algebra_unary(ts: Seq<AlgebraTokenView>, i: int) -> AlgebraParse
    decreases ts.len() - i, 3int,
{
    if i < 0 || i > ts.len() {
        AlgebraParse::Failed(Seq::empty())
    } else if i < ts.len() && ts[i] is Minus {
        match algebra_unary(ts, i + 1) {
            AlgebraParse::Parsed(e, k) => AlgebraParse::Parsed(bin(AlgebraOp::Subtract, zero(), e), k),
            other => other,
        }
    } else {
        algebra_primary(ts, i)
    }
}

/// A number, a name or a parenthesised expression at `i`. Past the end the
/// reader takes the last token again without moving.
pub open spec fn algebra_primary(ts: Seq<AlgebraTokenView>, i: int) -> AlgebraParse
    decreases ts.len() - i, 2int,
{
    if i < 0 || i > ts.len() {
        AlgebraParse::Failed(Seq::empty())
    } else if ts.len() == 0 {
        AlgebraParse::Failed("Unexpected end of algebra expression"@)
    } else {
        let at_end = i == ts.len();
        let t = if at_end { ts.last() } else { ts[i] };
        let next = if at_end { i } else { i + 1 };
        match t {
            AlgebraTokenView::Number(v) => AlgebraParse::Parsed(TermView::Number(v), next),
            AlgebraTokenView::Identifier(n) => AlgebraParse::Parsed(TermView::Variable(n), next),
            AlgebraTokenView::LeftParen => if at_end {
                AlgebraParse::Endless
            } else {
                match algebra_sum(ts, i + 1) {
                    AlgebraParse::Parsed(e, k) => if 0 <= k < ts.len() && ts[k] is RightParen {
                        AlgebraParse::Parsed(e, k + 1)
                    } else {
                        AlgebraParse::Failed("Expected ')' after algebra expression"@)
                    },
                    other => other,
                }
            },
            other => AlgebraParse::Failed(
                "Unexpected token in algebra expression: "@ + algebra_token_text(other),
            ),
        }
    }
}

/// A whole expression read from tokens: `None` when reading never ends,
/// else the expression or the message of the first error.
pub open spec fn algebra_parse(ts: Seq<AlgebraTokenView>) -> Option<Result<TermView, Seq<char>>> {
    match algebra_sum(ts, 0) {
        AlgebraParse::Parsed(e, j) => if 0 <= j < ts.len() {
            Some(
                Err(
                    "Unexpected token after algebra expression: Some("@ + algebra_token_text(ts[j])
                        + ")"@,
                ),
            )
        } else {
            Some(Ok(e))
        },
        AlgebraParse::Failed(m) => Some(Err(m)),
        AlgebraParse::Endless => None,
    }
}

/// An algebra expression read from its text: `None` when reading never
/// ends, else the expression or the message of the first error.
pub open spec fn algebra_outcome(source: Seq<char>) -> Option<Result<TermView, Seq<char>>> {
    match algebra_lex_from(source, 0) {
        Ok(ts) => algebra_parse(ts),
        Err(m) => Some(Err(m)),
    }
}

/// `r` is what `p` describes, with the reader left at `end` after a part.
pub open spec fn algebra_step(r: Result<AlgebraTerm, Option<Numora>>, p: AlgebraParse, end: int) -> bool {
    match p {
        AlgebraParse::Parsed(e, j) => r matches Ok(x) && x@ == e && end == j,
        AlgebraParse::Failed(m) => r matches Err(Some(err)) && parser_error(Err::<(), Numora>(err), m),
        AlgebraParse::Endless => r matches Err(None),
    }
}

/// `r` is what `o` describes.
pub open spec fn algebra_result(r: Option<Result<AlgebraTerm, Numora>>, o: Option<Result<TermView, Seq<char>>>) -> bool {
    match o {
        None => r is None,
        Some(Ok(e)) => r matches Some(Ok(x)) && x@ == e,
        Some(Err(m)) => r matches Some(e) && parser_error(e, m),
    }
}

struct AlgebraParser {
    tokens: Vec<AlgebraToken>,
    current: usize,
}

fn token_text(t: &AlgebraToken) -> (s: String)
    ensures
        s@ == algebra_token_text(t@),
{
    match t {
        AlgebraToken::Number(v) => {
            let mut s = string_from("Number(");
            let x = float_debug_chars(chars_of(v.as_str()).as_slice());
            append_chars(&mut s, &x);
            let q = chars_of(")");
            append_chars(&mut s, &q);
            s
        },
        AlgebraToken::Identifier(v) => {
            let mut s = string_from("Identifier(\"");
            let x = chars_of(v.as_str());
            append_chars(&mut s, &x);
            let q = chars_of("\")");
            append_chars(&mut s, &q);
            s
        },
        AlgebraToken::Plus => string_from("Plus"),
        AlgebraToken::Minus => string_from("Minus"),
        AlgebraToken::Star => string_from("Star"),
        AlgebraToken::Slash => string_from("Slash"),
        AlgebraToken::Caret => string_from("Caret"),
        AlgebraToken::LeftParen => string_from("LeftParen"),
        AlgebraToken::RightParen => string_from("RightParen"),
    }
}

fn failure(msg: &str) -> (r: Result<AlgebraTerm, Option<Numora>>)
    ensures
        r matches Err(Some(err)) && parser_error(Err::<(), Numora>(err), msg@),
{
    Err(Some(Numora::ParserError(string_from(msg))))
}

fn duplicate(t: &AlgebraToken) -> (r: AlgebraToken)
    ensures
        r@ == t@,
{
    match t {
        AlgebraToken::Number(v) => AlgebraToken::Number(string_from(v.as_str())),
        AlgebraToken::Identifier(v) => AlgebraToken::Identifier(string_from(v.as_str())),
        AlgebraToken::Plus => AlgebraToken::Plus,
        AlgebraToken::Minus => AlgebraToken::Minus,
        AlgebraToken::Star => AlgebraToken::Star,
        AlgebraToken::Slash => AlgebraToken::Slash,
        AlgebraToken::Caret => AlgebraToken::Caret,
        AlgebraToken::LeftParen => AlgebraToken::LeftParen,
        AlgebraToken::RightParen => AlgebraToken::RightParen,
    }
}

impl AlgebraParser {
    spec fn toks(&self) -> Seq<AlgebraTokenView> {
        algebra_token_views(self.tokens@)
    }

    spec fn pos(&self) -> int {
        self.current as int
    }

    spec fn wf(&self) -> bool {
        self.current <= self.tokens@.len()
    }

    fn advance(&mut self)
        requires
            old(self).current < old(self).tokens@.len(),
        ensures
            final(self).current == old(self).current + 1,
            final(self).tokens == old(self).tokens,
    {
        if self.current < self.tokens.len() {
            self.current = self.current + 1;
        }
    }

    fn at(&self, kind: u8) -> (r: bool)
        requires
            self.wf(),
        ensures
            r == (self.pos() < self.toks().len() && (match self.toks()[self.pos()] {
                AlgebraTokenView::Plus => kind == 0,
                AlgebraTokenView::Minus => kind == 1,
                AlgebraTokenView::Star => kind == 2,
                AlgebraTokenView::Slash => kind == 3,
                AlgebraTokenView::Caret => kind == 4,
                AlgebraTokenView::RightParen => kind == 5,
                _ => false,
            })),
    {
        if self.current >= self.tokens.len() {
            return false;
        }
        match &self.tokens[self.current] {
            AlgebraToken::Plus => kind == 0,
            AlgebraToken::Minus => kind == 1,
            AlgebraToken::Star => kind == 2,
            AlgebraToken::Slash => kind == 3,
            AlgebraToken::Caret => kind == 4,
            AlgebraToken::RightParen => kind == 5,
            _ => false,
        }
    }

    fn parse_add_subtract(&mut self) -> (r: Result<AlgebraTerm, Option<Numora>>)
        requires
            old(self).wf(),
        ensures
            final(self).wf(),
            final(self).toks() == old(self).toks(),
            old(self).pos() <= final(self).pos(),
            algebra_step(r, algebra_sum(old(self).toks(), old(self).pos()), final(self).pos()),
        decreases old(self).toks().len() - old(self).pos(), 10int,
    {
        let ghost ts = self.toks();
        let ghost p0 = self.pos();
        let mut expr = match self.parse_multiply_divide() {
            Ok(e) => e,
            Err(e) => return Err(e),
        };
        loop
            invariant
                self.wf(),
                self.toks() == ts,
                old(self).toks() == ts,
                old(self).pos() == p0,
                p0 <= self.pos(),
                algebra_sum(ts, p0) == algebra_sum_rest(ts, expr@, self.pos()),
            decreases ts.len() - self.pos(),
        {
            let plus = self.at(0);
            let minus = self.at(1);
            if !plus && !minus {
                return Ok(expr);
            }
            let op = if plus { AlgebraOp::Add } else { AlgebraOp::Subtract };
            self.advance();
            let right = match self.parse_multiply_divide() {
                Ok(e) => e,
                Err(e) => return Err(e),
            };
            expr = AlgebraTerm::binary(op, expr, right);
        }
    }

    fn parse_multiply_divide(&mut self) -> (r: Result<AlgebraTerm, Option<Numora>>)
        requires
            old(self).wf(),
        ensures
            final(self).wf(),
            final(self).toks() == old(self).toks(),
            old(self).pos() <= final(self).pos(),
            algebra_step(r, algebra_product(old(self).toks(), old(self).pos()), final(self).pos()),
        decreases old(self).toks().len() - old(self).pos(), 9int,
    {
        let ghost ts = self.toks();
        let ghost p0 = self.pos();
        let mut expr = match self.parse_power() {
            Ok(e) => e,
            Err(e) => return Err(e),
        };
        loop
            invariant
                self.wf(),
                self.toks() == ts,
                old(self).toks() == ts,
                old(self).pos() == p0,
                p0 <= self.pos(),
                algebra_product(ts, p0) == algebra_product_rest(ts, expr@, self.pos()),
            decreases ts.len() - self.pos(),
        {
            let star = self.at(2);
            let slash = self.at(3);
            if !star && !slash {
                return Ok(expr);
            }
            let op = if star { AlgebraOp::Multiply } else { AlgebraOp::Divide };
            self.advance();
            let right = match self.parse_power() {
                Ok(e) => e,
                Err(e) => return Err(e),
            };
            expr = AlgebraTerm::binary(op, expr, right);
        }
    }

    fn parse_power(&mut self) -> (r: Result<AlgebraTerm, Option<Numora>>)
        requires
            old(self).wf(),
        ensures
            final(self).wf(),
            final(self).toks() == old(self).toks(),
            old(self).pos() <= final(self).pos(),
            algebra_step(r, algebra_power(old(self).toks(), old(self).pos()), final(self).pos()),
        decreases old(self).toks().len() - old(self).pos(), 5int,
    {
        let left = match self.parse_unary() {
            Ok(e) => e,
            Err(e) => return Err(e),
        };
        if self.at(4) {
            self.advance();
            let right = match self.parse_power() {
                Ok(e) => e,
                Err(e) => return Err(e),
            };
            return Ok(AlgebraTerm::binary(AlgebraOp::Power, left, right));
        }
        Ok(left)
    }

    fn parse_unary(&mut self) -> (r: Result<AlgebraTerm, Option<Numora>>)
        requires
            old(self).wf(),
        ensures
            final(self).wf(),
            final(self).toks() == old(self).toks(),
            old(self).pos() <= final(self).pos(),
            algebra_step(r, algebra_unary(old(self).toks(), old(self).pos()), final(self).pos()),
        decreases old(self).toks().len() - old(self).pos(), 3int,
    {
        if self.at(1) {
            self.advance();
            let right = match self.parse_unary() {
                Ok(e) => e,
                Err(e) => return Err(e),
            };
            let zero = AlgebraTerm::number(string_from("0"));
            return Ok(AlgebraTerm::binary(AlgebraOp::Subtract, zero, right));
        }
        self.parse_primary()
    }

    fn parse_primary(&mut self) -> (r: Result<AlgebraTerm, Option<Numora>>)
        requires
            old(self).wf(),
        ensures
            final(self).wf(),
            final(self).toks() == old(self).toks(),
            old(self).pos() <= final(self).pos(),
            algebra_step(r, algebra_primary(old(self).toks(), old(self).pos()), final(self).pos()),
        decreases old(self).toks().len() - old(self).pos(), 2int,
    {
        if self.tokens.len() == 0 {
            return failure("Unexpected end of algebra expression");
        }
        let at_end = self.current >= self.tokens.len();
        let index = if at_end { self.tokens.len() - 1 } else { self.current };
        if !at_end {
            self.advance();
        }
        let token = duplicate(&self.tokens[index]);
        match token {
            AlgebraToken::Number(v) => Ok(AlgebraTerm::number(v)),
            AlgebraToken::Identifier(n) => Ok(AlgebraTerm::variable(n)),
            AlgebraToken::LeftParen => {
                if at_end {
                    return Err(None);
                }
                let expr = match self.parse_add_subtract() {
                    Ok(e) => e,
                    Err(e) => return Err(e),
                };
                if !self.at(5) {
                    return failure("Expected ')' after algebra expression");
                }
                self.advance();
                Ok(expr)
            },
            other => {
                let mut msg = string_from("Unexpected token in algebra expression: ");
                let text = token_text(&other);
                append_chars(&mut msg, &chars_of(text.as_str()));
                Err(Some(Numora::ParserError(msg)))
            },
        }
    }
}

/// Reads an algebra expression: `None` when reading never ends (a `(` as
/// the last token the reader reaches), else the expression or a parser error.
pub fn parse_algebra_term(source: &str) -> (r: Option<Result<AlgebraTerm, Numora>>)
    ensures
        algebra_result(r, algebra_outcome(source@)),
{
    let chars = chars_of(source);
    let tokens = match tokenize_algebra(&chars) {
        Ok(ts) => ts,
        Err(e) => return Some(Err(e)),
    };
    let mut parser = AlgebraParser { tokens, current: 0 };
    let expr = match parser.parse_add_subtract() {
        Ok(e) => e,
        Err(None) => return None,
        Err(Some(e)) => return Some(Err(e)),
    };
    if parser.current < parser.tokens.len() {
        let mut msg = string_from("Unexpected token after algebra expression: Some(");
        let text = token_text(&parser.tokens[parser.current]);
        append_chars(&mut msg, &chars_of(text.as_str()));
        push_char(&mut msg, ')');
        proof {
            reveal_strlit(")");
            assert(msg@ =~= "Unexpected token after algebra expression: Some("@ + algebra_token_text(
                parser.toks()[parser.pos()],
            ) + ")"@);
        }
        return Some(Err(Numora::ParserError(msg)));
    }
    Some(Ok(expr))
}

/// How tightly an operator token binds: `+` and `-` 1, `*` and `/` 2,
/// `^` 3.
pub open spec fn algebra_binding(t: AlgebraTokenView) -> int {
    if t is Plus || t is Minus {
        1
    } else if t is Star || t is Slash {
        2
    } else {
        3
    }
}

/// The operation an operator token stands for.
pub open spec fn algebra_operator(t: AlgebraTokenView) -> AlgebraOp {
    match t {
        AlgebraTokenView::Plus => AlgebraOp::Add,
        AlgebraTokenView::Minus => AlgebraOp::Subtract,
        AlgebraTokenView::Star => AlgebraOp::Multiply,
        AlgebraTokenView::Slash => AlgebraOp::Divide,
        _ => AlgebraOp::Power,
    }
}

/// Is the token one of `+ - * / ^`?
pub open spec fn is_operator_token(t: AlgebraTokenView) -> bool {
    t is Plus || t is Minus || t is Star || t is Slash || t is Caret
}

/// Precedence and grouping of two operators: for numbers `x`, `y`, `z` and
/// operators `o1`, `o2` among `+ - * / ^`, the tokens of `x o1 y o2 z` read
/// as `(x o1 y) o2 z` when `o1` binds more tightly than `o2`, or as tightly
/// and is not `^`; else as `x o1 (y o2 z)`. So sums and products group to
/// the left and powers to the right.
pub proof fn lemma_algebra_two_operators(
    x: Seq<char>,
    y: Seq<char>,
    z: Seq<char>,
    o1: AlgebraTokenView,
    o2: AlgebraTokenView,
)
    requires
        is_operator_token(o1),
        is_operator_token(o2),
    ensures
        algebra_parse(
            seq![AlgebraTokenView::Number(x), o1, AlgebraTokenView::Number(y), o2, AlgebraTokenView::Number(z)],
        ) == Some(
            Ok::<TermView, Seq<char>>(
                if algebra_binding(o1) > algebra_binding(o2) || (algebra_binding(o1) == algebra_binding(o2)
                    && !(o1 is Caret)) {
                    bin(
                        algebra_operator(o2),
                        bin(algebra_operator(o1), TermView::Number(x), TermView::Number(y)),
                        TermView::Number(z),
                    )
                } else {
                    bin(
                        algebra_operator(o1),
                        TermView::Number(x),
                        bin(algebra_operator(o2), TermView::Number(y), TermView::Number(z)),
                    )
                },
            ),
        ),
{
    let ts = seq![AlgebraTokenView::Number(x), o1, AlgebraTokenView::Number(y), o2, AlgebraTokenView::Number(z)];
    let nx = TermView::Number(x);
    let ny = TermView::Number(y);
    let nz = TermView::Number(z);
    assert(ts[0] == AlgebraTokenView::Number(x));
    assert(ts[1] == o1);
    assert(ts[2] == AlgebraTokenView::Number(y));
    assert(ts[3] == o2);
    assert(ts[4] == AlgebraTokenView::Number(z));
    assert(algebra_unary(ts, 0) == AlgebraParse::Parsed(nx, 1));
    assert(algebra_unary(ts, 2) == AlgebraParse::Parsed(ny, 3));
    assert(algebra_unary(ts, 4) == AlgebraParse::Parsed(nz, 5));
    reveal_with_fuel(algebra_product_rest, 3);
    reveal_with_fuel(algebra_sum_rest, 3);
    assert(algebra_power(ts, 4) == AlgebraParse::Parsed(nz, 5));
    assert(algebra_product(ts, 4) == AlgebraParse::Parsed(nz, 5));
    let yz = bin(algebra_operator(o2), ny, nz);
    let xy = bin(algebra_operator(o1), nx, ny);
    let whole = if algebra_binding(o1) > algebra_binding(o2) || (algebra_binding(o1) == algebra_binding(o2)
        && !(o1 is Caret)) {
        bin(algebra_operator(o2), xy, nz)
    } else {
        bin(algebra_operator(o1), nx, yz)
    };
    if o2 is Caret {
        assert(algebra_power(ts, 2) == AlgebraParse::Parsed(yz, 5));
        assert(algebra_product(ts, 2) == AlgebraParse::Parsed(yz, 5));
    } else {
        assert(algebra_power(ts, 2) == AlgebraParse::Parsed(ny, 3));
        if algebra_binding(o2) == 2 {
            assert(algebra_product(ts, 2) == AlgebraParse::Parsed(yz, 5));
        } else {
            assert(algebra_product(ts, 2) == AlgebraParse::Parsed(ny, 3));
        }
    }
    if o1 is Caret {
        if o2 is Caret {
            assert(algebra_power(ts, 0) == AlgebraParse::Parsed(whole, 5));
            assert(algebra_product(ts, 0) == AlgebraParse::Parsed(whole, 5));
        } else {
            assert(algebra_power(ts, 0) == AlgebraParse::Parsed(xy, 3));
            if algebra_binding(o2) == 2 {
                assert(algebra_product(ts, 0) == AlgebraParse::Parsed(whole, 5));
            } else {
                assert(algebra_product(ts, 0) == AlgebraParse::Parsed(xy, 3));
            }
        }
    } else {
        assert(algebra_power(ts, 0) == AlgebraParse::Parsed(nx, 1));
        if algebra_binding(o1) == 2 {
            if algebra_binding(o2) >= 2 {
                assert(algebra_product(ts, 0) == AlgebraParse::Parsed(whole, 5));
            } else {
                assert(algebra_product(ts, 0) == AlgebraParse::Parsed(xy, 3));
            }
        } else {
            assert(algebra_product(ts, 0) == AlgebraParse::Parsed(nx, 1));
        }
    }
    assert(algebra_sum(ts, 0) == AlgebraParse::Parsed(whole, 5));
}

} // verus!
