//! Reading calculator expressions from tokens: `+ -` bind loosest, then
//! `* /`, then `^` (grouping left to right), then unary minus; a number
//! followed by a unit name is a quantity, and a name followed by `(` a call.

use vstd::prelude::*;

use crate::ast::{expr_views, BinaryOperator, Expr, ExprView, UnaryOperator};
use crate::error::{parser_error, Numora};
use crate::text::{append_chars, chars_of, str_eq, string_from};
use crate::token::{token_views, Token, TokenView};

use crate::numeral::{float_debug_chars, float_debug_text};

verus! {

/// The token at `i`, or `End` past the last one.
pub open spec fn tok(ts: Seq<TokenView>, i: int) -> TokenView {
    if 0 <= i < ts.len() {
        ts[i]
    } else {
        TokenView::End
    }
}

/// The unit names a number may be followed by.
pub open spec fn is_unit_name(name: Seq<char>) -> bool {
    name == "m"@ || name == "cm"@ || name == "km"@ || name == "s"@ || name == "kg"@ || name == "g"@
}

/// How a token is named in messages; a number as [`float_debug_text`]
/// writes it, which is the `{:?}` form of its `f64` value for the texts that
/// [`crate::numeral::debug_digits_exact`] admits.
pub open spec fn token_text(t: TokenView) -> Seq<char> {
    match t {
        TokenView::Number(s) => "Number("@ + float_debug_text(s) + ")"@,
        TokenView::Identifier(s) => "Identifier(\""@ + s + "\")"@,
        TokenView::Plus => "Plus"@,
        TokenView::Minus => "Minus"@,
        TokenView::Star => "Star"@,
        TokenView::Slash => "Slash"@,
        TokenView::Power => "Power"@,
        TokenView::Comma => "Comma"@,
        TokenView::Equal => "Equal"@,
        TokenView::LeftParen => "LeftParen"@,
        TokenView::RightParen => "RightParen"@,
        TokenView::End => "End"@,
    }
}

/// The result of reading a part of the grammar: the expression and the
/// position after it, or a message.
pub type Parsed = Result<(ExprView, int), Seq<char>>;

/// Sums and differences starting at `i`.
pub open spec fn parse_sum(ts: Seq<TokenView>, i: int) -> Parsed
    decreases ts.len() - i, 10int,
{
    if i < 0 || i > ts.len() {
        Err(Seq::empty())
    } else {
        match parse_product(ts, i) {
            Err(e) => Err(e),
            Ok((left, j)) => if i <= j <= ts.len() {
                sum_rest(ts, left, j)
            } else {
                Err(Seq::empty())
            },
        }
    }
}

/// Further `+ term` and `- term` after `left`, which ends at `j`.
pub open spec fn sum_rest(ts: Seq<TokenView>, left: ExprView, j: int) -> Parsed
    decreases ts.len() - j, 8int,
{
    if j < 0 || j > ts.len() {
        Err(Seq::empty())
    } else if tok(ts, j) is Plus || tok(ts, j) is Minus {
        let op = if tok(ts, j) is Plus { BinaryOperator::Add } else { BinaryOperator::Subtract };
        match parse_product(ts, j + 1) {
            Err(e) => Err(e),
            Ok((right, k)) => if j < k <= ts.len() {
                sum_rest(
                    ts,
                    ExprView::Binary { left: Box::new(left), operator: op, right: Box::new(right) },
                    k,
                )
            } else {
                Err(Seq::empty())
            },
        }
    } else {
        Ok((left, j))
    }
}

/// Products and quotients starting at `i`.
pub open spec fn parse_product(ts: Seq<TokenView>, i: int) -> Parsed
    decreases ts.len() - i, 9int,
{
    if i < 0 || i > ts.len() {
        Err(Seq::empty())
    } else {
        match parse_power(ts, i) {
            Err(e) => Err(e),
            Ok((left, j)) => if i <= j <= ts.len() {
                product_rest(ts, left, j)
            } else {
                Err(Seq::empty())
            },
        }
    }
}

/// Further `* factor` and `/ factor` after `left`, which ends at `j`.
pub open spec fn product_rest(ts: Seq<TokenView>, left: ExprView, j: int) -> Parsed
    decreases ts.len() - j, 6int,
{
    if j < 0 || j > ts.len() {
        Err(Seq::empty())
    } else if tok(ts, j) is Star || tok(ts, j) is Slash {
        let op = if tok(ts, j) is Star { BinaryOperator::Multiply } else { BinaryOperator::Divide };
        match parse_power(ts, j + 1) {
            Err(e) => Err(e),
            Ok((right, k)) => if j < k <= ts.len() {
                product_rest(
                    ts,
                    ExprView::Binary { left: Box::new(left), operator: op, right: Box::new(right) },
                    k,
                )
            } else {
                Err(Seq::empty())
            },
        }
    } else {
        Ok((left, j))
    }
}

/// Powers starting at `i`.
pub open spec fn parse_power(ts: Seq<TokenView>, i: int) -> Parsed
    decreases ts.len() - i, 5int,
{
    if i < 0 || i > ts.len() {
        Err(Seq::empty())
    } else {
        match parse_unary(ts, i) {
            Err(e) => Err(e),
            Ok((left, j)) => if i <= j <= ts.len() {
                power_rest(ts, left, j)
            } else {
                Err(Seq::empty())
            },
        }
    }
}

/// Further `^ operand` after `left`, which ends at `j`.
pub open spec fn power_rest(ts: Seq<TokenView>, left: ExprView, j: int) -> Parsed
    decreases ts.len() - j, 4int,
{
    if j < 0 || j > ts.len() {
        Err(Seq::empty())
    } else if tok(ts, j) is Power {
        match parse_unary(ts, j + 1) {
            Err(e) => Err(e),
            Ok((right, k)) => if j < k <= ts.len() {
                power_rest(
                    ts,
                    ExprView::Binary {
                        left: Box::new(left),
                        operator: BinaryOperator::Power,
                        right: Box::new(right),
                    },
                    k,
                )
            } else {
                Err(Seq::empty())
            },
        }
    } else {
        Ok((left, j))
    }
}

/// A unary minus or a primary expression starting at `i`.
pub open spec fn parse_unary(ts: Seq<TokenView>, i: int) -> Parsed
    decreases ts.len() - i, 3int,
{
    if i < 0 || i > ts.len() {
        Err(Seq::empty())
    } else if tok(ts, i) is Minus {
        match parse_unary(ts, i + 1) {
            Err(e) => Err(e),
            Ok((e, k)) => Ok(
                (ExprView::Unary { operator: UnaryOperator::Negative, expression: Box::new(e) }, k),
            ),
        }
    } else {
        parse_primary(ts, i)
    }
}

/// A number, quantity, symbol, call or parenthesised expression at `i`.
pub open spec fn parse_primary(ts: Seq<TokenView>, i: int) -> Parsed
    decreases ts.len() - i, 2int,
{
    if i < 0 || i > ts.len() {
        Err(Seq::empty())
    } else {
        match tok(ts, i) {
            TokenView::Number(v) => match tok(ts, i + 1) {
                TokenView::Identifier(u) => if is_unit_name(u) {
                    Ok((ExprView::Quantity { number: v, unit: u }, i + 2))
                } else {
                    Ok((ExprView::Number(v), i + 1))
                },
                _ => Ok((ExprView::Number(v), i + 1)),
            },
            TokenView::Identifier(name) => if tok(ts, i + 1) is LeftParen {
                parse_call(ts, name, i + 1)
            } else {
                Ok((ExprView::Symbol { name }, i + 1))
            },
            TokenView::LeftParen => match parse_sum(ts, i + 1) {
                Err(e) => Err(e),
                Ok((e, k)) => if tok(ts, k) is RightParen {
                    Ok((e, k + 1))
                } else {
                    Err("Expected ')' after expression"@)
                },
            },
            t => Err("Expected number, symbol, function, or '(' but found "@ + token_text(t)),
        }
    }
}

/// The argument list of a call to `name` whose `(` is at `i`.
pub open spec fn parse_call(ts: Seq<TokenView>, name: Seq<char>, i: int) -> Parsed
    decreases ts.len() - i, 1int,
{
    if i < 0 || i > ts.len() {
        Err(Seq::empty())
    } else if tok(ts, i) is LeftParen {
        if tok(ts, i + 1) is RightParen {
            Ok((ExprView::FunctionCall { name, arguments: Seq::empty() }, i + 2))
        } else {
            parse_arguments(ts, name, Seq::empty(), i + 1)
        }
    } else {
        Err("Expected '(' after function name"@)
    }
}

/// Arguments from `j` on, after the arguments `args` already read.
pub open spec fn parse_arguments(ts: Seq<TokenView>, name: Seq<char>, args: Seq<ExprView>, j: int) -> Parsed
    decreases ts.len() + 1 - j, 0int,
{
    if j < 0 || j > ts.len() {
        Err(Seq::empty())
    } else {
        match parse_sum(ts, j) {
            Err(e) => Err(e),
            Ok((a, k)) => if j <= k <= ts.len() {
                match tok(ts, k) {
                    TokenView::Comma => parse_arguments(ts, name, args.push(a), k + 1),
                    TokenView::RightParen => Ok(
                        (ExprView::FunctionCall { name, arguments: args.push(a) }, k + 1),
                    ),
                    t => Err("Expected ',' or ')' in function call but found "@ + token_text(t)),
                }
            } else {
                Err(Seq::empty())
            },
        }
    }
}

/// A whole expression from `i` on, which must be followed by `End`.
pub open spec fn parse_tokens_from(ts: Seq<TokenView>, i: int) -> Result<ExprView, Seq<char>> {
    match parse_sum(ts, i) {
        Err(e) => Err(e),
        Ok((e, j)) => if tok(ts, j) is End {
            Ok(e)
        } else {
            Err("Unexpected token: "@ + token_text(tok(ts, j)))
        },
    }
}

/// A whole expression.
pub open spec fn parse_tokens(ts: Seq<TokenView>) -> Result<ExprView, Seq<char>> {
    parse_tokens_from(ts, 0)
}


/// `r` is the outcome `p` describes, with the reader left at `end` on success.
pub open spec fn outcome(r: Result<Expr, Numora>, p: Parsed, end: int) -> bool {
    match p {
        Ok((e, j)) => match r {
            Ok(x) => x@ == e && end == j,
            Err(_) => false,
        },
        Err(m) => parser_error(r, m),
    }
}

proof fn lemma_expr_views_push(args: Seq<Expr>, a: Expr)
    ensures
        expr_views(args.push(a)) == expr_views(args).push(a@),
{
    assert(args.push(a).drop_last() =~= args);
}

/// The message text of a token.
fn describe(t: &Token) -> (s: Vec<char>)
    ensures
        s@ == token_text(t@),
{
    match t {
        Token::Number(v) => {
            let mut s = chars_of("Number(");
            let mut x = float_debug_chars(chars_of(v.as_str()).as_slice());
            s.append(&mut x);
            let mut q = chars_of(")");
            s.append(&mut q);
            s
        },
        Token::Identifier(v) => {
            let mut s = chars_of("Identifier(\"");
            let mut x = chars_of(v.as_str());
            s.append(&mut x);
            let mut q = chars_of("\")");
            s.append(&mut q);
            s
        },
        Token::Plus => chars_of("Plus"),
        Token::Minus => chars_of("Minus"),
        Token::Star => chars_of("Star"),
        Token::Slash => chars_of("Slash"),
        Token::Power => chars_of("Power"),
        Token::Comma => chars_of("Comma"),
        Token::Equal => chars_of("Equal"),
        Token::LeftParen => chars_of("LeftParen"),
        Token::RightParen => chars_of("RightParen"),
        Token::End => chars_of("End"),
    }
}

/// `prefix` followed by the text of `t`, as a parser error.
fn error_with_token(prefix: &str, t: &Token) -> (e: Numora)
    ensures
        parser_error(Err::<(), Numora>(e), prefix@ + token_text(t@)),
{
    let mut msg = string_from(prefix);
    let d = describe(t);
    append_chars(&mut msg, &d);
    Numora::ParserError(msg)
}

/// Is `name` one of the unit names?
pub fn unit_name(name: &str) -> (r: bool)
    ensures
        r == is_unit_name(name@),
{
    str_eq(name, "m") || str_eq(name, "cm") || str_eq(name, "km") || str_eq(name, "s") || str_eq(
        name,
        "kg",
    ) || str_eq(name, "g")
}

/// A recursive-descent reader over a token list.
pub struct Parser {
    tokens: Vec<Token>,
    position: usize,
}

impl Parser {
    /// The tokens being read.
    pub closed spec fn toks(&self) -> Seq<TokenView> {
        token_views(self.tokens@)
    }

    /// The position of the next token.
    pub closed spec fn pos(&self) -> int {
        self.position as int
    }

    /// The position is within the token list.
    pub closed spec fn wf(&self) -> bool {
        self.position <= self.tokens@.len()
    }

    pub fn new(tokens: Vec<Token>) -> (p: Self)
        ensures
            p.toks() == token_views(tokens@),
            p.pos() == 0,
            p.wf(),
    {
        Self { tokens, position: 0 }
    }

    /// Reads one expression that must use up every token before `End`.
    pub fn parse(&mut self) -> (r: Result<Expr, Numora>)
        requires
            old(self).wf(),
        ensures
            match parse_tokens_from(old(self).toks(), old(self).pos()) {
                Ok(e) => r matches Ok(x) && x@ == e,
                Err(m) => parser_error(r, m),
            },
    {
        let expr = match self.parse_add_subtract() {
            Ok(e) => e,
            Err(e) => return Err(e),
        };
        if !self.is_at_end() {
            return Err(error_with_token("Unexpected token: ", self.current_token()));
        }
        Ok(expr)
    }

    fn parse_add_subtract(&mut self) -> (r: Result<Expr, Numora>)
        requires
            old(self).wf(),
        ensures
            final(self).wf(),
            final(self).toks() == old(self).toks(),
            old(self).pos() <= final(self).pos(),
            outcome(r, parse_sum(old(self).toks(), old(self).pos()), final(self).pos()),
        decreases old(self).toks().len() - old(self).pos(), 10int,
    {
        let ghost ts = self.toks();
        let ghost p0 = self.pos();
        let mut expr = match self.parse_multiply_divide() {
            Ok(e) => e,
            Err(e) => return Err(e),
        };
        while self.at_sum_operator()
            invariant
                self.wf(),
                self.toks() == ts,
                old(self).toks() == ts,
                old(self).pos() == p0,
                p0 <= self.pos(),
                parse_sum(ts, p0) == sum_rest(ts, expr@, self.pos()),
            decreases ts.len() - self.pos(),
        {
            let operator = if self.at_plus() { BinaryOperator::Add } else { BinaryOperator::Subtract };
            self.advance();
            let right = match self.parse_multiply_divide() {
                Ok(e) => e,
                Err(e) => return Err(e),
            };
            expr = Expr::Binary { left: Box::new(expr), operator, right: Box::new(right) };
        }
        Ok(expr)
    }

    fn parse_multiply_divide(&mut self) -> (r: Result<Expr, Numora>)
        requires
            old(self).wf(),
        ensures
            final(self).wf(),
            final(self).toks() == old(self).toks(),
            old(self).pos() <= final(self).pos(),
            outcome(r, parse_product(old(self).toks(), old(self).pos()), final(self).pos()),
        decreases old(self).toks().len() - old(self).pos(), 9int,
    {
        let ghost ts = self.toks();
        let ghost p0 = self.pos();
        let mut expr = match self.parse_power() {
            Ok(e) => e,
            Err(e) => return Err(e),
        };
        while self.at_product_operator()
            invariant
                self.wf(),
                self.toks() == ts,
                old(self).toks() == ts,
                old(self).pos() == p0,
                p0 <= self.pos(),
                parse_product(ts, p0) == product_rest(ts, expr@, self.pos()),
            decreases ts.len() - self.pos(),
        {
            let operator = if self.at_star() { BinaryOperator::Multiply } else { BinaryOperator::Divide };
            self.advance();
            let right = match self.parse_power() {
                Ok(e) => e,
                Err(e) => return Err(e),
            };
            expr = Expr::Binary { left: Box::new(expr), operator, right: Box::new(right) };
        }
        Ok(expr)
    }

    fn parse_power(&mut self) -> (r: Result<Expr, Numora>)
        requires
            old(self).wf(),
        ensures
            final(self).wf(),
            final(self).toks() == old(self).toks(),
            old(self).pos() <= final(self).pos(),
            outcome(r, parse_power(old(self).toks(), old(self).pos()), final(self).pos()),
        decreases old(self).toks().len() - old(self).pos(), 5int,
    {
        let ghost ts = self.toks();
        let ghost p0 = self.pos();
        let mut expr = match self.parse_unary() {
            Ok(e) => e,
            Err(e) => return Err(e),
        };
        while self.at_power()
            invariant
                self.wf(),
                self.toks() == ts,
                old(self).toks() == ts,
                old(self).pos() == p0,
                p0 <= self.pos(),
                parse_power(ts, p0) == power_rest(ts, expr@, self.pos()),
            decreases ts.len() - self.pos(),
        {
            self.advance();
            let right = match self.parse_unary() {
                Ok(e) => e,
                Err(e) => return Err(e),
            };
            expr = Expr::Binary {
                left: Box::new(expr),
                operator: BinaryOperator::Power,
                right: Box::new(right),
            };
        }
        Ok(expr)
    }

    fn parse_unary(&mut self) -> (r: Result<Expr, Numora>)
        requires
            old(self).wf(),
        ensures
            final(self).wf(),
            final(self).toks() == old(self).toks(),
            old(self).pos() <= final(self).pos(),
            outcome(r, parse_unary(old(self).toks(), old(self).pos()), final(self).pos()),
        decreases old(self).toks().len() - old(self).pos(), 3int,
    {
        if self.at_minus() {
            self.advance();
            let expression = match self.parse_unary() {
                Ok(e) => e,
                Err(e) => return Err(e),
            };
            Ok(Expr::Unary { operator: UnaryOperator::Negative, expression: Box::new(expression) })
        } else {
            self.parse_primary()
        }
    }

    fn parse_primary(&mut self) -> (r: Result<Expr, Numora>)
        requires
            old(self).wf(),
        ensures
            final(self).wf(),
            final(self).toks() == old(self).toks(),
            old(self).pos() <= final(self).pos(),
            outcome(r, parse_primary(old(self).toks(), old(self).pos()), final(self).pos()),
        decreases old(self).toks().len() - old(self).pos(), 2int,
    {
        let ghost ts = self.toks();
        let ghost p0 = self.pos();
        let t = self.current_token();
        match t {
            Token::Number(v) => {
                let value = v.clone();
                self.advance();
                let next = self.current_token();
                match next {
                    Token::Identifier(u) => {
                        if unit_name(u.as_str()) {
                            let unit = u.clone();
                            self.advance();
                            return Ok(Expr::Quantity { number: value, unit });
                        }
                    },
                    _ => {},
                }
                Ok(Expr::Number(value))
            },
            Token::Identifier(n) => {
                let name = n.clone();
                self.advance();
                if self.at_left_paren() {
                    self.parse_function_call(name)
                } else {
                    Ok(Expr::Symbol { name })
                }
            },
            Token::LeftParen => {
                self.advance();
                let expr = match self.parse_add_subtract() {
                    Ok(e) => e,
                    Err(e) => return Err(e),
                };
                if !self.at_right_paren() {
                    return Err(Numora::ParserError(string_from("Expected ')' after expression")));
                }
                self.advance();
                Ok(expr)
            },
            _ => Err(error_with_token("Expected number, symbol, function, or '(' but found ", t)),
        }
    }

    fn parse_function_call(&mut self, name: String) -> (r: Result<Expr, Numora>)
        requires
            old(self).wf(),
        ensures
            final(self).wf(),
            final(self).toks() == old(self).toks(),
            old(self).pos() <= final(self).pos(),
            outcome(r, parse_call(old(self).toks(), name@, old(self).pos()), final(self).pos()),
        decreases old(self).toks().len() - old(self).pos(), 1int,
    {
        let ghost ts = self.toks();
        let ghost p0 = self.pos();
        match self.expect_left_paren() {
            Ok(()) => {},
            Err(e) => return Err(e),
        }
        let mut arguments: Vec<Expr> = Vec::new();
        if self.at_right_paren() {
            self.advance();
            assert(expr_views(arguments@) =~= Seq::<ExprView>::empty());
            return Ok(Expr::FunctionCall { name, arguments });
        }
        assert(expr_views(arguments@) =~= Seq::<ExprView>::empty());
        loop
            invariant
                self.wf(),
                self.toks() == ts,
                old(self).toks() == ts,
                old(self).pos() == p0,
                p0 < self.pos(),
                parse_call(ts, name@, p0) == parse_arguments(ts, name@, expr_views(arguments@), self.pos()),
            decreases ts.len() + 1 - self.pos(),
        {
            let argument = match self.parse_add_subtract() {
                Ok(e) => e,
                Err(e) => return Err(e),
            };
            proof {
                lemma_expr_views_push(arguments@, argument);
            }
            arguments.push(argument);
            if self.at_comma() {
                self.advance();
            } else if self.at_right_paren() {
                self.advance();
                return Ok(Expr::FunctionCall { name, arguments });
            } else {
                return Err(
                    error_with_token(
                        "Expected ',' or ')' in function call but found ",
                        self.current_token(),
                    ),
                );
            }
        }
    }

    fn expect_left_paren(&mut self) -> (r: Result<(), Numora>)
        requires
            old(self).wf(),
        ensures
            final(self).wf(),
            final(self).toks() == old(self).toks(),
            tok(old(self).toks(), old(self).pos()) is LeftParen ==> r is Ok && final(self).pos()
                == old(self).pos() + 1,
            !(tok(old(self).toks(), old(self).pos()) is LeftParen) ==> parser_error(
                r,
                "Expected '(' after function name"@,
            ) && final(self).pos() == old(self).pos(),
    {
        if self.at_left_paren() {
            self.advance();
            Ok(())
        } else {
            Err(Numora::ParserError(string_from("Expected '(' after function name")))
        }
    }

    fn current_token(&self) -> (t: &Token)
        requires
            self.wf(),
        ensures
            t@ == tok(self.toks(), self.pos()),
    {
        if self.position < self.tokens.len() {
            &self.tokens[self.position]
        } else {
            &Token::End
        }
    }

    fn advance(&mut self)
        requires
            old(self).wf(),
        ensures
            final(self).wf(),
            final(self).toks() == old(self).toks(),
            final(self).pos() == if tok(old(self).toks(), old(self).pos()) is End {
                old(self).pos()
            } else {
                old(self).pos() + 1
            },
    {
        if self.position < self.tokens.len() && !self.is_at_end() {
            self.position = self.position + 1;
        }
    }

    fn is_at_end(&self) -> (r: bool)
        requires
            self.wf(),
        ensures
            r == tok(self.toks(), self.pos()) is End,
    {
        match self.current_token() {
            Token::End => true,
            _ => false,
        }
    }

    fn at_plus(&self) -> (r: bool)
        requires
            self.wf(),
        ensures
            r == tok(self.toks(), self.pos()) is Plus,
    {
        match self.current_token() {
            Token::Plus => true,
            _ => false,
        }
    }

    fn at_minus(&self) -> (r: bool)
        requires
            self.wf(),
        ensures
            r == tok(self.toks(), self.pos()) is Minus,
    {
        match self.current_token() {
            Token::Minus => true,
            _ => false,
        }
    }

    fn at_sum_operator(&self) -> (r: bool)
        requires
            self.wf(),
        ensures
            r == (tok(self.toks(), self.pos()) is Plus || tok(self.toks(), self.pos()) is Minus),
    {
        self.at_plus() || self.at_minus()
    }

    fn at_star(&self) -> (r: bool)
        requires
            self.wf(),
        ensures
            r == tok(self.toks(), self.pos()) is Star,
    {
        match self.current_token() {
            Token::Star => true,
            _ => false,
        }
    }

    fn at_product_operator(&self) -> (r: bool)
        requires
            self.wf(),
        ensures
            r == (tok(self.toks(), self.pos()) is Star || tok(self.toks(), self.pos()) is Slash),
    {
        match self.current_token() {
            Token::Star => true,
            Token::Slash => true,
            _ => false,
        }
    }

    fn at_power(&self) -> (r: bool)
        requires
            self.wf(),
        ensures
            r == tok(self.toks(), self.pos()) is Power,
    {
        match self.current_token() {
            Token::Power => true,
            _ => false,
        }
    }

    fn at_comma(&self) -> (r: bool)
        requires
            self.wf(),
        ensures
            r == tok(self.toks(), self.pos()) is Comma,
    {
        match self.current_token() {
            Token::Comma => true,
            _ => false,
        }
    }

    fn at_left_paren(&self) -> (r: bool)
        requires
            self.wf(),
        ensures
            r == tok(self.toks(), self.pos()) is LeftParen,
    {
        match self.current_token() {
            Token::LeftParen => true,
            _ => false,
        }
    }

    fn at_right_paren(&self) -> (r: bool)
        requires
            self.wf(),
        ensures
            r == tok(self.toks(), self.pos()) is RightParen,
    {
        match self.current_token() {
            Token::RightParen => true,
            _ => false,
        }
    }
}

/// The operator a `*` or `/` token stands for.
pub open spec fn product_operator(t: TokenView) -> BinaryOperator {
    if t is Star {
        BinaryOperator::Multiply
    } else {
        BinaryOperator::Divide
    }
}

/// Products and quotients group to the left: for numbers `x`, `y`, `z` and
/// operators `o1`, `o2` each `*` or `/`, the tokens of `x o1 y o2 z` read as
/// `(x o1 y) o2 z`. So the right operand of a quotient is the single number
/// after it, never the product or quotient that follows.
pub proof fn lemma_products_group_left(
    x: Seq<char>,
    y: Seq<char>,
    z: Seq<char>,
    o1: TokenView,
    o2: TokenView,
)
    requires
        o1 is Star || o1 is Slash,
        o2 is Star || o2 is Slash,
    ensures
        parse_tokens(
            seq![TokenView::Number(x), o1, TokenView::Number(y), o2, TokenView::Number(z), TokenView::End],
        ) == Ok::<ExprView, Seq<char>>(
            ExprView::Binary {
                left: Box::new(
                    ExprView::Binary {
                        left: Box::new(ExprView::Number(x)),
                        operator: product_operator(o1),
                        right: Box::new(ExprView::Number(y)),
                    },
                ),
                operator: product_operator(o2),
                right: Box::new(ExprView::Number(z)),
            },
        ),
{
    let ts = seq![TokenView::Number(x), o1, TokenView::Number(y), o2, TokenView::Number(z), TokenView::End];
    let nx = ExprView::Number(x);
    let ny = ExprView::Number(y);
    let nz = ExprView::Number(z);
    let first = ExprView::Binary { left: Box::new(nx), operator: product_operator(o1), right: Box::new(ny) };
    let both = ExprView::Binary { left: Box::new(first), operator: product_operator(o2), right: Box::new(nz) };
    assert(tok(ts, 0) == TokenView::Number(x));
    assert(tok(ts, 1) == o1);
    assert(tok(ts, 2) == TokenView::Number(y));
    assert(tok(ts, 3) == o2);
    assert(tok(ts, 4) == TokenView::Number(z));
    assert(tok(ts, 5) == TokenView::End);
    assert(parse_primary(ts, 4) == Ok::<(ExprView, int), Seq<char>>((nz, 5)));
    assert(parse_unary(ts, 4) == Ok::<(ExprView, int), Seq<char>>((nz, 5)));
    assert(power_rest(ts, nz, 5) == Ok::<(ExprView, int), Seq<char>>((nz, 5)));
    assert(parse_power(ts, 4) == Ok::<(ExprView, int), Seq<char>>((nz, 5)));
    assert(product_rest(ts, both, 5) == Ok::<(ExprView, int), Seq<char>>((both, 5)));
    assert(product_rest(ts, first, 3) == Ok::<(ExprView, int), Seq<char>>((both, 5)));
    assert(parse_primary(ts, 2) == Ok::<(ExprView, int), Seq<char>>((ny, 3)));
    assert(parse_unary(ts, 2) == Ok::<(ExprView, int), Seq<char>>((ny, 3)));
    assert(power_rest(ts, ny, 3) == Ok::<(ExprView, int), Seq<char>>((ny, 3)));
    assert(parse_power(ts, 2) == Ok::<(ExprView, int), Seq<char>>((ny, 3)));
    assert(product_rest(ts, nx, 1) == Ok::<(ExprView, int), Seq<char>>((both, 5)));
    assert(parse_primary(ts, 0) == Ok::<(ExprView, int), Seq<char>>((nx, 1)));
    assert(parse_unary(ts, 0) == Ok::<(ExprView, int), Seq<char>>((nx, 1)));
    assert(power_rest(ts, nx, 1) == Ok::<(ExprView, int), Seq<char>>((nx, 1)));
    assert(parse_power(ts, 0) == Ok::<(ExprView, int), Seq<char>>((nx, 1)));
    assert(parse_product(ts, 0) == Ok::<(ExprView, int), Seq<char>>((both, 5)));
    assert(sum_rest(ts, both, 5) == Ok::<(ExprView, int), Seq<char>>((both, 5)));
    assert(parse_sum(ts, 0) == Ok::<(ExprView, int), Seq<char>>((both, 5)));
}

/// How tightly a binary operator token binds: `+` and `-` 1, `*` and `/` 2,
/// `^` 3.
pub open spec fn binding(t: TokenView) -> int {
    if t is Plus || t is Minus {
        1
    } else if t is Star || t is Slash {
        2
    } else {
        3
    }
}

/// The operator a binary operator token stands for.
pub open spec fn binary_operator(t: TokenView) -> BinaryOperator {
    match t {
        TokenView::Plus => BinaryOperator::Add,
        TokenView::Minus => BinaryOperator::Subtract,
        TokenView::Star => BinaryOperator::Multiply,
        TokenView::Slash => BinaryOperator::Divide,
        _ => BinaryOperator::Power,
    }
}

/// Is the token one of `+ - * / ^`?
pub open spec fn is_binary_token(t: TokenView) -> bool {
    t is Plus || t is Minus || t is Star || t is Slash || t is Power
}

/// Precedence and grouping of two operators: for numbers `x`, `y`, `z` and
/// operators `o1`, `o2` among `+ - * / ^`, the tokens of `x o1 y o2 z` read
/// as `(x o1 y) o2 z` when `o1` binds at least as tightly as `o2` (every
/// level groups to the left), and as `x o1 (y o2 z)` when `o2` binds more
/// tightly.
pub proof fn lemma_two_operators(x: Seq<char>, y: Seq<char>, z: Seq<char>, o1: TokenView, o2: TokenView)
    requires
        is_binary_token(o1),
        is_binary_token(o2),
    ensures
        ({
            let ts = seq![TokenView::Number(x), o1, TokenView::Number(y), o2, TokenView::Number(z), TokenView::End];
            let nx = ExprView::Number(x);
            let ny = ExprView::Number(y);
            let nz = ExprView::Number(z);
            parse_tokens(ts) == Ok::<ExprView, Seq<char>>(
                if binding(o1) >= binding(o2) {
                    ExprView::Binary {
                        left: Box::new(
                            ExprView::Binary { left: Box::new(nx), operator: binary_operator(o1), right: Box::new(ny) },
                        ),
                        operator: binary_operator(o2),
                        right: Box::new(nz),
                    }
                } else {
                    ExprView::Binary {
                        left: Box::new(nx),
                        operator: binary_operator(o1),
                        right: Box::new(
                            ExprView::Binary { left: Box::new(ny), operator: binary_operator(o2), right: Box::new(nz) },
                        ),
                    }
                },
            )
        }),
{
    let ts = seq![TokenView::Number(x), o1, TokenView::Number(y), o2, TokenView::Number(z), TokenView::End];
    let nx = ExprView::Number(x);
    let ny = ExprView::Number(y);
    let nz = ExprView::Number(z);
    assert(tok(ts, 0) == TokenView::Number(x));
    assert(tok(ts, 1) == o1);
    assert(tok(ts, 2) == TokenView::Number(y));
    assert(tok(ts, 3) == o2);
    assert(tok(ts, 4) == TokenView::Number(z));
    assert(tok(ts, 5) == TokenView::End);
    assert(parse_unary(ts, 0) == Ok::<(ExprView, int), Seq<char>>((nx, 1)));
    assert(parse_unary(ts, 2) == Ok::<(ExprView, int), Seq<char>>((ny, 3)));
    assert(parse_unary(ts, 4) == Ok::<(ExprView, int), Seq<char>>((nz, 5)));
    reveal_with_fuel(power_rest, 3);
    reveal_with_fuel(product_rest, 3);
    reveal_with_fuel(sum_rest, 3);
    let pz = parse_power(ts, 4);
    assert(pz == Ok::<(ExprView, int), Seq<char>>((nz, 5)));
    assert(parse_product(ts, 4) == Ok::<(ExprView, int), Seq<char>>((nz, 5)));
    let py = parse_power(ts, 2);
    let px = parse_power(ts, 0);
    let qy = parse_product(ts, 2);
    let qx = parse_product(ts, 0);
    let sx = parse_sum(ts, 0);
    let yz = ExprView::Binary { left: Box::new(ny), operator: binary_operator(o2), right: Box::new(nz) };
    let xy = ExprView::Binary { left: Box::new(nx), operator: binary_operator(o1), right: Box::new(ny) };
    if o2 is Power {
        assert(py == Ok::<(ExprView, int), Seq<char>>((yz, 5)));
        assert(qy == Ok::<(ExprView, int), Seq<char>>((yz, 5)));
    } else {
        assert(py == Ok::<(ExprView, int), Seq<char>>((ny, 3)));
        if binding(o2) == 2 {
            assert(qy == Ok::<(ExprView, int), Seq<char>>((yz, 5)));
        } else {
            assert(qy == Ok::<(ExprView, int), Seq<char>>((ny, 3)));
        }
    }
    let whole = if binding(o1) >= binding(o2) {
        ExprView::Binary { left: Box::new(xy), operator: binary_operator(o2), right: Box::new(nz) }
    } else {
        ExprView::Binary { left: Box::new(nx), operator: binary_operator(o1), right: Box::new(yz) }
    };
    if o1 is Power {
        if o2 is Power {
            assert(px == Ok::<(ExprView, int), Seq<char>>((whole, 5)));
            assert(qx == Ok::<(ExprView, int), Seq<char>>((whole, 5)));
        } else {
            assert(px == Ok::<(ExprView, int), Seq<char>>((xy, 3)));
            if binding(o2) == 2 {
                assert(qx == Ok::<(ExprView, int), Seq<char>>((whole, 5)));
            } else {
                assert(qx == Ok::<(ExprView, int), Seq<char>>((xy, 3)));
            }
        }
    } else {
        assert(px == Ok::<(ExprView, int), Seq<char>>((nx, 1)));
        if binding(o1) == 2 {
            if binding(o2) >= 2 {
                assert(qx == Ok::<(ExprView, int), Seq<char>>((whole, 5)));
            } else {
                assert(qx == Ok::<(ExprView, int), Seq<char>>((xy, 3)));
            }
        } else {
            assert(qx == Ok::<(ExprView, int), Seq<char>>((nx, 1)));
        }
    }
    assert(sx == Ok::<(ExprView, int), Seq<char>>((whole, 5)));
}

} // verus!
