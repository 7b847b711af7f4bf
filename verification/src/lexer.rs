//! Turning expression text into tokens.

use vstd::prelude::*;

use crate::error::{lexer_error, Numora};
use crate::text::{append_chars, chars_of, string_from, string_of};
use crate::token::{token_views, Token, TokenView};

verus! {

/// An ASCII decimal digit.
pub open spec fn is_digit(c: char) -> bool {
    '0' <= c && c <= '9'
}

/// An ASCII letter.
pub open spec fn is_alpha(c: char) -> bool {
    ('a' <= c && c <= 'z') || ('A' <= c && c <= 'Z')
}

/// A character a number is made of.
pub open spec fn is_number_char(c: char) -> bool {
    is_digit(c) || c == '.'
}

/// A character an identifier continues with.
pub open spec fn is_ident_char(c: char) -> bool {
    is_digit(c) || is_alpha(c) || c == '_'
}

/// Whitespace the lexer skips.
pub open spec fn is_skipped(c: char) -> bool {
    c == ' ' || c == '\t' || c == '\n' || c == '\r'
}

/// The token a single character stands for, if any; `_` is a minus sign.
pub open spec fn single_token(c: char) -> Option<TokenView> {
    if c == '+' {
        Some(TokenView::Plus)
    } else if c == '-' || c == '_' {
        Some(TokenView::Minus)
    } else if c == '*' {
        Some(TokenView::Star)
    } else if c == '/' {
        Some(TokenView::Slash)
    } else if c == '^' {
        Some(TokenView::Power)
    } else if c == ',' {
        Some(TokenView::Comma)
    } else if c == '=' {
        Some(TokenView::Equal)
    } else if c == '(' {
        Some(TokenView::LeftParen)
    } else if c == ')' {
        Some(TokenView::RightParen)
    } else {
        None
    }
}

/// A number starts at `i`: a digit, or a point followed by a digit.
pub open spec fn starts_number(s: Seq<char>, i: int) -> bool {
    0 <= i < s.len() && (is_digit(s[i]) || (s[i] == '.' && i + 1 < s.len() && is_digit(s[i + 1])))
}

/// The end of the run of number characters that starts at `i`.
pub open spec fn number_end(s: Seq<char>, i: int) -> int
    decreases s.len() - i,
{
    if 0 <= i < s.len() && is_number_char(s[i]) {
        number_end(s, i + 1)
    } else {
        i
    }
}

/// The end of the run of identifier characters that starts at `i`.
pub open spec fn ident_end(s: Seq<char>, i: int) -> int
    decreases s.len() - i,
{
    if 0 <= i < s.len() && is_ident_char(s[i]) {
        ident_end(s, i + 1)
    } else {
        i
    }
}

/// The number of decimal points in `t`.
pub open spec fn dots(t: Seq<char>) -> nat
    decreases t.len(),
{
    if t.len() == 0 {
        0
    } else {
        dots(t.drop_last()) + if t.last() == '.' { 1nat } else { 0nat }
    }
}

/// Puts `ts` in front of the tokens of a successful result.
pub open spec fn prepend(ts: Seq<TokenView>, r: Result<Seq<TokenView>, Seq<char>>) -> Result<
    Seq<TokenView>,
    Seq<char>,
> {
    match r {
        Ok(rest) => Ok(ts + rest),
        Err(e) => Err(e),
    }
}

/// The tokens of `s` from position `i` on, ended by `End`, or the message of
/// the first lexical error.
pub open spec fn lex_from(s: Seq<char>, i: int) -> Result<Seq<TokenView>, Seq<char>>
    decreases s.len() - i,
{
    if i < 0 || i >= s.len() {
        Ok(seq![TokenView::End])
    } else if starts_number(s, i) {
        let j = number_end(s, i);
        let text = s.subrange(i, j);
        proof {
            lemma_number_end(s, i);
        }
        if dots(text) > 1 {
            Err("Number has more than one decimal point"@)
        } else if text.last() == '.' {
            Err("Invalid number '"@ + text + "'"@)
        } else {
            prepend(seq![TokenView::Number(text)], lex_from(s, j))
        }
    } else if s[i] == '.' {
        Err("Unexpected '.'"@)
    } else if is_alpha(s[i]) {
        let j = ident_end(s, i);
        proof {
            lemma_ident_end(s, i);
        }
        prepend(seq![TokenView::Identifier(s.subrange(i, j))], lex_from(s, j))
    } else if single_token(s[i]) is Some {
        prepend(seq![single_token(s[i])->0], lex_from(s, i + 1))
    } else if is_skipped(s[i]) {
        lex_from(s, i + 1)
    } else {
        Err("Unknown character '"@ + seq![s[i]] + "'"@)
    }
}

/// The tokens of a whole text.
pub open spec fn lex(s: Seq<char>) -> Result<Seq<TokenView>, Seq<char>> {
    lex_from(s, 0)
}

/// The run of number characters at `i` ends within the text, and holds only
/// number characters.
pub proof fn lemma_number_end(s: Seq<char>, i: int)
    requires
        0 <= i <= s.len(),
    ensures
        i <= number_end(s, i) <= s.len(),
        forall|k: int| i <= k < number_end(s, i) ==> is_number_char(#[trigger] s[k]),
        number_end(s, i) < s.len() ==> !is_number_char(s[number_end(s, i)]),
        i < s.len() && is_number_char(s[i]) ==> i < number_end(s, i),
    decreases s.len() - i,
{
    if i < s.len() && is_number_char(s[i]) {
        lemma_number_end(s, i + 1);
    }
}

/// The run of identifier characters at `i` ends within the text, and holds
/// only identifier characters.
pub proof fn lemma_ident_end(s: Seq<char>, i: int)
    requires
        0 <= i <= s.len(),
    ensures
        i <= ident_end(s, i) <= s.len(),
        forall|k: int| i <= k < ident_end(s, i) ==> is_ident_char(#[trigger] s[k]),
        ident_end(s, i) < s.len() ==> !is_ident_char(s[ident_end(s, i)]),
        i < s.len() && is_ident_char(s[i]) ==> i < ident_end(s, i),
    decreases s.len() - i,
{
    if i < s.len() && is_ident_char(s[i]) {
        lemma_ident_end(s, i + 1);
    }
}

proof fn lemma_dots_prefix(t: Seq<char>, k: int)
    requires
        0 <= k <= t.len(),
    ensures
        dots(t.take(k)) <= dots(t),
    decreases t.len() - k,
{
    if k < t.len() {
        lemma_dots_prefix(t.drop_last(), k);
        assert(t.drop_last().take(k) =~= t.take(k));
    } else {
        assert(t.take(k) =~= t);
    }
}

proof fn lemma_prepend_assoc(a: Seq<TokenView>, b: Seq<TokenView>, r: Result<Seq<TokenView>, Seq<char>>)
    ensures
        prepend(a, prepend(b, r)) == prepend(a + b, r),
{
    match r {
        Ok(x) => {
            assert(a + (b + x) =~= (a + b) + x);
        },
        Err(_) => {},
    }
}

/// The text with every `_` written as `-`.
pub open spec fn minus_for_underscore(s: Seq<char>) -> Seq<char> {
    s.map_values(|c: char| if c == '_' { '-' } else { c })
}

proof fn lemma_number_end_same(s: Seq<char>, t: Seq<char>, i: int)
    requires
        t == minus_for_underscore(s),
        0 <= i <= s.len(),
    ensures
        number_end(s, i) == number_end(t, i),
    decreases s.len() - i,
{
    if i < s.len() {
        lemma_number_end_same(s, t, i + 1);
    }
}

proof fn lemma_alias_from(s: Seq<char>, t: Seq<char>, i: int)
    requires
        t == minus_for_underscore(s),
        forall|k: int| 0 <= k < s.len() ==> !is_alpha(#[trigger] s[k]),
        0 <= i <= s.len(),
    ensures
        lex_from(s, i) == lex_from(t, i),
    decreases s.len() - i,
{
    if i < s.len() {
        assert(t[i] == (if s[i] == '_' { '-' } else { s[i] }));
        if i + 1 < s.len() {
            assert(t[i + 1] == (if s[i + 1] == '_' { '-' } else { s[i + 1] }));
        }
        assert(!is_alpha(s[i]));
        if starts_number(s, i) {
            lemma_number_end_same(s, t, i);
            lemma_number_end(s, i);
            let j = number_end(s, i);
            assert(s.subrange(i, j) =~= t.subrange(i, j)) by {
                assert forall|k: int| i <= k < j implies s[k] == t[k] by {
                    assert(is_number_char(s[k]));
                }
            }
            lemma_alias_from(s, t, j);
        } else if s[i] == '.' {
        } else if single_token(s[i]) is Some {
            lemma_alias_from(s, t, i + 1);
        } else if is_skipped(s[i]) {
            lemma_alias_from(s, t, i + 1);
        }
    }
}

/// `_` is another way to write minus: a text without letters reads as the
/// same tokens, or fails with the same message, when each of its `_` is
/// written as `-`.
pub proof fn lemma_underscore_is_minus(s: Seq<char>)
    requires
        forall|k: int| 0 <= k < s.len() ==> !is_alpha(#[trigger] s[k]),
    ensures
        lex(s) == lex(minus_for_underscore(s)),
{
    lemma_alias_from(s, minus_for_underscore(s), 0);
}

/// Executable [`is_digit`].
pub fn digit(c: char) -> (r: bool)
    ensures
        r == is_digit(c),
{
    '0' <= c && c <= '9'
}

/// Executable [`is_alpha`].
pub fn alpha(c: char) -> (r: bool)
    ensures
        r == is_alpha(c),
{
    ('a' <= c && c <= 'z') || ('A' <= c && c <= 'Z')
}

/// Executable [`is_ident_char`].
pub fn ident_char(c: char) -> (r: bool)
    ensures
        r == is_ident_char(c),
{
    digit(c) || alpha(c) || c == '_'
}

/// A lexer over the characters of one text.
pub struct Lexer {
    input: Vec<char>,
    position: usize,
}

impl Lexer {
    /// The characters being read.
    pub closed spec fn chars(&self) -> Seq<char> {
        self.input@
    }

    /// The position of the next character to read.
    pub closed spec fn pos(&self) -> int {
        self.position as int
    }

    pub fn new(source: &str) -> (l: Self)
        ensures
            l.chars() == source@,
            l.pos() == 0,
    {
        Self { input: chars_of(source), position: 0 }
    }

    /// The tokens from the current position to the end, ended by `End`.
    /// The text stays; on success the position is left at its end, so that
    /// a second call gives `End` alone.
    pub fn tokenize(&mut self) -> (r: Result<Vec<Token>, Numora>)
        ensures
            match lex_from(old(self).chars(), old(self).pos()) {
                Ok(ts) => r matches Ok(v) && token_views(v@) == ts,
                Err(m) => lexer_error(r, m),
            },
            final(self).chars() == old(self).chars(),
            r is Ok ==> final(self).pos() == (if old(self).pos() < old(self).chars().len() {
                old(self).chars().len() as int
            } else {
                old(self).pos()
            }),
    {
        let ghost s = self.input@;
        let ghost p0 = self.position as int;
        let mut tokens: Vec<Token> = Vec::new();
        if self.position >= self.input.len() {
            tokens.push(Token::End);
            assert(token_views(tokens@) =~= seq![TokenView::End]);
            return Ok(tokens);
        }
        assert(lex_from(s, p0) == prepend(token_views(tokens@), lex_from(s, p0))) by {
            assert(token_views(tokens@) =~= Seq::<TokenView>::empty());
            match lex_from(s, p0) {
                Ok(x) => {
                    assert(Seq::<TokenView>::empty() + x =~= x);
                },
                Err(_) => {},
            }
        }
        while self.position < self.input.len()
            invariant
                self.input@ == s,
                old(self).input@ == s,
                old(self).position == p0,
                0 <= p0,
                self.position <= s.len(),
                lex_from(s, p0) == prepend(token_views(tokens@), lex_from(s, self.position as int)),
            decreases s.len() - self.position,
        {
            let ghost i = self.position as int;
            let ghost before = token_views(tokens@);
            let ch = self.input[self.position];
            proof {
                lemma_number_end(s, i);
                lemma_ident_end(s, i);
            }
            if digit(ch) || (ch == '.' && self.next_is_digit()) {
                match self.read_number() {
                    Ok(text) => {
                        let ghost tv = text@;
                        tokens.push(Token::Number(text));
                        proof {
                            assert(token_views(tokens@) =~= before + seq![TokenView::Number(tv)]);
                            lemma_prepend_assoc(before, seq![TokenView::Number(tv)], lex_from(s, self.position as int));
                        }
                    },
                    Err(e) => {
                        return Err(e);
                    },
                }
            } else if ch == '.' {
                return Err(Numora::LexerError(string_from("Unexpected '.'")));
            } else if ('a' <= ch && ch <= 'z') || ('A' <= ch && ch <= 'Z') {
                let identifier = self.read_identifier();
                let ghost tv = identifier@;
                tokens.push(Token::Identifier(identifier));
                proof {
                    assert(token_views(tokens@) =~= before + seq![TokenView::Identifier(tv)]);
                    lemma_prepend_assoc(before, seq![TokenView::Identifier(tv)], lex_from(s, self.position as int));
                }
            } else if ch == ' ' || ch == '\t' || ch == '\n' || ch == '\r' {
                self.advance();
            } else {
                match Self::single(ch) {
                    Some(t) => {
                        let ghost tv = t@;
                        tokens.push(t);
                        self.advance();
                        proof {
                            assert(token_views(tokens@) =~= before + seq![tv]);
                            lemma_prepend_assoc(before, seq![tv], lex_from(s, self.position as int));
                        }
                    },
                    None => {
                        let mut msg = string_from("Unknown character '");
                        let mut c: Vec<char> = Vec::new();
                        c.push(ch);
                        append_chars(&mut msg, &c);
                        let q = chars_of("'");
                        append_chars(&mut msg, &q);
                        return Err(Numora::LexerError(msg));
                    },
                }
            }
        }
        let ghost before = token_views(tokens@);
        tokens.push(Token::End);
        assert(token_views(tokens@) =~= before + seq![TokenView::End]);
        Ok(tokens)
    }

    /// The single-character token for `c`, if there is one.
    fn single(c: char) -> (r: Option<Token>)
        ensures
            match single_token(c) {
                Some(t) => r matches Some(x) && x@ == t,
                None => r is None,
            },
    {
        if c == '+' {
            Some(Token::Plus)
        } else if c == '-' || c == '_' {
            Some(Token::Minus)
        } else if c == '*' {
            Some(Token::Star)
        } else if c == '/' {
            Some(Token::Slash)
        } else if c == '^' {
            Some(Token::Power)
        } else if c == ',' {
            Some(Token::Comma)
        } else if c == '=' {
            Some(Token::Equal)
        } else if c == '(' {
            Some(Token::LeftParen)
        } else if c == ')' {
            Some(Token::RightParen)
        } else {
            None
        }
    }

    fn next_is_digit(&self) -> (r: bool)
        ensures
            r == (self.position + 1 < self.input@.len() && is_digit(self.input@[self.position + 1])),
    {
        if self.position < self.input.len() && self.position + 1 < self.input.len() {
            digit(self.input[self.position + 1])
        } else {
            false
        }
    }

    fn advance(&mut self)
        requires
            old(self).position < old(self).input@.len(),
        ensures
            final(self).position == old(self).position + 1,
            final(self).input == old(self).input,
    {
        if self.position < self.input.len() {
            self.position = self.position + 1;
        }
    }

    fn read_number(&mut self) -> (r: Result<String, Numora>)
        requires
            starts_number(old(self).input@, old(self).position as int),
        ensures
            final(self).input@ == old(self).input@,
            ({
                let s = old(self).input@;
                let i = old(self).position as int;
                let text = s.subrange(i, number_end(s, i));
                if dots(text) > 1 {
                    lexer_error(r, "Number has more than one decimal point"@)
                } else if text.last() == '.' {
                    lexer_error(r, "Invalid number '"@ + text + "'"@)
                } else {
                    r matches Ok(t) && t@ == text && final(self).position == number_end(s, i)
                }
            }),
    {
        let ghost s = self.input@;
        let start = self.position;
        proof {
            lemma_number_end(s, start as int);
        }
        let mut number_text: Vec<char> = Vec::new();
        let mut dot_count: usize = 0;
        let mut digit_count: usize = 0;
        while self.position < self.input.len() && (digit(self.input[self.position]) || self.input[self.position] == '.')
            invariant
                self.input@ == s,
                old(self).input@ == s,
                old(self).position == start,
                starts_number(s, start as int),
                start <= self.position <= number_end(s, start as int),
                number_end(s, start as int) <= s.len(),
                forall|k: int| start <= k < number_end(s, start as int) ==> is_number_char(#[trigger] s[k]),
                number_end(s, start as int) < s.len() ==> !is_number_char(s[number_end(s, start as int)]),
                number_text@ == s.subrange(start as int, self.position as int),
                dot_count == dots(number_text@),
                dot_count <= 1,
                digit_count > 0 || self.position == start || (self.position == start + 1 && s[start as int] == '.'),
            decreases s.len() - self.position,
        {
            let ch = self.input[self.position];
            if digit(ch) {
                digit_count = 1;
                number_text.push(ch);
                self.advance();
                assert(number_text@.drop_last() =~= s.subrange(start as int, self.position - 1));
            } else {
                dot_count = dot_count + 1;
                if dot_count > 1 {
                    proof {
                        let t = s.subrange(start as int, number_end(s, start as int));
                        let u = number_text@.push(ch);
                        assert(u.drop_last() =~= number_text@);
                        assert(dots(u) == 2);
                        assert(self.position < number_end(s, start as int)) by {
                            if self.position == number_end(s, start as int) {
                                assert(!is_number_char(s[self.position as int]));
                            }
                        }
                        assert(t.take(self.position + 1 - start) =~= u);
                        lemma_dots_prefix(t, self.position + 1 - start);
                    }
                    return Err(Numora::LexerError(string_from("Number has more than one decimal point")));
                }
                number_text.push(ch);
                self.advance();
                assert(number_text@.drop_last() =~= s.subrange(start as int, self.position - 1));
            }
            proof {
                if self.position > number_end(s, start as int) {
                    assert(false);
                }
            }
        }
        proof {
            if self.position < number_end(s, start as int) {
                assert(is_number_char(s[self.position as int]));
            }
            assert(self.position == number_end(s, start as int));
            assert(self.position > start);
        }
        if digit_count == 0 {
            proof {
                assert(self.position == start + 1 && s[start as int] == '.');
                assert(is_number_char(s[start + 1]));
            }
            let mut msg = string_from("Invalid number '");
            append_chars(&mut msg, &number_text);
            return Err(Numora::LexerError(msg));
        }
        if number_text[number_text.len() - 1] == '.' {
            let mut msg = string_from("Invalid number '");
            append_chars(&mut msg, &number_text);
            let q = chars_of("'");
            append_chars(&mut msg, &q);
            return Err(Numora::LexerError(msg));
        }
        Ok(string_of(&number_text))
    }

    fn read_identifier(&mut self) -> (r: String)
        requires
            old(self).position < old(self).input@.len(),
        ensures
            final(self).input@ == old(self).input@,
            r@ == old(self).input@.subrange(old(self).position as int, ident_end(old(self).input@, old(self).position as int)),
            final(self).position == ident_end(old(self).input@, old(self).position as int),
    {
        let ghost s = self.input@;
        let start = self.position;
        proof {
            lemma_ident_end(s, start as int);
        }
        let mut identifier: Vec<char> = Vec::new();
        while self.position < self.input.len() && ident_char(self.input[self.position])
            invariant
                self.input@ == s,
                old(self).input@ == s,
                old(self).position == start,
                start <= self.position <= ident_end(s, start as int),
                ident_end(s, start as int) <= s.len(),
                forall|k: int| start <= k < ident_end(s, start as int) ==> is_ident_char(#[trigger] s[k]),
                ident_end(s, start as int) < s.len() ==> !is_ident_char(s[ident_end(s, start as int)]),
                identifier@ == s.subrange(start as int, self.position as int),
            decreases s.len() - self.position,
        {
            let ch = self.input[self.position];
            identifier.push(ch);
            self.advance();
            assert(identifier@ =~= s.subrange(start as int, self.position as int));
        }
        proof {
            if self.position < ident_end(s, start as int) {
                assert(is_ident_char(s[self.position as int]));
            }
        }
        string_of(&identifier)
    }
}

} // verus!
