//! The lexer: from the characters of a query to its tokens.

use crate::error::DatabaseError;
use crate::sql::keyword::{keyword_of, Keyword};
use crate::text::chars_of;
use vstd::prelude::*;
use vstd::string::*;

verus! {

/// One token of a query. A float literal keeps its decimal text.
#[derive(Debug, Clone, PartialEq)]
pub enum Token {
    Keyword(Keyword),
    Identifier(String),
    Integer(i64),
    Float(String),
    String(String),
    Comma,
    Asterisk,
    SemiColon,
    LeftParen,
    RightParen,
    Equal,
    NotEqual,
    GreaterThan,
    GreaterThanEqual,
    LessThan,
    LessThanEqual,
    Plus,
    Minus,
    Slash,
}

/// The content of a [`Token`].
pub enum TokenView {
    Keyword(Keyword),
    Identifier(Seq<char>),
    Integer(i64),
    Float(Seq<char>),
    String(Seq<char>),
    Comma,
    Asterisk,
    SemiColon,
    LeftParen,
    RightParen,
    Equal,
    NotEqual,
    GreaterThan,
    GreaterThanEqual,
    LessThan,
    LessThanEqual,
    Plus,
    Minus,
    Slash,
}

impl View for Token {
    type V = TokenView;

    open spec fn view(&self) -> TokenView {
        match *self {
            Token::Keyword(k) => TokenView::Keyword(k),
            Token::Identifier(s) => TokenView::Identifier(s@),
            Token::Integer(n) => TokenView::Integer(n),
            Token::Float(s) => TokenView::Float(s@),
            Token::String(s) => TokenView::String(s@),
            Token::Comma => TokenView::Comma,
            Token::Asterisk => TokenView::Asterisk,
            Token::SemiColon => TokenView::SemiColon,
            Token::LeftParen => TokenView::LeftParen,
            Token::RightParen => TokenView::RightParen,
            Token::Equal => TokenView::Equal,
            Token::NotEqual => TokenView::NotEqual,
            Token::GreaterThan => TokenView::GreaterThan,
            Token::GreaterThanEqual => TokenView::GreaterThanEqual,
            Token::LessThan => TokenView::LessThan,
            Token::LessThanEqual => TokenView::LessThanEqual,
            Token::Plus => TokenView::Plus,
            Token::Minus => TokenView::Minus,
            Token::Slash => TokenView::Slash,
        }
    }
}

/// The contents of a vector of tokens.
pub open spec fn tokens_view(tokens: Seq<Token>) -> Seq<TokenView> {
    Seq::new(tokens.len(), |i: int| tokens[i]@)
}

/// Blank, tab, line feed or carriage return.
pub open spec fn is_space(c: char) -> bool {
    c == ' ' || c == '\t' || c == '\n' || c == '\r'
}

pub open spec fn is_digit(c: char) -> bool {
    '0' <= c <= '9'
}

/// An ASCII letter or an underscore: what a word starts with.
pub open spec fn is_letter(c: char) -> bool {
    ('a' <= c <= 'z') || ('A' <= c <= 'Z') || c == '_'
}

/// The first index from `pos` on whose character is no space, or the length of `s`.
pub open spec fn spaces_end(s: Seq<char>, pos: int) -> int
    decreases s.len() - pos,
{
    if 0 <= pos < s.len() && is_space(s[pos]) {
        spaces_end(s, pos + 1)
    } else {
        pos
    }
}

/// The first index from `pos` on whose character is no letter and no digit,
/// or the length of `s`.
pub open spec fn word_end(s: Seq<char>, pos: int) -> int
    decreases s.len() - pos,
{
    if 0 <= pos < s.len() && (is_letter(s[pos]) || is_digit(s[pos])) {
        word_end(s, pos + 1)
    } else {
        pos
    }
}

/// The first index from `pos` on whose character is no digit and no point,
/// or the length of `s`.
pub open spec fn number_end(s: Seq<char>, pos: int) -> int
    decreases s.len() - pos,
{
    if 0 <= pos < s.len() && (is_digit(s[pos]) || s[pos] == '.') {
        number_end(s, pos + 1)
    } else {
        pos
    }
}

/// The first index from `pos` on whose character is `quote`, or the length of `s`.
pub open spec fn quote_at(s: Seq<char>, pos: int, quote: char) -> int
    decreases s.len() - pos,
{
    if 0 <= pos < s.len() && s[pos] != quote {
        quote_at(s, pos + 1, quote)
    } else {
        pos
    }
}

/// The number of points among the first `n` characters of `s`.
pub open spec fn points(s: Seq<char>, n: int) -> int
    decreases n,
{
    if n <= 0 {
        0
    } else {
        points(s, n - 1) + if s[n - 1] == '.' {
            1int
        } else {
            0int
        }
    }
}

/// The number that the first `n` characters of `s`, all digits, write in base ten.
pub open spec fn decimal(s: Seq<char>, n: int) -> int
    decreases n,
{
    if n <= 0 {
        0
    } else {
        decimal(s, n - 1) * 10 + (s[n - 1] as u32 - '0' as u32)
    }
}

/// What the lexer makes of the characters at one place.
pub enum Lexed {
    /// A token, and the index just behind it.
    Token(TokenView, int),
    /// No token starts here.
    Error,
}

/// The token that a number starting at `p` makes: an integer without a
/// point, a float with one; no token with more points, or for an integer
/// beyond the 64-bit range.
pub open spec fn lex_number(s: Seq<char>, p: int) -> Lexed {
    let end = number_end(s, p);
    let text = s.subrange(p, end);
    if points(text, text.len() as int) == 0 {
        if decimal(text, text.len() as int) <= i64::MAX {
            Lexed::Token(TokenView::Integer(decimal(text, text.len() as int) as i64), end)
        } else {
            Lexed::Error
        }
    } else if points(text, text.len() as int) == 1 {
        Lexed::Token(TokenView::Float(text), end)
    } else {
        Lexed::Error
    }
}

/// The token that starts at index `p` of `s`, where `p` is within `s`.
pub open spec fn lex_one(s: Seq<char>, p: int) -> Lexed {
    let c = s[p];
    let follows_equal = p + 1 < s.len() && s[p + 1] == '=';
    if c == ',' {
        Lexed::Token(TokenView::Comma, p + 1)
    } else if c == '*' {
        Lexed::Token(TokenView::Asterisk, p + 1)
    } else if c == ';' {
        Lexed::Token(TokenView::SemiColon, p + 1)
    } else if c == '(' {
        Lexed::Token(TokenView::LeftParen, p + 1)
    } else if c == ')' {
        Lexed::Token(TokenView::RightParen, p + 1)
    } else if c == '+' {
        Lexed::Token(TokenView::Plus, p + 1)
    } else if c == '-' {
        Lexed::Token(TokenView::Minus, p + 1)
    } else if c == '/' {
        Lexed::Token(TokenView::Slash, p + 1)
    } else if c == '=' {
        Lexed::Token(TokenView::Equal, p + 1)
    } else if c == '<' {
        if follows_equal {
            Lexed::Token(TokenView::LessThanEqual, p + 2)
        } else {
            Lexed::Token(TokenView::LessThan, p + 1)
        }
    } else if c == '>' {
        if follows_equal {
            Lexed::Token(TokenView::GreaterThanEqual, p + 2)
        } else {
            Lexed::Token(TokenView::GreaterThan, p + 1)
        }
    } else if c == '!' {
        if follows_equal {
            Lexed::Token(TokenView::NotEqual, p + 2)
        } else {
            Lexed::Error
        }
    } else if c == '\'' {
        let close = quote_at(s, p + 1, '\'');
        if close < s.len() {
            Lexed::Token(TokenView::String(s.subrange(p + 1, close)), close + 1)
        } else {
            Lexed::Error
        }
    } else if c == '"' {
        let close = quote_at(s, p + 1, '"');
        if close < s.len() {
            Lexed::Token(TokenView::Identifier(s.subrange(p + 1, close)), close + 1)
        } else {
            Lexed::Error
        }
    } else if is_digit(c) {
        lex_number(s, p)
    } else if is_letter(c) {
        let end = word_end(s, p);
        let word = s.subrange(p, end);
        match keyword_of(word) {
            Some(k) => Lexed::Token(TokenView::Keyword(k), end),
            None => Lexed::Token(TokenView::Identifier(word), end),
        }
    } else {
        Lexed::Error
    }
}

/// The tokens of `s` from index `pos` on, up to the end of `s` or to the
/// first place where no token starts.
pub open spec fn lex_tokens(s: Seq<char>, pos: int) -> Seq<TokenView>
    decreases s.len() - pos,
{
    let p = spaces_end(s, pos);
    if p < pos || p >= s.len() {
        Seq::empty()
    } else {
        match lex_one(s, p) {
            Lexed::Token(t, next) => if p < next <= s.len() {
                seq![t] + lex_tokens(s, next)
            } else {
                Seq::empty()
            },
            Lexed::Error => Seq::empty(),
        }
    }
}

/// Whether lexing `s` from index `pos` on reaches the end of `s`, and does
/// not stop at a place where no token starts.
pub open spec fn lex_complete(s: Seq<char>, pos: int) -> bool
    decreases s.len() - pos,
{
    let p = spaces_end(s, pos);
    if p < pos || p >= s.len() {
        true
    } else {
        match lex_one(s, p) {
            Lexed::Token(t, next) => p < next <= s.len() && lex_complete(s, next),
            Lexed::Error => false,
        }
    }
}

proof fn lemma_spaces_end(s: Seq<char>, pos: int)
    requires
        0 <= pos <= s.len(),
    ensures
        pos <= spaces_end(s, pos) <= s.len(),
        spaces_end(s, pos) < s.len() ==> !is_space(s[spaces_end(s, pos)]),
    decreases s.len() - pos,
{
    if pos < s.len() && is_space(s[pos]) {
        lemma_spaces_end(s, pos + 1);
    }
}

proof fn lemma_word_end(s: Seq<char>, pos: int)
    requires
        0 <= pos <= s.len(),
    ensures
        pos <= word_end(s, pos) <= s.len(),
    decreases s.len() - pos,
{
    if pos < s.len() && (is_letter(s[pos]) || is_digit(s[pos])) {
        lemma_word_end(s, pos + 1);
    }
}

proof fn lemma_number_end(s: Seq<char>, pos: int)
    requires
        0 <= pos <= s.len(),
    ensures
        pos <= number_end(s, pos) <= s.len(),
    decreases s.len() - pos,
{
    if pos < s.len() && (is_digit(s[pos]) || s[pos] == '.') {
        lemma_number_end(s, pos + 1);
    }
}

/// A lexer over the characters of one query.
pub struct Lexer<'a> {
    /// The query.
    pub whole: &'a str,
    /// The characters of the query.
    pub chars: Vec<char>,
    /// The index of the first character not yet consumed.
    pub position: usize,
}

impl<'a> Lexer<'a> {
    /// The lexer invariant: the characters are those of the query, and the
    /// position lies within them.
    pub open spec fn wf(self) -> bool {
        self.chars@ == self.whole@ && self.position <= self.chars@.len()
    }

    pub fn new(input: &'a str) -> (lexer: Self)
        ensures
            lexer.wf(),
            lexer.whole@ == input@,
            lexer.position == 0,
    {
        Self { whole: input, chars: chars_of(input), position: 0 }
    }

    /// Moves the position to the next character that is no space.
    pub fn skip_whitespace(&mut self)
        requires
            old(self).wf(),
        ensures
            final(self).wf(),
            final(self).whole == old(self).whole,
            final(self).chars == old(self).chars,
            final(self).position == spaces_end(old(self).chars@, old(self).position as int),
    {
        let n: usize = self.chars.len();
        let ghost start = self.position;
        while self.position < n && is_space_char(self.chars[self.position])
            invariant
                self.wf(),
                self.whole == old(self).whole,
                self.chars == old(self).chars,
                n == self.chars@.len(),
                spaces_end(self.chars@, start as int) == spaces_end(
                    self.chars@,
                    self.position as int,
                ),
            decreases n - self.position,
        {
            self.position += 1;
        }
    }

    /// The index behind the word that starts at the position.
    fn scan_word(&self) -> (end: usize)
        requires
            self.wf(),
        ensures
            end == word_end(self.chars@, self.position as int),
            self.position <= end <= self.chars@.len(),
    {
        let n: usize = self.chars.len();
        let mut end: usize = self.position;
        while end < n && (is_letter_char(self.chars[end]) || is_digit_char(self.chars[end]))
            invariant
                self.position <= end <= n,
                n == self.chars@.len(),
                word_end(self.chars@, self.position as int) == word_end(self.chars@, end as int),
            decreases n - end,
        {
            end += 1;
        }
        end
    }

    /// The index behind the number that starts at the position.
    fn scan_number(&self) -> (end: usize)
        requires
            self.wf(),
        ensures
            end == number_end(self.chars@, self.position as int),
            self.position <= end <= self.chars@.len(),
            forall|k: int|
                self.position <= k < end ==> is_digit(#[trigger] self.chars@[k]) || self.chars@[k]
                    == '.',
    {
        let n: usize = self.chars.len();
        let mut end: usize = self.position;
        while end < n && (is_digit_char(self.chars[end]) || self.chars[end] == '.')
            invariant
                self.position <= end <= n,
                n == self.chars@.len(),
                number_end(self.chars@, self.position as int) == number_end(
                    self.chars@,
                    end as int,
                ),
                forall|k: int|
                    self.position <= k < end ==> is_digit(#[trigger] self.chars@[k])
                        || self.chars@[k] == '.',
            decreases n - end,
        {
            end += 1;
        }
        end
    }

    /// The index of the first `quote` from `from` on, or the length of the input.
    fn scan_quote(&self, from: usize, quote: char) -> (at: usize)
        requires
            self.wf(),
            from <= self.chars@.len(),
        ensures
            at == quote_at(self.chars@, from as int, quote),
            from <= at <= self.chars@.len(),
    {
        let n: usize = self.chars.len();
        let mut at: usize = from;
        while at < n && self.chars[at] != quote
            invariant
                from <= at <= n,
                n == self.chars@.len(),
                quote_at(self.chars@, from as int, quote) == quote_at(self.chars@, at as int, quote),
            decreases n - at,
        {
            at += 1;
        }
        at
    }

    /// The characters from `from` up to `to`, as a string.
    fn text(&self, from: usize, to: usize) -> (text: String)
        requires
            self.wf(),
            from <= to <= self.chars@.len(),
        ensures
            text@ == self.chars@.subrange(from as int, to as int),
    {
        self.whole.substring_char(from, to).to_owned()
    }

    /// The token that the number from the position up to `end` makes.
    fn number_token(&self, end: usize) -> (r: Option<Token>)
        requires
            self.wf(),
            end == number_end(self.chars@, self.position as int),
            self.position <= end <= self.chars@.len(),
            forall|k: int|
                self.position <= k < end ==> is_digit(#[trigger] self.chars@[k]) || self.chars@[k]
                    == '.',
        ensures
            match lex_number(self.chars@, self.position as int) {
                Lexed::Token(t, next) => r matches Some(token) && token@ == t && next == end,
                Lexed::Error => r is None,
            },
    {
        let ghost text = self.chars@.subrange(self.position as int, end as int);
        let len: usize = end - self.position;
        let mut dots: usize = 0;
        let mut value: u64 = 0;
        let mut overflow: bool = false;
        let mut i: usize = 0;
        while i < len
            invariant
                i <= len,
                len == text.len(),
                self.position + len == end,
                end <= self.chars@.len(),
                text == self.chars@.subrange(self.position as int, end as int),
                forall|k: int| 0 <= k < len ==> is_digit(#[trigger] text[k]) || text[k] == '.',
                dots == points(text, i as int),
                dots <= i,
                dots == 0 && !overflow ==> value == decimal(text, i as int) && value <= i64::MAX,
                dots == 0 ==> overflow == (decimal(text, i as int) > i64::MAX),
            decreases len - i,
        {
            let c: char = self.chars[self.position + i];
            assert(c == text[i as int]);
            if c == '.' {
                dots += 1;
            } else if dots == 0 && !overflow {
                let digit: u64 = (c as u32 - '0' as u32) as u64;
                if value > 922_337_203_685_477_580 {
                    overflow = true;
                } else {
                    let next: u64 = value * 10 + digit;
                    if next > 0x7fff_ffff_ffff_ffff {
                        overflow = true;
                    } else {
                        value = next;
                    }
                }
            } else if dots == 0 {
                assert(decimal(text, i + 1) >= decimal(text, i as int) * 10);
            }
            i += 1;
        }
        if dots == 0 {
            if overflow {
                None
            } else {
                Some(Token::Integer(value as i64))
            }
        } else if dots == 1 {
            Some(Token::Float(self.text(self.position, end)))
        } else {
            None
        }
    }

    /// The next token, `None` at the end of the input, or an error where no
    /// token starts; the lexer then stays at that place.
    pub fn next(&mut self) -> (r: Option<Result<Token, DatabaseError>>)
        requires
            old(self).wf(),
        ensures
            final(self).wf(),
            final(self).whole == old(self).whole,
            final(self).chars == old(self).chars,
            ({
                let s = old(self).chars@;
                let p = spaces_end(s, old(self).position as int);
                if p >= s.len() {
                    r is None && final(self).position == p
                } else {
                    match lex_one(s, p) {
                        Lexed::Token(t, next) => r matches Some(Ok(token)) && token@ == t
                            && final(self).position == next && p < next <= s.len(),
                        Lexed::Error => r matches Some(Err(DatabaseError::InvalidQuery(_)))
                            && final(self).position == p,
                    }
                }
            }),
    {
        self.skip_whitespace();
        let n: usize = self.chars.len();
        let p: usize = self.position;
        if p >= n {
            return None;
        }
        let c: char = self.chars[p];
        let follows_equal: bool = p + 1 < n && self.chars[p + 1] == '=';
        let mut next: usize = p + 1;
        let token: Option<Token> = if c == ',' {
            Some(Token::Comma)
        } else if c == '*' {
            Some(Token::Asterisk)
        } else if c == ';' {
            Some(Token::SemiColon)
        } else if c == '(' {
            Some(Token::LeftParen)
        } else if c == ')' {
            Some(Token::RightParen)
        } else if c == '+' {
            Some(Token::Plus)
        } else if c == '-' {
            Some(Token::Minus)
        } else if c == '/' {
            Some(Token::Slash)
        } else if c == '=' {
            Some(Token::Equal)
        } else if c == '<' {
            if follows_equal {
                next = p + 2;
                Some(Token::LessThanEqual)
            } else {
                Some(Token::LessThan)
            }
        } else if c == '>' {
            if follows_equal {
                next = p + 2;
                Some(Token::GreaterThanEqual)
            } else {
                Some(Token::GreaterThan)
            }
        } else if c == '!' {
            if follows_equal {
                next = p + 2;
                Some(Token::NotEqual)
            } else {
                None
            }
        } else if c == '\'' {
            let close: usize = self.scan_quote(p + 1, '\'');
            if close < n {
                next = close + 1;
                Some(Token::String(self.text(p + 1, close)))
            } else {
                None
            }
        } else if c == '"' {
            let close: usize = self.scan_quote(p + 1, '"');
            if close < n {
                next = close + 1;
                Some(Token::Identifier(self.text(p + 1, close)))
            } else {
                None
            }
        } else if is_digit_char(c) {
            let end: usize = self.scan_number();
            next = end;
            assert(number_end(self.chars@, p as int) == number_end(self.chars@, p + 1));
            proof {
                lemma_number_end(self.chars@, p + 1);
            }
            self.number_token(end)
        } else if is_letter_char(c) {
            let end: usize = self.scan_word();
            next = end;
            assert(word_end(self.chars@, p as int) == word_end(self.chars@, p + 1));
            proof {
                lemma_word_end(self.chars@, p + 1);
            }
            let word = vstd::slice::slice_subrange(self.chars.as_slice(), p, end);
            match Keyword::from_word(word) {
                Some(k) => Some(Token::Keyword(k)),
                None => Some(Token::Identifier(self.text(p, end))),
            }
        } else {
            None
        };
        match token {
            Some(token) => {
                self.position = next;
                Some(Ok(token))
            },
            None => Some(
                Err(DatabaseError::InvalidQuery("Unexpected character in query".to_string())),
            ),
        }
    }

    /// All tokens from the position on, up to the end of the input or to the
    /// first place where no token starts, and the error met there, if any.
    pub fn collect(&mut self) -> (r: (Vec<Token>, Option<DatabaseError>))
        requires
            old(self).wf(),
        ensures
            final(self).wf(),
            tokens_view(r.0@) == lex_tokens(old(self).chars@, old(self).position as int),
            r.1 is None <==> lex_complete(old(self).chars@, old(self).position as int),
            r.1 matches Some(e) ==> e is InvalidQuery,
    {
        let mut tokens: Vec<Token> = Vec::new();
        let ghost s = self.chars@;
        let ghost start = self.position as int;
        loop
            invariant
                self.wf(),
                self.chars@ == s,
                s == old(self).chars@,
                start == old(self).position,
                lex_tokens(s, start) == tokens_view(tokens@) + lex_tokens(s, self.position as int),
                lex_complete(s, start) == lex_complete(s, self.position as int),
            decreases s.len() - self.position,
        {
            let ghost before = tokens_view(tokens@);
            let ghost at = self.position as int;
            let ghost p = spaces_end(s, at);
            proof {
                lemma_spaces_end(s, at);
            }
            match self.next() {
                None => {
                    assert(lex_tokens(s, at) =~= Seq::<TokenView>::empty());
                    assert(lex_complete(s, at));
                    assert(before + Seq::<TokenView>::empty() =~= before);
                    return (tokens, None);
                },
                Some(Err(e)) => {
                    assert(lex_tokens(s, at) =~= Seq::<TokenView>::empty());
                    assert(!lex_complete(s, at));
                    assert(before + Seq::<TokenView>::empty() =~= before);
                    return (tokens, Some(e));
                },
                Some(Ok(token)) => {
                    tokens.push(token);
                    assert(lex_tokens(s, at) == seq![token@] + lex_tokens(s, self.position as int));
                    assert(lex_complete(s, at) == lex_complete(s, self.position as int));
                    assert(tokens_view(tokens@) =~= before + seq![token@]);
                    assert(before + (seq![token@] + lex_tokens(s, self.position as int)) =~= (
                    before + seq![token@]) + lex_tokens(s, self.position as int));
                },
            }
        }
    }

    /// All tokens of the rest of the input.
    ///
    /// Fails with `InvalidQuery` where a character starts no token: a `!`
    /// without `=`, a quote that is not closed, a number with two points or
    /// beyond the 64-bit range, or a character that the dialect does not use.
    pub fn parse(&mut self) -> (r: Result<Vec<Token>, DatabaseError>)
        requires
            old(self).wf(),
        ensures
            final(self).wf(),
            r is Ok <==> lex_complete(old(self).chars@, old(self).position as int),
            r matches Ok(tokens) ==> tokens_view(tokens@) == lex_tokens(
                old(self).chars@,
                old(self).position as int,
            ),
            r matches Err(e) ==> e is InvalidQuery,
    {
        let (tokens, error) = self.collect();
        match error {
            None => Ok(tokens),
            Some(e) => Err(e),
        }
    }
}

fn is_space_char(c: char) -> (b: bool)
    ensures
        b == is_space(c),
{
    c == ' ' || c == '\t' || c == '\n' || c == '\r'
}

fn is_digit_char(c: char) -> (b: bool)
    ensures
        b == is_digit(c),
{
    '0' <= c && c <= '9'
}

fn is_letter_char(c: char) -> (b: bool)
    ensures
        b == is_letter(c),
{
    ('a' <= c && c <= 'z') || ('A' <= c && c <= 'Z') || c == '_'
}

} // verus!
