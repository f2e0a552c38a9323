use crate::css::error::{ErrorKind, SyntaxError};
use crate::css::number::{decimal_units, parse_decimal};
use crate::text::{
    chars_of, decimal_digit, ident_start, in_class, is_ident_start, is_in_class, is_numeric,
    lemma_run_end, run_end, string_from_chars, unicode_numeric, CharClass,
};
use vstd::prelude::*;

verus! {

/// A lexical unit of a style sheet. Numbers are held in layout units.
#[derive(Debug)]
pub enum Token {
    Ident(String),
    Hash(String),
    AtKeyword(String),
    String(String),
    Number(i64),
    Percentage(i64),
    Dimension(i64, String),
    Colon,
    SemiColon,
    Comma,
    CurlyOpen,
    CurlyClose,
    BracketOpen,
    BracketClose,
    ParenOpen,
    ParenClose,
    Delim(char),
    EOF,
}

/// What a `Token` denotes.
pub enum TokenView {
    Ident(Seq<char>),
    Hash(Seq<char>),
    AtKeyword(Seq<char>),
    String(Seq<char>),
    Number(int),
    Percentage(int),
    Dimension(int, Seq<char>),
    Colon,
    SemiColon,
    Comma,
    CurlyOpen,
    CurlyClose,
    BracketOpen,
    BracketClose,
    ParenOpen,
    ParenClose,
    Delim(char),
    EOF,
}

impl View for Token {
    type V = TokenView;

    open spec fn view(&self) -> TokenView {
        match *self {
            Token::Ident(s) => TokenView::Ident(s@),
            Token::Hash(s) => TokenView::Hash(s@),
            Token::AtKeyword(s) => TokenView::AtKeyword(s@),
            Token::String(s) => TokenView::String(s@),
            Token::Number(v) => TokenView::Number(v as int),
            Token::Percentage(v) => TokenView::Percentage(v as int),
            Token::Dimension(v, u) => TokenView::Dimension(v as int, u@),
            Token::Colon => TokenView::Colon,
            Token::SemiColon => TokenView::SemiColon,
            Token::Comma => TokenView::Comma,
            Token::CurlyOpen => TokenView::CurlyOpen,
            Token::CurlyClose => TokenView::CurlyClose,
            Token::BracketOpen => TokenView::BracketOpen,
            Token::BracketClose => TokenView::BracketClose,
            Token::ParenOpen => TokenView::ParenOpen,
            Token::ParenClose => TokenView::ParenClose,
            Token::Delim(c) => TokenView::Delim(c),
            Token::EOF => TokenView::EOF,
        }
    }
}

/// The views of a list of tokens.
pub open spec fn token_views(v: Seq<Token>) -> Seq<TokenView> {
    Seq::new(v.len(), |i: int| v[i]@)
}

/// The number token that starts at `p`, and where it ends: a run of digits
/// and dots, read as a length, then `%` for a percentage, or an identifier for
/// a dimension, or nothing for a plain number.
pub open spec fn number_token(input: Seq<char>, p: int) -> (TokenView, int) {
    let e = run_end(input, p, CharClass::Number);
    let v = decimal_units(input.subrange(p, e));
    if e < input.len() && input[e] == '%' {
        (TokenView::Percentage(v), e + 1)
    } else if e < input.len() && ident_start(input[e]) {
        let u = run_end(input, e, CharClass::Ident);
        (TokenView::Dimension(v, input.subrange(e, u)), u)
    } else {
        (TokenView::Number(v), e)
    }
}

/// The token that starts at `p`, and where it ends; an error for a string
/// that is not closed.
pub open spec fn token_at(input: Seq<char>, p: int) -> Result<(TokenView, int), SyntaxError> {
    let c = input[p];
    if c == ':' {
        Ok((TokenView::Colon, p + 1))
    } else if c == ';' {
        Ok((TokenView::SemiColon, p + 1))
    } else if c == ',' {
        Ok((TokenView::Comma, p + 1))
    } else if c == '{' {
        Ok((TokenView::CurlyOpen, p + 1))
    } else if c == '}' {
        Ok((TokenView::CurlyClose, p + 1))
    } else if c == '(' {
        Ok((TokenView::ParenOpen, p + 1))
    } else if c == ')' {
        Ok((TokenView::ParenClose, p + 1))
    } else if c == '[' {
        Ok((TokenView::BracketOpen, p + 1))
    } else if c == ']' {
        Ok((TokenView::BracketClose, p + 1))
    } else if c == '#' {
        let e = run_end(input, p + 1, CharClass::Ident);
        Ok((TokenView::Hash(input.subrange(p + 1, e)), e))
    } else if c == '.' {
        if p + 1 < input.len() && unicode_numeric(input[p + 1]) {
            Ok(number_token(input, p))
        } else {
            Ok((TokenView::Delim('.'), p + 1))
        }
    } else if decimal_digit(c) {
        Ok(number_token(input, p))
    } else if c == '"' || c == '\'' {
        let e = run_end(input, p + 1, CharClass::Unquoted(c));
        if e < input.len() {
            Ok((TokenView::String(input.subrange(p + 1, e)), e + 1))
        } else {
            Err(SyntaxError { kind: ErrorKind::UnterminatedString, position: p as usize })
        }
    } else if ident_start(c) {
        let e = run_end(input, p, CharClass::Ident);
        Ok((TokenView::Ident(input.subrange(p, e)), e))
    } else {
        Ok((TokenView::Delim(c), p + 1))
    }
}

/// A token ends behind its start and within the input.
pub proof fn lemma_token_at(input: Seq<char>, p: int)
    requires
        0 <= p < input.len(),
    ensures
        token_at(input, p) matches Ok((_, next)) ==> p < next <= input.len(),
{
    let c = input[p];
    lemma_run_end(input, p + 1, CharClass::Ident);
    lemma_run_end(input, p, CharClass::Ident);
    lemma_run_end(input, p + 1, CharClass::Unquoted(c));
    lemma_run_end(input, p, CharClass::Number);
    let e = run_end(input, p, CharClass::Number);
    lemma_run_end(input, e, CharClass::Ident);
    if c == '.' && p + 1 < input.len() && unicode_numeric(input[p + 1]) {
        assert(in_class(CharClass::Number, input[p]));
        assert(e > p);
    }
    if decimal_digit(c) {
        assert(in_class(CharClass::Number, input[p]));
        assert(e > p);
    }
    if ident_start(c) {
        assert(in_class(CharClass::Ident, input[p]));
    }
}

/// The tokens of `input` from `pos` on: white space is passed over, and token
/// follows token up to the end; an error where a token cannot be read.
pub open spec fn scan(input: Seq<char>, pos: int) -> Result<Seq<TokenView>, SyntaxError>
    decreases input.len() - pos,
{
    let p = run_end(input, pos, CharClass::Space);
    if pos < 0 || p >= input.len() {
        Ok(Seq::empty())
    } else {
        match token_at(input, p) {
            Err(e) => Err(e),
            Ok((token, next)) => {
                proof {
                    lemma_run_end(input, pos, CharClass::Space);
                    lemma_token_at(input, p);
                }
                match scan(input, next) {
                    Err(e) => Err(e),
                    Ok(rest) => Ok(seq![token] + rest),
                }
            },
        }
    }
}

/// A scanner over the characters of a style sheet.
pub struct Tokenizer {
    pos: usize,
    input: Vec<char>,
}

impl Tokenizer {
    /// The characters that the scanner reads.
    pub closed spec fn text(&self) -> Seq<char> {
        self.input@
    }

    /// The place of the next character to read.
    pub closed spec fn place(&self) -> int {
        self.pos as int
    }

    /// Whether the place lies within the text or at its end.
    pub open spec fn wf(&self) -> bool {
        0 <= self.place() <= self.text().len()
    }

    /// A scanner at the start of `css_input`.
    pub fn new(css_input: String) -> (t: Tokenizer)
        ensures
            t.text() == css_input@,
            t.place() == 0,
            t.wf(),
    {
        Tokenizer { pos: 0, input: chars_of(css_input.as_str()) }
    }

    /// Whether all of the text has been read.
    pub fn eof(&self) -> (r: bool)
        ensures
            r == (self.place() >= self.text().len()),
    {
        self.pos >= self.input.len()
    }

    /// The next character; the null character at the end of the text.
    pub fn curr_char(&self) -> (c: char)
        ensures
            c == if self.place() < self.text().len() {
                self.text()[self.place()]
            } else {
                '\0'
            },
    {
        if self.eof() {
            '\0'
        } else {
            self.input[self.pos]
        }
    }

    /// The character behind the next; the null character where there is none.
    pub fn next_char(&self) -> (c: char)
        ensures
            c == if self.place() + 1 < self.text().len() {
                self.text()[self.place() + 1]
            } else {
                '\0'
            },
    {
        if self.pos >= self.input.len() || self.pos + 1 >= self.input.len() {
            '\0'
        } else {
            self.input[self.pos + 1]
        }
    }

    /// Reads one character.
    pub fn consume(&mut self) -> (c: char)
        requires
            old(self).place() < old(self).text().len(),
        ensures
            c == old(self).text()[old(self).place()],
            final(self).text() == old(self).text(),
            final(self).place() == old(self).place() + 1,
    {
        let len = self.input.len();
        let c = self.input[self.pos];
        assert(self.pos < len);
        self.pos += 1;
        c
    }

    /// Passes over the longest run of characters of the class and returns
    /// where it ends.
    fn skip_while(&mut self, class: CharClass) -> (end: usize)
        requires
            old(self).wf(),
        ensures
            final(self).text() == old(self).text(),
            final(self).place() == run_end(old(self).text(), old(self).place(), class),
            end == final(self).place(),
            final(self).wf(),
    {
        while self.pos < self.input.len() && is_in_class(class, self.input[self.pos])
            invariant
                self.input == old(self).input,
                old(self).pos <= self.pos <= self.input@.len(),
                run_end(self.input@, old(self).pos as int, class) == run_end(
                    self.input@,
                    self.pos as int,
                    class,
                ),
            decreases self.input@.len() - self.pos,
        {
            self.pos += 1;
        }
        self.pos
    }

    /// Reads the longest run of characters of the class.
    pub fn consume_while(&mut self, class: CharClass) -> (s: String)
        requires
            old(self).wf(),
        ensures
            final(self).text() == old(self).text(),
            final(self).place() == run_end(old(self).text(), old(self).place(), class),
            s@ == old(self).text().subrange(old(self).place(), final(self).place()),
            final(self).wf(),
    {
        let start = self.pos;
        let end = self.skip_while(class);
        proof {
            lemma_run_end(self.input@, start as int, class);
        }
        string_from_chars(&self.input, start, end)
    }

    /// Passes over white space.
    pub fn consume_whitespace(&mut self)
        requires
            old(self).wf(),
        ensures
            final(self).text() == old(self).text(),
            final(self).place() == run_end(old(self).text(), old(self).place(), CharClass::Space),
            final(self).wf(),
    {
        let _ = self.skip_while(CharClass::Space);
    }

    /// Reads the longest run of identifier characters.
    pub fn consume_ident(&mut self) -> (s: String)
        requires
            old(self).wf(),
        ensures
            final(self).text() == old(self).text(),
            final(self).place() == run_end(old(self).text(), old(self).place(), CharClass::Ident),
            s@ == old(self).text().subrange(old(self).place(), final(self).place()),
            final(self).wf(),
    {
        self.consume_while(CharClass::Ident)
    }

    /// Reads a number with what follows it directly: `%`, a unit, or nothing.
    fn consume_numeric(&mut self) -> (t: Token)
        requires
            old(self).wf(),
        ensures
            final(self).text() == old(self).text(),
            (t@, final(self).place()) == number_token(old(self).text(), old(self).place()),
            final(self).wf(),
    {
        let start = self.pos;
        let end = self.skip_while(CharClass::Number);
        proof {
            lemma_run_end(self.input@, start as int, CharClass::Number);
            lemma_run_end(self.input@, end as int, CharClass::Ident);
        }
        let num = parse_decimal(&self.input, start, end);
        if !self.eof() && self.curr_char() == '%' {
            let _ = self.consume();
            Token::Percentage(num)
        } else if !self.eof() && is_ident_start(self.curr_char()) {
            let unit = self.consume_ident();
            Token::Dimension(num, unit)
        } else {
            Token::Number(num)
        }
    }

    /// Reads a string between two quotes `quote`, the first of which is the
    /// next character.
    fn consume_string(&mut self, quote: char) -> (r: Result<Token, SyntaxError>)
        requires
            old(self).wf(),
            old(self).place() < old(self).text().len(),
        ensures
            final(self).text() == old(self).text(),
            final(self).wf(),
            ({
                let e = run_end(old(self).text(), old(self).place() + 1, CharClass::Unquoted(quote));
                if e < old(self).text().len() {
                    &&& r matches Ok(t)
                    &&& t@ == TokenView::String(
                        old(self).text().subrange(old(self).place() + 1, e),
                    )
                    &&& final(self).place() == e + 1
                } else {
                    r == Err::<Token, SyntaxError>(
                        SyntaxError {
                            kind: ErrorKind::UnterminatedString,
                            position: old(self).place() as usize,
                        },
                    )
                }
            }),
    {
        let opened = self.pos;
        let _ = self.consume();
        proof {
            lemma_run_end(self.input@, self.pos as int, CharClass::Unquoted(quote));
        }
        let s = self.consume_while(CharClass::Unquoted(quote));
        if self.eof() {
            return Err(SyntaxError { kind: ErrorKind::UnterminatedString, position: opened });
        }
        let _ = self.consume();
        Ok(Token::String(s))
    }
}

impl Tokenizer {
    /// Passes over white space and reads the next token; `EOF` at the end of
    /// the text.
    #[verifier::rlimit(40)]
    pub fn next_token(&mut self) -> (r: Result<Token, SyntaxError>)
        requires
            old(self).wf(),
        ensures
            final(self).text() == old(self).text(),
            final(self).wf(),
            ({
                let p = run_end(old(self).text(), old(self).place(), CharClass::Space);
                if p >= old(self).text().len() {
                    r matches Ok(t) && t@ == TokenView::EOF && final(self).place() == p
                } else {
                    match token_at(old(self).text(), p) {
                        Ok((token, next)) => r matches Ok(t) && t@ == token && final(self).place()
                            == next,
                        Err(e) => r == Err::<Token, SyntaxError>(e),
                    }
                }
            }),
    {
        self.consume_whitespace();
        if self.eof() {
            return Ok(Token::EOF);
        }
        proof {
            lemma_token_at(self.input@, self.pos as int);
        }
        let c = self.curr_char();
        if c == ':' {
            let _ = self.consume();
            Ok(Token::Colon)
        } else if c == ';' {
            let _ = self.consume();
            Ok(Token::SemiColon)
        } else if c == ',' {
            let _ = self.consume();
            Ok(Token::Comma)
        } else if c == '{' {
            let _ = self.consume();
            Ok(Token::CurlyOpen)
        } else if c == '}' {
            let _ = self.consume();
            Ok(Token::CurlyClose)
        } else if c == '(' {
            let _ = self.consume();
            Ok(Token::ParenOpen)
        } else if c == ')' {
            let _ = self.consume();
            Ok(Token::ParenClose)
        } else if c == '[' {
            let _ = self.consume();
            Ok(Token::BracketOpen)
        } else if c == ']' {
            let _ = self.consume();
            Ok(Token::BracketClose)
        } else if c == '#' {
            let _ = self.consume();
            proof {
                lemma_run_end(self.input@, self.pos as int, CharClass::Ident);
            }
            Ok(Token::Hash(self.consume_ident()))
        } else if c == '.' {
            let follows = self.next_char();
            if self.input.len() - self.pos > 1 && is_numeric(follows) {
                Ok(self.consume_numeric())
            } else {
                let _ = self.consume();
                Ok(Token::Delim('.'))
            }
        } else if '0' <= c && c <= '9' {
            Ok(self.consume_numeric())
        } else if c == '"' || c == '\'' {
            self.consume_string(c)
        } else if is_ident_start(c) {
            Ok(Token::Ident(self.consume_ident()))
        } else {
            let _ = self.consume();
            Ok(Token::Delim(c))
        }
    }

    /// The tokens of `css_input`, in order, without the closing `EOF`.
    #[verifier::rlimit(40)]
    pub fn parse_token(css_input: String) -> (r: Result<Vec<Token>, SyntaxError>)
        ensures
            match scan(css_input@, 0) {
                Ok(tokens) => r matches Ok(v) && token_views(v@) == tokens,
                Err(e) => r == Err::<Vec<Token>, SyntaxError>(e),
            },
    {
        let mut tokenizer = Tokenizer::new(css_input);
        let mut tokens: Vec<Token> = Vec::new();
        let ghost input = css_input@;
        loop
            invariant
                tokenizer.wf(),
                tokenizer.text() == input,
                input == css_input@,
                match scan(input, tokenizer.place()) {
                    Ok(rest) => scan(input, 0) == Ok::<Seq<TokenView>, SyntaxError>(
                        token_views(tokens@) + rest,
                    ),
                    Err(e) => scan(input, 0) == Err::<Seq<TokenView>, SyntaxError>(e),
                },
            decreases input.len() - tokenizer.place(),
        {
            let ghost before = tokenizer.place();
            let ghost seen = token_views(tokens@);
            proof {
                lemma_run_end(input, before, CharClass::Space);
                let p = run_end(input, before, CharClass::Space);
                if p < input.len() {
                    lemma_token_at(input, p);
                }
            }
            match tokenizer.next_token() {
                Err(e) => {
                    return Err(e);
                },
                Ok(token) => {
                    if let Token::EOF = token {
                        assert(scan(input, before) == Ok::<Seq<TokenView>, SyntaxError>(
                            Seq::empty(),
                        )) by {
                            let p = run_end(input, before, CharClass::Space);
                            if p < input.len() {
                                lemma_no_eof_token(input, p);
                            }
                        }
                        assert(seen + Seq::<TokenView>::empty() =~= seen);
                        return Ok(tokens);
                    }
                    proof {
                        let p = run_end(input, before, CharClass::Space);
                        assert(p < input.len());
                    }
                    tokens.push(token);
                    proof {
                        assert(token_views(tokens@) =~= seen.push(token@));
                        match scan(input, tokenizer.place()) {
                            Ok(rest) => {
                                assert(seen + (seq![token@] + rest) =~= seen.push(token@) + rest);
                            },
                            Err(e) => {},
                        }
                    }
                },
            }
        }
    }
}

/// No token read from the text is `EOF`.
proof fn lemma_no_eof_token(input: Seq<char>, p: int)
    requires
        0 <= p < input.len(),
    ensures
        token_at(input, p) matches Ok((t, _)) ==> !(t is EOF),
{
}

impl Clone for Token {
    fn clone(&self) -> (r: Token)
        ensures
            r@ == self@,
    {
        match self {
            Token::Ident(s) => Token::Ident(s.clone()),
            Token::Hash(s) => Token::Hash(s.clone()),
            Token::AtKeyword(s) => Token::AtKeyword(s.clone()),
            Token::String(s) => Token::String(s.clone()),
            Token::Number(v) => Token::Number(*v),
            Token::Percentage(v) => Token::Percentage(*v),
            Token::Dimension(v, u) => Token::Dimension(*v, u.clone()),
            Token::Colon => Token::Colon,
            Token::SemiColon => Token::SemiColon,
            Token::Comma => Token::Comma,
            Token::CurlyOpen => Token::CurlyOpen,
            Token::CurlyClose => Token::CurlyClose,
            Token::BracketOpen => Token::BracketOpen,
            Token::BracketClose => Token::BracketClose,
            Token::ParenOpen => Token::ParenOpen,
            Token::ParenClose => Token::ParenClose,
            Token::Delim(c) => Token::Delim(*c),
            Token::EOF => Token::EOF,
        }
    }
}

impl Token {
    /// Whether two tokens denote the same thing.
    pub fn same(&self, other: &Token) -> (r: bool)
        ensures
            r == (self@ == other@),
    {
        match (self, other) {
            (Token::Ident(a), Token::Ident(b)) => *a == *b,
            (Token::Hash(a), Token::Hash(b)) => *a == *b,
            (Token::AtKeyword(a), Token::AtKeyword(b)) => *a == *b,
            (Token::String(a), Token::String(b)) => *a == *b,
            (Token::Number(a), Token::Number(b)) => *a == *b,
            (Token::Percentage(a), Token::Percentage(b)) => *a == *b,
            (Token::Dimension(a, u), Token::Dimension(b, v)) => *a == *b && *u == *v,
            (Token::Colon, Token::Colon) => true,
            (Token::SemiColon, Token::SemiColon) => true,
            (Token::Comma, Token::Comma) => true,
            (Token::CurlyOpen, Token::CurlyOpen) => true,
            (Token::CurlyClose, Token::CurlyClose) => true,
            (Token::BracketOpen, Token::BracketOpen) => true,
            (Token::BracketClose, Token::BracketClose) => true,
            (Token::ParenOpen, Token::ParenOpen) => true,
            (Token::ParenClose, Token::ParenClose) => true,
            (Token::Delim(a), Token::Delim(b)) => *a == *b,
            (Token::EOF, Token::EOF) => true,
            _ => false,
        }
    }
}

impl PartialEq for Token {
    fn eq(&self, other: &Token) -> (r: bool) {
        self.same(other)
    }
}

impl vstd::std_specs::cmp::PartialEqSpecImpl for Token {
    open spec fn obeys_eq_spec() -> bool {
        true
    }

    open spec fn eq_spec(&self, other: &Token) -> bool {
        self@ == other@
    }
}

} // verus!
