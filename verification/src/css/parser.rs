use crate::css::error::{ErrorKind, SyntaxError};
use crate::css::grammar::{
    any_element, arranged, declaration, declarations, hex_color, hex_value, lemma_selector,
    lemma_selector_list, lemma_simple_selector, ranks_of, rule, rules, selector, selector_chain,
    selector_list, simple_selector, stylesheet, token, unexpected, value_at,
};
use crate::css::lexical::{scan, token_views, Token, TokenView, Tokenizer};
use crate::css::stylesheet::{
    Color, Declaration, DeclarationView, Rule, RuleView, Selector, SelectorView, SimpleSelector,
    Specificity, Stylesheet, Unit, Value,
};
use crate::order::{lemma_stable_order, sort_places};
use crate::text::{chars_of, names};
use vstd::prelude::*;

verus! {

/// A parser over the tokens of a style sheet.
pub struct CssParser {
    pos: usize,
    tokens: Vec<Token>,
}

/// The style sheet that `source` stands for: the rules that its tokens make,
/// or the first error met, of the scanner or of the parser.
pub open spec fn parsed(source: Seq<char>) -> Result<Seq<RuleView>, SyntaxError> {
    match scan(source, 0) {
        Err(e) => Err(e),
        Ok(tokens) => stylesheet(tokens),
    }
}

impl CssParser {
    /// The tokens that the parser reads.
    pub closed spec fn stream(&self) -> Seq<TokenView> {
        token_views(self.tokens@)
    }

    /// The place of the next token to read.
    pub closed spec fn place(&self) -> int {
        self.pos as int
    }

    /// Whether the place lies within the tokens or at their end.
    pub open spec fn wf(&self) -> bool {
        0 <= self.place() <= self.stream().len()
    }

    /// A parser at the start of the tokens of `css_input`.
    fn new(css_input: String) -> (r: Result<CssParser, SyntaxError>)
        ensures
            match scan(css_input@, 0) {
                Ok(tokens) => r matches Ok(p) && p.stream() == tokens && p.place() == 0 && p.wf(),
                Err(e) => r matches Err(f) && f == e,
            },
    {
        match Tokenizer::parse_token(css_input) {
            Ok(tokens) => Ok(CssParser { pos: 0, tokens: tokens }),
            Err(e) => Err(e),
        }
    }

    /// Whether all tokens have been read.
    fn eof(&self) -> (r: bool)
        ensures
            r == (self.place() >= self.stream().len()),
    {
        self.pos >= self.tokens.len()
    }

    /// The next token; `EOF` behind the last.
    fn curr_token(&self) -> (t: Token)
        ensures
            t@ == token(self.stream(), self.place()),
    {
        if self.pos >= self.tokens.len() {
            Token::EOF
        } else {
            self.tokens[self.pos].clone()
        }
    }

    /// Reads one token.
    fn consume(&mut self) -> (t: Token)
        requires
            old(self).place() < old(self).stream().len(),
        ensures
            t@ == old(self).stream()[old(self).place()],
            final(self).stream() == old(self).stream(),
            final(self).place() == old(self).place() + 1,
    {
        let len = self.tokens.len();
        let token = self.tokens[self.pos].clone();
        assert(self.pos < len);
        self.pos += 1;
        token
    }

    /// The error for the next token, which the grammar has no place for.
    fn fail(&self) -> (e: SyntaxError)
        requires
            self.wf(),
        ensures
            e == unexpected(self.stream(), self.place()),
    {
        SyntaxError {
            kind: if self.pos >= self.tokens.len() {
                ErrorKind::UnexpectedEnd
            } else {
                ErrorKind::UnexpectedToken
            },
            position: self.pos,
        }
    }
}

impl CssParser {
    /// Reads a simple selector: a tag, an id, classes and `*` in any order, up
    /// to the first token that is none of them or that is a second tag or id.
    fn parse_simple_selector(&mut self) -> (r: Result<SimpleSelector, SyntaxError>)
        requires
            old(self).wf(),
        ensures
            final(self).stream() == old(self).stream(),
            final(self).wf(),
            match simple_selector(old(self).stream(), old(self).place(), any_element()) {
                Ok((s, next)) => r matches Ok(x) && x@ == s && final(self).place() == next,
                Err(e) => r matches Err(f) && f == e,
            },
    {
        let mut selector = SimpleSelector { tag: None, id: None, class: Vec::new() };
        assert(selector@ == any_element()) by {
            assert(names(selector.class@) =~= Seq::<Seq<char>>::empty());
        }
        loop
            invariant
                self.wf(),
                self.stream() == old(self).stream(),
                simple_selector(old(self).stream(), old(self).place(), any_element())
                    == simple_selector(self.stream(), self.place(), selector@),
            decreases self.stream().len() - self.place(),
        {
            match self.curr_token() {
                Token::Hash(id) => {
                    if selector.id.is_some() {
                        return Ok(selector);
                    }
                    let _ = self.consume();
                    selector.id = Some(id);
                },
                Token::Delim('.') => {
                    let _ = self.consume();
                    if self.eof() {
                        return Err(self.fail());
                    }
                    let ghost before = selector@;
                    if let Token::Ident(class_name) = self.curr_token() {
                        let _ = self.consume();
                        selector.class.push(class_name);
                        assert(selector@.class =~= before.class.push(class_name@));
                    } else {
                        return Err(self.fail());
                    }
                },
                Token::Delim('*') => {
                    let _ = self.consume();
                },
                Token::Ident(tag) => {
                    if selector.tag.is_some() {
                        return Ok(selector);
                    }
                    let _ = self.consume();
                    selector.tag = Some(tag);
                },
                _ => {
                    return Ok(selector);
                },
            }
        }
    }

    /// Reads one selector of a selector list: a simple selector and the
    /// simple selectors joined to it, up to a `,` or a `{`.
    #[verifier::rlimit(40)]
    fn parse_selector_chain(&mut self) -> (r: Result<Selector, SyntaxError>)
        requires
            old(self).wf(),
        ensures
            final(self).stream() == old(self).stream(),
            final(self).wf(),
            match selector(old(self).stream(), old(self).place()) {
                Ok((s, next)) => r matches Ok(x) && x@ == s && final(self).place() == next,
                Err(e) => r matches Err(f) && f == e,
            },
    {
        let first = match self.parse_simple_selector() {
            Ok(s) => s,
            Err(e) => {
                return Err(e);
            },
        };
        let mut chain = Selector::Simple(first);
        loop
            invariant
                self.wf(),
                self.stream() == old(self).stream(),
                selector(old(self).stream(), old(self).place()) == selector_chain(
                    self.stream(),
                    self.place(),
                    chain@,
                ),
            decreases self.stream().len() - self.place(),
        {
            if self.eof() {
                return Ok(chain);
            }
            proof {
                lemma_simple_selector(self.stream(), self.place(), any_element());
                lemma_simple_selector(self.stream(), self.place() + 1, any_element());
            }
            match self.curr_token() {
                Token::Comma | Token::CurlyOpen => {
                    return Ok(chain);
                },
                Token::Delim('>') => {
                    let _ = self.consume();
                    let next = match self.parse_simple_selector() {
                        Ok(s) => s,
                        Err(e) => {
                            return Err(e);
                        },
                    };
                    let ghost left = chain@;
                    let right = Selector::Simple(next);
                    assert(right@ == SelectorView::Simple(next@));
                    chain = Selector::Child(Box::new(chain), Box::new(right));
                    assert(chain@ == SelectorView::Child(
                        Box::new(left),
                        Box::new(SelectorView::Simple(next@)),
                    ));
                },
                Token::Delim('+') => {
                    let _ = self.consume();
                    let next = match self.parse_simple_selector() {
                        Ok(s) => s,
                        Err(e) => {
                            return Err(e);
                        },
                    };
                    let ghost left = chain@;
                    let right = Selector::Simple(next);
                    assert(right@ == SelectorView::Simple(next@));
                    chain = Selector::AdjacentSibling(Box::new(chain), Box::new(right));
                    assert(chain@ == SelectorView::AdjacentSibling(
                        Box::new(left),
                        Box::new(SelectorView::Simple(next@)),
                    ));
                },
                Token::Delim('~') => {
                    let _ = self.consume();
                    let next = match self.parse_simple_selector() {
                        Ok(s) => s,
                        Err(e) => {
                            return Err(e);
                        },
                    };
                    let ghost left = chain@;
                    let right = Selector::Simple(next);
                    assert(right@ == SelectorView::Simple(next@));
                    chain = Selector::GeneralSibling(Box::new(chain), Box::new(right));
                    assert(chain@ == SelectorView::GeneralSibling(
                        Box::new(left),
                        Box::new(SelectorView::Simple(next@)),
                    ));
                },
                Token::Hash(_) | Token::Delim('.') | Token::Delim('*') | Token::Ident(_) => {
                    let next = match self.parse_simple_selector() {
                        Ok(s) => s,
                        Err(e) => {
                            return Err(e);
                        },
                    };
                    let ghost left = chain@;
                    let right = Selector::Simple(next);
                    assert(right@ == SelectorView::Simple(next@));
                    chain = Selector::Descendant(Box::new(chain), Box::new(right));
                    assert(chain@ == SelectorView::Descendant(
                        Box::new(left),
                        Box::new(SelectorView::Simple(next@)),
                    ));
                },
                _ => {
                    return Err(self.fail());
                },
            }
        }
    }
}

/// The views of a list of selectors.
pub open spec fn selector_views(v: Seq<Selector>) -> Seq<SelectorView> {
    Seq::new(v.len(), |i: int| v[i]@)
}

/// The views of a list of declarations.
pub open spec fn declaration_views(v: Seq<Declaration>) -> Seq<DeclarationView> {
    Seq::new(v.len(), |i: int| v[i]@)
}

/// The number that the hexadecimal digit `c` stands for, if it is one.
pub fn hex_digit(c: char) -> (r: Option<u8>)
    ensures
        r is Some <==> hex_value(c) is Some,
        r matches Some(v) ==> v == hex_value(c)->0 && v < 16,
{
    let code: u32 = c as u32;
    if '0' <= c && c <= '9' {
        Some((code - 48) as u8)
    } else if 'a' <= c && c <= 'f' {
        Some((code - 97 + 10) as u8)
    } else if 'A' <= c && c <= 'F' {
        Some((code - 65 + 10) as u8)
    } else {
        None
    }
}

/// The opaque colour that six hexadecimal digits `rrggbb` stand for; none for
/// any other text.
pub fn parse_color(text: &String) -> (r: Option<Color>)
    ensures
        r == hex_color(text@),
{
    let chars = chars_of(text.as_str());
    if chars.len() != 6 {
        return None;
    }
    let mut digits: Vec<u8> = Vec::new();
    let mut i: usize = 0;
    while i < 6
        invariant
            i <= 6,
            chars@.len() == 6,
            digits@.len() == i,
            chars@ == text@,
            forall|j: int|
                0 <= j < i ==> hex_value(#[trigger] chars@[j]) == Some(digits@[j] as int)
                    && digits@[j] < 16,
        decreases 6 - i,
    {
        match hex_digit(chars[i]) {
            Some(v) => {
                digits.push(v);
            },
            None => {
                assert(hex_value(text@[i as int]) is None);
                return None;
            },
        }
        i += 1;
    }
    Some(
        Color {
            r: digits[0] * 16 + digits[1],
            g: digits[2] * 16 + digits[3],
            b: digits[4] * 16 + digits[5],
            a: 255,
        },
    )
}

impl CssParser {
    /// Reads a selector list up to its `{`, which stays unread, and puts the
    /// selectors in stable descending order of rank.
    #[verifier::rlimit(40)]
    fn parse_selectors(&mut self) -> (r: Result<Vec<Selector>, SyntaxError>)
        requires
            old(self).wf(),
        ensures
            final(self).stream() == old(self).stream(),
            final(self).wf(),
            match selector_list(old(self).stream(), old(self).place(), Seq::empty()) {
                Ok((s, next)) => r matches Ok(v) && selector_views(v@) == arranged(s)
                    && final(self).place() == next,
                Err(e) => r matches Err(f) && f == e,
            },
    {
        let mut selectors: Vec<Selector> = Vec::new();
        assert(selector_views(selectors@) =~= Seq::<SelectorView>::empty());
        loop
            invariant_except_break
                selector_list(old(self).stream(), old(self).place(), Seq::empty())
                    == selector_list(self.stream(), self.place(), selector_views(selectors@)),
            invariant
                self.wf(),
                self.stream() == old(self).stream(),
            ensures
                selector_list(old(self).stream(), old(self).place(), Seq::empty()) == Ok::<
                    (Seq<SelectorView>, int),
                    SyntaxError,
                >((selector_views(selectors@), self.place())),
            decreases self.stream().len() - self.place(),
        {
            proof {
                lemma_selector(self.stream(), self.place());
            }
            let ghost seen = selector_views(selectors@);
            let chain = match self.parse_selector_chain() {
                Ok(s) => s,
                Err(e) => {
                    return Err(e);
                },
            };
            selectors.push(chain);
            assert(selector_views(selectors@) =~= seen.push(chain@));
            match self.curr_token() {
                Token::Comma => {
                    let _ = self.consume();
                },
                Token::CurlyOpen => {
                    break ;
                },
                _ => {
                    return Err(self.fail());
                },
            }
        }
        let mut ranks: Vec<Specificity> = Vec::new();
        let mut i: usize = 0;
        while i < selectors.len()
            invariant
                i <= selectors@.len(),
                ranks@.len() == i,
                forall|j: int|
                    0 <= j < i ==> #[trigger] ranks@[j] == ranks_of(selector_views(selectors@))[j],
            decreases selectors@.len() - i,
        {
            ranks.push(selectors[i].specificity());
            i += 1;
        }
        assert(ranks@ =~= ranks_of(selector_views(selectors@)));
        let order = sort_places(&ranks, true);
        proof {
            lemma_stable_order(ranks@, ranks@.len(), true);
        }
        let mut sorted: Vec<Selector> = Vec::new();
        let mut t: usize = 0;
        while t < order.len()
            invariant
                t <= order@.len(),
                order@.len() == selectors@.len(),
                forall|j: int| 0 <= j < order@.len() ==> #[trigger] order@[j] < selectors@.len(),
                sorted@.len() == t,
                forall|j: int| 0 <= j < t ==> #[trigger] sorted@[j]@ == selectors@[order@[j] as int]@,
            decreases order@.len() - t,
        {
            sorted.push(selectors[order[t]].clone());
            t += 1;
        }
        assert(selector_views(sorted@) =~= arranged(selector_views(selectors@)));
        Ok(sorted)
    }
}

impl CssParser {
    /// Reads a value: a number is a length in pixels, a hash a colour, an
    /// identifier a keyword.
    fn parse_value(&mut self) -> (r: Result<Value, SyntaxError>)
        requires
            old(self).wf(),
        ensures
            final(self).stream() == old(self).stream(),
            final(self).wf(),
            match value_at(old(self).stream(), old(self).place()) {
                Ok(v) => r matches Ok(x) && x@ == v && final(self).place() == old(self).place() + 1
                    && old(self).place() < old(self).stream().len(),
                Err(e) => r matches Err(f) && f == e,
            },
    {
        if self.eof() {
            return Err(self.fail());
        }
        let at = self.pos;
        match self.curr_token() {
            Token::Dimension(v, unit) => {
                let px = String::from_str("px");
                if unit == px {
                    let _ = self.consume();
                    Ok(Value::Length(v, Unit::Px))
                } else {
                    Err(SyntaxError { kind: ErrorKind::UnknownUnit, position: at })
                }
            },
            Token::Number(v) => {
                let _ = self.consume();
                Ok(Value::Length(v, Unit::Px))
            },
            Token::Hash(text) => match parse_color(&text) {
                Some(c) => {
                    let _ = self.consume();
                    Ok(Value::ColorValue(c))
                },
                None => Err(SyntaxError { kind: ErrorKind::InvalidColor, position: at }),
            },
            Token::Ident(s) => {
                let _ = self.consume();
                Ok(Value::Keyword(s))
            },
            _ => Err(self.fail()),
        }
    }

    /// Reads one declaration: a name, `:`, a value and `;`.
    fn parse_declaration(&mut self) -> (r: Result<Declaration, SyntaxError>)
        requires
            old(self).wf(),
        ensures
            final(self).stream() == old(self).stream(),
            final(self).wf(),
            match declaration(old(self).stream(), old(self).place()) {
                Ok(d) => r matches Ok(x) && x@ == d && final(self).place() == old(self).place() + 4,
                Err(e) => r matches Err(f) && f == e,
            },
    {
        let name = match self.curr_token() {
            Token::Ident(name) => name,
            _ => {
                return Err(self.fail());
            },
        };
        let _ = self.consume();
        match self.curr_token() {
            Token::Colon => {},
            _ => {
                return Err(self.fail());
            },
        }
        let _ = self.consume();
        let value = match self.parse_value() {
            Ok(v) => v,
            Err(e) => {
                return Err(e);
            },
        };
        match self.curr_token() {
            Token::SemiColon => {},
            _ => {
                return Err(self.fail());
            },
        }
        let _ = self.consume();
        Ok(Declaration { name: name, value: value })
    }

    /// Reads the declarations of a rule, from behind its `{` to behind its `}`.
    fn parse_declarations(&mut self) -> (r: Result<Vec<Declaration>, SyntaxError>)
        requires
            old(self).wf(),
        ensures
            final(self).stream() == old(self).stream(),
            final(self).wf(),
            match declarations(old(self).stream(), old(self).place(), Seq::empty()) {
                Ok((d, next)) => r matches Ok(v) && final(self).place() == next
                    && declaration_views(v@) == d,
                Err(e) => r matches Err(f) && f == e,
            },
    {
        let mut decls: Vec<Declaration> = Vec::new();
        assert(declaration_views(decls@) =~= Seq::<DeclarationView>::empty());
        loop
            invariant
                self.wf(),
                self.stream() == old(self).stream(),
                declarations(old(self).stream(), old(self).place(), Seq::empty()) == declarations(
                    self.stream(),
                    self.place(),
                    declaration_views(decls@),
                ),
            decreases self.stream().len() - self.place(),
        {
            if let Token::CurlyClose = self.curr_token() {
                let _ = self.consume();
                return Ok(decls);
            }
            let ghost seen = declaration_views(decls@);
            let d = match self.parse_declaration() {
                Ok(d) => d,
                Err(e) => {
                    return Err(e);
                },
            };
            decls.push(d);
            assert(declaration_views(decls@) =~= seen.push(d@));
        }
    }

    /// Reads one rule: a selector list and the declarations between `{` and `}`.
    fn parse_rule(&mut self) -> (r: Result<Rule, SyntaxError>)
        requires
            old(self).wf(),
        ensures
            final(self).stream() == old(self).stream(),
            final(self).wf(),
            match rule(old(self).stream(), old(self).place()) {
                Ok((x, next)) => r matches Ok(v) && v@ == x && final(self).place() == next,
                Err(e) => r matches Err(f) && f == e,
            },
    {
        proof {
            lemma_selector_list(self.stream(), self.place(), Seq::empty());
        }
        let selectors = match self.parse_selectors() {
            Ok(s) => s,
            Err(e) => {
                return Err(e);
            },
        };
        let _ = self.consume();
        let declarations = match self.parse_declarations() {
            Ok(d) => d,
            Err(e) => {
                return Err(e);
            },
        };
        let r = Rule { selectors: selectors, declarations: declarations };
        assert(r@.selectors =~= selector_views(r.selectors@));
        assert(r@.declarations =~= declaration_views(r.declarations@));
        Ok(r)
    }

    /// The style sheet that the tokens stand for: its rules in order. Nothing
    /// is returned for tokens with an error in them but the first error.
    pub fn parse_tokens(tokens: Vec<Token>) -> (r: Result<Stylesheet, SyntaxError>)
        ensures
            match stylesheet(token_views(tokens@)) {
                Ok(sheet) => r matches Ok(s) && s@ == sheet,
                Err(e) => r matches Err(f) && f == e,
            },
    {
        let ghost stream = token_views(tokens@);
        let mut css_parser = CssParser { pos: 0, tokens: tokens };
        let mut found: Vec<Rule> = Vec::new();
        assert(Seq::new(found@.len(), |i: int| found@[i]@) =~= Seq::<RuleView>::empty());
        loop
            invariant
                css_parser.wf(),
                css_parser.stream() == stream,
                stream == token_views(tokens@),
                stylesheet(stream) == rules(
                    stream,
                    css_parser.place(),
                    Seq::new(found@.len(), |i: int| found@[i]@),
                ),
            decreases stream.len() - css_parser.place(),
        {
            if css_parser.eof() {
                return Ok(Stylesheet { rules: found });
            }
            proof {
                crate::css::grammar::lemma_rule(stream, css_parser.place());
            }
            let ghost seen = Seq::new(found@.len(), |i: int| found@[i]@);
            let next = match css_parser.parse_rule() {
                Ok(r) => r,
                Err(e) => {
                    return Err(e);
                },
            };
            found.push(next);
            assert(Seq::new(found@.len(), |i: int| found@[i]@) =~= seen.push(next@));
        }
    }

    /// The style sheet that `css_input` stands for: its rules in the order of
    /// the source. Nothing is returned for a source with an error in it but
    /// the first error.
    pub fn parse_stylesheet(css_input: String) -> (r: Result<Stylesheet, SyntaxError>)
        ensures
            match parsed(css_input@) {
                Ok(sheet) => r matches Ok(s) && s@ == sheet,
                Err(e) => r matches Err(f) && f == e,
            },
    {
        match Self::new(css_input) {
            Ok(css_parser) => Self::parse_tokens(css_parser.tokens),
            Err(e) => Err(e),
        }
    }
}

} // verus!
