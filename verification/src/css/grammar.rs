use crate::css::error::{ErrorKind, SyntaxError};
use crate::css::lexical::TokenView;
use crate::text::decimal_digit;
use crate::css::number::digit_value;
use crate::css::stylesheet::{
    capped_rank, Color, DeclarationView, RuleView, SelectorView, SimpleSelectorView, Specificity,
    Unit, ValueView,
};
use crate::order::stable_order;
use vstd::prelude::*;

verus! {

/// The token at `pos`; `EOF` behind the last token.
pub open spec fn token(tokens: Seq<TokenView>, pos: int) -> TokenView {
    if 0 <= pos < tokens.len() {
        tokens[pos]
    } else {
        TokenView::EOF
    }
}

/// The error for a token at `pos` that the grammar has no place for: the end
/// of the input where `pos` lies behind the last token.
pub open spec fn unexpected(tokens: Seq<TokenView>, pos: int) -> SyntaxError {
    SyntaxError {
        kind: if pos >= tokens.len() {
            ErrorKind::UnexpectedEnd
        } else {
            ErrorKind::UnexpectedToken
        },
        position: pos as usize,
    }
}

/// The simple selector that matches everything.
pub open spec fn any_element() -> SimpleSelectorView {
    SimpleSelectorView { tag: None, id: None, class: Seq::empty() }
}

/// The simple selector that the tokens from `pos` on add to `so_far`, and the
/// place of the first token that is no part of it. An identifier sets the tag,
/// a hash the id, `.` and an identifier add a class, `*` adds nothing. A
/// simple selector has one tag and one id at most: an identifier behind a tag
/// and a hash behind an id are no part of it, they start the next one.
pub open spec fn simple_selector(tokens: Seq<TokenView>, pos: int, so_far: SimpleSelectorView) -> Result<
    (SimpleSelectorView, int),
    SyntaxError,
>
    decreases tokens.len() - pos,
{
    if pos < 0 || pos >= tokens.len() {
        Ok((so_far, pos))
    } else {
        match tokens[pos] {
            TokenView::Hash(id) => if so_far.id is Some {
                Ok((so_far, pos))
            } else {
                simple_selector(
                    tokens,
                    pos + 1,
                    SimpleSelectorView { tag: so_far.tag, id: Some(id), class: so_far.class },
                )
            },
            TokenView::Delim(c) => if c == '.' {
                match token(tokens, pos + 1) {
                    TokenView::Ident(name) => simple_selector(
                        tokens,
                        pos + 2,
                        SimpleSelectorView {
                            tag: so_far.tag,
                            id: so_far.id,
                            class: so_far.class.push(name),
                        },
                    ),
                    _ => Err(unexpected(tokens, pos + 1)),
                }
            } else if c == '*' {
                simple_selector(tokens, pos + 1, so_far)
            } else {
                Ok((so_far, pos))
            },
            TokenView::Ident(tag) => if so_far.tag is Some {
                Ok((so_far, pos))
            } else {
                simple_selector(
                    tokens,
                    pos + 1,
                    SimpleSelectorView { tag: Some(tag), id: so_far.id, class: so_far.class },
                )
            },
            _ => Ok((so_far, pos)),
        }
    }
}

/// Whether a simple selector can start with the token.
pub open spec fn starts_simple(t: TokenView) -> bool {
    match t {
        TokenView::Hash(_) => true,
        TokenView::Ident(_) => true,
        TokenView::Delim(c) => c == '.' || c == '*',
        _ => false,
    }
}

/// A simple selector ends at or behind its start and within the tokens, and
/// behind its start if it has neither tag nor id so far and a token stands
/// there that starts one.
pub proof fn lemma_simple_selector(tokens: Seq<TokenView>, pos: int, so_far: SimpleSelectorView)
    requires
        0 <= pos <= tokens.len(),
    ensures
        simple_selector(tokens, pos, so_far) matches Ok((_, next)) ==> pos <= next <= tokens.len()
            && (pos < tokens.len() && starts_simple(tokens[pos]) && so_far.tag is None
            && so_far.id is None ==> pos < next),
    decreases tokens.len() - pos,
{
    if pos < tokens.len() {
        match tokens[pos] {
            TokenView::Hash(id) => if so_far.id is None {
                lemma_simple_selector(
                    tokens,
                    pos + 1,
                    SimpleSelectorView { tag: so_far.tag, id: Some(id), class: so_far.class },
                )
            },
            TokenView::Delim(c) => if c == '.' {
                match token(tokens, pos + 1) {
                    TokenView::Ident(name) => lemma_simple_selector(
                        tokens,
                        pos + 2,
                        SimpleSelectorView {
                            tag: so_far.tag,
                            id: so_far.id,
                            class: so_far.class.push(name),
                        },
                    ),
                    _ => {},
                }
            } else if c == '*' {
                lemma_simple_selector(tokens, pos + 1, so_far)
            },
            TokenView::Ident(tag) => if so_far.tag is None {
                lemma_simple_selector(
                    tokens,
                    pos + 1,
                    SimpleSelectorView { tag: Some(tag), id: so_far.id, class: so_far.class },
                )
            },
            _ => {},
        }
    }
}

/// The selector that the tokens from `pos` on make of `left` by joining
/// further simple selectors to it, and the place of the `,` or `{` or the end
/// of the tokens that closes it. `>`, `+` and `~` join the next simple
/// selector as child, adjacent sibling and general sibling; a simple selector
/// that follows directly is joined as descendant.
pub open spec fn selector_chain(tokens: Seq<TokenView>, pos: int, left: SelectorView) -> Result<
    (SelectorView, int),
    SyntaxError,
>
    decreases tokens.len() - pos,
{
    if pos < 0 || pos >= tokens.len() {
        Ok((left, pos))
    } else {
        let t = tokens[pos];
        if t is Comma || t is CurlyOpen {
            Ok((left, pos))
        } else if t is Delim && (t->Delim_0 == '>' || t->Delim_0 == '+' || t->Delim_0 == '~') {
            match simple_selector(tokens, pos + 1, any_element()) {
                Err(e) => Err(e),
                Ok((s, next)) => {
                    proof {
                        lemma_simple_selector(tokens, pos + 1, any_element());
                    }
                    let right = Box::new(SelectorView::Simple(s));
                    let joined = if t->Delim_0 == '>' {
                        SelectorView::Child(Box::new(left), right)
                    } else if t->Delim_0 == '+' {
                        SelectorView::AdjacentSibling(Box::new(left), right)
                    } else {
                        SelectorView::GeneralSibling(Box::new(left), right)
                    };
                    selector_chain(tokens, next, joined)
                },
            }
        } else if starts_simple(t) {
            match simple_selector(tokens, pos, any_element()) {
                Err(e) => Err(e),
                Ok((s, next)) => {
                    proof {
                        lemma_simple_selector(tokens, pos, any_element());
                    }
                    selector_chain(
                        tokens,
                        next,
                        SelectorView::Descendant(Box::new(left), Box::new(SelectorView::Simple(s))),
                    )
                },
            }
        } else {
            Err(unexpected(tokens, pos))
        }
    }
}

/// One selector of a selector list: a simple selector and what is joined to it.
pub open spec fn selector(tokens: Seq<TokenView>, pos: int) -> Result<(SelectorView, int), SyntaxError> {
    match simple_selector(tokens, pos, any_element()) {
        Err(e) => Err(e),
        Ok((s, next)) => selector_chain(tokens, next, SelectorView::Simple(s)),
    }
}

/// A selector ends at or behind its start and within the tokens.
pub proof fn lemma_selector_chain(tokens: Seq<TokenView>, pos: int, left: SelectorView)
    requires
        0 <= pos <= tokens.len(),
    ensures
        selector_chain(tokens, pos, left) matches Ok((_, next)) ==> pos <= next <= tokens.len(),
    decreases tokens.len() - pos,
{
    if pos < tokens.len() {
        let t = tokens[pos];
        if t is Comma || t is CurlyOpen {
        } else if t is Delim && (t->Delim_0 == '>' || t->Delim_0 == '+' || t->Delim_0 == '~') {
            lemma_simple_selector(tokens, pos + 1, any_element());
            match simple_selector(tokens, pos + 1, any_element()) {
                Err(e) => {},
                Ok((s, next)) => {
                    let right = Box::new(SelectorView::Simple(s));
                    let joined = if t->Delim_0 == '>' {
                        SelectorView::Child(Box::new(left), right)
                    } else if t->Delim_0 == '+' {
                        SelectorView::AdjacentSibling(Box::new(left), right)
                    } else {
                        SelectorView::GeneralSibling(Box::new(left), right)
                    };
                    lemma_selector_chain(tokens, next, joined);
                },
            }
        } else if starts_simple(t) {
            lemma_simple_selector(tokens, pos, any_element());
            match simple_selector(tokens, pos, any_element()) {
                Err(e) => {},
                Ok((s, next)) => {
                    lemma_selector_chain(
                        tokens,
                        next,
                        SelectorView::Descendant(Box::new(left), Box::new(SelectorView::Simple(s))),
                    );
                },
            }
        }
    }
}

/// The simple selector that names the tag and nothing else.
pub open spec fn tag_only(tag: Seq<char>) -> SimpleSelectorView {
    SimpleSelectorView { tag: Some(tag), id: None, class: Seq::empty() }
}

/// Two names in a row are a descendant selector: the second name does not
/// replace the first, it is joined to it. The selector names two tags, so its
/// rank is two tags.
pub proof fn lemma_names_in_a_row_are_a_descendant(
    tokens: Seq<TokenView>,
    pos: int,
    first: Seq<char>,
    second: Seq<char>,
)
    requires
        0 <= pos,
        pos + 2 < tokens.len(),
        tokens[pos] == TokenView::Ident(first),
        tokens[pos + 1] == TokenView::Ident(second),
        tokens[pos + 2] is CurlyOpen || tokens[pos + 2] is Comma,
    ensures
        selector(tokens, pos) == Ok::<(SelectorView, int), SyntaxError>(
            (
                SelectorView::Descendant(
                    Box::new(SelectorView::Simple(tag_only(first))),
                    Box::new(SelectorView::Simple(tag_only(second))),
                ),
                pos + 2,
            ),
        ),
        capped_rank(
            SelectorView::Descendant(
                Box::new(SelectorView::Simple(tag_only(first))),
                Box::new(SelectorView::Simple(tag_only(second))),
            ).specificity(),
        ) == (0u32, 0u32, 2u32),
{
    reveal_with_fuel(simple_selector, 3);
    reveal_with_fuel(selector_chain, 3);
    reveal_with_fuel(SelectorView::specificity, 3);
    assert(simple_selector(tokens, pos, any_element()) == Ok::<
        (SimpleSelectorView, int),
        SyntaxError,
    >((tag_only(first), pos + 1)));
    assert(simple_selector(tokens, pos + 1, any_element()) == Ok::<
        (SimpleSelectorView, int),
        SyntaxError,
    >((tag_only(second), pos + 2)));
}

/// The selectors that the tokens from `pos` on add to `so_far`: selectors
/// with `,` between them up to a `{`, whose place is returned with them.
pub open spec fn selector_list(tokens: Seq<TokenView>, pos: int, so_far: Seq<SelectorView>) -> Result<
    (Seq<SelectorView>, int),
    SyntaxError,
>
    decreases tokens.len() - pos,
{
    if pos < 0 || pos > tokens.len() {
        Err(unexpected(tokens, pos))
    } else {
        match selector(tokens, pos) {
            Err(e) => Err(e),
            Ok((s, next)) => {
                proof {
                    lemma_selector(tokens, pos);
                }
                match token(tokens, next) {
                    TokenView::Comma => selector_list(tokens, next + 1, so_far.push(s)),
                    TokenView::CurlyOpen => Ok((so_far.push(s), next)),
                    _ => Err(unexpected(tokens, next)),
                }
            },
        }
    }
}

/// A selector ends at or behind its start and within the tokens.
pub proof fn lemma_selector(tokens: Seq<TokenView>, pos: int)
    requires
        0 <= pos <= tokens.len(),
    ensures
        selector(tokens, pos) matches Ok((_, next)) ==> pos <= next <= tokens.len(),
{
    lemma_simple_selector(tokens, pos, any_element());
    match simple_selector(tokens, pos, any_element()) {
        Err(e) => {},
        Ok((s, next)) => {
            lemma_selector_chain(tokens, next, SelectorView::Simple(s));
        },
    }
}

/// A selector list ends at a `{` at or behind its start.
pub proof fn lemma_selector_list(tokens: Seq<TokenView>, pos: int, so_far: Seq<SelectorView>)
    requires
        0 <= pos <= tokens.len(),
    ensures
        selector_list(tokens, pos, so_far) matches Ok((_, next)) ==> pos <= next < tokens.len()
            && tokens[next] is CurlyOpen,
    decreases tokens.len() - pos,
{
    lemma_selector(tokens, pos);
    match selector(tokens, pos) {
        Err(e) => {},
        Ok((s, next)) => {
            match token(tokens, next) {
                TokenView::Comma => lemma_selector_list(tokens, next + 1, so_far.push(s)),
                _ => {},
            }
        },
    }
}

/// The number that the hexadecimal digit `c` stands for, if it is one.
pub open spec fn hex_value(c: char) -> Option<int> {
    if decimal_digit(c) {
        Some(digit_value(c))
    } else if 'a' <= c <= 'f' {
        Some(c as int - 'a' as int + 10)
    } else if 'A' <= c <= 'F' {
        Some(c as int - 'A' as int + 10)
    } else {
        None
    }
}

/// The opaque colour that six hexadecimal digits `rrggbb` stand for; none for
/// any other text.
pub open spec fn hex_color(text: Seq<char>) -> Option<Color> {
    if text.len() == 6 && (forall|i: int| 0 <= i < 6 ==> hex_value(#[trigger] text[i]) is Some) {
        Some(
            Color {
                r: (hex_value(text[0])->0 * 16 + hex_value(text[1])->0) as u8,
                g: (hex_value(text[2])->0 * 16 + hex_value(text[3])->0) as u8,
                b: (hex_value(text[4])->0 * 16 + hex_value(text[5])->0) as u8,
                a: 255,
            },
        )
    } else {
        None
    }
}

/// The value that the token at `pos` stands for: a number, with the unit
/// `px` or without a unit, is a length in pixels; a hash of six hexadecimal
/// digits is a colour; an identifier is a keyword.
pub open spec fn value_at(tokens: Seq<TokenView>, pos: int) -> Result<ValueView, SyntaxError> {
    match token(tokens, pos) {
        TokenView::Dimension(v, unit) => if unit == "px"@ {
            Ok(ValueView::Length(v, Unit::Px))
        } else {
            Err(SyntaxError { kind: ErrorKind::UnknownUnit, position: pos as usize })
        },
        TokenView::Number(v) => Ok(ValueView::Length(v, Unit::Px)),
        TokenView::Hash(text) => match hex_color(text) {
            Some(c) => Ok(ValueView::ColorValue(c)),
            None => Err(SyntaxError { kind: ErrorKind::InvalidColor, position: pos as usize }),
        },
        TokenView::Ident(s) => Ok(ValueView::Keyword(s)),
        _ => Err(unexpected(tokens, pos)),
    }
}

/// The declaration that starts at `pos`: a name, `:`, a value and `;`.
pub open spec fn declaration(tokens: Seq<TokenView>, pos: int) -> Result<DeclarationView, SyntaxError> {
    match token(tokens, pos) {
        TokenView::Ident(name) => if token(tokens, pos + 1) is Colon {
            match value_at(tokens, pos + 2) {
                Err(e) => Err(e),
                Ok(value) => if token(tokens, pos + 3) is SemiColon {
                    Ok(DeclarationView { name, value })
                } else {
                    Err(unexpected(tokens, pos + 3))
                },
            }
        } else {
            Err(unexpected(tokens, pos + 1))
        },
        _ => Err(unexpected(tokens, pos)),
    }
}

/// The declarations that the tokens from `pos` on add to `so_far`, up to the
/// `}` that closes them, and the place behind that `}`.
pub open spec fn declarations(tokens: Seq<TokenView>, pos: int, so_far: Seq<DeclarationView>) -> Result<
    (Seq<DeclarationView>, int),
    SyntaxError,
>
    decreases tokens.len() - pos,
{
    if pos < 0 {
        Err(unexpected(tokens, pos))
    } else if token(tokens, pos) is CurlyClose {
        Ok((so_far, pos + 1))
    } else {
        match declaration(tokens, pos) {
            Err(e) => Err(e),
            Ok(d) => declarations(tokens, pos + 4, so_far.push(d)),
        }
    }
}

/// Declarations end behind their start and within the tokens.
pub proof fn lemma_declarations(tokens: Seq<TokenView>, pos: int, so_far: Seq<DeclarationView>)
    requires
        0 <= pos,
    ensures
        declarations(tokens, pos, so_far) matches Ok((_, next)) ==> pos < next <= tokens.len(),
    decreases tokens.len() - pos,
{
    if token(tokens, pos) is CurlyClose {
    } else {
        match declaration(tokens, pos) {
            Err(e) => {},
            Ok(d) => lemma_declarations(tokens, pos + 4, so_far.push(d)),
        }
    }
}

/// The ranks of the selectors.
pub open spec fn ranks_of(selectors: Seq<SelectorView>) -> Seq<Specificity> {
    Seq::new(selectors.len(), |i: int| capped_rank(selectors[i].specificity()))
}

/// The selectors in stable descending order of rank.
pub open spec fn arranged(selectors: Seq<SelectorView>) -> Seq<SelectorView> {
    Seq::new(
        selectors.len(),
        |t: int|
            selectors[stable_order(ranks_of(selectors), selectors.len(), true)[t] as int],
    )
}

/// The rule that starts at `pos`, and the place behind it: a selector list,
/// kept in stable descending order of rank, and the declarations between `{`
/// and `}`.
pub open spec fn rule(tokens: Seq<TokenView>, pos: int) -> Result<(RuleView, int), SyntaxError> {
    match selector_list(tokens, pos, Seq::empty()) {
        Err(e) => Err(e),
        Ok((selectors, open)) => match declarations(tokens, open + 1, Seq::empty()) {
            Err(e) => Err(e),
            Ok((decls, next)) => Ok(
                (RuleView { selectors: arranged(selectors), declarations: decls }, next),
            ),
        },
    }
}

/// The rules that the tokens from `pos` on add to `so_far`, up to the end of
/// the tokens.
pub open spec fn rules(tokens: Seq<TokenView>, pos: int, so_far: Seq<RuleView>) -> Result<
    Seq<RuleView>,
    SyntaxError,
>
    decreases tokens.len() - pos,
{
    if pos < 0 || pos >= tokens.len() {
        Ok(so_far)
    } else {
        match rule(tokens, pos) {
            Err(e) => Err(e),
            Ok((r, next)) => {
                proof {
                    lemma_rule(tokens, pos);
                }
                rules(tokens, next, so_far.push(r))
            },
        }
    }
}

/// A rule ends behind its start and within the tokens.
pub proof fn lemma_rule(tokens: Seq<TokenView>, pos: int)
    requires
        0 <= pos <= tokens.len(),
    ensures
        rule(tokens, pos) matches Ok((_, next)) ==> pos < next <= tokens.len(),
{
    lemma_selector_list(tokens, pos, Seq::empty());
    match selector_list(tokens, pos, Seq::empty()) {
        Err(e) => {},
        Ok((selectors, open)) => {
            lemma_declarations(tokens, open + 1, Seq::empty());
        },
    }
}

/// The style sheet that the tokens stand for: its rules in order, or the
/// first error met.
pub open spec fn stylesheet(tokens: Seq<TokenView>) -> Result<Seq<RuleView>, SyntaxError> {
    rules(tokens, 0, Seq::empty())
}

} // verus!
