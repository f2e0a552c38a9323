use crate::css::error::SyntaxError;
use crate::css::parser::{parsed, CssParser};
use crate::css::stylesheet::Stylesheet;
use vstd::prelude::*;

pub mod error;
pub mod grammar;
pub mod lexical;
pub mod number;
pub mod parser;
pub mod stylesheet;

verus! {

/// The style sheet that `source` stands for: its rules in the order of the
/// source, each with its selectors in stable descending order of rank and its
/// declarations in order. A source with an error in it yields the first error
/// and nothing else.
pub fn parse(source: String) -> (r: Result<Stylesheet, SyntaxError>)
    ensures
        match parsed(source@) {
            Ok(sheet) => r matches Ok(s) && s@ == sheet,
            Err(e) => r matches Err(f) && f == e,
        },
{
    CssParser::parse_stylesheet(source)
}

} // verus!
