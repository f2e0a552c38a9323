use vstd::prelude::*;

verus! {

/// What is wrong with a style sheet.
#[derive(Debug, Clone, Copy, PartialEq, Eq, Structural)]
pub enum ErrorKind {
    /// A quoted string is not closed before the input ends.
    UnterminatedString,
    /// A token stands where the grammar has no place for it.
    UnexpectedToken,
    /// The input ends inside a rule.
    UnexpectedEnd,
    /// A length has a unit other than `px`.
    UnknownUnit,
    /// A colour is not written as six hexadecimal digits.
    InvalidColor,
}

/// A style sheet that cannot be read: what is wrong, and where. The position
/// counts characters for an error of the scanner and tokens for an error of
/// the parser.
#[derive(Debug, Clone, Copy, PartialEq, Eq, Structural)]
pub struct SyntaxError {
    pub kind: ErrorKind,
    pub position: usize,
}

} // verus!
