//! Syntax errors.

use vstd::prelude::*;

use super::location::Location;

verus! {

/// What is wrong with a text that does not parse.
#[derive(Clone, Copy, Debug, PartialEq, Eq)]
pub enum SyntaxErrorKind {
    /// The text ended where a character was needed.
    UnexpectedEndOfInput,
    /// No phrase or expression begins with this character.
    UnexpectedCharacter(char),
    /// An expression was not closed by the bracket that matches its opening
    /// one: `found` is what stood in its place, `None` at the end of the
    /// text.
    UnmatchedTerminator { expected: char, found: Option<char> },
    /// No identifier follows the `::` of a type annotation.
    MalformedAnnotation,
}

/// A syntax error and the place in the text at which it was found.
#[derive(Clone, Copy, Debug, PartialEq, Eq)]
pub struct SyntaxError {
    pub kind: SyntaxErrorKind,
    pub location: Location,
}

} // verus!
