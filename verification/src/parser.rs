//! The cursor over a source text, and the parser of whole programs.

use vstd::prelude::*;

use crate::peek_while::peek_while;
use crate::peek_while::PeekWhile;
use grammar::Parsed;
use laws::lemma_expression_advances;
use laws::all_well_bracketed;
use laws::lemma_program_ends_the_source;
use laws::lemma_program_is_well_bracketed;
use laws::lemma_whitespace_end_twice;

pub mod classes;
pub mod error;
pub mod expression;
pub mod grammar;
pub mod laws;
pub mod location;
pub mod phrase;

pub use error::SyntaxError;
pub use error::SyntaxErrorKind;
pub use expression::parse_expression;
pub use expression::Expression;
pub use expression::ExpressionKind;
pub use expression::ExpressionView;
pub use location::Location;
pub use phrase::parse_comment;
pub use phrase::parse_label;
pub use phrase::parse_string;
pub use phrase::parse_type;
pub use phrase::parse_number;
pub use phrase::parse_operator_identifier;
pub use phrase::parse_phrase;
pub use phrase::parse_text_identifier;
pub use phrase::parse_whitespace;
pub use phrase::Phrase;
pub use phrase::PhraseView;

verus! {

/// What a `Parser` stands for: a source text and the number of its
/// characters that have been consumed, which is the index of the character
/// that comes next.
pub struct ParserView {
    pub source: Seq<char>,
    pub offset: int,
}

impl ParserView {
    /// The text that has been consumed.
    pub open spec fn consumed(self) -> Seq<char> {
        self.source.take(self.offset)
    }

    /// The text that is still to come.
    pub open spec fn remaining(self) -> Seq<char> {
        self.source.skip(self.offset)
    }

    /// Where the next character stands.
    pub open spec fn location(self) -> Location {
        Location::after(self.consumed())
    }

    /// The character that comes next, if any is left.
    pub open spec fn first(self) -> Option<char> {
        self.ahead(0)
    }

    /// The character `n` places behind the next one, if the text reaches
    /// that far.
    pub open spec fn ahead(self, n: int) -> Option<char> {
        if 0 <= self.offset + n < self.source.len() {
            Some(self.source[self.offset + n])
        } else {
            None
        }
    }

    /// This view with `n` more characters consumed.
    pub open spec fn skip(self, n: int) -> ParserView {
        ParserView { source: self.source, offset: self.offset + n }
    }

    /// This view with the characters up to the offset `offset` consumed.
    pub open spec fn at(self, offset: int) -> ParserView {
        ParserView { source: self.source, offset }
    }
}

/// Whether a parser that went from `before` to `after` and returned `r` did
/// what `expected` says: it stopped at the offset given there, in the same
/// source, and returned the value or the kind of error given there, the
/// error with the place at which the parser stopped.
pub open spec fn parses<T: View>(
    before: ParserView,
    after: ParserView,
    r: Result<T, SyntaxError>,
    expected: Parsed<T::V>,
) -> bool {
    &&& after == before.at(expected.end)
    &&& match r {
        Ok(value) => expected.result == Ok::<T::V, SyntaxErrorKind>(value@),
        Err(error) => {
            &&& expected.result == Err::<T::V, SyntaxErrorKind>(error.kind)
            &&& error.location == after.location()
        },
    }
}

/// What each item of a sequence stands for.
pub open spec fn views<T: View>(items: Seq<T>) -> Seq<T::V> {
    Seq::new(items.len(), |i: int| items[i]@)
}

/// As `parses`, for a parser that returns a sequence of items.
pub open spec fn parses_all<T: View>(
    before: ParserView,
    after: ParserView,
    r: Result<Vec<T>, SyntaxError>,
    expected: Parsed<Seq<T::V>>,
) -> bool {
    &&& after == before.at(expected.end)
    &&& match r {
        Ok(items) => expected.result == Ok::<Seq<T::V>, SyntaxErrorKind>(views(items@)),
        Err(error) => {
            &&& expected.result == Err::<Seq<T::V>, SyntaxErrorKind>(error.kind)
            &&& error.location == after.location()
        },
    }
}

/// A cursor over the characters of a source text, with one character of
/// lookahead, that keeps track of the line and column it has reached.
pub struct Parser {
    chars: Vec<char>,
    reached: Reached,
}

/// How far a parser has come: the index of its next character, and where
/// that character stands.
#[derive(Clone, Copy)]
struct Reached {
    index: usize,
    location: Location,
}

impl View for Parser {
    type V = ParserView;

    closed spec fn view(&self) -> ParserView {
        ParserView {
            source: self.chars@,
            offset: if self.reached.index <= self.chars.len() {
                self.reached.index as int
            } else {
                self.chars.len() as int
            },
        }
    }
}

/// The offset of a parser lies within its source.
pub proof fn lemma_offset_in_source(parser: &Parser)
    ensures
        0 <= parser@.offset <= parser@.source.len(),
{
}

/// The characters of `source`, in their order.
fn characters(source: &str) -> (chars: Vec<char>)
    ensures
        chars@ == source@,
{
    let mut chars: Vec<char> = Vec::new();
    for c in it: source.chars()
        invariant
            chars@ == it.seq().take(it.index()),
    {
        chars.push(c);
    }
    chars
}

impl Parser {
    #[verifier::type_invariant]
    spec fn well_formed(self) -> bool {
        &&& self.reached.index <= self.chars.len() < usize::MAX
        &&& self.reached.location == Location::after(self.chars@.take(self.reached.index as int))
    }

    /// A parser at the start of `source`. The source has to be short enough
    /// for the columns of its longest line to be counted.
    pub fn new(source: &str) -> (parser: Parser)
        requires
            source@.len() < usize::MAX,
        ensures
            parser@.source == source@,
            parser@.offset == 0,
    {
        let chars = characters(source);
        Parser { chars, reached: Reached { index: 0, location: Location::default() } }
    }

    /// A parser at the start of `source`, unless the source is too long for
    /// `new`.
    pub fn try_new(source: &str) -> (parser: Option<Parser>)
        ensures
            match parser {
                Some(parser) => {
                    &&& source@.len() < usize::MAX
                    &&& parser@.source == source@
                    &&& parser@.offset == 0
                },
                None => source@.len() >= usize::MAX,
            },
    {
        let chars = characters(source);
        if chars.len() < usize::MAX {
            Some(Parser { chars, reached: Reached { index: 0, location: Location::default() } })
        } else {
            None
        }
    }

    /// Where the next character stands.
    pub fn location(&self) -> (location: Location)
        ensures
            location == self@.location(),
    {
        proof {
            use_type_invariant(self);
        }
        self.reached.location
    }

    /// The error of kind `kind` found where this parser stands.
    pub fn error(&self, kind: SyntaxErrorKind) -> (error: SyntaxError)
        ensures
            error.kind == kind,
            error.location == self@.location(),
    {
        SyntaxError { kind, location: self.location() }
    }

    /// The next character, which stays in place.
    pub fn peek(&self) -> (c: Option<char>)
        ensures
            c == self@.first(),
    {
        self.peek_at(0)
    }

    /// The character `n` places behind the next one, which stays in place.
    pub fn peek_at(&self, n: usize) -> (c: Option<char>)
        ensures
            c == self@.ahead(n as int),
    {
        proof {
            use_type_invariant(self);
        }
        if n < self.chars.len() - self.reached.index {
            Some(self.chars[self.reached.index + n])
        } else {
            None
        }
    }

    /// The run over the next characters that satisfy `pred`.
    pub fn peek_while<P>(&mut self, pred: P) -> (run: PeekWhile<'_, P>) where
        P: Fn(&char) -> bool,

        ensures
            *run.parser == *old(self),
            *final(run.parser) == *final(self),
            run.pred == pred,
    {
        peek_while(self, pred)
    }

    /// Hands out the next character and moves past it. At the end of the
    /// text nothing changes.
    pub fn next(&mut self) -> (c: Option<char>)
        ensures
            c == old(self)@.first(),
            final(self)@ == if c is Some {
                old(self)@.skip(1)
            } else {
                old(self)@
            },
    {
        proof {
            use_type_invariant(&*self);
        }
        let Reached { index, mut location } = self.reached;
        if index < self.chars.len() {
            let c = self.chars[index];
            proof {
                location::lemma_after_bounds(self.chars@.take(index as int));
                assert(self.chars@.take(index + 1).drop_last() =~= self.chars@.take(index as int));
            }
            if c == '\n' {
                location.next_line();
            } else {
                location.next_column();
            }
            self.reached = Reached { index: index + 1, location };
            Some(c)
        } else {
            None
        }
    }
}

/// Reads a program: expressions, with white space before, between and
/// behind them, up to the end of the input. The first error ends the
/// reading and is the result; without one, the whole input is consumed.
pub fn parse_program(parser: &mut Parser) -> (r: Result<Vec<Expression>, SyntaxError>)
    ensures
        parses_all(
            old(parser)@,
            final(parser)@,
            r,
            grammar::program(old(parser)@.source, old(parser)@.offset),
        ),
        r is Ok ==> final(parser)@.offset == final(parser)@.source.len(),
        r matches Ok(program) ==> all_well_bracketed(old(parser)@.source, views(program@)),
{
    let ghost s = parser@.source;
    let ghost start = parser@.offset;
    proof {
        lemma_offset_in_source(parser);
        lemma_program_ends_the_source(s, start);
        if grammar::program(s, start).result is Ok {
            lemma_program_is_well_bracketed(s, start);
        }
    }
    let mut program: Vec<Expression> = Vec::new();
    loop
        invariant
            parser@.source == s,
            start <= parser@.offset <= s.len(),
            grammar::program(s, start) == grammar::program(s, parser@.offset).preceded_by(
                views(program@),
            ),
            s == old(parser)@.source,
            start == old(parser)@.offset,
        ensures
            parser@.source == s,
            grammar::program(s, start).result == Ok::<Seq<ExpressionView>, SyntaxErrorKind>(
                views(program@),
            ),
            grammar::program(s, start).end == parser@.offset,
        decreases s.len() - parser@.offset,
    {
        proof {
            lemma_whitespace_end_twice(s, parser@.offset);
        }
        let _ = parse_whitespace(parser);
        let ghost next = parser@.offset;
        if parser.peek().is_none() {
            proof {
                assert(views(program@) + Seq::<ExpressionView>::empty() =~= views(program@));
            }
            break ;
        }
        proof {
            lemma_whitespace_end_twice(s, next);
            lemma_expression_advances(s, next);
        }
        match parse_expression(parser) {
            Err(error) => {
                return Err(error);
            },
            Ok(expression) => {
                proof {
                    let rest = grammar::program(s, parser@.offset);
                    assert((views(program@) + seq![expression@]) =~= views(
                        program@.push(expression),
                    ));
                    if rest.result is Ok {
                        assert(views(program@) + (seq![expression@] + rest.result->Ok_0) =~= (
                        views(program@) + seq![expression@]) + rest.result->Ok_0);
                    }
                }
                program.push(expression);
            },
        }
    }
    Ok(program)
}

} // verus!
