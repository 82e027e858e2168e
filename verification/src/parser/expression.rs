//! Expressions: phrases between brackets.

use vstd::prelude::*;

use super::classes::is_closing;
use super::error::SyntaxError;
use super::error::SyntaxErrorKind;
use super::grammar;
use super::laws::lemma_expression_is_well_bracketed;
use super::laws::lemma_phrase_advances;
use super::laws::lemma_whitespace_end_twice;
use super::laws::well_bracketed;
use super::lemma_offset_in_source;
use super::parses;
use super::phrase::parse_comment;
use super::phrase::parse_phrase;
use super::phrase::parse_whitespace;
use super::phrase::Phrase;
use super::phrase::PhraseView;
use super::views;
use super::Parser;

verus! {

/// The kind of an expression, which its opening bracket decides.
#[derive(Clone, Copy, Debug, PartialEq, Eq, Structural)]
pub enum ExpressionKind {
    /// Opened by `{` and closed by `}`.
    Block,
    /// Opened by `[` and closed by `]`.
    List,
    /// Opened by `(` and closed by `)`.
    Item,
    /// No brackets: a comment that stands where an expression was expected.
    Null,
}

/// A sequence of phrases between a pair of brackets.
#[derive(Debug, PartialEq, Eq)]
pub struct Expression {
    pub kind: ExpressionKind,
    pub values: Vec<Phrase>,
}

/// What an `Expression` stands for.
pub struct ExpressionView {
    pub kind: ExpressionKind,
    pub values: Seq<PhraseView>,
}

impl View for Expression {
    type V = ExpressionView;

    open spec fn view(&self) -> ExpressionView
        decreases self,
    {
        ExpressionView {
            kind: self.kind,
            values: Seq::new(
                self.values.len() as nat,
                |i: int|
                    if 0 <= i < self.values.len() {
                        self.values[i]@
                    } else {
                        arbitrary()
                    },
            ),
        }
    }
}

impl Clone for Expression {
    fn clone(&self) -> (copy: Expression)
        ensures
            copy@ == self@,
        decreases self,
    {
        let mut values: Vec<Phrase> = Vec::new();
        let mut i: usize = 0;
        while i < self.values.len()
            invariant
                i <= self.values.len(),
                values.len() == i,
                forall|k: int| 0 <= k < i ==> values[k]@ == self.values[k]@,
            decreases self.values.len() - i,
        {
            values.push(self.values[i].clone());
            i += 1;
        }
        let copy = Expression { kind: self.kind, values };
        assert(copy@.values =~= self@.values);
        copy
    }
}

impl ExpressionKind {
    /// The kind of expression that the bracket `c` opens, if it opens one.
    pub open spec fn opened_by(c: char) -> Option<ExpressionKind> {
        if c == '{' {
            Some(ExpressionKind::Block)
        } else if c == '[' {
            Some(ExpressionKind::List)
        } else if c == '(' {
            Some(ExpressionKind::Item)
        } else {
            None
        }
    }

    /// The bracket that closes an expression of this kind. `Null` has none.
    pub open spec fn closed_by(self) -> char
        recommends
            self != ExpressionKind::Null,
    {
        match self {
            ExpressionKind::Block => '}',
            ExpressionKind::List => ']',
            ExpressionKind::Item => ')',
            ExpressionKind::Null => arbitrary(),
        }
    }

    /// The kind of expression that `c` opens. Any character but the three
    /// opening brackets is unexpected.
    pub fn from_initiator(c: char) -> (r: Result<ExpressionKind, SyntaxErrorKind>)
        ensures
            r == match ExpressionKind::opened_by(c) {
                Some(kind) => Ok::<ExpressionKind, SyntaxErrorKind>(kind),
                None => Err::<ExpressionKind, SyntaxErrorKind>(
                    SyntaxErrorKind::UnexpectedCharacter(c),
                ),
            },
    {
        match c {
            '{' => Ok(ExpressionKind::Block),
            '[' => Ok(ExpressionKind::List),
            '(' => Ok(ExpressionKind::Item),
            c => Err(SyntaxErrorKind::UnexpectedCharacter(c)),
        }
    }

    /// The bracket that closes an expression of this kind.
    pub fn terminator(&self) -> (c: char)
        requires
            self != ExpressionKind::Null,
        ensures
            c == self.closed_by(),
    {
        match self {
            ExpressionKind::Block => '}',
            ExpressionKind::List => ']',
            ExpressionKind::Item => ')',
            ExpressionKind::Null => unreached(),
        }
    }
}

impl Expression {
    /// The expression that stands for a bare phrase, which is meant to be a
    /// comment.
    pub fn null(value: Phrase) -> (expression: Expression)
        ensures
            expression@ == (ExpressionView { kind: ExpressionKind::Null, values: seq![value@] }),
    {
        let mut values = Vec::new();
        values.push(value);
        let expression = Expression { kind: ExpressionKind::Null, values };
        assert(expression@.values =~= seq![value@]);
        expression
    }
}

/// Reads an expression: the white space before it, then either a comment,
/// which becomes a `Null` expression, or an opening bracket, the phrases up
/// to the next closing bracket, and that bracket, which has to be the one
/// that matches the opening one.
///
/// Phrases are read until a closing bracket or the end of the input stands
/// where the next one would begin; an error in a phrase is the error of
/// the expression.
pub fn parse_expression(parser: &mut Parser) -> (r: Result<Expression, SyntaxError>)
    ensures
        parses(
            old(parser)@,
            final(parser)@,
            r,
            grammar::expression(old(parser)@.source, old(parser)@.offset),
        ),
        r matches Ok(expression) ==> well_bracketed(
            old(parser)@.source,
            expression@,
            grammar::whitespace_end(old(parser)@.source, old(parser)@.offset),
            final(parser)@.offset,
        ),
    decreases old(parser)@.source.len() - old(parser)@.offset, 0int,
{
    let ghost s = parser@.source;
    proof {
        lemma_offset_in_source(parser);
        lemma_whitespace_end_twice(s, parser@.offset);
        if grammar::expression(s, parser@.offset).result is Ok {
            lemma_expression_is_well_bracketed(s, grammar::whitespace_end(s, parser@.offset));
        }
    }
    let _ = parse_whitespace(parser);
    let ghost start = parser@.offset;
    let kind = match parser.peek() {
        None => {
            return Err(parser.error(SyntaxErrorKind::UnexpectedEndOfInput));
        },
        Some(c) => {
            if c == ';' {
                return match parse_comment(parser) {
                    Ok(comment) => Ok(Expression::null(comment)),
                    Err(error) => Err(error),
                };
            }
            match ExpressionKind::from_initiator(c) {
                Ok(kind) => kind,
                Err(kind) => {
                    return Err(parser.error(kind));
                },
            }
        },
    };
    parser.next();
    let mut values: Vec<Phrase> = Vec::new();
    loop
        invariant
            parser@.source == s,
            start + 1 <= parser@.offset <= s.len(),
            grammar::values(s, start + 1) == grammar::values(s, parser@.offset).preceded_by(
                views(values@),
            ),
            s == old(parser)@.source,
            start == grammar::whitespace_end(s, old(parser)@.offset),
            0 <= old(parser)@.offset <= start < s.len(),
            s[start] != ';',
            ExpressionKind::opened_by(s[start]) == Some(kind),
        ensures
            parser@.source == s,
            grammar::values(s, start + 1).result == Ok::<Seq<PhraseView>, SyntaxErrorKind>(
                views(values@),
            ),
            grammar::values(s, start + 1).end == parser@.offset,
        decreases s.len() - parser@.offset,
    {
        let ghost from = parser@.offset;
        proof {
            lemma_whitespace_end_twice(s, from);
        }
        let _ = parse_whitespace(parser);
        let ghost next = parser@.offset;
        match parser.peek() {
            None => {
                proof {
                    assert(views(values@) + Seq::<PhraseView>::empty() =~= views(values@));
                }
                break ;
            },
            Some(c) => {
                if is_closing(&c) {
                    proof {
                        assert(views(values@) + Seq::<PhraseView>::empty() =~= views(values@));
                    }
                    break ;
                }
            },
        }
        proof {
            lemma_whitespace_end_twice(s, next);
            lemma_phrase_advances(s, next);
        }
        match parse_phrase(parser) {
            Err(error) => {
                return Err(error);
            },
            Ok(phrase) => {
                proof {
                    let rest = grammar::values(s, parser@.offset);
                    assert((views(values@) + seq![phrase@]) =~= views(values@.push(phrase)));
                    if rest.result is Ok {
                        assert(views(values@) + (seq![phrase@] + rest.result->Ok_0) =~= (views(
                            values@,
                        ) + seq![phrase@]) + rest.result->Ok_0);
                    }
                }
                values.push(phrase);
            },
        }
    }
    let expected = kind.terminator();
    let found = parser.peek();
    if found == Some(expected) {
        parser.next();
        let expression = Expression { kind, values };
        proof {
            assert(expression@.values =~= views(values@));
        }
        Ok(expression)
    } else {
        Err(parser.error(SyntaxErrorKind::UnmatchedTerminator { expected, found }))
    }
}

} // verus!
