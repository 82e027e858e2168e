//! The grammar, as functions from a text and an offset to what is read
//! there. The parsers are held to these functions.

use vstd::prelude::*;

use super::classes::alphanumeric;
use super::classes::closing;
use super::classes::digit;
use super::classes::identifier_part;
use super::classes::letter;
use super::classes::operator;
use super::classes::whitespace;
use super::classes::within_line;
use super::error::SyntaxErrorKind;
use super::expression::ExpressionKind;
use super::expression::ExpressionView;
use super::laws::lemma_expression_advances;
use super::phrase::PhraseView;

verus! {

/// How reading a `T` from a text ends: with the value read or with what is
/// wrong, and the offset that was reached. After a value, `end` is the
/// offset of the character that follows it; after a failure, the offset at
/// which the failure was found.
pub struct Parsed<T> {
    pub result: Result<T, SyntaxErrorKind>,
    pub end: int,
}

impl<T> Parsed<T> {
    pub open spec fn done(value: T, end: int) -> Parsed<T> {
        Parsed { result: Ok(value), end }
    }

    pub open spec fn failed(kind: SyntaxErrorKind, end: int) -> Parsed<T> {
        Parsed { result: Err(kind), end }
    }

    /// The same outcome with `f` applied to the value read.
    pub open spec fn map<U>(self, f: spec_fn(T) -> U) -> Parsed<U> {
        match self.result {
            Ok(value) => Parsed::done(f(value), self.end),
            Err(kind) => Parsed::failed(kind, self.end),
        }
    }
}

impl<T> Parsed<Seq<T>> {
    /// The same outcome with `first` put before the values read.
    pub open spec fn preceded_by(self, first: Seq<T>) -> Parsed<Seq<T>> {
        match self.result {
            Ok(rest) => Parsed::done(first + rest, self.end),
            Err(kind) => Parsed::failed(kind, self.end),
        }
    }
}

/// The offset at which the run of characters of the class `class` that
/// starts at `start` ends: the offset of the first character from `start`
/// on that is not of the class, or the length of the text.
pub open spec fn run_end(s: Seq<char>, start: int, class: spec_fn(char) -> bool) -> int
    decreases s.len() - start,
{
    if 0 <= start < s.len() && class(s[start]) {
        run_end(s, start + 1, class)
    } else {
        start
    }
}

pub open spec fn whitespace_end(s: Seq<char>, start: int) -> int {
    run_end(s, start, |c: char| whitespace(c))
}

pub open spec fn identifier_end(s: Seq<char>, start: int) -> int {
    run_end(s, start, |c: char| identifier_part(c))
}

pub open spec fn operator_end(s: Seq<char>, start: int) -> int {
    run_end(s, start, |c: char| operator(c))
}

pub open spec fn digits_end(s: Seq<char>, start: int) -> int {
    run_end(s, start, |c: char| digit(c))
}

pub open spec fn label_end(s: Seq<char>, start: int) -> int {
    run_end(s, start, |c: char| alphanumeric(c))
}

/// The offset of the newline that ends the line of `start`, or the length
/// of the text where that line is the last.
pub open spec fn line_end(s: Seq<char>, start: int) -> int {
    run_end(s, start, |c: char| within_line(c))
}

/// The end of a number that starts at `start`: digits, then at most one
/// point with digits behind it.
pub open spec fn number_end(s: Seq<char>, start: int) -> int {
    let point = digits_end(s, start);
    if 0 <= point < s.len() && s[point] == '.' {
        digits_end(s, point + 1)
    } else {
        point
    }
}

/// The offset of the double quote that closes a text whose content starts
/// at `start`: the first one that no backslash stands before. A backslash
/// takes the character behind it with it, whatever that is.
pub open spec fn closing_quote(s: Seq<char>, start: int) -> Option<int>
    decreases s.len() - start,
{
    if !(0 <= start < s.len()) {
        None
    } else if s[start] == '"' {
        Some(start)
    } else if s[start] == '\\' {
        if start + 1 < s.len() {
            closing_quote(s, start + 2)
        } else {
            None
        }
    } else {
        closing_quote(s, start + 1)
    }
}

pub open spec fn number(s: Seq<char>, start: int) -> Parsed<PhraseView> {
    let end = number_end(s, start);
    Parsed::done(PhraseView::Number(s.subrange(start, end)), end)
}

pub open spec fn text_identifier(s: Seq<char>, start: int) -> Parsed<PhraseView> {
    let end = identifier_end(s, start);
    Parsed::done(PhraseView::Identifier(s.subrange(start, end)), end)
}

pub open spec fn operator_identifier(s: Seq<char>, start: int) -> Parsed<PhraseView> {
    let end = operator_end(s, start);
    Parsed::done(PhraseView::Identifier(s.subrange(start, end)), end)
}

/// What stands at `start` where the character `expected` has to stand:
/// nothing is wrong if it does.
pub open spec fn expect(s: Seq<char>, start: int, expected: char) -> Option<SyntaxErrorKind> {
    if !(0 <= start < s.len()) {
        Some(SyntaxErrorKind::UnexpectedEndOfInput)
    } else if s[start] != expected {
        Some(SyntaxErrorKind::UnexpectedCharacter(s[start]))
    } else {
        None
    }
}

/// A text: a double quote, the content, and the double quote that closes
/// it. The content is kept as it stands, backslashes included.
pub open spec fn text(s: Seq<char>, start: int) -> Parsed<PhraseView> {
    match expect(s, start, '"') {
        Some(kind) => Parsed::failed(kind, start),
        None => match closing_quote(s, start + 1) {
            Some(quote) => Parsed::done(PhraseView::Text(s.subrange(start + 1, quote)), quote + 1),
            None => Parsed::failed(SyntaxErrorKind::UnexpectedEndOfInput, s.len() as int),
        },
    }
}

/// A comment: a semicolon and the rest of its line. The newline is no part
/// of it and stays in place.
pub open spec fn comment(s: Seq<char>, start: int) -> Parsed<PhraseView> {
    match expect(s, start, ';') {
        Some(kind) => Parsed::failed(kind, start),
        None => {
            let end = line_end(s, start + 1);
            Parsed::done(PhraseView::Comment(s.subrange(start + 1, end)), end)
        },
    }
}

/// A label: a colon and the run of letters and numbers behind it.
pub open spec fn label(s: Seq<char>, start: int) -> Parsed<PhraseView> {
    match expect(s, start, ':') {
        Some(kind) => Parsed::failed(kind, start),
        None => {
            let end = label_end(s, start + 1);
            Parsed::done(PhraseView::Label(s.subrange(start + 1, end)), end)
        },
    }
}

/// A type annotation: two colons and an identifier, which may not be
/// empty.
pub open spec fn type_annotation(s: Seq<char>, start: int) -> Parsed<()> {
    match expect(s, start, ':') {
        Some(kind) => Parsed::failed(kind, start),
        None => match expect(s, start + 1, ':') {
            Some(kind) => Parsed::failed(kind, start + 1),
            None => {
                let end = identifier_end(s, start + 2);
                if end == start + 2 {
                    Parsed::failed(SyntaxErrorKind::MalformedAnnotation, end)
                } else {
                    Parsed::done((), end)
                }
            },
        },
    }
}

/// Whether a type annotation is to be read at `start`: two colons stand
/// there.
pub open spec fn annotation_follows(s: Seq<char>, start: int) -> bool {
    0 <= start && start + 1 < s.len() && s[start] == ':' && s[start + 1] == ':'
}

/// A phrase that has been read, with the type annotation that may follow
/// it. The annotation has to be well formed, and leaves no trace in the
/// phrase.
pub open spec fn annotated(s: Seq<char>, primary: Parsed<PhraseView>) -> Parsed<PhraseView> {
    if primary.result is Ok && annotation_follows(s, primary.end) {
        let annotation = type_annotation(s, primary.end);
        match annotation.result {
            Ok(_) => Parsed { result: primary.result, end: annotation.end },
            Err(kind) => Parsed::failed(kind, annotation.end),
        }
    } else {
        primary
    }
}

/// Whether a label is to be read at `start`: a colon stands there, with a
/// letter or a number behind it.
pub open spec fn label_follows(s: Seq<char>, start: int) -> bool {
    0 <= start && start + 1 < s.len() && s[start] == ':' && alphanumeric(s[start + 1])
}

/// The phrase whose first character stands at `start`, without the type
/// annotation that may follow it. That character decides what is read.
pub open spec fn primary(s: Seq<char>, start: int) -> Parsed<PhraseView>
    decreases s.len() - start, 1int,
{
    if !(0 <= start < s.len()) {
        Parsed::failed(SyntaxErrorKind::UnexpectedEndOfInput, start)
    } else if ExpressionKind::opened_by(s[start]) is Some {
        expression_from(s, start).map(|e: ExpressionView| PhraseView::Expression(e))
    } else if s[start] == '"' {
        text(s, start)
    } else if s[start] == ';' {
        comment(s, start)
    } else if label_follows(s, start) {
        label(s, start)
    } else if digit(s[start]) {
        number(s, start)
    } else if letter(s[start]) {
        text_identifier(s, start)
    } else if operator(s[start]) {
        operator_identifier(s, start)
    } else {
        Parsed::failed(SyntaxErrorKind::UnexpectedCharacter(s[start]), start)
    }
}

/// The phrase whose first character stands at `start`.
pub open spec fn phrase_from(s: Seq<char>, start: int) -> Parsed<PhraseView>
    decreases s.len() - start, 2int,
{
    annotated(s, primary(s, start))
}

/// The end of an expression of kind `kind` whose phrases have been read:
/// the bracket that closes that kind has to follow.
pub open spec fn closed(
    s: Seq<char>,
    kind: ExpressionKind,
    values: Parsed<Seq<PhraseView>>,
) -> Parsed<ExpressionView> {
    let end = values.end;
    match values.result {
        Err(error) => Parsed::failed(error, end),
        Ok(values) => if 0 <= end < s.len() && s[end] == kind.closed_by() {
            Parsed::done(ExpressionView { kind, values }, end + 1)
        } else {
            Parsed::failed(
                SyntaxErrorKind::UnmatchedTerminator {
                    expected: kind.closed_by(),
                    found: if 0 <= end < s.len() {
                        Some(s[end])
                    } else {
                        None
                    },
                },
                end,
            )
        },
    }
}

/// The expression whose first character stands at `start`: a bare comment,
/// or an opening bracket, phrases, and the closing bracket of the same
/// kind.
pub open spec fn expression_from(s: Seq<char>, start: int) -> Parsed<ExpressionView>
    decreases s.len() - start, 0int,
{
    if !(0 <= start < s.len()) {
        Parsed::failed(SyntaxErrorKind::UnexpectedEndOfInput, start)
    } else if s[start] == ';' {
        comment(s, start).map(
            |body: PhraseView| ExpressionView { kind: ExpressionKind::Null, values: seq![body] },
        )
    } else {
        match ExpressionKind::opened_by(s[start]) {
            Some(kind) => closed(s, kind, values(s, start + 1)),
            None => Parsed::failed(SyntaxErrorKind::UnexpectedCharacter(s[start]), start),
        }
    }
}

/// The phrases of an expression from `start` on, up to the closing bracket
/// or the end of the text, whichever stands where the next phrase would
/// begin. `end` is the offset of that bracket.
///
/// The test that a phrase ends behind its start and within the text is
/// there for the recursion's sake only: `lemma_phrase_advances` shows that
/// it never fails.
pub open spec fn values(s: Seq<char>, start: int) -> Parsed<Seq<PhraseView>>
    decreases s.len() - start, 3int,
{
    let next = whitespace_end(s, start);
    if !(0 <= next < s.len()) || closing(s[next]) {
        Parsed::done(Seq::empty(), next)
    } else {
        proof {
            lemma_run_end(s, start, |c: char| whitespace(c));
        }
        let first = phrase_from(s, next);
        match first.result {
            Err(kind) => Parsed::failed(kind, first.end),
            Ok(phrase) => if !(next < first.end <= s.len()) {
                Parsed::done(seq![phrase], first.end)
            } else {
                values(s, first.end).preceded_by(seq![phrase])
            },
        }
    }
}

/// A phrase, with the white space before it.
pub open spec fn phrase(s: Seq<char>, start: int) -> Parsed<PhraseView> {
    phrase_from(s, whitespace_end(s, start))
}

/// An expression, with the white space before it.
pub open spec fn expression(s: Seq<char>, start: int) -> Parsed<ExpressionView> {
    expression_from(s, whitespace_end(s, start))
}

/// The expressions of a program from `start` on, up to the end of the
/// text.
pub open spec fn program(s: Seq<char>, start: int) -> Parsed<Seq<ExpressionView>>
    decreases s.len() - start,
{
    let next = whitespace_end(s, start);
    if !(0 <= next < s.len()) {
        Parsed::done(Seq::empty(), next)
    } else {
        let first = expression_from(s, next);
        match first.result {
            Err(kind) => Parsed::failed(kind, first.end),
            Ok(expression) => {
                proof {
                    lemma_run_end(s, start, |c: char| whitespace(c));
                    lemma_expression_advances(s, next);
                }
                program(s, first.end).preceded_by(seq![expression])
            },
        }
    }
}


/// A run starts where it is asked for, stays within the text, and holds
/// characters of its class only, up to one that is not.
pub proof fn lemma_run_end(s: Seq<char>, start: int, class: spec_fn(char) -> bool)
    ensures
        start <= run_end(s, start, class),
        start <= s.len() ==> run_end(s, start, class) <= s.len(),
        forall|k: int| start <= k < run_end(s, start, class) ==> 0 <= k && class(#[trigger] s[k]),
        0 <= run_end(s, start, class) < s.len() ==> !class(s[run_end(s, start, class)]),
    decreases s.len() - start,
{
    if 0 <= start < s.len() && class(s[start]) {
        lemma_run_end(s, start + 1, class);
    }
}

/// The end of a run is the one offset up to which every character is of
/// the class, and at which the text ends or a character is not.
pub proof fn lemma_run_end_is(s: Seq<char>, start: int, class: spec_fn(char) -> bool, end: int)
    requires
        0 <= start <= end <= s.len(),
        forall|k: int| start <= k < end ==> class(#[trigger] s[k]),
        end < s.len() ==> !class(s[end]),
    ensures
        run_end(s, start, class) == end,
    decreases end - start,
{
    if start < end {
        lemma_run_end_is(s, start + 1, class, end);
    }
}

} // verus!
