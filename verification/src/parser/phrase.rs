//! Phrases: the tokens of the language, and the parsers of each.

use vstd::prelude::*;
use vstd::string::StringExecFns;

use super::classes::alphanumeric;
use super::classes::digit;
use super::classes::identifier_part;
use super::classes::is_digit;
use super::classes::is_identifier_part;
use super::classes::is_label_part;
use super::classes::is_letter;
use super::classes::is_operator;
use super::classes::is_whitespace;
use super::classes::is_within_line;
use super::classes::operator;
use super::classes::within_line;
use super::error::SyntaxError;
use super::error::SyntaxErrorKind;
use super::expression::parse_expression;
use super::expression::Expression;
use super::expression::ExpressionView;
use super::grammar;
use super::grammar::lemma_run_end;
use super::grammar::lemma_run_end_is;
use super::grammar::run_end;
use super::laws::lemma_whitespace_end_twice;
use super::lemma_offset_in_source;
use super::parses;
use super::Parser;

verus! {

/// One unit of an expression: a nested expression or a token.
#[derive(Debug, PartialEq, Eq)]
pub enum Phrase {
    /// A nested expression.
    Expression(Expression),
    /// A run of letters, digits and underscores, or a run of operator
    /// characters.
    Identifier(String),
    /// What stands between a pair of double quotes, as it stands there.
    Text(String),
    /// A run of digits with at most one point in it.
    Number(String),
    /// What follows a `;` up to the end of the line.
    Comment(String),
    /// What follows a single `:`.
    Label(String),
}

/// What a `Phrase` stands for.
pub enum PhraseView {
    Expression(ExpressionView),
    Identifier(Seq<char>),
    Text(Seq<char>),
    Number(Seq<char>),
    Comment(Seq<char>),
    Label(Seq<char>),
}

impl View for Phrase {
    type V = PhraseView;

    open spec fn view(&self) -> PhraseView
        decreases self,
    {
        match self {
            Phrase::Expression(expression) => PhraseView::Expression(expression@),
            Phrase::Identifier(name) => PhraseView::Identifier(name@),
            Phrase::Text(content) => PhraseView::Text(content@),
            Phrase::Number(digits) => PhraseView::Number(digits@),
            Phrase::Comment(body) => PhraseView::Comment(body@),
            Phrase::Label(name) => PhraseView::Label(name@),
        }
    }
}

impl Clone for Phrase {
    fn clone(&self) -> (copy: Phrase)
        ensures
            copy@ == self@,
        decreases self,
    {
        match self {
            Phrase::Expression(expression) => Phrase::Expression(expression.clone()),
            Phrase::Identifier(name) => Phrase::Identifier(name.clone()),
            Phrase::Text(content) => Phrase::Text(content.clone()),
            Phrase::Number(digits) => Phrase::Number(digits.clone()),
            Phrase::Comment(body) => Phrase::Comment(body.clone()),
            Phrase::Label(name) => Phrase::Label(name.clone()),
        }
    }
}

/// Consumes the run of next characters that satisfy `pred`, which decides
/// as `class` does, and returns them.
fn parse_run<P>(
    parser: &mut Parser,
    pred: P,
    Ghost(class): Ghost<spec_fn(char) -> bool>,
) -> (text: String) where P: Fn(&char) -> bool
    requires
        forall|c: char| call_requires(pred, (&c,)),
        forall|c: char, b: bool| call_ensures(pred, (&c,), b) ==> b == class(c),
    ensures
        final(parser)@ == old(parser)@.at(
            run_end(old(parser)@.source, old(parser)@.offset, class),
        ),
        text@ == old(parser)@.source.subrange(old(parser)@.offset, final(parser)@.offset),
{
    proof {
        lemma_offset_in_source(parser);
    }
    let text = parser.peek_while(pred).collect();
    proof {
        let s = old(parser)@.source;
        let start = old(parser)@.offset;
        let end = start + text@.len();
        assert forall|k: int| start <= k < end implies class(#[trigger] s[k]) by {
            assert(s[k] == text@[k - start]);
        }
        lemma_run_end_is(s, start, class, end);
    }
    text
}

/// Consumes the white space that comes next. This cannot fail.
pub fn parse_whitespace(parser: &mut Parser) -> (r: Result<(), SyntaxError>)
    ensures
        r is Ok,
        final(parser)@ == old(parser)@.at(
            grammar::whitespace_end(old(parser)@.source, old(parser)@.offset),
        ),
{
    loop
        invariant
            parser@.source == old(parser)@.source,
            grammar::whitespace_end(old(parser)@.source, old(parser)@.offset)
                == grammar::whitespace_end(parser@.source, parser@.offset),
        ensures
            parser@ == old(parser)@.at(
                grammar::whitespace_end(old(parser)@.source, old(parser)@.offset),
            ),
        decreases parser@.source.len() - parser@.offset,
    {
        proof {
            lemma_offset_in_source(parser);
        }
        match parser.peek() {
            Some(c) => {
                if !is_whitespace(&c) {
                    break ;
                }
                parser.next();
            },
            None => {
                break ;
            },
        }
    }
    Ok(())
}

/// Reads a number: the digits that come next, with at most one point
/// among them. This cannot fail; where no digit and no point comes next,
/// the number is empty.
pub fn parse_number(parser: &mut Parser) -> (r: Result<Phrase, SyntaxError>)
    ensures
        r is Ok,
        parses(
            old(parser)@,
            final(parser)@,
            r,
            grammar::number(old(parser)@.source, old(parser)@.offset),
        ),
{
    let ghost s = parser@.source;
    let ghost start = parser@.offset;
    let ghost point = grammar::digits_end(s, start);
    proof {
        lemma_offset_in_source(parser);
        lemma_run_end(s, start, |c: char| digit(c));
    }
    let mut number = parse_run(parser, is_digit, Ghost(|c: char| digit(c)));
    if parser.peek() == Some('.') {
        parser.next();
        number.push('.');
        proof {
            lemma_run_end(s, point + 1, |c: char| digit(c));
        }
        let fraction = parse_run(parser, is_digit, Ghost(|c: char| digit(c)));
        number.append(fraction.as_str());
        proof {
            assert(number@ =~= s.subrange(start, grammar::number_end(s, start)));
        }
    }
    Ok(Phrase::Number(number))
}

/// Reads a text identifier: the letters, digits and underscores that come
/// next. This cannot fail; where none comes next, the identifier is empty.
pub fn parse_text_identifier(parser: &mut Parser) -> (r: Result<Phrase, SyntaxError>)
    ensures
        r is Ok,
        parses(
            old(parser)@,
            final(parser)@,
            r,
            grammar::text_identifier(old(parser)@.source, old(parser)@.offset),
        ),
{
    let identifier = parse_run(parser, is_identifier_part, Ghost(|c: char| identifier_part(c)));
    Ok(Phrase::Identifier(identifier))
}

/// Reads an operator identifier: the operator characters that come next.
/// This cannot fail; where none comes next, the identifier is empty.
pub fn parse_operator_identifier(parser: &mut Parser) -> (r: Result<Phrase, SyntaxError>)
    ensures
        r is Ok,
        parses(
            old(parser)@,
            final(parser)@,
            r,
            grammar::operator_identifier(old(parser)@.source, old(parser)@.offset),
        ),
{
    let identifier = parse_run(parser, is_operator, Ghost(|c: char| operator(c)));
    Ok(Phrase::Identifier(identifier))
}

/// Consumes the next character if it is `expected`. Otherwise nothing is
/// consumed, and what stands there instead is the error.
fn parse_char(parser: &mut Parser, expected: char) -> (r: Result<(), SyntaxError>)
    ensures
        0 <= old(parser)@.offset <= old(parser)@.source.len(),
        match grammar::expect(old(parser)@.source, old(parser)@.offset, expected) {
            None => r is Ok && final(parser)@ == old(parser)@.skip(1),
            Some(kind) => r == Err::<(), SyntaxError>(
                SyntaxError { kind, location: old(parser)@.location() },
            ) && final(parser)@ == old(parser)@,
        },
{
    proof {
        lemma_offset_in_source(parser);
    }
    match parser.peek() {
        Some(c) => {
            if c == expected {
                parser.next();
                Ok(())
            } else {
                Err(parser.error(SyntaxErrorKind::UnexpectedCharacter(c)))
            }
        },
        None => Err(parser.error(SyntaxErrorKind::UnexpectedEndOfInput)),
    }
}

/// Reads a comment: a semicolon and the rest of the line. The newline
/// stays in place. Where no semicolon comes next, nothing is consumed.
pub fn parse_comment(parser: &mut Parser) -> (r: Result<Phrase, SyntaxError>)
    ensures
        parses(
            old(parser)@,
            final(parser)@,
            r,
            grammar::comment(old(parser)@.source, old(parser)@.offset),
        ),
{
    match parse_char(parser, ';') {
        Err(error) => Err(error),
        Ok(_) => {
            let body = parse_run(parser, is_within_line, Ghost(|c: char| within_line(c)));
            Ok(Phrase::Comment(body))
        },
    }
}

/// Reads a label: a colon and the letters and numbers behind it, which
/// may be none. Where no colon comes next, nothing is consumed.
pub fn parse_label(parser: &mut Parser) -> (r: Result<Phrase, SyntaxError>)
    ensures
        parses(
            old(parser)@,
            final(parser)@,
            r,
            grammar::label(old(parser)@.source, old(parser)@.offset),
        ),
{
    match parse_char(parser, ':') {
        Err(error) => Err(error),
        Ok(_) => {
            let label = parse_run(parser, is_label_part, Ghost(|c: char| alphanumeric(c)));
            Ok(Phrase::Label(label))
        },
    }
}

/// Reads a type annotation: two colons and an identifier. The identifier
/// is checked to be there and then dropped.
pub fn parse_type(parser: &mut Parser) -> (r: Result<(), SyntaxError>)
    ensures
        parses(
            old(parser)@,
            final(parser)@,
            r,
            grammar::type_annotation(old(parser)@.source, old(parser)@.offset),
        ),
{
    match parse_char(parser, ':') {
        Err(error) => Err(error),
        Ok(_) => match parse_char(parser, ':') {
            Err(error) => Err(error),
            Ok(_) => {
                proof {
                    lemma_run_end(
                        old(parser)@.source,
                        old(parser)@.offset + 2,
                        |c: char| identifier_part(c),
                    );
                }
                let name = parse_run(
                    parser,
                    is_identifier_part,
                    Ghost(|c: char| identifier_part(c)),
                );
                if name.as_str().is_empty() {
                    Err(parser.error(SyntaxErrorKind::MalformedAnnotation))
                } else {
                    Ok(())
                }
            },
        },
    }
}

/// Reads a text: a double quote, the content, and the double quote that
/// closes it. The content is returned as it stands: a backslash and the
/// character behind it are both kept, and that character does not close
/// the text. A text that is not closed is an error at the end of the
/// input. Where no double quote comes next, nothing is consumed.
pub fn parse_string(parser: &mut Parser) -> (r: Result<Phrase, SyntaxError>)
    ensures
        parses(
            old(parser)@,
            final(parser)@,
            r,
            grammar::text(old(parser)@.source, old(parser)@.offset),
        ),
{
    let ghost s = parser@.source;
    let ghost start = parser@.offset;
    match parse_char(parser, '"') {
        Err(error) => {
            return Err(error);
        },
        Ok(_) => {},
    }
    let mut text = String::new();
    loop
        invariant
            parser@.source == s,
            start + 1 <= parser@.offset <= s.len(),
            text@ == s.subrange(start + 1, parser@.offset),
            grammar::closing_quote(s, start + 1) == grammar::closing_quote(s, parser@.offset),
            grammar::expect(s, start, '"') is None,
            s == old(parser)@.source,
            start == old(parser)@.offset,
        decreases s.len() - parser@.offset,
    {
        let ghost at = parser@.offset;
        match parser.next() {
            None => {
                return Err(parser.error(SyntaxErrorKind::UnexpectedEndOfInput));
            },
            Some(c) => {
                if c == '"' {
                    return Ok(Phrase::Text(text));
                }
                text.push(c);
                proof {
                    assert(text@ =~= s.subrange(start + 1, at + 1));
                }
                if c == '\\' {
                    match parser.next() {
                        None => {
                            return Err(parser.error(SyntaxErrorKind::UnexpectedEndOfInput));
                        },
                        Some(escaped) => {
                            text.push(escaped);
                            proof {
                                assert(text@ =~= s.subrange(start + 1, at + 2));
                            }
                        },
                    }
                }
            },
        }
    }
}

/// Reads a phrase: the white space before it, the phrase that its first
/// character announces, and the type annotation behind it if two colons
/// follow. The annotation is checked and then dropped.
///
/// A bracket announces a nested expression, a double quote a text, a
/// semicolon a comment, a colon with a letter or a number behind it a
/// label, a digit a number, a letter a text identifier, an operator
/// character an operator identifier. Anything else is an error, found at
/// that character, as is the end of the input.
pub fn parse_phrase(parser: &mut Parser) -> (r: Result<Phrase, SyntaxError>)
    ensures
        parses(
            old(parser)@,
            final(parser)@,
            r,
            grammar::phrase(old(parser)@.source, old(parser)@.offset),
        ),
    decreases old(parser)@.source.len() - old(parser)@.offset, 1int,
{
    let ghost s = parser@.source;
    proof {
        lemma_offset_in_source(parser);
        lemma_whitespace_end_twice(s, parser@.offset);
    }
    let _ = parse_whitespace(parser);
    let ghost start = parser@.offset;
    let primary = match parser.peek() {
        None => Err(parser.error(SyntaxErrorKind::UnexpectedEndOfInput)),
        Some(c) => {
            if c == '(' || c == '[' || c == '{' {
                match parse_expression(parser) {
                    Ok(expression) => Ok(Phrase::Expression(expression)),
                    Err(error) => Err(error),
                }
            } else if c == '"' {
                parse_string(parser)
            } else if c == ';' {
                parse_comment(parser)
            } else if c == ':' && label_follows(parser) {
                parse_label(parser)
            } else if is_digit(&c) {
                parse_number(parser)
            } else if is_letter(&c) {
                parse_text_identifier(parser)
            } else if is_operator(&c) {
                parse_operator_identifier(parser)
            } else {
                Err(parser.error(SyntaxErrorKind::UnexpectedCharacter(c)))
            }
        },
    };
    assert(parses(old(parser)@.at(start), parser@, primary, grammar::primary(s, start)));
    match primary {
        Err(error) => Err(error),
        Ok(phrase) => {
            if parser.peek() == Some(':') && parser.peek_at(1) == Some(':') {
                match parse_type(parser) {
                    Err(error) => Err(error),
                    Ok(_) => Ok(phrase),
                }
            } else {
                Ok(phrase)
            }
        },
    }
}

/// Whether a letter or a number stands behind the next character.
fn label_follows(parser: &Parser) -> (b: bool)
    ensures
        b == (parser@.ahead(1) matches Some(c) && alphanumeric(c)),
{
    match parser.peek_at(1) {
        Some(c) => c.is_alphanumeric(),
        None => false,
    }
}

} // verus!
