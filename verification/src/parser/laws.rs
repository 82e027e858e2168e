//! What holds of the grammar.

use vstd::prelude::*;

use super::classes::alphanumeric;
use super::classes::closing;
use super::classes::digit;
use super::classes::identifier_part;
use super::classes::letter;
use super::classes::operator;
use super::classes::whitespace;
use super::classes::within_line;
use super::error::SyntaxErrorKind;
use super::expression::ExpressionKind;
use super::expression::ExpressionView;
use super::grammar::closing_quote;
use super::grammar::comment;
use super::grammar::digits_end;
use super::grammar::expression_from;
use super::grammar::lemma_run_end;
use super::grammar::lemma_run_end_is;
use super::grammar::number_end;
use super::grammar::phrase;
use super::grammar::phrase_from;
use super::grammar::primary;
use super::grammar::program;
use super::grammar::run_end;
use super::grammar::text;
use super::grammar::type_annotation;
use super::grammar::values;
use super::grammar::whitespace_end;
use super::grammar::Parsed;
use super::phrase::PhraseView;

verus! {

/// The white space before a character that is none ends where it starts:
/// to skip white space twice is to skip it once.
pub proof fn lemma_whitespace_end_twice(s: Seq<char>, start: int)
    ensures
        whitespace_end(s, whitespace_end(s, start)) == whitespace_end(s, start),
        start <= whitespace_end(s, start),
        start <= s.len() ==> whitespace_end(s, start) <= s.len(),
{
    lemma_run_end(s, start, |c: char| whitespace(c));
}

/// The double quote that closes a text stands within the source, at or
/// behind the start of the content.
pub proof fn lemma_closing_quote_within(s: Seq<char>, start: int)
    ensures
        closing_quote(s, start) matches Some(quote) ==> start <= quote < s.len() && s[quote]
            == '"',
    decreases s.len() - start,
{
    if 0 <= start < s.len() && s[start] != '"' {
        if s[start] == '\\' {
            if start + 1 < s.len() {
                lemma_closing_quote_within(s, start + 2);
            }
        } else {
            lemma_closing_quote_within(s, start + 1);
        }
    }
}

/// A type annotation ends within the source, and behind its start if it is
/// well formed.
pub proof fn lemma_type_annotation_advances(s: Seq<char>, start: int)
    requires
        0 <= start <= s.len(),
    ensures
        start <= type_annotation(s, start).end <= s.len(),
        type_annotation(s, start).result is Ok ==> start + 2 < type_annotation(s, start).end,
{
    lemma_run_end(s, start + 2, |c: char| identifier_part(c));
}

/// Reading a phrase without its annotation ends within the source, and
/// behind its start if a phrase was read.
pub proof fn lemma_primary_advances(s: Seq<char>, start: int)
    requires
        0 <= start <= s.len(),
    ensures
        start <= primary(s, start).end <= s.len(),
        primary(s, start).result is Ok ==> start < primary(s, start).end,
    decreases s.len() - start, 1int,
{
    if start < s.len() {
        lemma_expression_advances(s, start);
        lemma_closing_quote_within(s, start + 1);
        lemma_run_end(s, start + 1, |c: char| within_line(c));
        lemma_run_end(s, start + 1, |c: char| alphanumeric(c));
        lemma_run_end(s, start + 1, |c: char| digit(c));
        lemma_run_end(s, start + 1, |c: char| identifier_part(c));
        lemma_run_end(s, start + 1, |c: char| operator(c));
        let point = digits_end(s, start);
        lemma_run_end(s, point + 1, |c: char| digit(c));
    }
}

/// Reading a phrase ends within the source, and behind its start if a
/// phrase was read.
pub proof fn lemma_phrase_advances(s: Seq<char>, start: int)
    requires
        0 <= start <= s.len(),
    ensures
        start <= phrase_from(s, start).end <= s.len(),
        phrase_from(s, start).result is Ok ==> start < phrase_from(s, start).end,
    decreases s.len() - start, 2int,
{
    lemma_primary_advances(s, start);
    lemma_type_annotation_advances(s, primary(s, start).end);
}

/// Reading an expression ends within the source, and behind its start if
/// an expression was read.
pub proof fn lemma_expression_advances(s: Seq<char>, start: int)
    requires
        0 <= start <= s.len(),
    ensures
        start <= expression_from(s, start).end <= s.len(),
        expression_from(s, start).result is Ok ==> start < expression_from(s, start).end,
    decreases s.len() - start, 0int,
{
    if start < s.len() {
        lemma_run_end(s, start + 1, |c: char| within_line(c));
        if s[start] != ';' && ExpressionKind::opened_by(s[start]) is Some {
            lemma_values_advance(s, start + 1);
        }
    }
}

/// Reading the phrases of an expression ends within the source, at or
/// behind its start.
pub proof fn lemma_values_advance(s: Seq<char>, start: int)
    requires
        0 <= start <= s.len(),
    ensures
        start <= values(s, start).end <= s.len(),
    decreases s.len() - start, 3int,
{
    let next = whitespace_end(s, start);
    lemma_whitespace_end_twice(s, start);
    if next < s.len() && !closing(s[next]) {
        lemma_phrase_advances(s, next);
        let first = phrase_from(s, next);
        if first.result is Ok {
            lemma_values_advance(s, first.end);
        }
    }
}

/// Reading a program ends within the source, at or behind its start.
pub proof fn lemma_program_advances(s: Seq<char>, start: int)
    requires
        0 <= start <= s.len(),
    ensures
        start <= program(s, start).end <= s.len(),
    decreases s.len() - start,
{
    let next = whitespace_end(s, start);
    lemma_whitespace_end_twice(s, start);
    if next < s.len() {
        lemma_expression_advances(s, next);
        let first = expression_from(s, next);
        if first.result is Ok {
            lemma_program_advances(s, first.end);
        }
    }
}

/// A program that parses leaves nothing of its source unread.
pub proof fn lemma_program_ends_the_source(s: Seq<char>, start: int)
    requires
        0 <= start <= s.len(),
    ensures
        program(s, start).result is Ok ==> program(s, start).end == s.len(),
    decreases s.len() - start,
{
    let next = whitespace_end(s, start);
    lemma_whitespace_end_twice(s, start);
    if next < s.len() {
        lemma_expression_advances(s, next);
        let first = expression_from(s, next);
        if first.result is Ok {
            lemma_program_ends_the_source(s, first.end);
        }
    }
}

/// A number is made of digits and points, holds at most one point, and
/// ends where the text ends, or before a character that is no digit and,
/// unless the number has its point already, no point.
pub proof fn lemma_number_has_one_point(s: Seq<char>, start: int)
    requires
        0 <= start <= s.len(),
    ensures
        start <= number_end(s, start) <= s.len(),
        forall|k: int|
            start <= k < number_end(s, start) ==> digit(#[trigger] s[k]) || s[k] == '.',
        forall|j: int, k: int|
            start <= j < k < number_end(s, start) ==> !(#[trigger] s[j] == '.' && #[trigger] s[k]
                == '.'),
        number_end(s, start) < s.len() ==> {
            &&& !digit(s[number_end(s, start)])
            &&& s[number_end(s, start)] == '.' ==> exists|k: int|
                start <= k < number_end(s, start) && #[trigger] s[k] == '.'
        },
{
    let point = digits_end(s, start);
    lemma_run_end(s, start, |c: char| digit(c));
    if point < s.len() && s[point] == '.' {
        lemma_run_end(s, point + 1, |c: char| digit(c));
    }
}

/// Whether the character at `at` belongs to a backslash that stands
/// before it, in a text whose content starts at `start`: the character
/// before it is a backslash that belongs to none itself.
pub open spec fn escaped(s: Seq<char>, start: int, at: int) -> bool
    decreases at - start,
{
    start < at && s[at - 1] == '\\' && !escaped(s, start, at - 1)
}

/// A double quote at `at` that no backslash takes with it, in a text whose
/// content starts at `start`.
pub open spec fn free_quote(s: Seq<char>, start: int, at: int) -> bool {
    start <= at < s.len() && s[at] == '"' && !escaped(s, start, at)
}

/// The same, from an offset `at` in the content before which no double
/// quote is free, and which no backslash takes with it.
proof fn lemma_closing_quote_from(s: Seq<char>, start: int, at: int)
    requires
        0 <= start <= at <= s.len(),
        !escaped(s, start, at),
        forall|k: int| start <= k < at ==> !free_quote(s, start, k),
    ensures
        match closing_quote(s, at) {
            Some(quote) => {
                &&& free_quote(s, start, quote)
                &&& forall|k: int| start <= k < quote ==> !free_quote(s, start, k)
            },
            None => forall|k: int| start <= k < s.len() ==> !free_quote(s, start, k),
        },
    decreases s.len() - at,
{
    if at < s.len() && s[at] != '"' {
        if s[at] == '\\' {
            assert(escaped(s, start, at + 1));
            if at + 1 < s.len() {
                assert(!escaped(s, start, at + 2));
                lemma_closing_quote_from(s, start, at + 2);
            }
        } else {
            assert(!escaped(s, start, at + 1));
            lemma_closing_quote_from(s, start, at + 1);
        }
    }
}

/// The double quote that closes a text is the first in its content that no
/// backslash takes with it; where there is none, the text is not closed.
pub proof fn lemma_closing_quote_is_first_free(s: Seq<char>, start: int)
    requires
        0 <= start <= s.len(),
    ensures
        match closing_quote(s, start) {
            Some(quote) => {
                &&& free_quote(s, start, quote)
                &&& forall|k: int| start <= k < quote ==> !free_quote(s, start, k)
            },
            None => forall|k: int| start <= k < s.len() ==> !free_quote(s, start, k),
        },
{
    lemma_closing_quote_from(s, start, start);
}

/// A text keeps a backslash and the character behind it as they stand, and
/// does not end between the two: where the backslash lies in the content,
/// so does the character behind it, a double quote too.
pub proof fn lemma_escaped_character_is_kept(s: Seq<char>, start: int, at: int)
    requires
        0 <= start < s.len(),
        text(s, start).result is Ok,
        start < at < text(s, start).end - 1,
        s[at] == '\\',
        !escaped(s, start + 1, at),
    ensures
        at + 1 < text(s, start).end - 1,
        text(s, start).result == Ok::<PhraseView, SyntaxErrorKind>(
            PhraseView::Text(s.subrange(start + 1, text(s, start).end - 1)),
        ),
{
    lemma_closing_quote_is_first_free(s, start + 1);
    assert(escaped(s, start + 1, at + 1));
}

/// Whether the offsets from `from` up to `to` lie strictly between the
/// first and the last offset of those from `start` up to `end`.
pub open spec fn inside(start: int, end: int, from: int, to: int) -> bool {
    start < from && to < end
}

/// Whether the expression `e`, read from `start` up to `end`, and every
/// expression nested in it stand between the brackets of their kind: the
/// first character read is the bracket that opens the kind, the last one
/// the bracket that closes it. A `Null` expression has no brackets: it
/// starts with the semicolon of its comment.
pub open spec fn well_bracketed(s: Seq<char>, e: ExpressionView, start: int, end: int) -> bool
    decreases e,
{
    &&& 0 <= start < end <= s.len()
    &&& if e.kind == ExpressionKind::Null {
        s[start] == ';'
    } else {
        ExpressionKind::opened_by(s[start]) == Some(e.kind) && s[end - 1] == e.kind.closed_by()
    }
    &&& forall|k: int|
        0 <= k < e.values.len() ==> (#[trigger] e.values[k] matches PhraseView::Expression(inner)
            ==> exists|from: int, to: int| #[trigger]
            inside(start, end, from, to) && well_bracketed(s, inner, from, to))
}

/// Every expression that is read is well bracketed, at every depth of
/// nesting.
pub proof fn lemma_expression_is_well_bracketed(s: Seq<char>, start: int)
    requires
        0 <= start <= s.len(),
        expression_from(s, start).result is Ok,
    ensures
        well_bracketed(
            s,
            expression_from(s, start).result->Ok_0,
            start,
            expression_from(s, start).end,
        ),
    decreases s.len() - start, 0int,
{
    let e = expression_from(s, start).result->Ok_0;
    let end = expression_from(s, start).end;
    lemma_expression_advances(s, start);
    if s[start] == ';' {
        assert(e.values.len() == 1);
        assert(e.values[0] is Comment);
    } else {
        lemma_values_advance(s, start + 1);
        lemma_values_are_well_bracketed(s, start + 1);
        assert forall|k: int| 0 <= k < e.values.len() implies (#[trigger] e.values[k] matches PhraseView::Expression(
            inner,
        ) ==> exists|from: int, to: int| #[trigger]
            inside(start, end, from, to) && well_bracketed(s, inner, from, to)) by {
            if let PhraseView::Expression(inner) = e.values[k] {
                let (from, to): (int, int) = choose|from: int, to: int|
                    start + 1 <= from && to <= values(s, start + 1).end && well_bracketed(
                        s,
                        inner,
                        from,
                        to,
                    );
                assert(inside(start, end, from, to) && well_bracketed(s, inner, from, to));
            }
        }
    }
}

/// A nested expression that is read as a phrase is well bracketed from
/// the start of the phrase on.
proof fn lemma_phrase_is_well_bracketed(s: Seq<char>, start: int)
    requires
        0 <= start <= s.len(),
        phrase_from(s, start).result is Ok,
    ensures
        phrase_from(s, start).result->Ok_0 matches PhraseView::Expression(inner) ==> exists|
            to: int,
        |
            to <= phrase_from(s, start).end && well_bracketed(s, inner, start, to),
    decreases s.len() - start, 2int,
{
    lemma_primary_advances(s, start);
    lemma_type_annotation_advances(s, primary(s, start).end);
    if let PhraseView::Expression(inner) = phrase_from(s, start).result->Ok_0 {
        lemma_expression_is_well_bracketed(s, start);
        assert(well_bracketed(s, inner, start, expression_from(s, start).end));
    }
}

/// Each nested expression among the phrases that are read is well
/// bracketed somewhere between the first and the last of them.
proof fn lemma_values_are_well_bracketed(s: Seq<char>, start: int)
    requires
        0 <= start <= s.len(),
        values(s, start).result is Ok,
    ensures
        forall|k: int|
            0 <= k < values(s, start).result->Ok_0.len() ==> (
            #[trigger] values(s, start).result->Ok_0[k] matches PhraseView::Expression(inner)
                ==> exists|from: int, to: int|
                start <= from && to <= values(s, start).end && well_bracketed(s, inner, from, to)),
    decreases s.len() - start, 3int,
{
    let all = values(s, start).result->Ok_0;
    let end = values(s, start).end;
    let next = whitespace_end(s, start);
    lemma_whitespace_end_twice(s, start);
    if next < s.len() && !closing(s[next]) {
        lemma_phrase_advances(s, next);
        let first = phrase_from(s, next);
        lemma_phrase_is_well_bracketed(s, next);
        lemma_values_advance(s, first.end);
        lemma_values_are_well_bracketed(s, first.end);
        let rest = values(s, first.end).result->Ok_0;
        assert forall|k: int| 0 <= k < all.len() implies (#[trigger] all[k] matches PhraseView::Expression(
            inner,
        ) ==> exists|from: int, to: int|
            start <= from && to <= end && well_bracketed(s, inner, from, to)) by {
            if let PhraseView::Expression(inner) = all[k] {
                if k == 0 {
                    let to = choose|to: int|
                        to <= first.end && well_bracketed(s, inner, next, to);
                    assert(start <= next && to <= end && well_bracketed(s, inner, next, to));
                } else {
                    assert(all[k] == rest[k - 1]);
                    let (from, to): (int, int) = choose|from: int, to: int|
                        first.end <= from && to <= end && well_bracketed(s, inner, from, to);
                    assert(start <= from && to <= end && well_bracketed(s, inner, from, to));
                }
            }
        }
    }
}

/// Whether `e` is well bracketed somewhere in `s`.
pub open spec fn well_bracketed_in(s: Seq<char>, e: ExpressionView) -> bool {
    exists|start: int, end: int| well_bracketed(s, e, start, end)
}

/// Whether each of `expressions` is well bracketed somewhere in `s`.
pub open spec fn all_well_bracketed(s: Seq<char>, expressions: Seq<ExpressionView>) -> bool {
    forall|k: int| 0 <= k < expressions.len() ==> well_bracketed_in(s, #[trigger] expressions[k])
}

/// Every expression of a program that is read is well bracketed.
pub proof fn lemma_program_is_well_bracketed(s: Seq<char>, start: int)
    requires
        0 <= start <= s.len(),
        program(s, start).result is Ok,
    ensures
        all_well_bracketed(s, program(s, start).result->Ok_0),
    decreases s.len() - start,
{
    let all = program(s, start).result->Ok_0;
    let next = whitespace_end(s, start);
    lemma_whitespace_end_twice(s, start);
    if next < s.len() {
        lemma_expression_advances(s, next);
        lemma_expression_is_well_bracketed(s, next);
        let first = expression_from(s, next);
        lemma_program_is_well_bracketed(s, first.end);
        let rest = program(s, first.end).result->Ok_0;
        assert forall|k: int| 0 <= k < all.len() implies well_bracketed_in(
            s,
            #[trigger] all[k],
        ) by {
            if k == 0 {
                assert(well_bracketed(s, all[0], next, first.end));
            } else {
                assert(all[k] == rest[k - 1]);
            }
        }
    }
}

/// Whether `t` starts with the text `s`.
pub open spec fn starts_with(t: Seq<char>, s: Seq<char>) -> bool {
    s.len() <= t.len() && forall|k: int| 0 <= k < s.len() ==> #[trigger] t[k] == s[k]
}

/// A run ends in a longer text where it ends in a shorter one, unless it
/// reaches the end of the shorter one and goes on in what follows.
pub proof fn lemma_run_end_in_longer_text(
    s: Seq<char>,
    t: Seq<char>,
    start: int,
    class: spec_fn(char) -> bool,
)
    requires
        0 <= start <= s.len(),
        starts_with(t, s),
        run_end(s, start, class) == s.len() && s.len() < t.len() ==> !class(t[s.len() as int]),
    ensures
        run_end(t, start, class) == run_end(s, start, class),
{
    let end = run_end(s, start, class);
    lemma_run_end(s, start, class);
    assert forall|k: int| start <= k < end implies class(#[trigger] t[k]) by {
        assert(class(s[k]));
    }
    lemma_run_end_is(t, start, class, end);
}

/// A text that is closed in a shorter text is closed by the same double
/// quote in a longer one.
pub proof fn lemma_closing_quote_in_longer_text(s: Seq<char>, t: Seq<char>, start: int)
    requires
        0 <= start,
        starts_with(t, s),
        closing_quote(s, start) is Some,
    ensures
        closing_quote(t, start) == closing_quote(s, start),
    decreases s.len() - start,
{
    if start < s.len() && s[start] != '"' {
        if s[start] == '\\' {
            lemma_closing_quote_in_longer_text(s, t, start + 2);
        } else {
            lemma_closing_quote_in_longer_text(s, t, start + 1);
        }
    }
}

/// What a value is with a type annotation put behind it.
pub open spec fn with_annotation(value: Seq<char>, name: Seq<char>, rest: Seq<char>) -> Seq<char> {
    value + seq![':', ':'] + name + rest
}

/// A value with a type annotation behind it is read as the same phrase as
/// the value alone: the annotation is consumed and leaves no trace.
///
/// The value is an identifier, a text or a number that reaches to the end
/// of `value`; the annotation is two colons and the identifier `name`,
/// which is not empty and ends where `rest` begins.
pub proof fn lemma_annotation_is_dropped(value: Seq<char>, name: Seq<char>, rest: Seq<char>)
    requires
        primary(value, whitespace_end(value, 0)).end == value.len(),
        primary(value, whitespace_end(value, 0)).result matches Ok(read) && (read is Identifier
            || read is Text || read is Number),
        name.len() > 0,
        forall|k: int| 0 <= k < name.len() ==> identifier_part(#[trigger] name[k]),
        rest.len() > 0 ==> !identifier_part(rest[0]),
    ensures
        phrase(value, 0) == primary(value, whitespace_end(value, 0)),
        phrase(with_annotation(value, name, rest), 0).result == phrase(value, 0).result,
        phrase(with_annotation(value, name, rest), 0).end == value.len() + 2 + name.len(),
{
    let t = with_annotation(value, name, rest);
    let start = whitespace_end(value, 0);
    let end = value.len() as int;
    let read = primary(value, start).result->Ok_0;
    lemma_run_end(value, 0, |c: char| whitespace(c));
    assert(0 <= start < end);
    assert(starts_with(t, value));
    assert(t[end] == ':' && t[end + 1] == ':');
    lemma_run_end_in_longer_text(value, t, 0, |c: char| whitespace(c));
    assert(whitespace_end(t, 0) == start);
    assert(t[start] == value[start]);
    // The value is read from the longer text as it is from its own.
    if value[start] == '"' {
        lemma_closing_quote_within(value, start + 1);
        lemma_closing_quote_in_longer_text(value, t, start + 1);
        let quote = closing_quote(value, start + 1)->0;
        assert(t.subrange(start + 1, quote) =~= value.subrange(start + 1, quote));
    } else if digit(value[start]) {
        let point = digits_end(value, start);
        lemma_run_end(value, start, |c: char| digit(c));
        lemma_run_end_in_longer_text(value, t, start, |c: char| digit(c));
        if point < end && value[point] == '.' {
            lemma_run_end(value, point + 1, |c: char| digit(c));
            lemma_run_end_in_longer_text(value, t, point + 1, |c: char| digit(c));
        }
        assert(number_end(t, start) == end);
        assert(t.subrange(start, end) =~= value.subrange(start, end));
    } else if letter(value[start]) {
        lemma_run_end_in_longer_text(value, t, start, |c: char| identifier_part(c));
        assert(t.subrange(start, end) =~= value.subrange(start, end));
    } else {
        lemma_run_end_in_longer_text(value, t, start, |c: char| operator(c));
        assert(t.subrange(start, end) =~= value.subrange(start, end));
    }
    assert(primary(t, start) == primary(value, start));
    // The annotation is read behind it.
    let after = end + 2 + name.len();
    assert forall|k: int| end + 2 <= k < after implies identifier_part(#[trigger] t[k]) by {
        assert(t[k] == name[k - end - 2]);
    }
    if after < t.len() {
        assert(t[after] == rest[0]);
    }
    lemma_run_end_is(t, end + 2, |c: char| identifier_part(c), after);
    assert(type_annotation(t, end) == Parsed::done((), after));
}

/// An expression is of the kind `Null` where it starts with a semicolon,
/// and nowhere else; what it holds then is the one comment that starts
/// there.
pub proof fn lemma_null_is_one_comment(s: Seq<char>, start: int)
    requires
        0 <= start <= s.len(),
        expression_from(s, start).result is Ok,
    ensures
        expression_from(s, start).result->Ok_0.kind == ExpressionKind::Null <==> s[start] == ';',
        s[start] == ';' ==> expression_from(s, start).result->Ok_0.values == seq![
            comment(s, start).result->Ok_0,
        ] && comment(s, start).result->Ok_0 is Comment,
{
}

} // verus!
