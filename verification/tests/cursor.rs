use yall::parser::classes::is_closing;
use yall::parser::classes::is_digit;
use yall::parser::classes::is_identifier_part;
use yall::parser::classes::is_label_part;
use yall::parser::classes::is_letter;
use yall::parser::classes::is_operator;
use yall::parser::classes::is_whitespace;
use yall::parser::classes::is_within_line;
use yall::parser::Location;
use yall::parser::Parser;
use yall::parser::SyntaxError;
use yall::parser::SyntaxErrorKind;
use yall::peek_while::peek_while;

fn at(line: usize, column: usize) -> Location {
    Location { line, column }
}

#[test]
fn location_steps() {
    let mut location = Location::default();
    assert_eq!(location, at(1, 1));
    location.next_column();
    location.next_column();
    assert_eq!(location, at(1, 3));
    location.next_line();
    assert_eq!(location, at(2, 1));
    location.next_column();
    assert_eq!(location, at(2, 2));
}

#[test]
fn peek_does_not_move() {
    let mut parser = Parser::new("ab");
    assert_eq!(parser.peek(), Some('a'));
    assert_eq!(parser.peek(), Some('a'));
    assert_eq!(parser.location(), at(1, 1));
    assert_eq!(parser.peek_at(0), Some('a'));
    assert_eq!(parser.peek_at(1), Some('b'));
    assert_eq!(parser.peek_at(2), None);
    assert_eq!(parser.peek_at(usize::MAX), None);
    assert_eq!(parser.next(), Some('a'));
    assert_eq!(parser.peek_at(1), None);
}

#[test]
fn next_counts_lines_and_columns() {
    let mut parser = Parser::new("a\nbc\n");
    assert_eq!(parser.location(), at(1, 1));
    assert_eq!(parser.next(), Some('a'));
    assert_eq!(parser.location(), at(1, 2));
    assert_eq!(parser.next(), Some('\n'));
    assert_eq!(parser.location(), at(2, 1));
    assert_eq!(parser.next(), Some('b'));
    assert_eq!(parser.next(), Some('c'));
    assert_eq!(parser.location(), at(2, 3));
    assert_eq!(parser.next(), Some('\n'));
    assert_eq!(parser.location(), at(3, 1));
}

#[test]
fn next_at_the_end_changes_nothing() {
    let mut parser = Parser::new("a");
    assert_eq!(parser.next(), Some('a'));
    assert_eq!(parser.next(), None);
    assert_eq!(parser.next(), None);
    assert_eq!(parser.peek(), None);
    assert_eq!(parser.location(), at(1, 2));
}

#[test]
fn empty_source() {
    let mut parser = Parser::new("");
    assert_eq!(parser.peek(), None);
    assert_eq!(parser.next(), None);
    assert_eq!(parser.location(), at(1, 1));
}

#[test]
fn characters_beyond_ascii_count_once() {
    let mut parser = Parser::new("é🏁x");
    assert_eq!(parser.next(), Some('é'));
    assert_eq!(parser.next(), Some('🏁'));
    assert_eq!(parser.location(), at(1, 3));
    assert_eq!(parser.next(), Some('x'));
}

#[test]
fn error_carries_the_location() {
    let mut parser = Parser::new("a\nb");
    parser.next();
    parser.next();
    assert_eq!(
        parser.error(SyntaxErrorKind::MalformedAnnotation),
        SyntaxError { kind: SyntaxErrorKind::MalformedAnnotation, location: at(2, 1) }
    );
}

#[test]
fn peek_while_stops_before_the_first_failure() {
    let mut parser = Parser::new("123abc");
    let digits = parser.peek_while(|c: &char| c.is_ascii_digit()).collect();
    assert_eq!(digits, "123");
    assert_eq!(parser.peek(), Some('a'));
    assert_eq!(parser.location(), at(1, 4));

    let nothing = parser.peek_while(|c: &char| c.is_ascii_digit()).collect();
    assert_eq!(nothing, "");
    assert_eq!(parser.peek(), Some('a'));

    let rest = parser.peek_while(|_: &char| true).collect();
    assert_eq!(rest, "abc");
    assert_eq!(parser.peek(), None);
}

#[test]
fn peek_while_tracks_lines() {
    let mut parser = Parser::new("a\n\nb!");
    let run = parser.peek_while(|c: &char| *c != '!').collect();
    assert_eq!(run, "a\n\nb");
    assert_eq!(parser.location(), at(3, 2));
}

#[test]
fn peek_while_one_by_one() {
    let mut parser = Parser::new("ab1");
    let mut run = peek_while(&mut parser, is_letter);
    assert_eq!(run.next(), Some('a'));
    assert_eq!(run.next(), Some('b'));
    assert_eq!(run.next(), None);
    assert_eq!(run.next(), None);
    assert_eq!(parser.next(), Some('1'));
    let mut run = peek_while(&mut parser, is_letter);
    assert_eq!(run.next(), None);
}

#[test]
fn character_classes() {
    for c in ['0', '5', '9'] {
        assert!(is_digit(&c));
        assert!(is_identifier_part(&c));
        assert!(!is_letter(&c));
    }
    for c in ['/', ':', '٣', 'a'] {
        assert!(!is_digit(&c));
    }
    for c in ['a', 'z', 'A', 'Z', 'm'] {
        assert!(is_letter(&c));
        assert!(is_identifier_part(&c));
    }
    for c in ['@', '[', '`', '{', 'é', '_'] {
        assert!(!is_letter(&c));
    }
    assert!(is_identifier_part(&'_'));
    assert!(!is_identifier_part(&'-'));
    for c in ['*', '+', '-', '/', '<', '>', '=', '!', '$', '|', '?', '^', '~'] {
        assert!(is_operator(&c));
    }
    for c in ['%', '&', ':', '.', ',', '#', '@', 'a', '1', '(', '\\'] {
        assert!(!is_operator(&c));
    }
    for c in ['}', ']', ')'] {
        assert!(is_closing(&c));
    }
    for c in ['{', '[', '(', '>'] {
        assert!(!is_closing(&c));
    }
    assert!(is_within_line(&'a'));
    assert!(is_within_line(&'\r'));
    assert!(!is_within_line(&'\n'));
    assert!(is_label_part(&'é'));
    assert!(is_label_part(&'٣'));
    assert!(!is_label_part(&'_'));
    assert!(!is_label_part(&':'));
}

#[test]
fn classes_agree_with_the_standard_library() {
    for code in 0..=0x10ffffu32 {
        if let Some(c) = char::from_u32(code) {
            assert_eq!(is_whitespace(&c), c.is_whitespace(), "{:?}", c);
            assert_eq!(is_digit(&c), c.is_ascii_digit(), "{:?}", c);
            assert_eq!(is_letter(&c), c.is_ascii_alphabetic(), "{:?}", c);
            assert_eq!(is_identifier_part(&c), c.is_ascii_alphanumeric() || c == '_', "{:?}", c);
            assert_eq!(is_label_part(&c), c.is_alphanumeric(), "{:?}", c);
            assert_eq!(is_within_line(&c), c != '\n', "{:?}", c);
        }
    }
}

#[test]
fn whitespace_characters() {
    let all = [
        '\u{9}', '\u{a}', '\u{b}', '\u{c}', '\u{d}', ' ', '\u{85}', '\u{a0}', '\u{1680}',
        '\u{2000}', '\u{2001}', '\u{2002}', '\u{2003}', '\u{2004}', '\u{2005}', '\u{2006}',
        '\u{2007}', '\u{2008}', '\u{2009}', '\u{200a}', '\u{2028}', '\u{2029}', '\u{202f}',
        '\u{205f}', '\u{3000}',
    ];
    for c in all {
        assert!(is_whitespace(&c), "{:?}", c);
    }
    for c in ['\u{8}', '\u{e}', '\u{1f}', '!', 'a', '\u{200b}', '\u{feff}', '\u{2060}', '越'] {
        assert!(!is_whitespace(&c), "{:?}", c);
    }
}

#[test]
fn try_new_takes_any_source_that_fits() {
    let mut parser = Parser::try_new("ab").unwrap();
    assert_eq!(parser.location(), at(1, 1));
    assert_eq!(parser.next(), Some('a'));
    assert_eq!(parser.next(), Some('b'));
    assert_eq!(parser.next(), None);
    assert!(Parser::try_new("").is_some());
}
