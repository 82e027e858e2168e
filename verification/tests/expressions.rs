use yall::parser::parse_expression;
use yall::parser::parse_program;
use yall::parser::Expression;
use yall::parser::ExpressionKind;
use yall::parser::Location;
use yall::parser::Parser;
use yall::parser::Phrase;
use yall::parser::SyntaxError;
use yall::parser::SyntaxErrorKind;

fn at(line: usize, column: usize) -> Location {
    Location { line, column }
}

fn program(source: &str) -> Result<Vec<Expression>, SyntaxError> {
    parse_program(&mut Parser::new(source))
}

fn identifier(name: &str) -> Phrase {
    Phrase::Identifier(name.to_string())
}

fn number(digits: &str) -> Phrase {
    Phrase::Number(digits.to_string())
}

fn nested(kind: ExpressionKind, values: Vec<Phrase>) -> Phrase {
    Phrase::Expression(Expression { kind, values })
}

#[test]
fn empty_input_is_an_empty_program() {
    assert_eq!(program(""), Ok(vec![]));
    assert_eq!(program(" \n\t "), Ok(vec![]));
}

#[test]
fn empty_block() {
    assert_eq!(program("{}"), Ok(vec![Expression { kind: ExpressionKind::Block, values: vec![] }]));
}

#[test]
fn item_with_values() {
    assert_eq!(
        program("(foo 1 2.5 \"hi\")"),
        Ok(vec![Expression {
            kind: ExpressionKind::Item,
            values: vec![
                identifier("foo"),
                number("1"),
                number("2.5"),
                Phrase::Text("hi".to_string()),
            ],
        }])
    );
}

#[test]
fn wrong_terminator() {
    assert_eq!(
        program("(foo]"),
        Err(SyntaxError {
            kind: SyntaxErrorKind::UnmatchedTerminator { expected: ')', found: Some(']') },
            location: at(1, 5),
        })
    );
    assert_eq!(
        program("{ [a) }"),
        Err(SyntaxError {
            kind: SyntaxErrorKind::UnmatchedTerminator { expected: ']', found: Some(')') },
            location: at(1, 5),
        })
    );
    assert_eq!(
        program("[}"),
        Err(SyntaxError {
            kind: SyntaxErrorKind::UnmatchedTerminator { expected: ']', found: Some('}') },
            location: at(1, 2),
        })
    );
}

#[test]
fn missing_terminator() {
    assert_eq!(
        program("(foo"),
        Err(SyntaxError {
            kind: SyntaxErrorKind::UnmatchedTerminator { expected: ')', found: None },
            location: at(1, 5),
        })
    );
    assert_eq!(
        program("{\n  (a)\n"),
        Err(SyntaxError {
            kind: SyntaxErrorKind::UnmatchedTerminator { expected: '}', found: None },
            location: at(3, 1),
        })
    );
}

#[test]
fn closing_bracket_alone() {
    assert_eq!(
        program(")"),
        Err(SyntaxError { kind: SyntaxErrorKind::UnexpectedCharacter(')'), location: at(1, 1) })
    );
    assert_eq!(
        program("() ]"),
        Err(SyntaxError { kind: SyntaxErrorKind::UnexpectedCharacter(']'), location: at(1, 4) })
    );
}

#[test]
fn bare_comment() {
    assert_eq!(
        program("; trailing comment"),
        Ok(vec![Expression {
            kind: ExpressionKind::Null,
            values: vec![Phrase::Comment(" trailing comment".to_string())],
        }])
    );
}

#[test]
fn comments_between_expressions() {
    assert_eq!(
        program("; one\n(a) ; two\n; three\n[b]"),
        Ok(vec![
            Expression::null(Phrase::Comment(" one".to_string())),
            Expression { kind: ExpressionKind::Item, values: vec![identifier("a")] },
            Expression::null(Phrase::Comment(" two".to_string())),
            Expression::null(Phrase::Comment(" three".to_string())),
            Expression { kind: ExpressionKind::List, values: vec![identifier("b")] },
        ])
    );
}

#[test]
fn comment_inside_an_expression() {
    assert_eq!(
        program("(a ; rest )\n b)"),
        Ok(vec![Expression {
            kind: ExpressionKind::Item,
            values: vec![identifier("a"), Phrase::Comment(" rest )".to_string()), identifier("b")],
        }])
    );
}

#[test]
fn second_point_ends_a_number() {
    assert_eq!(
        program("(1.2.3)"),
        Err(SyntaxError { kind: SyntaxErrorKind::UnexpectedCharacter('.'), location: at(1, 5) })
    );
}

#[test]
fn nesting() {
    assert_eq!(
        program("{ (f [1 2] {}) }"),
        Ok(vec![Expression {
            kind: ExpressionKind::Block,
            values: vec![nested(
                ExpressionKind::Item,
                vec![
                    identifier("f"),
                    nested(ExpressionKind::List, vec![number("1"), number("2")]),
                    nested(ExpressionKind::Block, vec![]),
                ],
            )],
        }])
    );
}

#[test]
fn deep_nesting_keeps_every_kind() {
    let mut parser = Parser::new("([{([{}])}])");
    let mut expression = parse_expression(&mut parser).unwrap();
    let kinds = [
        ExpressionKind::Item,
        ExpressionKind::List,
        ExpressionKind::Block,
        ExpressionKind::Item,
        ExpressionKind::List,
        ExpressionKind::Block,
    ];
    for (depth, kind) in kinds.iter().enumerate() {
        assert_eq!(expression.kind, *kind);
        if depth + 1 < kinds.len() {
            assert_eq!(expression.values.len(), 1);
            expression = match expression.values.pop() {
                Some(Phrase::Expression(inner)) => inner,
                other => panic!("expected a nested expression, got {:?}", other),
            };
        } else {
            assert!(expression.values.is_empty());
        }
    }
    assert_eq!(parser.peek(), None);
}

#[test]
fn adjacent_tokens() {
    assert_eq!(
        program("(a+b\"c\"1(d))"),
        Ok(vec![Expression {
            kind: ExpressionKind::Item,
            values: vec![
                identifier("a"),
                identifier("+"),
                identifier("b"),
                Phrase::Text("c".to_string()),
                number("1"),
                nested(ExpressionKind::Item, vec![identifier("d")]),
            ],
        }])
    );
}

#[test]
fn labels_and_annotations() {
    assert_eq!(
        program("(let x::Int :key 1::u8 (f)::T)"),
        Ok(vec![Expression {
            kind: ExpressionKind::Item,
            values: vec![
                identifier("let"),
                identifier("x"),
                Phrase::Label("key".to_string()),
                number("1"),
                nested(ExpressionKind::Item, vec![identifier("f")]),
            ],
        }])
    );
}

#[test]
fn malformed_annotation_is_an_error() {
    assert_eq!(
        program("(x:: Int)"),
        Err(SyntaxError { kind: SyntaxErrorKind::MalformedAnnotation, location: at(1, 5) })
    );
}

#[test]
fn unterminated_text_in_an_expression() {
    assert_eq!(
        program("(print \"oops)"),
        Err(SyntaxError { kind: SyntaxErrorKind::UnexpectedEndOfInput, location: at(1, 14) })
    );
}

#[test]
fn unknown_character_in_an_expression() {
    assert_eq!(
        program("(foo @)"),
        Err(SyntaxError { kind: SyntaxErrorKind::UnexpectedCharacter('@'), location: at(1, 6) })
    );
    assert_eq!(
        program("(a : b)"),
        Err(SyntaxError { kind: SyntaxErrorKind::UnexpectedCharacter(':'), location: at(1, 4) })
    );
}

#[test]
fn text_at_top_level_is_no_expression() {
    assert_eq!(
        program("foo"),
        Err(SyntaxError { kind: SyntaxErrorKind::UnexpectedCharacter('f'), location: at(1, 1) })
    );
}

#[test]
fn error_location_counts_lines() {
    assert_eq!(
        program("(a)\n\n  (b\n   ]"),
        Err(SyntaxError {
            kind: SyntaxErrorKind::UnmatchedTerminator { expected: ')', found: Some(']') },
            location: at(4, 4),
        })
    );
}

#[test]
fn expression_leaves_the_rest() {
    let mut parser = Parser::new("  (a) (b)");
    assert_eq!(
        parse_expression(&mut parser),
        Ok(Expression { kind: ExpressionKind::Item, values: vec![identifier("a")] })
    );
    assert_eq!(parser.peek(), Some(' '));
    assert_eq!(parser.location(), at(1, 6));
}

#[test]
fn expression_on_empty_input() {
    assert_eq!(
        parse_expression(&mut Parser::new("  ")),
        Err(SyntaxError { kind: SyntaxErrorKind::UnexpectedEndOfInput, location: at(1, 3) })
    );
}

#[test]
fn kinds_and_brackets() {
    assert_eq!(ExpressionKind::from_initiator('{'), Ok(ExpressionKind::Block));
    assert_eq!(ExpressionKind::from_initiator('['), Ok(ExpressionKind::List));
    assert_eq!(ExpressionKind::from_initiator('('), Ok(ExpressionKind::Item));
    assert_eq!(
        ExpressionKind::from_initiator(')'),
        Err(SyntaxErrorKind::UnexpectedCharacter(')'))
    );
    assert_eq!(
        ExpressionKind::from_initiator(';'),
        Err(SyntaxErrorKind::UnexpectedCharacter(';'))
    );
    assert_eq!(ExpressionKind::Block.terminator(), '}');
    assert_eq!(ExpressionKind::List.terminator(), ']');
    assert_eq!(ExpressionKind::Item.terminator(), ')');
}

#[test]
fn null_expression() {
    assert_eq!(
        Expression::null(Phrase::Comment("c".to_string())),
        Expression { kind: ExpressionKind::Null, values: vec![Phrase::Comment("c".to_string())] }
    );
}

#[test]
fn clone_is_equal() {
    let parsed = program("{ (f [1 2.5] \"t\" :l ; c\n) }").unwrap();
    assert_eq!(parsed.clone(), parsed);
    assert_eq!(parsed[0].values[0].clone(), parsed[0].values[0]);
}
