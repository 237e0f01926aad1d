//! The smallest rules, next to the parsers of a combinator library for the same.
use chumsky::error::Simple;
use chumsky::primitive::{filter_map, just};
use chumsky::{Error, Parser, Stream};
use prql_parser::ast::{Expr, ExprKind, Ident, Stmt, StmtKind};
use prql_parser::common::{ctrl, ident_part, into_expr, into_stmt, keyword, new_line};
use prql_parser::error::{PError, PReason};
use prql_parser::lexer::Token;
use prql_parser::prepare_stream;
use prql_parser::span::{ParserSpan, Span};
use prql_parser::stream::TokenStream;

const SOURCE: &str = "let x = (\n";

fn tokens() -> Vec<(Token, std::ops::Range<usize>)> {
    vec![
        (Token::Keyword("let".to_string()), 0..3),
        (Token::Ident("x".to_string()), 4..5),
        (Token::Control('='), 6..7),
        (Token::Control('('), 8..9),
        (Token::NewLine, 9..10),
    ]
}

fn stream() -> TokenStream {
    prepare_stream(tokens(), SOURCE, 3)
}

/// What the parser of the other library makes of the tokens from `at` on.
fn other<O>(
    parser: impl Parser<Token, O, Error = Simple<Token>>,
    at: usize,
) -> Result<O, Simple<Token>> {
    let rest: Vec<_> = tokens().into_iter().skip(at).collect();
    let stream = Stream::from_iter(10..11, rest.into_iter());
    parser.parse(stream).map_err(|mut errors| errors.remove(0))
}

fn assert_same_error(ours: &PError, theirs: &Simple<Token>) {
    assert_eq!(ours.span.0.start..ours.span.0.end, theirs.span());
    assert_eq!(ours.span.0.source_id, 3);
    assert_eq!(ours.found.as_ref(), theirs.found());
    let expected: Vec<Option<Token>> = theirs.expected().cloned().collect();
    assert_eq!(ours.expected, expected);
    assert_eq!(ours.reason, PReason::Unexpected);
}

fn assert_same(ours: Result<usize, PError>, wanted: Token, at: usize) {
    match (ours, other(just(wanted), at)) {
        (Ok(next), Ok(_)) => assert_eq!(next, at + 1),
        (Err(ours), Err(theirs)) => assert_same_error(&ours, &theirs),
        _ => panic!("one takes the token at {at} and one does not"),
    }
}

#[test]
fn single_tokens_are_taken_alike() {
    let stream = stream();
    for at in 0..6 {
        assert_same(new_line(&stream, at), Token::NewLine, at);
        assert_same(ctrl(&stream, at, '('), Token::Control('('), at);
        assert_same(ctrl(&stream, at, '='), Token::Control('='), at);
        assert_same(keyword(&stream, at, "let"), Token::Keyword("let".to_string()), at);
        assert_same(keyword(&stream, at, "into"), Token::Keyword("into".to_string()), at);
    }
    assert_eq!(ctrl(&stream, 3, '('), Ok(4));
    assert_eq!(keyword(&stream, 0, "let"), Ok(1));
    assert_eq!(new_line(&stream, 4), Ok(5));
}

#[test]
fn names_are_taken_alike() {
    let name = || {
        filter_map(|span, token| match token {
            Token::Ident(name) => Ok(name),
            token => Err(Simple::expected_input_found(
                span,
                [Some(Token::Ident("".to_string()))],
                Some(token),
            )),
        })
    };
    let stream = stream();
    for at in 0..5 {
        match (ident_part(&stream, at), other(name(), at)) {
            (Ok((ours, next)), Ok(theirs)) => {
                assert_eq!(ours, theirs);
                assert_eq!(next, at + 1);
            }
            (Err(ours), Err(theirs)) => assert_same_error(&ours, &theirs),
            _ => panic!("one takes the name at {at} and one does not"),
        }
    }
    assert_eq!(ident_part(&stream, 1), Ok(("x".to_string(), 2)));
    let at_end = ident_part(&stream, 5).unwrap_err();
    assert_eq!(at_end.found, None);
    assert_eq!(at_end.expected, vec![Some(Token::Ident("".to_string()))]);
    assert_eq!(at_end.span.0, Span { start: 10, end: 11, source_id: 3 });
}

#[test]
fn nodes_keep_what_they_are_made_of() {
    let span = Span { start: 4, end: 5, source_id: 3 };
    let kind = || ExprKind::Ident(Ident { path: vec!["x".to_string()] });
    let expr = into_expr(kind(), ParserSpan(span));
    assert_eq!(expr, Expr { kind: kind(), span: Some(span), alias: None });
    let stmt = into_stmt((vec![], StmtKind::Main(expr)), ParserSpan(span));
    assert_eq!(
        stmt,
        Stmt {
            kind: StmtKind::Main(Expr { kind: kind(), span: Some(span), alias: None }),
            span: Some(span),
            annotations: vec![],
        }
    );
}

#[test]
fn the_stream_ends_behind_the_source() {
    let stream = stream();
    assert_eq!(stream.len(), 5);
    assert_eq!(stream.eoi.0, Span { start: 10, end: 11, source_id: 3 });
    assert_eq!(stream.tokens[1].1 .0, Span { start: 4, end: 5, source_id: 3 });
    let wide = prepare_stream(vec![], "tète", 0);
    assert_eq!(wide.eoi.0, Span { start: 4, end: 5, source_id: 0 });
}
