//! A parser for PRQL: it makes a tree of statements out of the text of a query.
//!
//! The lexer splits the text into tokens, and the parser makes statements out of
//! these. What each of them makes of its input is said by the functions of `lexer`,
//! `grammar` and `source_grammar`; the code is proved to do just that. What holds of
//! the parser as a whole stands in `laws`.
use vstd::prelude::*;

pub mod ast;
pub mod common;
pub mod error;
pub mod expr;
pub mod grammar;
pub mod interpolation;
pub mod laws;
pub mod lexer;
pub mod log;
pub mod places;
pub mod source_grammar;
pub mod source_twins;
pub mod span;
pub mod stmt;
pub mod stream;
pub mod twins;

use crate::ast::{stmts_view, Expr, ExprView, Stmt, StmtView, Text};
use crate::error::{
    convert_lexer_error, convert_parser_error, errors_view, lexer_error, parser_error, perrors_view,
    ErrorView, PError, PErrorView,
};
use crate::lexer::chars::chars_of;
use crate::lexer::token::token_fits;
use crate::lexer::{
    lex_errors_view, lexed, lexeme_fits, lexeme_view, lexemes_fit, lexemes_view, tokenize, LexError,
    LexemeView, Token,
};
use crate::source_grammar::ParsedView;
use crate::span::{ParserSpan, Span};
use crate::stream::{StreamView, TokenStream};

pub use crate::error::Error;

verus! {

/// The place just behind a source of `len` characters.
pub open spec fn end_of_source(len: int, source_id: u16) -> Span {
    Span {
        start: len as usize,
        end: (if len < usize::MAX {
            len + 1
        } else {
            len
        }) as usize,
        source_id,
    }
}

/// The tokens of a source of `len` characters, as the parser sees them.
pub open spec fn stream_of(tokens: Seq<LexemeView>, len: int, source_id: u16) -> StreamView {
    StreamView {
        tokens: Seq::new(tokens.len(), |i: int| tokens[i].token),
        spans: Seq::new(
            tokens.len(),
            |i: int|
                Span {
                    start: tokens[i].start as usize,
                    end: tokens[i].end as usize,
                    source_id,
                },
        ),
        eoi: end_of_source(len, source_id),
    }
}

pub open spec fn lexer_errors(source: Text, errors: Seq<int>, source_id: u16) -> Seq<ErrorView> {
    Seq::new(errors.len(), |i: int| lexer_error(source, errors[i], source_id))
}

pub open spec fn parser_errors(errors: Seq<PErrorView>) -> Seq<ErrorView> {
    Seq::new(errors.len(), |i: int| parser_error(errors[i]))
}

/// What the parser makes of the tokens, where there are any.
pub open spec fn parsed_tokens(
    tokens: Option<Seq<LexemeView>>,
    len: int,
    source_id: u16,
) -> ParsedView {
    match tokens {
        Some(tokens) => source_grammar::source(stream_of(tokens, len, source_id)),
        None => ParsedView { ast: None, errors: Seq::empty() },
    }
}

/// The statements of a source, or all that is wrong with it: the errors of the
/// lexer, then those of the parser.
pub open spec fn parsed_source(source: Text, source_id: u16) -> Result<
    Seq<StmtView>,
    Seq<ErrorView>,
> {
    let lex = lexed(source);
    let parsed = parsed_tokens(lex.tokens, source.len() as int, source_id);
    let errors = lexer_errors(source, lex.errors, source_id) + parser_errors(parsed.errors);
    if errors.len() > 0 {
        Err(errors)
    } else {
        match parsed.ast {
            Some(ast) => Ok(ast),
            None => Ok(Seq::empty()),
        }
    }
}

/// The expression that a source consists of, or what is wrong with it: the errors
/// of the lexer, or else those of the parser.
pub open spec fn parsed_expr(source: Text) -> Result<ExprView, Seq<ErrorView>> {
    let lex = lexed(source);
    match lex.tokens {
        Some(tokens) if lex.errors.len() == 0 => {
            match source_grammar::single_expr(stream_of(tokens, source.len() as int, 0)) {
                Ok(e) => Ok(e),
                Err(errors) => Err(parser_errors(errors)),
            }
        },
        _ => Err(lexer_errors(source, lex.errors, 0)),
    }
}

/// Build PRQL AST from a PRQL query string.
pub fn parse_source(source: &str, source_id: u16) -> (r: Result<Vec<Stmt>, Vec<Error>>)
    ensures
        match r {
            Ok(ast) => parsed_source(source@, source_id) == Ok::<_, Seq<ErrorView>>(
                stmts_view(ast@),
            ),
            Err(errors) => parsed_source(source@, source_id) == Err::<Seq<StmtView>, _>(
                errors_view(errors@),
            ),
        },
{
    let chars = chars_of(source);
    let lex = tokenize(&chars);
    let ghost found = lex.view();
    let mut errors: Vec<Error> = convert_lexer_errors(&chars, lex.errors, source_id);
    let ghost lex_errors = errors_view(errors@);
    let ast = match lex.tokens {
        Some(tokens) => {
            let stream = prepare_stream(tokens, source, source_id);
            let parsed = stmt::source(&stream);
            let mut parse_errors = convert_parser_errors(parsed.errors);
            let ghost more = errors_view(parse_errors@);
            errors.append(&mut parse_errors);
            assert(errors_view(errors@) =~= lex_errors + more);
            parsed.ast
        },
        None => {
            assert(lex_errors + parser_errors(Seq::empty()) =~= lex_errors);
            None
        },
    };
    if errors.len() == 0 {
        match ast {
            Some(ast) => Ok(ast),
            None => {
                let none: Vec<Stmt> = Vec::new();
                assert(stmts_view(none@) =~= Seq::empty());
                Ok(none)
            },
        }
    } else {
        Err(errors)
    }
}

/// Helper that does not track source_ids
pub fn parse_single(source: &str) -> (r: Result<Vec<Stmt>, Vec<Error>>)
    ensures
        match r {
            Ok(ast) => parsed_source(source@, 0) == Ok::<_, Seq<ErrorView>>(stmts_view(ast@)),
            Err(errors) => parsed_source(source@, 0) == Err::<Seq<StmtView>, _>(
                errors_view(errors@),
            ),
        },
{
    parse_source(source, 0)
}

/// Parses a source that consists of one expression.
pub fn parse_expr(source: &str) -> (r: Result<Expr, Vec<Error>>)
    ensures
        match r {
            Ok(e) => parsed_expr(source@) == Ok::<_, Seq<ErrorView>>(e.view()),
            Err(errors) => parsed_expr(source@) == Err::<ExprView, _>(errors_view(errors@)),
        },
{
    let chars = chars_of(source);
    let lex = tokenize(&chars);
    if lex.errors.len() == 0 {
        if let Some(tokens) = lex.tokens {
            let stream = prepare_stream(tokens, source, 0);
            return match stmt::single_expr(&stream) {
                Ok(e) => Ok(e),
                Err(errors) => Err(convert_parser_errors(errors)),
            };
        }
    }
    Err(convert_lexer_errors(&chars, lex.errors, 0))
}

/// Ties the tokens of a source to it, and marks the place just behind its last
/// character.
pub fn prepare_stream(
    tokens: Vec<(Token, core::ops::Range<usize>)>,
    source: &str,
    source_id: u16,
) -> (stream: TokenStream)
    ensures
        stream.view() == stream_of(lexemes_view(tokens@), source@.len() as int, source_id),
        lexemes_fit(lexemes_view(tokens@), source@.len() as int) ==> stream.wf(),
{
    let len: usize = chars_of(source).len();
    let eoi = ParserSpan(Span { start: len, end: len.saturating_add(1), source_id });
    let ghost all = lexemes_view(tokens@);
    let mut placed: Vec<(Token, ParserSpan)> = Vec::new();
    for lexeme in it: tokens
        invariant
            all == lexemes_view(it.seq()),
            placed@.len() == it.index(),
            forall|i: int|
                0 <= i < placed@.len() ==> (#[trigger] placed@[i]).0.view() == all[i].token
                    && placed@[i].1.0 == (Span {
                    start: all[i].start as usize,
                    end: all[i].end as usize,
                    source_id,
                }),
    {
        assert(lexeme_view(lexeme) == all[it.index() as int]);
        placed.push((lexeme.0, ParserSpan::new(source_id, lexeme.1)));
    }
    let stream = TokenStream { tokens: placed, eoi };
    proof {
        reveal(TokenStream::view);
        let expected = stream_of(all, source@.len() as int, source_id);
        assert(stream.view().tokens =~= expected.tokens);
        assert(stream.view().spans =~= expected.spans);
        if lexemes_fit(all, source@.len() as int) {
            assert forall|i: int| 0 <= i < stream.tokens@.len() implies token_fits(
                (#[trigger] stream.tokens@[i]).0.view(),
                stream.tokens@[i].1.0.start as int,
                stream.tokens@[i].1.0.end as int,
            ) by {
                assert(lexeme_fits(all[i], source@.len() as int));
            }
        }
    }
    stream
}

fn convert_lexer_errors(source: &Vec<char>, errors: Vec<LexError>, source_id: u16) -> (r: Vec<
    Error,
>)
    requires
        forall|i: int|
            0 <= i < errors@.len() ==> (#[trigger] errors@[i]).start < source@.len()
                && errors@[i].end == errors@[i].start + 1,
    ensures
        errors_view(r@) == lexer_errors(source@, lex_errors_view(errors@), source_id),
{
    let ghost all = errors@;
    let mut converted: Vec<Error> = Vec::new();
    for e in it: errors
        invariant
            it.seq() == all,
            forall|i: int|
                0 <= i < all.len() ==> (#[trigger] all[i]).start < source@.len() && all[i].end
                    == all[i].start + 1,
            converted@.len() == it.index(),
            forall|i: int|
                0 <= i < converted@.len() ==> (#[trigger] converted@[i]).view() == lexer_error(
                    source@,
                    all[i].start as int,
                    source_id,
                ),
    {
        converted.push(convert_lexer_error(source, e, source_id));
    }
    assert(errors_view(converted@) =~= lexer_errors(source@, lex_errors_view(all), source_id));
    converted
}

fn convert_parser_errors(errors: Vec<PError>) -> (r: Vec<Error>)
    ensures
        errors_view(r@) == parser_errors(perrors_view(errors@)),
{
    let ghost all = errors@;
    let mut converted: Vec<Error> = Vec::new();
    for e in it: errors
        invariant
            it.seq() == all,
            converted@.len() == it.index(),
            forall|i: int|
                0 <= i < converted@.len() ==> (#[trigger] converted@[i]).view() == parser_error(
                    all[i].view(),
                ),
    {
        converted.push(convert_parser_error(e));
    }
    assert(errors_view(converted@) =~= parser_errors(perrors_view(all)));
    converted
}

} // verus!
