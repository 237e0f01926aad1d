//! The smallest rules of the grammar, and the making of tree nodes.
//!
//! A rule looks at the tokens from a place on. It gives the place behind what it
//! took, or the error that tells why it took nothing.
use vstd::prelude::*;

use crate::ast::{
    annotations_view, Annotation, Expr, ExprKind, ExprKindView, ExprView, Stmt, StmtKind,
    StmtKindView, StmtView,
};
use crate::error::opt_tokens_view;
use crate::lexer::token::{Token, TokenView};
use crate::span::{ParserSpan, Span};
use crate::stream::TokenStream;

pub use crate::error::PError;

verus! {

/// What is expected where nothing but `t` can stand.
pub open spec fn just(t: TokenView) -> Seq<Option<TokenView>> {
    seq![Some(t)]
}

/// The name that is expected where any name can stand.
pub open spec fn any_name() -> TokenView {
    TokenView::Ident(Seq::empty())
}

/// A list with nothing but `t` in it.
pub fn only(t: Token) -> (v: Vec<Option<Token>>)
    ensures
        opt_tokens_view(v@) == just(t.view()),
{
    let mut v: Vec<Option<Token>> = Vec::new();
    v.push(Some(t));
    assert(opt_tokens_view(v@) =~= just(t.view()));
    v
}

/// Takes a name.
pub fn ident_part(stream: &TokenStream, at: usize) -> (r: Result<(String, usize), PError>)
    ensures
        match r {
            Ok((name, next)) => {
                &&& stream.view().has(at as int, TokenView::Ident(name@))
                &&& next == at + 1
            },
            Err(e) => {
                &&& !(stream.view().token(at as int) matches Some(TokenView::Ident(_)))
                &&& e.view() == stream.view().unexpected(at as int, just(any_name()))
            },
        },
{
    if let Some(Token::Ident(name)) = stream.token(at) {
        return Ok((name.clone(), at + 1));
    }
    Err(stream.unexpected(at, only(Token::Ident(String::new()))))
}

/// Takes the keyword `kw`.
pub fn keyword(stream: &TokenStream, at: usize, kw: &str) -> (r: Result<usize, PError>)
    ensures
        match r {
            Ok(next) => {
                &&& stream.view().has(at as int, TokenView::Keyword(kw@))
                &&& next == at + 1
            },
            Err(e) => {
                &&& !stream.view().has(at as int, TokenView::Keyword(kw@))
                &&& e.view() == stream.view().unexpected(
                    at as int,
                    just(TokenView::Keyword(kw@)),
                )
            },
        },
{
    let wanted = kw.to_owned();
    if let Some(Token::Keyword(found)) = stream.token(at) {
        if *found == wanted {
            return Ok(at + 1);
        }
    }
    Err(stream.unexpected(at, only(Token::Keyword(wanted))))
}

/// Takes a line break.
pub fn new_line(stream: &TokenStream, at: usize) -> (r: Result<usize, PError>)
    ensures
        match r {
            Ok(next) => stream.view().has(at as int, TokenView::NewLine) && next == at + 1,
            Err(e) => {
                &&& !stream.view().has(at as int, TokenView::NewLine)
                &&& e.view() == stream.view().unexpected(at as int, just(TokenView::NewLine))
            },
        },
{
    if let Some(Token::NewLine) = stream.token(at) {
        return Ok(at + 1);
    }
    Err(stream.unexpected(at, only(Token::NewLine)))
}

/// Takes the control character `char`.
pub fn ctrl(stream: &TokenStream, at: usize, char: char) -> (r: Result<usize, PError>)
    ensures
        match r {
            Ok(next) => stream.view().has(at as int, TokenView::Control(char)) && next == at + 1,
            Err(e) => {
                &&& !stream.view().has(at as int, TokenView::Control(char))
                &&& e.view() == stream.view().unexpected(
                    at as int,
                    just(TokenView::Control(char)),
                )
            },
        },
{
    if let Some(Token::Control(found)) = stream.token(at) {
        if *found == char {
            return Ok(at + 1);
        }
    }
    Err(stream.unexpected(at, only(Token::Control(char))))
}

/// The statement of that kind at that place.
pub open spec fn stmt_at(annotations: Seq<ExprView>, kind: StmtKindView, span: Span) -> StmtView {
    StmtView { kind, span: Some(span), annotations }
}

/// The expression of that kind at that place, without an alias.
pub open spec fn expr_at(kind: ExprKindView, span: Span) -> ExprView {
    ExprView { kind, span: Some(span), alias: None }
}

/// Makes a statement out of its annotations, its kind and its place.
pub fn into_stmt(parts: (Vec<Annotation>, StmtKind), span: ParserSpan) -> (stmt: Stmt)
    ensures
        stmt == (Stmt { kind: parts.1, span: Some(span.0), annotations: parts.0 }),
        stmt.view() == stmt_at(annotations_view(parts.0@), parts.1.view(), span.0),
{
    let (annotations, kind) = parts;
    Stmt { kind, span: Some(span.0), annotations }
}

/// Makes an expression out of its kind and its place.
pub fn into_expr(kind: ExprKind, span: ParserSpan) -> (expr: Expr)
    ensures
        expr == (Expr { kind, span: Some(span.0), alias: None }),
        expr.view() == expr_at(kind.view(), span.0),
{
    Expr { span: Some(span.0), ..Expr::new(kind) }
}

} // verus!
