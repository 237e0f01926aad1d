//! What can be wrong with a source, as the parser sees it and as its caller does.
use vstd::prelude::*;

use crate::ast::Text;
use crate::lexer::chars::text_between;
use crate::lexer::token::{Token, TokenView};
use crate::lexer::LexError;
use crate::span::{ParserSpan, Span};

verus! {

/// Why the parser stopped or complained.
#[derive(Debug, PartialEq, Eq)]
pub enum PReason {
    /// A token that cannot stand there.
    Unexpected,
    /// Something else, in words.
    Custom(String),
}

/// An error of the parser: where it is, which tokens could have stood there and
/// which one did. `None` stands for the end of the input.
#[derive(Debug, PartialEq, Eq)]
pub struct PError {
    pub span: ParserSpan,
    pub reason: PReason,
    pub expected: Vec<Option<Token>>,
    pub found: Option<Token>,
}

/// What is wrong with the source.
#[derive(Debug, PartialEq, Eq)]
pub enum Reason {
    /// In words.
    Simple(String),
    /// Text that no token begins with.
    Unexpected { text: String },
    /// A token that cannot stand there, and those that could. `None` stands for the
    /// end of the input.
    Expected { expected: Vec<Option<Token>>, found: Option<Token> },
}

/// An error, and the part of the source that it is about.
#[derive(Debug, PartialEq, Eq)]
pub struct Error {
    pub span: Span,
    pub reason: Reason,
}

pub enum PReasonView {
    Unexpected,
    Custom(Text),
}

pub struct PErrorView {
    pub span: Span,
    pub reason: PReasonView,
    pub expected: Seq<Option<TokenView>>,
    pub found: Option<TokenView>,
}

pub enum ReasonView {
    Simple(Text),
    Unexpected(Text),
    Expected(Seq<Option<TokenView>>, Option<TokenView>),
}

pub struct ErrorView {
    pub span: Span,
    pub reason: ReasonView,
}

pub open spec fn opt_token_view(t: Option<Token>) -> Option<TokenView> {
    match t {
        Some(t) => Some(t.view()),
        None => None,
    }
}

pub open spec fn opt_tokens_view(s: Seq<Option<Token>>) -> Seq<Option<TokenView>> {
    Seq::new(s.len(), |i: int| opt_token_view(s[i]))
}

impl PReason {
    pub open spec fn view(&self) -> PReasonView {
        match self {
            PReason::Unexpected => PReasonView::Unexpected,
            PReason::Custom(s) => PReasonView::Custom(s@),
        }
    }
}

impl PError {
    pub open spec fn view(&self) -> PErrorView {
        PErrorView {
            span: self.span.0,
            reason: self.reason.view(),
            expected: opt_tokens_view(self.expected@),
            found: opt_token_view(self.found),
        }
    }
}

impl Reason {
    pub open spec fn view(&self) -> ReasonView {
        match self {
            Reason::Simple(s) => ReasonView::Simple(s@),
            Reason::Unexpected { text } => ReasonView::Unexpected(text@),
            Reason::Expected { expected, found } => ReasonView::Expected(
                opt_tokens_view(expected@),
                opt_token_view(*found),
            ),
        }
    }
}

impl Error {
    pub open spec fn view(&self) -> ErrorView {
        ErrorView { span: self.span, reason: self.reason.view() }
    }
}

pub open spec fn perrors_view(s: Seq<PError>) -> Seq<PErrorView> {
    Seq::new(s.len(), |i: int| s[i].view())
}

pub open spec fn errors_view(s: Seq<Error>) -> Seq<ErrorView> {
    Seq::new(s.len(), |i: int| s[i].view())
}

/// An error in words.
pub open spec fn custom_error(span: Span, message: Text) -> PErrorView {
    PErrorView {
        span,
        reason: PReasonView::Custom(message),
        expected: Seq::empty(),
        found: None,
    }
}

impl PError {
    pub fn custom(span: ParserSpan, message: String) -> (e: PError)
        ensures
            e.view() == custom_error(span.0, message@),
    {
        let e = PError {
            span,
            reason: PReason::Custom(message),
            expected: Vec::new(),
            found: None,
        };
        assert(opt_tokens_view(e.expected@) =~= Seq::empty());
        e
    }
}

/// The error for the character at `at` of the source, which no token begins with.
pub open spec fn lexer_error(source: Text, at: int, source_id: u16) -> ErrorView {
    ErrorView {
        span: Span { start: at as usize, end: (at + 1) as usize, source_id },
        reason: ReasonView::Unexpected(seq![source[at]]),
    }
}

/// The error for an error of the parser. One at the end of the input is moved onto
/// the last character of the source, if there is any.
pub open spec fn parser_error(e: PErrorView) -> ErrorView {
    match e.reason {
        PReasonView::Custom(message) => ErrorView {
            span: e.span,
            reason: ReasonView::Simple(message),
        },
        PReasonView::Unexpected => ErrorView {
            span: if e.found is None && e.span.start > 0 && e.span.end > 0 {
                Span {
                    start: (e.span.start - 1) as usize,
                    end: (e.span.end - 1) as usize,
                    source_id: e.span.source_id,
                }
            } else {
                e.span
            },
            reason: ReasonView::Expected(e.expected, e.found),
        },
    }
}

/// Tells the caller of an error of the lexer.
pub fn convert_lexer_error(source: &Vec<char>, e: LexError, source_id: u16) -> (error: Error)
    requires
        e.start < source@.len(),
        e.end == e.start + 1,
    ensures
        error.view() == lexer_error(source@, e.start as int, source_id),
{
    let text = text_between(source, e.start, e.end);
    assert(text@ =~= seq![source@[e.start as int]]);
    Error {
        span: Span { start: e.start, end: e.end, source_id },
        reason: Reason::Unexpected { text },
    }
}

/// Tells the caller of an error of the parser.
pub fn convert_parser_error(e: PError) -> (error: Error)
    ensures
        error.view() == parser_error(e.view()),
{
    let span = e.span.0;
    match e.reason {
        PReason::Custom(message) => Error { span, reason: Reason::Simple(message) },
        PReason::Unexpected => {
            let span = if e.found.is_none() && span.start > 0 && span.end > 0 {
                Span { start: span.start - 1, end: span.end - 1, source_id: span.source_id }
            } else {
                span
            };
            Error { span, reason: Reason::Expected { expected: e.expected, found: e.found } }
        },
    }
}

} // verus!
