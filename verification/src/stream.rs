//! The tokens of a source, as the parser walks over them.
use vstd::prelude::*;

use crate::error::{opt_tokens_view, PError, PErrorView, PReason, PReasonView};
use crate::lexer::token::{token_fits, Token, TokenView};
use crate::span::{ParserSpan, Span};

verus! {

/// Tokens with their places, and the place just behind the last of them.
#[derive(Debug, PartialEq, Eq)]
pub struct TokenStream {
    pub tokens: Vec<(Token, ParserSpan)>,
    pub eoi: ParserSpan,
}

pub struct StreamView {
    pub tokens: Seq<TokenView>,
    pub spans: Seq<Span>,
    pub eoi: Span,
}

impl TokenStream {
    #[verifier::opaque]
    pub open spec fn view(&self) -> StreamView {
        StreamView {
            tokens: Seq::new(self.tokens@.len(), |i: int| self.tokens@[i].0.view()),
            spans: Seq::new(self.tokens@.len(), |i: int| self.tokens@[i].1.0),
            eoi: self.eoi.0,
        }
    }

    /// No token stands for more text than its place has room for.
    pub open spec fn wf(&self) -> bool {
        forall|i: int|
            0 <= i < self.tokens@.len() ==> token_fits(
                (#[trigger] self.tokens@[i]).0.view(),
                self.tokens@[i].1.0.start as int,
                self.tokens@[i].1.0.end as int,
            )
    }
}

impl StreamView {
    pub open spec fn len(self) -> int {
        self.tokens.len() as int
    }

    /// The token at `i`; `None` at the end of the input.
    pub open spec fn token(self, i: int) -> Option<TokenView> {
        if 0 <= i < self.len() {
            Some(self.tokens[i])
        } else {
            None
        }
    }

    /// Whether the token at `i` is `t`.
    pub open spec fn has(self, i: int, t: TokenView) -> bool {
        self.token(i) == Some(t)
    }

    /// The place of the token at `i`, or that of the end of the input.
    pub open spec fn span_at(self, i: int) -> Span {
        if 0 <= i < self.len() {
            self.spans[i]
        } else {
            self.eoi
        }
    }

    /// The place that the tokens from `i` up to `j` take up. Where there are none,
    /// it is that of the token at `i`.
    #[verifier::opaque]
    pub open spec fn span_since(self, i: int, j: int) -> Span {
        Span {
            start: self.span_at(i).start,
            end: self.span_at(if j - 1 > i { j - 1 } else { i }).end,
            source_id: self.eoi.source_id,
        }
    }

    /// The error for the token at `i`, where one of `expected` could have stood.
    pub open spec fn unexpected(self, i: int, expected: Seq<Option<TokenView>>) -> PErrorView {
        PErrorView {
            span: self.span_at(i),
            reason: PReasonView::Unexpected,
            expected,
            found: self.token(i),
        }
    }
}

impl TokenStream {
    pub fn len(&self) -> (n: usize)
        ensures
            n == self.view().len(),
    {
        proof {
            reveal(TokenStream::view);
        }
        self.tokens.len()
    }

    pub fn token(&self, i: usize) -> (r: Option<&Token>)
        ensures
            match r {
                Some(t) => self.view().token(i as int) == Some(t.view()) && i < self.tokens.len(),
                None => self.view().token(i as int) is None && i >= self.tokens.len(),
            },
    {
        proof {
            reveal(TokenStream::view);
        }
        if i < self.tokens.len() {
            Some(&self.tokens[i].0)
        } else {
            None
        }
    }

    pub fn span_at(&self, i: usize) -> (span: ParserSpan)
        ensures
            span.0 == self.view().span_at(i as int),
    {
        proof {
            reveal(TokenStream::view);
        }
        if i < self.tokens.len() {
            self.tokens[i].1
        } else {
            self.eoi
        }
    }

    pub fn span_since(&self, i: usize, j: usize) -> (span: ParserSpan)
        ensures
            span.0 == self.view().span_since(i as int, j as int),
    {
        proof {
            reveal(TokenStream::view);
            reveal(StreamView::span_since);
        }
        let last: usize = if j > 0 && j - 1 > i {
            j - 1
        } else {
            i
        };
        ParserSpan(
            Span {
                start: self.span_at(i).0.start,
                end: self.span_at(last).0.end,
                source_id: self.eoi.0.source_id,
            },
        )
    }

    pub fn unexpected(&self, i: usize, expected: Vec<Option<Token>>) -> (e: PError)
        ensures
            e.view() == self.view().unexpected(i as int, opt_tokens_view(expected@)),
    {
        let found = match self.token(i) {
            Some(t) => Some(t.clone()),
            None => None,
        };
        PError { span: self.span_at(i), reason: PReason::Unexpected, expected, found }
    }
}

} // verus!
