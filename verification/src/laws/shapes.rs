//! What each form of an expression is made of.
use vstd::prelude::*;

use crate::ast::{ExprKindView, ExprView, InterpolateItemView, Text, UnOp};
use crate::grammar::{
    atom, forward, ident, ident_expr, ident_rest, interpolation, parens, pipeline, range,
    range_expr, range_from, range_to, term, unary, Step,
};
use crate::interpolation::interpolated;
use crate::laws::free::{free_pipeline, free_term, free_unary};
use crate::laws::precedence::{lemma_place, place_of};
use crate::lexer::token::TokenView;
use crate::log::LogView;
use crate::stream::StreamView;

verus! {

/// The rule took what stands from `i` up to `j`, and that is `x`.
pub open spec fn took<T>(s: StreamView, i: int, step: Step<T>, j: int, x: T) -> bool {
    step.hit == Some((j, x)) && 0 <= i < j <= s.len()
}

/// An expression of that kind at the place of the tokens from `i` up to `j`, without a
/// name of its own.
pub open spec fn node(kind: ExprKindView, s: StreamView, i: int, j: int) -> ExprView {
    ExprView { kind, span: Some(place_of(s, i, j)), alias: None }
}

/// How a unary operator is written.
pub open spec fn sign_token(op: UnOp) -> TokenView {
    match op {
        UnOp::Neg => TokenView::Control('-'),
        UnOp::Add => TokenView::Control('+'),
        UnOp::Not => TokenView::Control('!'),
        UnOp::EqSelf => TokenView::Eq,
    }
}

/// A sign before a term is that operator on that term.
pub proof fn law_a_sign_applies_to_the_term_behind_it(
    s: StreamView,
    i: int,
    op: UnOp,
    j: int,
    x: ExprView,
    log: LogView,
)
    requires
        0 <= i,
        s.has(i, sign_token(op)),
        took(s, i + 1, term(s, i + 1, LogView::start()), j, x),
    ensures
        unary(s, i, log).hit == Some((j, node(ExprKindView::Unary(op, Box::new(x)), s, i, j))),
{
    let plain = term(s, i, log);
    assert(plain.hit is None) by {
        reveal(atom);
    }
    free_term(s, i + 1, LogView::start(), plain.log.rollback(log.emitted.len()));
    lemma_place(s, i, j);
}

/// A term without a sign before it is that term.
pub proof fn law_a_term_needs_no_sign(s: StreamView, i: int, j: int, x: ExprView, log: LogView)
    requires
        took(s, i, term(s, i, LogView::start()), j, x),
    ensures
        unary(s, i, log).hit == Some((j, x)),
{
    free_term(s, i, LogView::start(), log);
}

/// Dots with a bound on either side, and no space between, are the range from the bound
/// before them up to the bound behind them.
pub proof fn law_a_range_has_the_bounds_next_to_it(
    s: StreamView,
    i: int,
    j: int,
    x: ExprView,
    k: int,
    y: ExprView,
    log: LogView,
)
    requires
        took(s, i, unary(s, i, LogView::start()), j, x),
        s.has(j, TokenView::Range { bind_left: true, bind_right: true }),
        took(s, j + 1, unary(s, j + 1, LogView::start()), k, y),
    ensures
        range(s, i, log).hit == Some(
            (
                k,
                node(
                    ExprKindView::Range(Some(Box::new(x)), Some(Box::new(y))),
                    s,
                    i,
                    k,
                ),
            ),
        ),
{
    free_unary(s, i, LogView::start(), log);
    let first = forward(s, i, unary(s, i, log));
    free_unary(s, j + 1, LogView::start(), first.log);
    lemma_place(s, i, k);
    reveal(range_expr);
    assert(range(s, i, log) == range_from(s, i, x, j, first.log));
}

/// Dots with nothing behind them, or with a space, are a range without an end.
pub proof fn law_a_range_may_have_no_end(
    s: StreamView,
    i: int,
    j: int,
    x: ExprView,
    bind_right: bool,
    log: LogView,
)
    requires
        took(s, i, unary(s, i, LogView::start()), j, x),
        s.has(j, TokenView::Range { bind_left: true, bind_right }),
        bind_right ==> unary(s, j + 1, LogView::start()).hit is None,
    ensures
        range(s, i, log).hit == Some(
            (j + 1, node(ExprKindView::Range(Some(Box::new(x)), None), s, i, j + 1)),
        ),
{
    free_unary(s, i, LogView::start(), log);
    let first = forward(s, i, unary(s, i, log));
    free_unary(s, j + 1, LogView::start(), first.log);
    lemma_place(s, i, j + 1);
    reveal(range_expr);
    assert(range(s, i, log) == range_from(s, i, x, j, first.log));
}

proof fn lemma_no_unary(s: StreamView, i: int, log: LogView)
    requires
        s.token(i) matches Some(TokenView::Range { .. }),
    ensures
        unary(s, i, log).hit is None,
{
    reveal(atom);
    assert(term(s, i, log) == atom(s, i, log));
}

/// Dots with a bound behind them, and nothing before, are a range without a beginning.
pub proof fn law_a_range_may_have_no_beginning(
    s: StreamView,
    i: int,
    bind_left: bool,
    k: int,
    y: ExprView,
    log: LogView,
)
    requires
        0 <= i,
        s.has(i, TokenView::Range { bind_left, bind_right: true }),
        took(s, i + 1, unary(s, i + 1, LogView::start()), k, y),
    ensures
        range(s, i, log).hit == Some(
            (k, node(ExprKindView::Range(None, Some(Box::new(y))), s, i, k)),
        ),
{
    lemma_no_unary(s, i, log);
    let quiet = unary(s, i, log).log.rollback(log.emitted.len());
    free_unary(s, i + 1, LogView::start(), quiet);
    lemma_place(s, i, k);
    reveal(range_expr);
    assert(range(s, i, log) == range_to(s, i, quiet));
}

/// Dots alone are a range without bounds.
pub proof fn law_a_range_may_have_no_bounds(
    s: StreamView,
    i: int,
    bind_left: bool,
    bind_right: bool,
    log: LogView,
)
    requires
        0 <= i,
        s.has(i, TokenView::Range { bind_left, bind_right }),
        bind_right ==> unary(s, i + 1, LogView::start()).hit is None,
    ensures
        range(s, i, log).hit == Some(
            (i + 1, node(ExprKindView::Range(None, None), s, i, i + 1)),
        ),
{
    lemma_no_unary(s, i, log);
    let quiet = unary(s, i, log).log.rollback(log.emitted.len());
    free_unary(s, i + 1, LogView::start(), quiet);
    lemma_place(s, i, i + 1);
    reveal(range_expr);
    assert(range(s, i, log) == range_to(s, i, quiet));
}

/// Without dots right behind it, what a range could begin with is an operand itself.
pub proof fn law_without_dots_there_is_no_range(
    s: StreamView,
    i: int,
    j: int,
    x: ExprView,
    log: LogView,
)
    requires
        took(s, i, unary(s, i, LogView::start()), j, x),
        !(s.token(j) matches Some(TokenView::Range { bind_left: true, .. })),
    ensures
        range(s, i, log).hit == Some((j, x)),
{
    free_unary(s, i, LogView::start(), log);
    let first = forward(s, i, unary(s, i, log));
    assert(range(s, i, log) == range_from(s, i, x, j, first.log));
}

/// A literal is a term.
pub proof fn law_a_literal_is_a_term(s: StreamView, i: int, log: LogView)
    requires
        0 <= i,
    ensures
        s.token(i) matches Some(TokenView::Literal(l)) ==> term(s, i, log).hit == Some(
            (i + 1, node(ExprKindView::Literal(l), s, i, i + 1)),
        ),
        s.token(i) matches Some(TokenView::Param(name)) ==> term(s, i, log).hit == Some(
            (i + 1, node(ExprKindView::Param(name), s, i, i + 1)),
        ),
{
    reveal(atom);
    if i < s.len() {
        lemma_place(s, i, i + 1);
    }
}

/// An s-string holds the pieces of its text, and so does an f-string. The text begins
/// behind the letter and the quote.
pub proof fn law_an_interpolated_string_holds_its_pieces(
    s: StreamView,
    i: int,
    letter: char,
    text: Text,
    items: Seq<InterpolateItemView>,
    log: LogView,
)
    requires
        0 <= i,
        s.has(i, TokenView::Interpolation(letter, text)),
        interpolated(text, s.spans[i].start + 2, s.eoi.source_id) == Ok::<_, int>(items),
    ensures
        term(s, i, log).hit == Some(
            (
                i + 1,
                node(
                    if letter == 's' {
                        ExprKindView::SString(items)
                    } else {
                        ExprKindView::FString(items)
                    },
                    s,
                    i,
                    i + 1,
                ),
            ),
        ),
        term(s, i, log).log == log,
{
    reveal(atom);
    reveal(interpolation);
    lemma_place(s, i, i + 1);
}

/// The names stand at `i`, with a dot before each but the first. A star may stand for any
/// but the first.
pub open spec fn names_at(s: StreamView, i: int, names: Seq<Text>) -> bool {
    &&& names.len() > 0
    &&& s.has(i, TokenView::Ident(names[0]))
    &&& forall|n: int|
        0 < n < names.len() ==> s.has(i + 2 * n - 1, TokenView::Control('.')) && (s.has(
            i + 2 * n,
            TokenView::Ident(#[trigger] names[n]),
        ) || (names[n] == "*"@ && s.has(i + 2 * n, TokenView::Control('*'))))
}

proof fn lemma_names(s: StreamView, i: int, names: Seq<Text>, n: int, log: LogView)
    requires
        0 < n <= names.len(),
        names_at(s, i, names),
        !s.has(i + 2 * names.len() - 1, TokenView::Control('.')),
    ensures
        ident_rest(s, i + 2 * n - 1, log).found == names.skip(n),
        ident_rest(s, i + 2 * n - 1, log).end == i + 2 * names.len() - 1,
    decreases names.len() - n,
{
    if n < names.len() {
        let name = names[n];
        let next = if s.token(i + 2 * n) matches Some(TokenView::Ident(_)) {
            log
        } else {
            log.note(i + 2 * n, crate::common::just(crate::common::any_name()))
        };
        lemma_names(s, i, names, n + 1, next);
        assert(names.skip(n) =~= seq![name] + names.skip(n + 1));
    } else {
        assert(names.skip(n) =~= Seq::empty());
    }
}

/// Names with dots between them are one identifier, with the names in the order in which
/// they stand.
pub proof fn law_dots_join_names(s: StreamView, i: int, names: Seq<Text>, log: LogView)
    requires
        0 <= i,
        names_at(s, i, names),
        !s.has(i + 2 * names.len() - 1, TokenView::Control('.')),
    ensures
        term(s, i, log).hit == Some(
            (
                i + 2 * names.len() - 1,
                node(ExprKindView::Ident(names), s, i, i + 2 * names.len() - 1),
            ),
        ),
{
    reveal(atom);
    reveal(ident);
    let end = i + 2 * names.len() - 1;
    lemma_names(s, i, names, 1, log);
    assert(seq![names[0]] + names.skip(1) =~= names);
    if names.len() > 1 {
        let last = names[names.len() - 1];
        assert(end <= s.len());
    }
    lemma_place(s, i, end);
    assert(term(s, i, log) == ident_expr(s, i, log));
}

/// A pipeline between parentheses is a term, with nothing added to it.
pub proof fn law_parentheses_make_a_term(s: StreamView, i: int, j: int, x: ExprView, log: LogView)
    requires
        0 <= i,
        s.has(i, TokenView::Control('(')),
        took(s, i + 1, pipeline(s, i + 1, LogView::start()), j, x),
        s.has(j, TokenView::Control(')')),
    ensures
        term(s, i, log).hit == Some((j + 1, x)),
{
    free_pipeline(s, i + 1, LogView::start(), log);
    assert(term(s, i, log) == parens(s, i, log));
}

/// Where the braces of an interpolated string do not match, that is the one error more,
/// at the brace, and the string holds nothing.
pub proof fn law_braces_that_do_not_match_are_an_error(
    s: StreamView,
    i: int,
    letter: char,
    text: Text,
    at: int,
    log: LogView,
)
    requires
        0 <= i,
        s.has(i, TokenView::Interpolation(letter, text)),
        interpolated(text, s.spans[i].start + 2, s.eoi.source_id) == Err::<
            Seq<InterpolateItemView>,
            _,
        >(at),
        s.spans[i].start + 2 + at + 1 <= usize::MAX,
        0 <= at,
    ensures
        ({
            let none = Seq::<InterpolateItemView>::empty();
            let errors = term(s, i, log).log.emitted;
            &&& term(s, i, log).hit == Some(
                (
                    i + 1,
                    node(
                        if letter == 's' {
                            ExprKindView::SString(none)
                        } else {
                            ExprKindView::FString(none)
                        },
                        s,
                        i,
                        i + 1,
                    ),
                ),
            )
            &&& errors.len() == log.emitted.len() + 1
            &&& errors.drop_last() == log.emitted
            &&& errors.last().span.start == s.spans[i].start + 2 + at
            &&& errors.last().span.end == s.spans[i].start + 2 + at + 1
            &&& errors.last().span.source_id == s.eoi.source_id
            &&& errors.last().reason is Custom
        }),
{
    reveal(atom);
    reveal(interpolation);
    reveal(LogView::emit);
    lemma_place(s, i, i + 1);
    assert(term(s, i, log).log.emitted.drop_last() =~= log.emitted);
}

} // verus!
