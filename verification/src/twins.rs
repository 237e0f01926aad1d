//! What the rules make of two streams with the same tokens.
//!
//! A rule looks at tokens, never at places nor at the log. So it finds the same in
//! both streams, but for the places, whatever went wrong before.
use vstd::prelude::*;

use crate::ast::{
    BinOp, ExprKindView, ExprView, FuncParamView, InterpolateItemView, NamedArgView, SwitchCaseView,
    Text,
};
use crate::common::{any_name, expr_at, just};
use crate::error::PErrorView;
use crate::grammar::{
    self, alias, arg, args, atom, binary, binary_expr, binary_op, binary_rest, boxed, brackets,
    call, case_item, case_value, cases, cases_end, cases_rest, check_args, default_value, expr,
    expr_call, forward, func_call, func_expr, ident, ident_expr, ident_rest, interpolation, joined,
    lambda_body, lambda_func, lambda_params, lemma_new_lines, lemma_pipe, lemma_type_annotation,
    list, list_end, list_item, list_rest, loosest, named, named_arg, named_index, new_lines,
    operand, param, params, params_with, parens, pipe, pipe_rest, pipe_step, piped, pipeline,
    positional, range, range_expr, range_from, range_to, repeated_arg, switch, term,
    type_annotation, type_expr, type_rest, type_term, unary, unary_op, with_alias, with_named,
    ArgView, Step, Taken,
};
use crate::interpolation::{inner_span, interpolated, item, items_from, variable};
use crate::lexer::token::TokenView;
use crate::log::LogView;
use crate::places::{
    place, place_boxed, place_case, place_cases, place_expr, place_exprs, place_item, place_items,
    place_kind, place_named, place_named_arg, place_opt, place_param, place_params, place_perror,
    place_perrors, Places,
};
use crate::span::Span;
use crate::stream::StreamView;

verus! {

/// Two streams, and what becomes of the places in each of them.
pub struct Twins {
    pub p: Places,
    pub s: StreamView,
    pub q: Places,
    pub t: StreamView,
}

impl Twins {
    /// The streams have the same tokens, and nothing tells their places apart.
    pub open spec fn agree(self) -> bool {
        &&& self.s.tokens == self.t.tokens
        &&& (self.p is Dropped) == (self.q is Dropped)
        &&& forall|i: int|
            place(self.p, #[trigger] self.s.span_at(i)) == place(self.q, self.t.span_at(i))
    }

    /// The logs differ in nothing but places.
    pub open spec fn logs(self, a: LogView, b: LogView) -> bool {
        place_log(self.p, a) == place_log(self.q, b)
    }

    pub open spec fn exprs(self, a: ExprView, b: ExprView) -> bool {
        place_expr(self.p, a) == place_expr(self.q, b)
    }

    /// The rule found the same, but for the places; if the logs were alike before, they
    /// are so afterwards.
    pub open spec fn steps(self, alike: bool, a: Step<ExprView>, b: Step<ExprView>) -> bool {
        &&& match (a.hit, b.hit) {
            (Some((i, x)), Some((j, y))) => i == j && self.exprs(x, y),
            (None, None) => true,
            _ => false,
        }
        &&& alike ==> self.logs(a.log, b.log)
    }

    pub open spec fn lists(
        self,
        alike: bool,
        a: Taken<Seq<ExprView>>,
        b: Taken<Seq<ExprView>>,
    ) -> bool {
        &&& place_exprs(self.p, a.found) == place_exprs(self.q, b.found)
        &&& a.end == b.end
        &&& alike ==> self.logs(a.log, b.log)
    }
}

/// A log with other places.
#[verifier::opaque]
pub open spec fn place_log(p: Places, log: LogView) -> LogView {
    LogView {
        at: log.at,
        expected: log.expected,
        emitted: place_perrors(p, log.emitted),
    }
}

pub(crate) broadcast proof fn lemma_log_note(
    p: Places,
    log: LogView,
    at: int,
    expected: Seq<Option<TokenView>>,
)
    ensures
        #[trigger] place_log(p, log.note(at, expected)) == place_log(p, log).note(at, expected),
{
    reveal(place_log);
    reveal(LogView::note);
}

pub(crate) broadcast proof fn lemma_log_rollback(p: Places, log: LogView, n: nat)
    ensures
        #[trigger] place_log(p, log.rollback(n)) == place_log(p, log).rollback(n),
{
    reveal(place_log);
    reveal(LogView::rollback);
    assert(place_log(p, log.rollback(n)).emitted =~= place_log(p, log).rollback(n).emitted);
}

pub(crate) broadcast proof fn lemma_log_emit(p: Places, log: LogView, e: PErrorView)
    ensures
        #[trigger] place_log(p, log.emit(e)) == place_log(p, log).emit(place_perror(p, e)),
{
    reveal(place_log);
    reveal(LogView::emit);
    assert(place_log(p, log.emit(e)).emitted =~= place_log(p, log).emit(
        place_perror(p, e),
    ).emitted);
}

pub(crate) broadcast proof fn lemma_log_emitted(p: Places, log: LogView)
    ensures
        (#[trigger] place_log(p, log)).emitted.len() == log.emitted.len(),
{
    reveal(place_log);
}

pub(crate) broadcast group group_log {
    lemma_log_note,
    lemma_log_rollback,
    lemma_log_emit,
    lemma_log_emitted,
}

pub(crate) proof fn lemma_span_since(w: Twins, i: int, j: int)
    requires
        w.agree(),
    ensures
        place(w.p, w.s.span_since(i, j)) == place(w.q, w.t.span_since(i, j)),
{
    reveal(StreamView::span_since);
    let last = if j - 1 > i { j - 1 } else { i };
    assert(place(w.p, w.s.span_at(i)) == place(w.q, w.t.span_at(i)));
    assert(place(w.p, w.s.span_at(last)) == place(w.q, w.t.span_at(last)));
    assert(place(w.p, w.s.span_at(-1)) == place(w.q, w.t.span_at(-1)));
}

proof fn lemma_joined(w: Twins, a: Span, b: Span, c: Span, d: Span)
    requires
        place(w.p, a) == place(w.q, c),
        place(w.p, b) == place(w.q, d),
    ensures
        place(w.p, joined(a, b)) == place(w.q, joined(c, d)),
{
    reveal(joined);
}

proof fn lemma_expr_at(p: Places, kind: ExprKindView, span: Span)
    ensures
        place_expr(p, expr_at(kind, span)) == expr_at(place_kind(p, kind), place(p, span)),
{
}

proof fn lemma_with_alias(p: Places, alias: Option<Text>, e: ExprView)
    ensures
        place_expr(p, with_alias(alias, e)) == with_alias(alias, place_expr(p, e)),
{
    reveal(with_alias);
    assert(place_expr(p, e).kind == place_kind(p, e.kind));
}

proof fn lemma_binary_expr(p: Places, left: ExprView, op: BinOp, right: ExprView, span: Span)
    ensures
        place_expr(p, binary_expr(left, op, right, span)) == binary_expr(
            place_expr(p, left),
            op,
            place_expr(p, right),
            place(p, span),
        ),
{
    reveal(binary_expr);
    let kind = ExprKindView::Binary(Box::new(left), op, Box::new(right));
    lemma_expr_at(p, kind, span);
}

proof fn lemma_boxed(p: Places, e: Option<ExprView>)
    ensures
        place_boxed(p, boxed(e)) == boxed(place_opt(p, e)),
{
}

proof fn lemma_range_expr(p: Places, start: Option<ExprView>, end: Option<ExprView>, span: Span)
    ensures
        place_expr(p, range_expr(start, end, span)) == range_expr(
            place_opt(p, start),
            place_opt(p, end),
            place(p, span),
        ),
{
    reveal(range_expr);
    lemma_boxed(p, start);
    lemma_boxed(p, end);
    lemma_expr_at(p, ExprKindView::Range(boxed(start), boxed(end)), span);
}

pub(crate) proof fn lemma_prepend(p: Places, first: ExprView, rest: Seq<ExprView>)
    ensures
        place_exprs(p, seq![first] + rest) == seq![place_expr(p, first)] + place_exprs(p, rest),
{
    assert(place_exprs(p, seq![first] + rest) =~= seq![place_expr(p, first)] + place_exprs(
        p,
        rest,
    ));
}

proof fn lemma_piped(p: Places, first: ExprView, rest: Seq<ExprView>, span: Span)
    ensures
        place_expr(p, piped(first, rest, span)) == piped(
            place_expr(p, first),
            place_exprs(p, rest),
            place(p, span),
        ),
{
    reveal(piped);
    lemma_prepend(p, first, rest);
    lemma_expr_at(p, ExprKindView::Pipeline(seq![first] + rest), span);
}

pub open spec fn place_arg(p: Places, a: ArgView) -> ArgView {
    match a {
        ArgView::Named(name, value) => ArgView::Named(name, place_expr(p, value)),
        ArgView::Positional(e) => ArgView::Positional(place_expr(p, e)),
    }
}

pub open spec fn place_args(p: Places, s: Seq<ArgView>) -> Seq<ArgView> {
    Seq::new(s.len(), |i: int| place_arg(p, s[i]))
}

proof fn lemma_prepend_args(p: Places, first: ArgView, rest: Seq<ArgView>)
    ensures
        place_args(p, seq![first] + rest) == seq![place_arg(p, first)] + place_args(p, rest),
{
    assert(place_args(p, seq![first] + rest) =~= seq![place_arg(p, first)] + place_args(p, rest));
}

proof fn lemma_prepend_params(p: Places, first: FuncParamView, rest: Seq<FuncParamView>)
    ensures
        place_params(p, seq![first] + rest) == seq![place_param(p, first)] + place_params(p, rest),
{
    assert(place_params(p, seq![first] + rest) =~= seq![place_param(p, first)] + place_params(
        p,
        rest,
    ));
}

proof fn lemma_prepend_cases(p: Places, first: SwitchCaseView, rest: Seq<SwitchCaseView>)
    ensures
        place_cases(p, seq![first] + rest) == seq![place_case(p, first)] + place_cases(p, rest),
{
    assert(place_cases(p, seq![first] + rest) =~= seq![place_case(p, first)] + place_cases(
        p,
        rest,
    ));
}

pub(crate) proof fn lemma_nothing(w: Twins)
    ensures
        place_exprs(w.p, Seq::empty()) == place_exprs(w.q, Seq::empty()),
        place_args(w.p, Seq::empty()) == place_args(w.q, Seq::empty()),
        place_params(w.p, Seq::empty()) == place_params(w.q, Seq::empty()),
        place_cases(w.p, Seq::empty()) == place_cases(w.q, Seq::empty()),
{
    assert(place_exprs(w.p, Seq::empty()) =~= place_exprs(w.q, Seq::empty()));
    assert(place_args(w.p, Seq::empty()) =~= place_args(w.q, Seq::empty()));
    assert(place_params(w.p, Seq::empty()) =~= place_params(w.q, Seq::empty()));
    assert(place_cases(w.p, Seq::empty()) =~= place_cases(w.q, Seq::empty()));
}

proof fn lemma_positional(p: Places, s: Seq<ArgView>)
    ensures
        place_exprs(p, positional(s)) == positional(place_args(p, s)),
    decreases s.len(),
{
    if s.len() == 0 {
        assert(place_exprs(p, positional(s)) =~= positional(place_args(p, s)));
    } else {
        lemma_positional(p, s.drop_last());
        assert(place_args(p, s).drop_last() =~= place_args(p, s.drop_last()));
        assert(place_exprs(p, positional(s)) =~= positional(place_args(p, s)));
    }
}

pub(crate) proof fn lemma_named_index(p: Places, s: Seq<NamedArgView>, name: Text, i: int)
    requires
        0 <= i,
    ensures
        named_index(place_named(p, s), name, i) == named_index(s, name, i),
    decreases s.len() - i,
{
    if i < s.len() {
        assert(place_named(p, s)[i].name == s[i].name);
        if s[i].name != name {
            lemma_named_index(p, s, name, i + 1);
        }
    }
}

pub(crate) proof fn lemma_with_named(p: Places, s: Seq<NamedArgView>, name: Text, value: ExprView)
    ensures
        place_named(p, with_named(s, name, value)) == with_named(
            place_named(p, s),
            name,
            place_expr(p, value),
        ),
{
    lemma_named_index(p, s, name, 0);
    lemma_named_index_bound(s, name, 0);
    let one = NamedArgView { name, value };
    assert(place_named_arg(p, one).value == place_expr(p, value));
    assert(place_named(p, with_named(s, name, value)) =~= with_named(
        place_named(p, s),
        name,
        place_expr(p, value),
    ));
}

pub(crate) proof fn lemma_named_index_bound(s: Seq<NamedArgView>, name: Text, i: int)
    requires
        0 <= i,
    ensures
        0 <= named_index(s, name, i) <= s.len(),
    decreases s.len() - i,
{
    if i < s.len() && s[i].name != name {
        lemma_named_index_bound(s, name, i + 1);
    }
}

proof fn lemma_named(p: Places, s: Seq<ArgView>)
    ensures
        place_named(p, named(s)) == named(place_args(p, s)),
    decreases s.len(),
{
    if s.len() == 0 {
        assert(place_named(p, named(s)) =~= named(place_args(p, s)));
    } else {
        lemma_named(p, s.drop_last());
        assert(place_args(p, s).drop_last() =~= place_args(p, s.drop_last()));
        if let ArgView::Named(name, value) = s.last() {
            lemma_with_named(p, named(s.drop_last()), name, value);
        }
    }
}

proof fn lemma_check_args(p: Places, s: Seq<ArgView>, span: Span, log: LogView)
    ensures
        place_log(p, check_args(s, span, log)) == check_args(
            place_args(p, s),
            place(p, span),
            place_log(p, log),
        ),
    decreases s.len(),
{
    broadcast use group_log;

    reveal(check_args);
    if s.len() > 0 {
        lemma_check_args(p, s.drop_last(), span, log);
        assert(place_args(p, s).drop_last() =~= place_args(p, s.drop_last()));
        if let ArgView::Named(name, value) = s.last() {
            let earlier = named(s.drop_last());
            lemma_named(p, s.drop_last());
            lemma_named_index(p, earlier, name, 0);
            assert(place_perror(p, repeated_arg(span)) == repeated_arg(place(p, span)));
        }
    }
}

proof fn lemma_call(p: Places, name: ExprView, s: Seq<ArgView>, span: Span)
    ensures
        place_expr(p, call(name, s, span)) == call(
            place_expr(p, name),
            place_args(p, s),
            place(p, span),
        ),
{
    reveal(call);
    lemma_positional(p, s);
    lemma_named(p, s);
    let kind = ExprKindView::FuncCall {
        name: Box::new(name),
        args: positional(s),
        named_args: named(s),
    };
    lemma_expr_at(p, kind, span);
}

proof fn lemma_params_with(p: Places, s: Seq<FuncParamView>, default: bool)
    ensures
        place_params(p, params_with(s, default)) == params_with(place_params(p, s), default),
    decreases s.len(),
{
    reveal(params_with);
    if s.len() == 0 {
        assert(place_params(p, params_with(s, default)) =~= params_with(
            place_params(p, s),
            default,
        ));
    } else {
        lemma_params_with(p, s.drop_last(), default);
        assert(place_params(p, s).drop_last() =~= place_params(p, s.drop_last()));
        assert(place_params(p, s).last() == place_param(p, s.last()));
        assert(place_param(p, s.last()).default_value == place_boxed(p, s.last().default_value));
        assert(place_params(p, params_with(s, default)) =~= params_with(
            place_params(p, s),
            default,
        ));
    }
}

proof fn lemma_func_expr(
    p: Places,
    given: Seq<FuncParamView>,
    return_ty: Option<ExprView>,
    body: ExprView,
    span: Span,
)
    ensures
        place_expr(p, func_expr(given, return_ty, body, span)) == func_expr(
            place_params(p, given),
            place_opt(p, return_ty),
            place_expr(p, body),
            place(p, span),
        ),
{
    reveal(func_expr);
    lemma_params_with(p, given, false);
    lemma_params_with(p, given, true);
    lemma_boxed(p, return_ty);
    let kind = ExprKindView::Func {
        return_ty: boxed(return_ty),
        body: Box::new(body),
        params: params_with(given, false),
        named_params: params_with(given, true),
    };
    lemma_expr_at(p, kind, span);
}

pub(crate) proof fn same_new_lines(w: Twins, i: int, a: LogView, b: LogView)
    requires
        w.agree(),
    ensures
        ({
            let x = new_lines(w.s, i, a);
            let y = new_lines(w.t, i, b);
            x.found == y.found && x.end == y.end && (w.logs(a, b) ==> w.logs(x.log, y.log))
        }),
    decreases w.s.len() - i,
{
    broadcast use group_log;

    reveal(new_lines);
    if w.s.has(i, TokenView::NewLine) {
        same_new_lines(w, i + 1, a, b);
    }
}

pub(crate) proof fn same_alias(w: Twins, i: int, a: LogView, b: LogView)
    requires
        w.agree(),
    ensures
        ({
            let x = alias(w.s, i, a);
            let y = alias(w.t, i, b);
            x.found == y.found && x.end == y.end && (w.logs(a, b) ==> w.logs(x.log, y.log))
        }),
{
    broadcast use group_log;

}

proof fn same_ident_rest(w: Twins, i: int, a: LogView, b: LogView)
    requires
        w.agree(),
    ensures
        ({
            let x = ident_rest(w.s, i, a);
            let y = ident_rest(w.t, i, b);
            x.found == y.found && x.end == y.end && (w.logs(a, b) ==> w.logs(x.log, y.log))
        }),
    decreases w.s.len() - i,
{
    broadcast use group_log;

    if w.s.has(i, TokenView::Control('.')) && w.s.token(i + 1) is Some {
        same_ident_rest(w, i + 2, a, b);
        let noted = just(any_name());
        same_ident_rest(w, i + 2, a.note(i + 1, noted), b.note(i + 1, noted));
    }
}

proof fn same_ident_expr(w: Twins, i: int, a: LogView, b: LogView)
    requires
        w.agree(),
    ensures
        w.steps(w.logs(a, b), ident_expr(w.s, i, a), ident_expr(w.t, i, b)),
{
    broadcast use group_log;

    reveal(ident);
    same_ident_rest(w, i + 1, a, b);
    if let Some((end, names)) = ident(w.s, i, a).hit {
        lemma_span_since(w, i, end);
        lemma_expr_at(w.p, ExprKindView::Ident(names), w.s.span_since(i, end));
        lemma_expr_at(w.q, ExprKindView::Ident(names), w.t.span_since(i, end));
    }
}

proof fn same_type_term(w: Twins, i: int, a: LogView, b: LogView)
    requires
        w.agree(),
    ensures
        w.steps(w.logs(a, b), type_term(w.s, i, a), type_term(w.t, i, b)),
{
    broadcast use group_log;

    same_ident_expr(w, i, a, b);
    if let Some(TokenView::Literal(l)) = w.s.token(i) {
        lemma_span_since(w, i, i + 1);
        lemma_expr_at(w.p, ExprKindView::Literal(l), w.s.span_since(i, i + 1));
        lemma_expr_at(w.q, ExprKindView::Literal(l), w.t.span_since(i, i + 1));
    }
}

proof fn same_type_rest(
    w: Twins,
    left: ExprView,
    right: ExprView,
    span: Span,
    twin: Span,
    i: int,
    a: LogView,
    b: LogView,
)
    requires
        w.agree(),
        w.exprs(left, right),
        place(w.p, span) == place(w.q, twin),
    ensures
        ({
            let x = type_rest(w.s, left, span, i, a);
            let y = type_rest(w.t, right, twin, i, b);
            w.exprs(x.found, y.found) && x.end == y.end && (w.logs(a, b) ==> w.logs(x.log, y.log))
        }),
    decreases w.s.len() - i,
{
    broadcast use group_log;

    if w.s.has(i, TokenView::Or) {
        same_type_term(w, i + 1, a, b);
        let x = forward(w.s, i, type_term(w.s, i + 1, a));
        let y = forward(w.t, i, type_term(w.t, i + 1, b));
        if let Some((end, e)) = x.hit {
            if let Some((_, f)) = y.hit {
                let both = joined(span, w.s.span_since(i + 1, end));
                let twin_both = joined(twin, w.t.span_since(i + 1, end));
                lemma_span_since(w, i + 1, end);
                lemma_joined(
                    w,
                    span,
                    w.s.span_since(i + 1, end),
                    twin,
                    w.t.span_since(i + 1, end),
                );
                lemma_binary_expr(w.p, left, BinOp::Or, e, both);
                lemma_binary_expr(w.q, right, BinOp::Or, f, twin_both);
                same_type_rest(
                    w,
                    binary_expr(left, BinOp::Or, e, both),
                    binary_expr(right, BinOp::Or, f, twin_both),
                    both,
                    twin_both,
                    end,
                    x.log,
                    y.log,
                );
            }
        }
    }
}

pub(crate) proof fn same_type_annotation(w: Twins, i: int, a: LogView, b: LogView)
    requires
        w.agree(),
    ensures
        ({
            let x = type_annotation(w.s, i, a);
            let y = type_annotation(w.t, i, b);
            &&& place_opt(w.p, x.found) == place_opt(w.q, y.found)
            &&& x.end == y.end
            &&& w.logs(a, b) ==> w.logs(x.log, y.log)
        }),
{
    broadcast use group_log;

    reveal(type_annotation);
    reveal(type_expr);
    if w.s.has(i, TokenView::Control('<')) {
        same_type_term(w, i + 1, a, b);
        let x = type_term(w.s, i + 1, a);
        let y = type_term(w.t, i + 1, b);
        if let Some((end, e)) = x.hit {
            if let Some((_, f)) = y.hit {
                let span = w.s.span_since(i + 1, end);
                let twin = w.t.span_since(i + 1, end);
                lemma_span_since(w, i + 1, end);
                same_type_rest(w, e, f, span, twin, end, x.log, y.log);
            }
        }
    }
}

proof fn lemma_item(w: Twins, t: Text, i: int, b1: int, id1: u16, b2: int, id2: u16)
    requires
        forall|j: int, k: int|
            place(w.p, #[trigger] inner_span(b1, id1, j, k)) == place(
                w.q,
                inner_span(b2, id2, j, k),
            ),
    ensures
        item(t, i, b1, id1).0 == item(t, i, b2, id2).0,
        place_item(w.p, item(t, i, b1, id1).1) == place_item(w.q, item(t, i, b2, id2).1),
{
    if let Some((end, InterpolateItemView::Expr(e, format))) = variable(t, i, b1, id1) {
        if let Some((_, InterpolateItemView::Expr(f, _))) = variable(t, i, b2, id2) {
            let names = crate::interpolation::path(t, i + 1)->0;
            lemma_expr_at(
                w.p,
                ExprKindView::Ident(names.1),
                inner_span(b1, id1, i + 1, names.0),
            );
            lemma_expr_at(
                w.q,
                ExprKindView::Ident(names.1),
                inner_span(b2, id2, i + 1, names.0),
            );
        }
    }
}

proof fn lemma_items_from(w: Twins, t: Text, i: int, b1: int, id1: u16, b2: int, id2: u16)
    requires
        forall|j: int, k: int|
            place(w.p, #[trigger] inner_span(b1, id1, j, k)) == place(
                w.q,
                inner_span(b2, id2, j, k),
            ),
    ensures
        match (items_from(t, i, b1, id1), items_from(t, i, b2, id2)) {
            (Ok(x), Ok(y)) => place_items(w.p, x) == place_items(w.q, y),
            (Err(x), Err(y)) => x == y,
            _ => false,
        },
    decreases t.len() - i,
{
    if i >= t.len() {
        assert(place_items(w.p, Seq::empty()) =~= place_items(w.q, Seq::empty()));
    } else {
        lemma_item(w, t, i, b1, id1, b2, id2);
        let (end, first) = item(t, i, b1, id1);
        let twin = item(t, i, b2, id2).1;
        if i < end <= t.len() {
            lemma_items_from(w, t, end, b1, id1, b2, id2);
            if let Ok(x) = items_from(t, end, b1, id1) {
                if let Ok(y) = items_from(t, end, b2, id2) {
                    assert(place_items(w.p, seq![first] + x) =~= seq![place_item(w.p, first)]
                        + place_items(w.p, x));
                    assert(place_items(w.q, seq![twin] + y) =~= seq![place_item(w.q, twin)]
                        + place_items(w.q, y));
                }
            }
        }
    }
}

proof fn same_interpolation(w: Twins, i: int, letter: char, text: Text, a: LogView, b: LogView)
    requires
        w.agree(),
    ensures
        w.steps(
            w.logs(a, b),
            interpolation(w.s, i, letter, text, a),
            interpolation(w.t, i, letter, text, b),
        ),
{
    broadcast use group_log;

    reveal(interpolation);
    lemma_span_since(w, i, i + 1);
    let x = w.s.span_since(i, i + 1);
    let y = w.t.span_since(i, i + 1);
    lemma_items_from(w, text, 0, x.start + 2, x.source_id, y.start + 2, y.source_id);
    let empty = Seq::<InterpolateItemView>::empty();
    assert(place_items(w.p, empty) =~= empty);
    assert(place_items(w.q, empty) =~= empty);
    let items = match interpolated(text, x.start + 2, x.source_id) {
        Ok(items) => items,
        Err(_) => empty,
    };
    let twins = match interpolated(text, y.start + 2, y.source_id) {
        Ok(items) => items,
        Err(_) => empty,
    };
    lemma_expr_at(w.p, ExprKindView::SString(items), x);
    lemma_expr_at(w.q, ExprKindView::SString(twins), y);
    lemma_expr_at(w.p, ExprKindView::FString(items), x);
    lemma_expr_at(w.q, ExprKindView::FString(twins), y);
}

proof fn same_atom(w: Twins, i: int, a: LogView, b: LogView)
    requires
        w.agree(),
    ensures
        w.steps(w.logs(a, b), atom(w.s, i, a), atom(w.t, i, b)),
{
    broadcast use group_log;

    reveal(atom);
    lemma_span_since(w, i, i + 1);
    let x = w.s.span_since(i, i + 1);
    let y = w.t.span_since(i, i + 1);
    match w.s.token(i) {
        Some(TokenView::Literal(l)) => {
            lemma_expr_at(w.p, ExprKindView::Literal(l), x);
            lemma_expr_at(w.q, ExprKindView::Literal(l), y);
        },
        Some(TokenView::Param(name)) => {
            lemma_expr_at(w.p, ExprKindView::Param(name), x);
            lemma_expr_at(w.q, ExprKindView::Param(name), y);
        },
        Some(TokenView::Interpolation(letter, text)) => {
            same_interpolation(w, i, letter, text, a, b);
        },
        _ => {
            same_ident_expr(w, i, a, b);
        },
    }
}

proof fn same_pipe(w: Twins, i: int, a: LogView, b: LogView)
    requires
        w.agree(),
    ensures
        ({
            let x = pipe(w.s, i, a);
            let y = pipe(w.t, i, b);
            x.found == y.found && x.end == y.end && (w.logs(a, b) ==> w.logs(x.log, y.log))
        }),
{
    broadcast use group_log;

    reveal(pipe);
    let bar = just(TokenView::Control('|'));
    same_new_lines(w, i, a.note(i, bar), b.note(i, bar));
}

proof fn same_list_end(
    w: Twins,
    tuple: bool,
    i: int,
    x: Taken<Seq<ExprView>>,
    y: Taken<Seq<ExprView>>,
)
    requires
        w.agree(),
        place_exprs(w.p, x.found) == place_exprs(w.q, y.found),
        x.end == y.end,
    ensures
        w.steps(w.logs(x.log, y.log), list_end(w.s, tuple, i, x), list_end(w.t, tuple, i, y)),
{
    broadcast use group_log;

    reveal(list_end);
    same_new_lines(w, x.end, x.log, y.log);
    let end = new_lines(w.s, x.end, x.log).end + 1;
    lemma_span_since(w, i, end);
    let span = w.s.span_since(i, end);
    let twin = w.t.span_since(i, end);
    lemma_expr_at(w.p, ExprKindView::Tuple(x.found), span);
    lemma_expr_at(w.q, ExprKindView::Tuple(y.found), twin);
    lemma_expr_at(w.p, ExprKindView::Array(x.found), span);
    lemma_expr_at(w.q, ExprKindView::Array(y.found), twin);
}

proof fn same_cases_end(
    w: Twins,
    i: int,
    x: Taken<Seq<SwitchCaseView>>,
    y: Taken<Seq<SwitchCaseView>>,
)
    requires
        w.agree(),
        place_cases(w.p, x.found) == place_cases(w.q, y.found),
        x.end == y.end,
    ensures
        w.steps(w.logs(x.log, y.log), cases_end(w.s, i, x), cases_end(w.t, i, y)),
{
    broadcast use group_log;

    reveal(cases_end);
    same_new_lines(w, x.end, x.log, y.log);
    let end = new_lines(w.s, x.end, x.log).end + 1;
    lemma_span_since(w, i, end);
    lemma_expr_at(w.p, ExprKindView::Case(x.found), w.s.span_since(i, end));
    lemma_expr_at(w.q, ExprKindView::Case(y.found), w.t.span_since(i, end));
}

#[verifier::spinoff_prover]
proof fn same_brackets(w: Twins, tuple: bool, i: int, a: LogView, b: LogView)
    requires
        w.agree(),
    ensures
        w.steps(w.logs(a, b), brackets(w.s, tuple, i, a), brackets(w.t, tuple, i, b)),
    decreases w.s.len() - i, 5nat,
{
    broadcast use group_log;

    if w.s.has(i, TokenView::Control(grammar::opening(tuple))) {
        same_list(w, tuple, i + 1, a, b);
        same_list_end(w, tuple, i, list(w.s, tuple, i + 1, a), list(w.t, tuple, i + 1, b));
    }
}

#[verifier::spinoff_prover]
proof fn same_switch(w: Twins, i: int, a: LogView, b: LogView)
    requires
        w.agree(),
    ensures
        w.steps(w.logs(a, b), switch(w.s, i, a), switch(w.t, i, b)),
    decreases w.s.len() - i, 5nat,
{
    broadcast use group_log;

    if w.s.has(i, TokenView::Keyword("case"@)) && w.s.has(i + 1, TokenView::Control('[')) {
        same_cases(w, i + 2, a, b);
        same_cases_end(w, i, cases(w.s, i + 2, a), cases(w.t, i + 2, b));
    }
}

#[verifier::spinoff_prover]
proof fn same_parens(w: Twins, i: int, a: LogView, b: LogView)
    requires
        w.agree(),
    ensures
        w.steps(w.logs(a, b), parens(w.s, i, a), parens(w.t, i, b)),
    decreases w.s.len() - i, 5nat,
{
    broadcast use group_log;

    if w.s.has(i, TokenView::Control('(')) {
        same_pipeline(w, i + 1, a, b);
    }
}

#[verifier::spinoff_prover]
pub(crate) proof fn same_term(w: Twins, i: int, a: LogView, b: LogView)
    requires
        w.agree(),
    ensures
        w.steps(w.logs(a, b), term(w.s, i, a), term(w.t, i, b)),
    decreases w.s.len() - i, 6nat,
{
    broadcast use group_log;

    same_brackets(w, true, i, a, b);
    same_brackets(w, false, i, a, b);
    same_parens(w, i, a, b);
    same_switch(w, i, a, b);
    same_atom(w, i, a, b);
}

#[verifier::spinoff_prover]
pub(crate) proof fn same_unary(w: Twins, i: int, a: LogView, b: LogView)
    requires
        w.agree(),
    ensures
        w.steps(w.logs(a, b), unary(w.s, i, a), unary(w.t, i, b)),
    decreases w.s.len() - i, 7nat,
{
    broadcast use group_log;

    same_term(w, i, a, b);
    let x = term(w.s, i, a);
    let y = term(w.t, i, b);
    if x.hit is None {
        let c = x.log.rollback(a.emitted.len());
        let d = y.log.rollback(b.emitted.len());
        assert(a.emitted.len() == place_log(w.p, a).emitted.len());
        assert(b.emitted.len() == place_log(w.q, b).emitted.len());
        if let Some(op) = unary_op(w.s.token(i)) {
            same_term(w, i + 1, c, d);
            if let Some((end, e)) = term(w.s, i + 1, c).hit {
                if let Some((_, f)) = term(w.t, i + 1, d).hit {
                    lemma_span_since(w, i, end);
                    lemma_expr_at(
                        w.p,
                        ExprKindView::Unary(op, Box::new(e)),
                        w.s.span_since(i, end),
                    );
                    lemma_expr_at(
                        w.q,
                        ExprKindView::Unary(op, Box::new(f)),
                        w.t.span_since(i, end),
                    );
                }
            }
        }
    }
}

#[verifier::spinoff_prover]
proof fn same_range_from(
    w: Twins,
    i: int,
    start: ExprView,
    twin: ExprView,
    j: int,
    a: LogView,
    b: LogView,
)
    requires
        w.agree(),
        w.exprs(start, twin),
    ensures
        w.steps(w.logs(a, b), range_from(w.s, i, start, j, a), range_from(w.t, i, twin, j, b)),
    decreases w.s.len() - j, 8nat,
{
    broadcast use group_log;

    if let Some(TokenView::Range { bind_left, bind_right }) = w.s.token(j) {
        same_unary(w, j + 1, a, b);
        let x = unary(w.s, j + 1, a);
        let y = unary(w.t, j + 1, b);
        assert(a.emitted.len() == place_log(w.p, a).emitted.len());
        assert(b.emitted.len() == place_log(w.q, b).emitted.len());
        let (end, e) = match x.hit {
            Some((end, e)) => (end, Some(e)),
            None => (j + 1, None),
        };
        let f = match y.hit {
            Some((_, f)) => Some(f),
            None => None,
        };
        lemma_span_since(w, i, end);
        lemma_span_since(w, i, j + 1);
        lemma_range_expr(w.p, Some(start), e, w.s.span_since(i, end));
        lemma_range_expr(w.q, Some(twin), f, w.t.span_since(i, end));
        lemma_range_expr(w.p, Some(start), None, w.s.span_since(i, j + 1));
        lemma_range_expr(w.q, Some(twin), None, w.t.span_since(i, j + 1));
    }
}

#[verifier::spinoff_prover]
proof fn same_range_to(w: Twins, i: int, a: LogView, b: LogView)
    requires
        w.agree(),
    ensures
        w.steps(w.logs(a, b), range_to(w.s, i, a), range_to(w.t, i, b)),
    decreases w.s.len() - i, 8nat,
{
    broadcast use group_log;

    if let Some(TokenView::Range { bind_left, bind_right }) = w.s.token(i) {
        same_unary(w, i + 1, a, b);
        let x = unary(w.s, i + 1, a);
        let y = unary(w.t, i + 1, b);
        assert(a.emitted.len() == place_log(w.p, a).emitted.len());
        assert(b.emitted.len() == place_log(w.q, b).emitted.len());
        let (end, e) = match x.hit {
            Some((end, e)) => (end, Some(e)),
            None => (i + 1, None),
        };
        let f = match y.hit {
            Some((_, f)) => Some(f),
            None => None,
        };
        lemma_span_since(w, i, end);
        lemma_span_since(w, i, i + 1);
        lemma_range_expr(w.p, None, e, w.s.span_since(i, end));
        lemma_range_expr(w.q, None, f, w.t.span_since(i, end));
        lemma_range_expr(w.p, None, None, w.s.span_since(i, i + 1));
        lemma_range_expr(w.q, None, None, w.t.span_since(i, i + 1));
    }
}

#[verifier::spinoff_prover]
pub(crate) proof fn same_range(w: Twins, i: int, a: LogView, b: LogView)
    requires
        w.agree(),
    ensures
        w.steps(w.logs(a, b), range(w.s, i, a), range(w.t, i, b)),
    decreases w.s.len() - i, 9nat,
{
    broadcast use group_log;

    same_unary(w, i, a, b);
    let x = forward(w.s, i, unary(w.s, i, a));
    let y = forward(w.t, i, unary(w.t, i, b));
    match x.hit {
        Some((j, start)) => {
            if let Some((_, twin)) = y.hit {
                same_range_from(w, i, start, twin, j, x.log, y.log);
            }
        },
        None => {
            assert(a.emitted.len() == place_log(w.p, a).emitted.len());
            assert(b.emitted.len() == place_log(w.q, b).emitted.len());
            let c = x.log.rollback(a.emitted.len());
            let d = y.log.rollback(b.emitted.len());
            same_range_to(w, i, c, d);
        },
    }
}

#[verifier::spinoff_prover]
pub(crate) proof fn same_operand(w: Twins, level: nat, i: int, a: LogView, b: LogView)
    requires
        w.agree(),
    ensures
        w.steps(w.logs(a, b), operand(w.s, level, i, a), operand(w.t, level, i, b)),
    decreases w.s.len() - i, 10 + 2 * level,
{
    broadcast use group_log;

    if level == 0 {
        same_range(w, i, a, b);
    } else {
        same_binary(w, (level - 1) as nat, i, a, b);
    }
}

#[verifier::spinoff_prover]
proof fn same_binary(w: Twins, level: nat, i: int, a: LogView, b: LogView)
    requires
        w.agree(),
    ensures
        w.steps(w.logs(a, b), binary(w.s, level, i, a), binary(w.t, level, i, b)),
    decreases w.s.len() - i, 11 + 2 * level,
{
    broadcast use group_log;

    same_operand(w, level, i, a, b);
    let x = forward(w.s, i, operand(w.s, level, i, a));
    let y = forward(w.t, i, operand(w.t, level, i, b));
    if let Some((end, e)) = x.hit {
        if let Some((_, f)) = y.hit {
            lemma_span_since(w, i, end);
            let span = w.s.span_since(i, end);
            let twin = w.t.span_since(i, end);
            same_binary_rest(w, level, e, f, span, twin, end, x.log, y.log);
        }
    }
}

#[verifier::spinoff_prover]
proof fn same_binary_rest(
    w: Twins,
    level: nat,
    left: ExprView,
    right: ExprView,
    span: Span,
    twin: Span,
    i: int,
    a: LogView,
    b: LogView,
)
    requires
        w.agree(),
        w.exprs(left, right),
        place(w.p, span) == place(w.q, twin),
    ensures
        ({
            let x = binary_rest(w.s, level, left, span, i, a);
            let y = binary_rest(w.t, level, right, twin, i, b);
            w.exprs(x.found, y.found) && x.end == y.end && (w.logs(a, b) ==> w.logs(x.log, y.log))
        }),
    decreases w.s.len() - i, 0nat,
{
    broadcast use group_log;

    if let Some(op) = binary_op(level, w.s.token(i)) {
        same_operand(w, level, i + 1, a, b);
        let x = forward(w.s, i + 1, operand(w.s, level, i + 1, a));
        let y = forward(w.t, i + 1, operand(w.t, level, i + 1, b));
        assert(a.emitted.len() == place_log(w.p, a).emitted.len());
        assert(b.emitted.len() == place_log(w.q, b).emitted.len());
        if let Some((end, e)) = x.hit {
            if let Some((_, f)) = y.hit {
                let s = w.s.span_since(i + 1, end);
                let t = w.t.span_since(i + 1, end);
                let both = joined(span, s);
                let twin_both = joined(twin, t);
                lemma_span_since(w, i + 1, end);
                lemma_joined(w, span, s, twin, t);
                lemma_binary_expr(w.p, left, op, e, both);
                lemma_binary_expr(w.q, right, op, f, twin_both);
                same_binary_rest(
                    w,
                    level,
                    binary_expr(left, op, e, both),
                    binary_expr(right, op, f, twin_both),
                    both,
                    twin_both,
                    end,
                    x.log,
                    y.log,
                );
            }
        }
    }
}

#[verifier::spinoff_prover]
pub(crate) proof fn same_expr(w: Twins, i: int, a: LogView, b: LogView)
    requires
        w.agree(),
    ensures
        w.steps(w.logs(a, b), expr(w.s, i, a), expr(w.t, i, b)),
    decreases w.s.len() - i, 30nat,
{
    broadcast use group_log;

    same_binary(w, loosest(), i, a, b);
}

#[verifier::spinoff_prover]
pub(crate) proof fn same_named_arg(w: Twins, i: int, a: LogView, b: LogView)
    requires
        w.agree(),
    ensures
        ({
            let x = named_arg(w.s, i, a);
            let y = named_arg(w.t, i, b);
            &&& match (x.hit, y.hit) {
                (Some((j, e)), Some((k, f))) => j == k && place_arg(w.p, e) == place_arg(w.q, f),
                (None, None) => true,
                _ => false,
            }
            &&& w.logs(a, b) ==> w.logs(x.log, y.log)
        }),
    decreases w.s.len() - i, 31nat,
{
    broadcast use group_log;

    if w.s.token(i) is Some && w.s.has(i + 1, TokenView::Control(':')) {
        same_expr(w, i + 2, a, b);
    }
}

#[verifier::spinoff_prover]
pub(crate) proof fn same_arg(w: Twins, i: int, a: LogView, b: LogView)
    requires
        w.agree(),
    ensures
        ({
            let x = arg(w.s, i, a);
            let y = arg(w.t, i, b);
            &&& match (x.hit, y.hit) {
                (Some((j, e)), Some((k, f))) => j == k && place_arg(w.p, e) == place_arg(w.q, f),
                (None, None) => true,
                _ => false,
            }
            &&& w.logs(a, b) ==> w.logs(x.log, y.log)
        }),
    decreases w.s.len() - i, 32nat,
{
    broadcast use group_log;

    same_named_arg(w, i, a, b);
    let x = named_arg(w.s, i, a);
    let y = named_arg(w.t, i, b);
    if x.hit is None {
        assert(a.emitted.len() == place_log(w.p, a).emitted.len());
        assert(b.emitted.len() == place_log(w.q, b).emitted.len());
        let c = x.log.rollback(a.emitted.len());
        let d = y.log.rollback(b.emitted.len());
        same_alias(w, i, c, d);
        let name = alias(w.s, i, c);
        let twin = alias(w.t, i, d);
        same_expr(w, name.end, name.log, twin.log);
        if let Some((_, e)) = expr(w.s, name.end, name.log).hit {
            lemma_with_alias(w.p, name.found, e);
        }
        if let Some((_, f)) = expr(w.t, twin.end, twin.log).hit {
            lemma_with_alias(w.q, twin.found, f);
        }
    }
}

#[verifier::spinoff_prover]
pub(crate) proof fn same_args(w: Twins, i: int, a: LogView, b: LogView)
    requires
        w.agree(),
    ensures
        ({
            let x = args(w.s, i, a);
            let y = args(w.t, i, b);
            &&& place_args(w.p, x.found) == place_args(w.q, y.found)
            &&& x.end == y.end
            &&& w.logs(a, b) ==> w.logs(x.log, y.log)
        }),
    decreases w.s.len() - i, 33nat,
{
    broadcast use group_log;

    same_arg(w, i, a, b);
    let x = forward(w.s, i, arg(w.s, i, a));
    let y = forward(w.t, i, arg(w.t, i, b));
    assert(a.emitted.len() == place_log(w.p, a).emitted.len());
    assert(b.emitted.len() == place_log(w.q, b).emitted.len());
    lemma_nothing(w);
    if let Some((end, e)) = x.hit {
        if let Some((_, f)) = y.hit {
            same_args(w, end, x.log, y.log);
            lemma_prepend_args(w.p, e, args(w.s, end, x.log).found);
            lemma_prepend_args(w.q, f, args(w.t, end, y.log).found);
        }
    }
}

#[verifier::spinoff_prover]
pub(crate) proof fn same_func_call(w: Twins, i: int, a: LogView, b: LogView)
    requires
        w.agree(),
    ensures
        w.steps(w.logs(a, b), func_call(w.s, i, a), func_call(w.t, i, b)),
    decreases w.s.len() - i, 34nat,
{
    broadcast use group_log;

    same_expr(w, i, a, b);
    let x = forward(w.s, i, expr(w.s, i, a));
    let y = forward(w.t, i, expr(w.t, i, b));
    if let Some((j, e)) = x.hit {
        if let Some((_, f)) = y.hit {
            same_args(w, j, x.log, y.log);
            let given = args(w.s, j, x.log);
            let twins = args(w.t, j, y.log);
            lemma_span_since(w, i, given.end);
            let span = w.s.span_since(i, given.end);
            let twin = w.t.span_since(i, given.end);
            lemma_call(w.p, e, given.found, span);
            lemma_call(w.q, f, twins.found, twin);
            lemma_check_args(w.p, given.found, span, given.log);
            lemma_check_args(w.q, twins.found, twin, twins.log);
        }
    }
}

#[verifier::spinoff_prover]
pub(crate) proof fn same_default_value(w: Twins, i: int, a: LogView, b: LogView)
    requires
        w.agree(),
    ensures
        ({
            let x = default_value(w.s, i, a);
            let y = default_value(w.t, i, b);
            &&& place_opt(w.p, x.found) == place_opt(w.q, y.found)
            &&& x.end == y.end
            &&& w.logs(a, b) ==> w.logs(x.log, y.log)
        }),
    decreases w.s.len() - i, 31nat,
{
    broadcast use group_log;

    if w.s.has(i, TokenView::Control(':')) {
        same_expr(w, i + 1, a, b);
        assert(a.emitted.len() == place_log(w.p, a).emitted.len());
        assert(b.emitted.len() == place_log(w.q, b).emitted.len());
    }
}

#[verifier::spinoff_prover]
pub(crate) proof fn same_param(w: Twins, i: int, a: LogView, b: LogView)
    requires
        w.agree(),
    ensures
        ({
            let x = param(w.s, i, a);
            let y = param(w.t, i, b);
            &&& match (x.hit, y.hit) {
                (Some((j, e)), Some((k, f))) => {
                    j == k && place_param(w.p, e) == place_param(w.q, f)
                },
                (None, None) => true,
                _ => false,
            }
            &&& w.logs(a, b) ==> w.logs(x.log, y.log)
        }),
    decreases w.s.len() - i, 32nat,
{
    broadcast use group_log;

    if w.s.token(i) is Some {
        same_type_annotation(w, i + 1, a, b);
        lemma_type_annotation(w.s, i + 1, a);
        let x = type_annotation(w.s, i + 1, a);
        let y = type_annotation(w.t, i + 1, b);
        same_default_value(w, x.end, x.log, y.log);
        lemma_boxed(w.p, x.found);
        lemma_boxed(w.q, y.found);
        lemma_boxed(w.p, default_value(w.s, x.end, x.log).found);
        lemma_boxed(w.q, default_value(w.t, x.end, y.log).found);
    }
}

#[verifier::spinoff_prover]
proof fn same_params(w: Twins, i: int, a: LogView, b: LogView)
    requires
        w.agree(),
    ensures
        ({
            let x = params(w.s, i, a);
            let y = params(w.t, i, b);
            &&& place_params(w.p, x.found) == place_params(w.q, y.found)
            &&& x.end == y.end
            &&& w.logs(a, b) ==> w.logs(x.log, y.log)
        }),
    decreases w.s.len() - i, 33nat,
{
    broadcast use group_log;

    same_param(w, i, a, b);
    let x = forward(w.s, i, param(w.s, i, a));
    let y = forward(w.t, i, param(w.t, i, b));
    assert(a.emitted.len() == place_log(w.p, a).emitted.len());
    assert(b.emitted.len() == place_log(w.q, b).emitted.len());
    lemma_nothing(w);
    if let Some((end, e)) = x.hit {
        if let Some((_, f)) = y.hit {
            same_params(w, end, x.log, y.log);
            lemma_prepend_params(w.p, e, params(w.s, end, x.log).found);
            lemma_prepend_params(w.q, f, params(w.t, end, y.log).found);
        }
    }
}

#[verifier::spinoff_prover]
pub(crate) proof fn same_lambda_params(w: Twins, i: int, a: LogView, b: LogView)
    requires
        w.agree(),
    ensures
        ({
            let x = lambda_params(w.s, i, a);
            let y = lambda_params(w.t, i, b);
            &&& match (x.hit, y.hit) {
                (Some((j, e)), Some((k, f))) => {
                    j == k && place_params(w.p, e) == place_params(w.q, f)
                },
                (None, None) => true,
                _ => false,
            }
            &&& w.logs(a, b) ==> w.logs(x.log, y.log)
        }),
    decreases w.s.len() - i, 34nat,
{
    broadcast use group_log;

    if w.s.has(i, TokenView::Keyword("func"@)) {
        same_params(w, i + 1, a, b);
    } else {
        let func = just(TokenView::Keyword("func"@));
        let c = a.note(i, func);
        let d = b.note(i, func);
        same_params(w, i, c, d);
        let x = params(w.s, i, c).found;
        let y = params(w.t, i, d).found;
        assert(place_params(w.p, x).len() == x.len());
        assert(place_params(w.q, y).len() == y.len());
    }
}

#[verifier::spinoff_prover]
proof fn same_lambda_body(
    w: Twins,
    i: int,
    all: Seq<FuncParamView>,
    twins: Seq<FuncParamView>,
    arrow: int,
    a: LogView,
    b: LogView,
)
    requires
        w.agree(),
        place_params(w.p, all) == place_params(w.q, twins),
    ensures
        w.steps(
            w.logs(a, b),
            lambda_body(w.s, i, all, arrow, a),
            lambda_body(w.t, i, twins, arrow, b),
        ),
    decreases w.s.len() - arrow, 35nat,
{
    broadcast use group_log;

    if w.s.has(arrow, TokenView::ArrowThin) {
        same_type_annotation(w, arrow + 1, a, b);
        lemma_type_annotation(w.s, arrow + 1, a);
        let ty = type_annotation(w.s, arrow + 1, a);
        let twin = type_annotation(w.t, arrow + 1, b);
        same_func_call(w, ty.end, ty.log, twin.log);
        if let Some((end, e)) = func_call(w.s, ty.end, ty.log).hit {
            if let Some((_, f)) = func_call(w.t, ty.end, twin.log).hit {
                lemma_span_since(w, i, end);
                lemma_func_expr(w.p, all, ty.found, e, w.s.span_since(i, end));
                lemma_func_expr(w.q, twins, twin.found, f, w.t.span_since(i, end));
            }
        }
    }
}

#[verifier::spinoff_prover]
pub(crate) proof fn same_lambda_func(w: Twins, i: int, a: LogView, b: LogView)
    requires
        w.agree(),
    ensures
        w.steps(w.logs(a, b), lambda_func(w.s, i, a), lambda_func(w.t, i, b)),
    decreases w.s.len() - i, 35nat,
{
    broadcast use group_log;

    same_lambda_params(w, i, a, b);
    let x = forward(w.s, i, lambda_params(w.s, i, a));
    let y = forward(w.t, i, lambda_params(w.t, i, b));
    if let Some((arrow, all)) = x.hit {
        if let Some((_, twins)) = y.hit {
            same_lambda_body(w, i, all, twins, arrow, x.log, y.log);
        }
    }
}

#[verifier::spinoff_prover]
pub(crate) proof fn same_expr_call(w: Twins, i: int, a: LogView, b: LogView)
    requires
        w.agree(),
    ensures
        w.steps(w.logs(a, b), expr_call(w.s, i, a), expr_call(w.t, i, b)),
    decreases w.s.len() - i, 36nat,
{
    broadcast use group_log;

    same_lambda_func(w, i, a, b);
    let x = lambda_func(w.s, i, a);
    let y = lambda_func(w.t, i, b);
    if x.hit is None {
        assert(a.emitted.len() == place_log(w.p, a).emitted.len());
        assert(b.emitted.len() == place_log(w.q, b).emitted.len());
        let c = x.log.rollback(a.emitted.len());
        let d = y.log.rollback(b.emitted.len());
        same_func_call(w, i, c, d);
    }
}

#[verifier::spinoff_prover]
pub(crate) proof fn same_pipe_step(w: Twins, i: int, a: LogView, b: LogView)
    requires
        w.agree(),
    ensures
        w.steps(w.logs(a, b), pipe_step(w.s, i, a), pipe_step(w.t, i, b)),
    decreases w.s.len() - i, 37nat,
{
    broadcast use group_log;

    same_alias(w, i, a, b);
    let name = alias(w.s, i, a);
    let twin = alias(w.t, i, b);
    same_expr_call(w, name.end, name.log, twin.log);
    if let Some((_, e)) = expr_call(w.s, name.end, name.log).hit {
        lemma_with_alias(w.p, name.found, e);
    }
    if let Some((_, f)) = expr_call(w.t, twin.end, twin.log).hit {
        lemma_with_alias(w.q, twin.found, f);
    }
}

#[verifier::spinoff_prover]
proof fn same_pipe_rest(w: Twins, i: int, a: LogView, b: LogView)
    requires
        w.agree(),
    ensures
        w.lists(w.logs(a, b), pipe_rest(w.s, i, a), pipe_rest(w.t, i, b)),
    decreases w.s.len() - i, 38nat,
{
    broadcast use group_log;

    same_pipe(w, i, a, b);
    lemma_pipe(w.s, i, a);
    let sep = pipe(w.s, i, a);
    let twin_sep = pipe(w.t, i, b);
    assert(a.emitted.len() == place_log(w.p, a).emitted.len());
    assert(b.emitted.len() == place_log(w.q, b).emitted.len());
    lemma_nothing(w);
    if sep.end != i {
        same_pipe_step(w, sep.end, sep.log, twin_sep.log);
        let x = forward(w.s, i, pipe_step(w.s, sep.end, sep.log));
        let y = forward(w.t, i, pipe_step(w.t, sep.end, twin_sep.log));
        if let Some((end, e)) = x.hit {
            if let Some((_, f)) = y.hit {
                same_pipe_rest(w, end, x.log, y.log);
                lemma_prepend(w.p, e, pipe_rest(w.s, end, x.log).found);
                lemma_prepend(w.q, f, pipe_rest(w.t, end, y.log).found);
            }
        }
    }
}

#[verifier::spinoff_prover]
pub(crate) proof fn same_pipeline(w: Twins, i: int, a: LogView, b: LogView)
    requires
        w.agree(),
    ensures
        w.steps(w.logs(a, b), pipeline(w.s, i, a), pipeline(w.t, i, b)),
    decreases w.s.len() - i, 39nat,
{
    broadcast use group_log;

    same_new_lines(w, i, a, b);
    lemma_new_lines(w.s, i, a);
    let start = new_lines(w.s, i, a);
    let twin_start = new_lines(w.t, i, b);
    same_pipe_step(w, start.end, start.log, twin_start.log);
    let x = forward(w.s, i, pipe_step(w.s, start.end, start.log));
    let y = forward(w.t, i, pipe_step(w.t, start.end, twin_start.log));
    if let Some((j, e)) = x.hit {
        if let Some((_, f)) = y.hit {
            same_pipe_rest(w, j, x.log, y.log);
            let rest = pipe_rest(w.s, j, x.log);
            let twins = pipe_rest(w.t, j, y.log);
            same_new_lines(w, rest.end, rest.log, twins.log);
            lemma_span_since(w, start.end, rest.end);
            lemma_piped(w.p, e, rest.found, w.s.span_since(start.end, rest.end));
            lemma_piped(w.q, f, twins.found, w.t.span_since(start.end, rest.end));
        }
    }
}

#[verifier::spinoff_prover]
pub(crate) proof fn same_list_item(w: Twins, tuple: bool, i: int, a: LogView, b: LogView)
    requires
        w.agree(),
    ensures
        w.steps(w.logs(a, b), list_item(w.s, tuple, i, a), list_item(w.t, tuple, i, b)),
    decreases w.s.len() - i, 40nat,
{
    broadcast use group_log;

    same_new_lines(w, i, a, b);
    lemma_new_lines(w.s, i, a);
    let start = new_lines(w.s, i, a);
    let twin_start = new_lines(w.t, i, b);
    same_alias(w, start.end, start.log, twin_start.log);
    let name = if tuple {
        alias(w.s, start.end, start.log)
    } else {
        Taken { found: None, end: start.end, log: start.log }
    };
    let twin = if tuple {
        alias(w.t, start.end, twin_start.log)
    } else {
        Taken { found: None, end: start.end, log: twin_start.log }
    };
    same_pipeline(w, name.end, name.log, twin.log);
    let x = pipeline(w.s, name.end, name.log);
    let y = pipeline(w.t, name.end, twin.log);
    if let Some((j, e)) = x.hit {
        if let Some((_, f)) = y.hit {
            same_new_lines(w, j, x.log, y.log);
            lemma_with_alias(w.p, name.found, e);
            lemma_with_alias(w.q, name.found, f);
        }
    }
}

#[verifier::spinoff_prover]
proof fn same_list_rest(w: Twins, tuple: bool, i: int, a: LogView, b: LogView)
    requires
        w.agree(),
    ensures
        w.lists(w.logs(a, b), list_rest(w.s, tuple, i, a), list_rest(w.t, tuple, i, b)),
    decreases w.s.len() - i, 41nat,
{
    broadcast use group_log;

    assert(a.emitted.len() == place_log(w.p, a).emitted.len());
    assert(b.emitted.len() == place_log(w.q, b).emitted.len());
    lemma_nothing(w);
    if w.s.has(i, TokenView::Control(',')) {
        same_list_item(w, tuple, i + 1, a, b);
        let x = forward(w.s, i, list_item(w.s, tuple, i + 1, a));
        let y = forward(w.t, i, list_item(w.t, tuple, i + 1, b));
        if let Some((end, e)) = x.hit {
            if let Some((_, f)) = y.hit {
                same_list_rest(w, tuple, end, x.log, y.log);
                lemma_prepend(w.p, e, list_rest(w.s, tuple, end, x.log).found);
                lemma_prepend(w.q, f, list_rest(w.t, tuple, end, y.log).found);
            }
        }
    }
}

#[verifier::spinoff_prover]
proof fn same_list(w: Twins, tuple: bool, i: int, a: LogView, b: LogView)
    requires
        w.agree(),
    ensures
        w.lists(w.logs(a, b), list(w.s, tuple, i, a), list(w.t, tuple, i, b)),
    decreases w.s.len() - i, 42nat,
{
    broadcast use group_log;

    assert(a.emitted.len() == place_log(w.p, a).emitted.len());
    assert(b.emitted.len() == place_log(w.q, b).emitted.len());
    lemma_nothing(w);
    same_list_item(w, tuple, i, a, b);
    let x = forward(w.s, i, list_item(w.s, tuple, i, a));
    let y = forward(w.t, i, list_item(w.t, tuple, i, b));
    if let Some((end, e)) = x.hit {
        if let Some((_, f)) = y.hit {
            same_list_rest(w, tuple, end, x.log, y.log);
            lemma_prepend(w.p, e, list_rest(w.s, tuple, end, x.log).found);
            lemma_prepend(w.q, f, list_rest(w.t, tuple, end, y.log).found);
        }
    }
}

#[verifier::spinoff_prover]
pub(crate) proof fn same_case_value(
    w: Twins,
    condition: ExprView,
    twin: ExprView,
    arrow: int,
    a: LogView,
    b: LogView,
)
    requires
        w.agree(),
        w.exprs(condition, twin),
    ensures
        ({
            let x = case_value(w.s, condition, arrow, a);
            let y = case_value(w.t, twin, arrow, b);
            &&& match (x.hit, y.hit) {
                (Some((j, e)), Some((k, f))) => j == k && place_case(w.p, e) == place_case(w.q, f),
                (None, None) => true,
                _ => false,
            }
            &&& w.logs(a, b) ==> w.logs(x.log, y.log)
        }),
    decreases w.s.len() - arrow, 35nat,
{
    broadcast use group_log;

    if w.s.has(arrow, TokenView::ArrowFat) {
        same_func_call(w, arrow + 1, a, b);
        let x = func_call(w.s, arrow + 1, a);
        let y = func_call(w.t, arrow + 1, b);
        if let Some((j, _)) = x.hit {
            same_new_lines(w, j, x.log, y.log);
        }
    }
}

#[verifier::spinoff_prover]
pub(crate) proof fn same_case_item(w: Twins, i: int, a: LogView, b: LogView)
    requires
        w.agree(),
    ensures
        ({
            let x = case_item(w.s, i, a);
            let y = case_item(w.t, i, b);
            &&& match (x.hit, y.hit) {
                (Some((j, e)), Some((k, f))) => j == k && place_case(w.p, e) == place_case(w.q, f),
                (None, None) => true,
                _ => false,
            }
            &&& w.logs(a, b) ==> w.logs(x.log, y.log)
        }),
    decreases w.s.len() - i, 40nat,
{
    broadcast use group_log;

    same_new_lines(w, i, a, b);
    lemma_new_lines(w.s, i, a);
    let start = new_lines(w.s, i, a);
    let twin_start = new_lines(w.t, i, b);
    same_func_call(w, start.end, start.log, twin_start.log);
    let x = forward(w.s, i, func_call(w.s, start.end, start.log));
    let y = forward(w.t, i, func_call(w.t, start.end, twin_start.log));
    if let Some((arrow, e)) = x.hit {
        if let Some((_, f)) = y.hit {
            same_case_value(w, e, f, arrow, x.log, y.log);
        }
    }
}

#[verifier::spinoff_prover]
proof fn same_cases_rest(w: Twins, i: int, a: LogView, b: LogView)
    requires
        w.agree(),
    ensures
        ({
            let x = cases_rest(w.s, i, a);
            let y = cases_rest(w.t, i, b);
            &&& place_cases(w.p, x.found) == place_cases(w.q, y.found)
            &&& x.end == y.end
            &&& w.logs(a, b) ==> w.logs(x.log, y.log)
        }),
    decreases w.s.len() - i, 41nat,
{
    broadcast use group_log;

    assert(a.emitted.len() == place_log(w.p, a).emitted.len());
    assert(b.emitted.len() == place_log(w.q, b).emitted.len());
    lemma_nothing(w);
    if w.s.has(i, TokenView::Control(',')) {
        same_case_item(w, i + 1, a, b);
        let x = forward(w.s, i, case_item(w.s, i + 1, a));
        let y = forward(w.t, i, case_item(w.t, i + 1, b));
        if let Some((end, e)) = x.hit {
            if let Some((_, f)) = y.hit {
                same_cases_rest(w, end, x.log, y.log);
                lemma_prepend_cases(w.p, e, cases_rest(w.s, end, x.log).found);
                lemma_prepend_cases(w.q, f, cases_rest(w.t, end, y.log).found);
            }
        }
    }
}

#[verifier::spinoff_prover]
proof fn same_cases(w: Twins, i: int, a: LogView, b: LogView)
    requires
        w.agree(),
    ensures
        ({
            let x = cases(w.s, i, a);
            let y = cases(w.t, i, b);
            &&& place_cases(w.p, x.found) == place_cases(w.q, y.found)
            &&& x.end == y.end
            &&& w.logs(a, b) ==> w.logs(x.log, y.log)
        }),
    decreases w.s.len() - i, 42nat,
{
    broadcast use group_log;

    assert(a.emitted.len() == place_log(w.p, a).emitted.len());
    assert(b.emitted.len() == place_log(w.q, b).emitted.len());
    lemma_nothing(w);
    same_case_item(w, i, a, b);
    let x = forward(w.s, i, case_item(w.s, i, a));
    let y = forward(w.t, i, case_item(w.t, i, b));
    if let Some((end, e)) = x.hit {
        if let Some((_, f)) = y.hit {
            same_cases_rest(w, end, x.log, y.log);
            lemma_prepend_cases(w.p, e, cases_rest(w.s, end, x.log).found);
            lemma_prepend_cases(w.q, f, cases_rest(w.t, end, y.log).found);
        }
    }
}

} // verus!
