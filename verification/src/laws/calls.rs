//! What calls and functions are made of, and in which order.
use vstd::prelude::*;

use crate::ast::{BinOp, ExprKindView, ExprView, FuncParamView, NamedArgView, Text};
use crate::grammar::{
    alias, arg, args, atom, binary_expr, call, default_value, expr, expr_call, forward, func_call,
    func_expr, ident, joined, lambda_body, lambda_func, lambda_params, named, named_arg, param,
    params, positional, term, type_annotation, type_expr, type_rest, type_term, with_alias, ArgView,
};
use crate::laws::free::{free_arg, free_expr, free_func_call, free_param, free_term};
use crate::laws::lists::{items, lemma_items, Run};
use crate::laws::precedence::lemma_place;
use crate::laws::shapes::{node, took};
use crate::laws::{law_parameters_are_split, lemma_given, names, repeats};
use crate::lexer::token::TokenView;
use crate::log::LogView;
use crate::places::{lemma_kept_expr, Places};
use crate::stream::StreamView;
use crate::twins::{same_type_annotation, Twins};

verus! {

/// What stands in an argument, whether it has a name or not.
pub open spec fn value_in(a: ArgView) -> ExprView {
    match a {
        ArgView::Named(_, e) => e,
        ArgView::Positional(e) => e,
    }
}

/// An argument with its name.
pub open spec fn named_in(a: ArgView) -> NamedArgView {
    match a {
        ArgView::Named(name, value) => NamedArgView { name, value },
        ArgView::Positional(_) => arbitrary(),
    }
}

/// The arguments without a name, in the order in which they were given.
pub open spec fn nameless(given: Seq<ArgView>) -> Seq<ExprView> {
    given.filter(|a: ArgView| a is Positional).map_values(|a: ArgView| value_in(a))
}

/// The arguments with a name, in the order in which they were given.
pub open spec fn with_names(given: Seq<ArgView>) -> Seq<NamedArgView> {
    given.filter(|a: ArgView| a is Named).map_values(|a: ArgView| named_in(a))
}

/// The arguments of a call that have no name are those that were given without one, in
/// that order.
pub proof fn law_positional_arguments_keep_their_order(given: Seq<ArgView>)
    ensures
        positional(given) == nameless(given),
    decreases given.len(),
{
    reveal(Seq::filter);
    if given.len() == 0 {
        assert(positional(given) =~= nameless(given));
    } else {
        law_positional_arguments_keep_their_order(given.drop_last());
        assert(positional(given) =~= nameless(given));
    }
}

/// Where no name is given twice, the arguments of a call that have a name are those that
/// were given with one, in that order.
pub proof fn law_named_arguments_keep_their_order(given: Seq<ArgView>)
    requires
        !repeats(given),
    ensures
        named(given) == with_names(given),
    decreases given.len(),
{
    reveal(Seq::filter);
    if given.len() == 0 {
        assert(named(given) =~= with_names(given));
    } else {
        let before = given.drop_last();
        let last = given.len() - 1;
        assert(forall|i: int, name: Text| names(before, i, name) ==> names(given, i, name));
        assert(!repeats(before)) by {
            if repeats(before) {
                let (i, j, name) = choose|i: int, j: int, name: Text|
                    i < j && #[trigger] names(before, i, name) && #[trigger] names(
                        before,
                        j,
                        name,
                    );
                assert(names(given, i, name) && names(given, j, name));
            }
        }
        law_named_arguments_keep_their_order(before);
        if let ArgView::Named(name, value) = given[last] {
            lemma_given(before, name);
            assert(names(given, last, name));
            if exists|i: int| names(before, i, name) {
                let i = choose|i: int| names(before, i, name);
                assert(names(given, i, name));
            }
            assert(named(given) == named(before).push(NamedArgView { name, value }));
        }
        assert(named(given) =~= with_names(given));
    }
}

/// An argument is what stands there. Behind a name with a colon it is an argument of that
/// name; behind a name with an equals sign it is one without a name, under an alias.
pub proof fn law_an_argument_may_have_a_name(
    s: StreamView,
    i: int,
    name: Text,
    j: int,
    e: ExprView,
    log: LogView,
)
    requires
        0 <= i,
    ensures
        s.has(i, TokenView::Ident(name)) && s.has(i + 1, TokenView::Control(':')) && took(
            s,
            i + 2,
            expr(s, i + 2, LogView::start()),
            j,
            e,
        ) ==> arg(s, i, log).hit == Some((j, ArgView::Named(name, e))),
        s.has(i, TokenView::Ident(name)) && s.has(i + 1, TokenView::Control('=')) && took(
            s,
            i + 2,
            expr(s, i + 2, LogView::start()),
            j,
            e,
        ) ==> arg(s, i, log).hit == Some(
            (
                j,
                ArgView::Positional(
                    ExprView { kind: e.kind, span: e.span, alias: Some(name) },
                ),
            ),
        ),
        !s.has(i + 1, TokenView::Control(':')) && !s.has(i + 1, TokenView::Control('=')) && took(
            s,
            i,
            expr(s, i, LogView::start()),
            j,
            e,
        ) ==> arg(s, i, log).hit == Some((j, ArgView::Positional(e))),
{
    reveal(with_alias);
    free_expr(s, i + 2, LogView::start(), log);
    let head = named_arg(s, i, log);
    let given = alias(s, i, head.log.rollback(log.emitted.len()));
    free_expr(s, given.end, LogView::start(), given.log);
}

/// Arguments stand from `i` on, one behind the other.
pub open spec fn arg_run(s: StreamView, i: int, run: Run<ArgView>) -> bool
    decreases run.len(),
{
    run.len() > 0 ==> took(s, i, arg(s, i, LogView::start()), run[0].0, run[0].1) && arg_run(
        s,
        run[0].0,
        run.skip(1),
    )
}

/// Where the arguments end.
pub open spec fn run_end<T>(i: int, run: Run<T>) -> int {
    if run.len() == 0 {
        i
    } else {
        run.last().0
    }
}

/// What the rule takes from `i` on, and where that ends.
#[verifier::opaque]
spec fn all_args(s: StreamView, i: int, log: LogView) -> (Seq<ArgView>, int) {
    (args(s, i, log).found, args(s, i, log).end)
}

proof fn lemma_more_args(
    s: StreamView,
    i: int,
    end: int,
    x: ArgView,
    log: LogView,
) -> (rest: LogView)
    requires
        took(s, i, arg(s, i, LogView::start()), end, x),
    ensures
        all_args(s, i, log).0 == seq![x] + all_args(s, end, rest).0,
        all_args(s, i, log).1 == all_args(s, end, rest).1,
{
    reveal(all_args);
    free_arg(s, i, LogView::start(), log);
    let first = forward(s, i, arg(s, i, log));
    assert(first.hit == Some((end, x)));
    first.log
}

proof fn lemma_no_more_args(s: StreamView, i: int, log: LogView)
    requires
        arg(s, i, LogView::start()).hit is None,
    ensures
        all_args(s, i, log).0 == Seq::<ArgView>::empty(),
        all_args(s, i, log).1 == i,
{
    reveal(all_args);
    free_arg(s, i, LogView::start(), log);
}

proof fn lemma_all_args(s: StreamView, i: int, run: Run<ArgView>, log: LogView)
    requires
        arg_run(s, i, run),
        arg(s, run_end(i, run), LogView::start()).hit is None,
    ensures
        all_args(s, i, log).0 == items(run),
        all_args(s, i, log).1 == run_end(i, run),
        i <= run_end(i, run),
        run.len() > 0 ==> i < run_end(i, run) <= s.len(),
    decreases run.len(),
{
    if run.len() > 0 {
        let rest = lemma_more_args(s, i, run[0].0, run[0].1, log);
        lemma_items(run);
        assert(run_end(run[0].0, run.skip(1)) == run_end(i, run));
        lemma_all_args(s, run[0].0, run.skip(1), rest);
    } else {
        lemma_no_more_args(s, i, log);
        assert(items(run) =~= Seq::empty());
    }
}

proof fn lemma_args(s: StreamView, i: int, run: Run<ArgView>, log: LogView)
    requires
        arg_run(s, i, run),
        arg(s, run_end(i, run), LogView::start()).hit is None,
    ensures
        args(s, i, log).found == items(run),
        args(s, i, log).end == run_end(i, run),
        i <= run_end(i, run),
        run.len() > 0 ==> i < run_end(i, run) <= s.len(),
{
    lemma_all_args(s, i, run, log);
    reveal(all_args);
}

/// A call calls what stands first, with the arguments behind it: those without a name in
/// the order in which they stand and, where no name is given twice, those with a name in
/// the order in which they stand. Without arguments nothing is called.
pub proof fn law_a_call_has_its_arguments_in_order(
    s: StreamView,
    i: int,
    j: int,
    f: ExprView,
    run: Run<ArgView>,
    log: LogView,
)
    requires
        took(s, i, expr(s, i, LogView::start()), j, f),
        arg_run(s, j, run),
        arg(s, run_end(j, run), LogView::start()).hit is None,
    ensures
        run.len() == 0 ==> func_call(s, i, log).hit == Some((j, f)),
        run.len() > 0 && !repeats(items(run)) ==> func_call(s, i, log).hit == Some(
            (
                run.last().0,
                node(
                    ExprKindView::FuncCall {
                        name: Box::new(f),
                        args: nameless(items(run)),
                        named_args: with_names(items(run)),
                    },
                    s,
                    i,
                    run.last().0,
                ),
            ),
        ),
{
    free_expr(s, i, LogView::start(), log);
    let head = forward(s, i, expr(s, i, log));
    lemma_args(s, j, run, head.log);
    law_positional_arguments_keep_their_order(items(run));
    if run.len() > 0 {
        if !repeats(items(run)) {
            law_named_arguments_keep_their_order(items(run));
        }
        lemma_place(s, i, run.last().0);
    }
    reveal(call);
}

/// A type and where it ends.
spec fn typed(s: StreamView, i: int) -> (int, Option<ExprView>) {
    let ty = type_annotation(s, i, LogView::start());
    (ty.end, ty.found)
}

proof fn lemma_typed(s: StreamView, i: int, log: LogView)
    ensures
        type_annotation(s, i, log).end == typed(s, i).0,
        type_annotation(s, i, log).found == typed(s, i).1,
{
    let w = Twins { p: Places::Kept, s, q: Places::Kept, t: s };
    same_type_annotation(w, i, LogView::start(), log);
    if let Some(e) = typed(s, i).1 {
        lemma_kept_expr(e);
    }
    if let Some(e) = type_annotation(s, i, log).found {
        lemma_kept_expr(e);
    }
}

/// Without an angle bracket there is no type. A type between angle brackets is that type,
/// and two of them with bars between are the one or the other.
pub proof fn law_a_type_stands_between_angle_brackets(
    s: StreamView,
    i: int,
    j: int,
    x: ExprView,
    k: int,
    y: ExprView,
    log: LogView,
)
    requires
        0 <= i,
    ensures
        !s.has(i, TokenView::Control('<')) ==> type_annotation(s, i, log).found is None
            && type_annotation(s, i, log).end == i,
        s.has(i, TokenView::Control('<')) && took(s, i + 1, type_term(s, i + 1, log), j, x)
            && s.has(j, TokenView::Control('>')) ==> type_annotation(s, i, log).found == Some(x)
            && type_annotation(s, i, log).end == j + 1,
        s.has(i, TokenView::Control('<')) && took(s, i + 1, type_term(s, i + 1, log), j, x)
            && s.has(j, TokenView::Or) && took(
            s,
            j + 1,
            type_term(s, j + 1, type_term(s, i + 1, log).log),
            k,
            y,
        ) && s.has(k, TokenView::Control('>')) ==> type_annotation(s, i, log).found == Some(
            node(
                ExprKindView::Binary(Box::new(x), BinOp::Or, Box::new(y)),
                s,
                i + 1,
                k,
            ),
        ) && type_annotation(s, i, log).end == k + 1,
{
    reveal(type_annotation);
    reveal(type_expr);
    reveal(joined);
    reveal(binary_expr);
    reveal(StreamView::span_since);
    let first = type_term(s, i + 1, log);
    let right = forward(s, j, type_term(s, j + 1, first.log));
    if s.has(i, TokenView::Control('<')) && took(s, i + 1, first, j, x) && s.has(
        j,
        TokenView::Or,
    ) && took(s, j + 1, type_term(s, j + 1, first.log), k, y) && s.has(
        k,
        TokenView::Control('>'),
    ) {
        let span = joined(s.span_since(i + 1, j), s.span_since(j + 1, k));
        assert(type_rest(
            s,
            binary_expr(x, BinOp::Or, y, span),
            span,
            k,
            right.log,
        ).end == k);
    }
}

/// What stands between angle brackets does not depend on what went wrong before.
pub(crate) proof fn lemma_typed_free(s: StreamView, i: int, log: LogView)
    ensures
        type_annotation(s, i, log).end == type_annotation(s, i, LogView::start()).end,
        type_annotation(s, i, log).found == type_annotation(s, i, LogView::start()).found,
{
    lemma_typed(s, i, log);
}

/// The expression in a box, where there is one.
pub open spec fn in_box(e: Option<ExprView>) -> Option<Box<ExprView>> {
    match e {
        Some(e) => Some(Box::new(e)),
        None => None,
    }
}

/// A parameter has the name that stands there, the type behind it and, behind a colon, its
/// default value.
pub proof fn law_a_parameter_has_its_type_and_its_default(
    s: StreamView,
    i: int,
    name: Text,
    j: int,
    e: ExprView,
    log: LogView,
)
    requires
        0 <= i,
        s.has(i, TokenView::Ident(name)),
    ensures
        ({
            let ty = type_annotation(s, i + 1, LogView::start());
            &&& !s.has(ty.end, TokenView::Control(':')) ==> param(s, i, log).hit == Some(
                (
                    ty.end,
                    FuncParamView { name, ty_expr: in_box(ty.found), default_value: None },
                ),
            )
            &&& s.has(ty.end, TokenView::Control(':')) && took(
                s,
                ty.end + 1,
                expr(s, ty.end + 1, LogView::start()),
                j,
                e,
            ) ==> param(s, i, log).hit == Some(
                (
                    j,
                    FuncParamView {
                        name,
                        ty_expr: in_box(ty.found),
                        default_value: Some(Box::new(e)),
                    },
                ),
            )
        }),
{
    lemma_typed(s, i + 1, log);
    let ty = type_annotation(s, i + 1, log);
    free_expr(s, ty.end + 1, LogView::start(), ty.log);
    assert(param(s, i, log).hit is Some);
    let value = default_value(s, ty.end, ty.log);
}

/// Parameters stand from `i` on, one behind the other.
pub open spec fn param_run(s: StreamView, i: int, run: Run<FuncParamView>) -> bool
    decreases run.len(),
{
    run.len() > 0 ==> took(s, i, param(s, i, LogView::start()), run[0].0, run[0].1) && param_run(
        s,
        run[0].0,
        run.skip(1),
    )
}

/// What the rule takes from `i` on, and where that ends.
#[verifier::opaque]
spec fn all_params(s: StreamView, i: int, log: LogView) -> (Seq<FuncParamView>, int) {
    (params(s, i, log).found, params(s, i, log).end)
}

proof fn lemma_more_params(
    s: StreamView,
    i: int,
    end: int,
    x: FuncParamView,
    log: LogView,
) -> (rest: LogView)
    requires
        took(s, i, param(s, i, LogView::start()), end, x),
    ensures
        all_params(s, i, log).0 == seq![x] + all_params(s, end, rest).0,
        all_params(s, i, log).1 == all_params(s, end, rest).1,
{
    reveal(all_params);
    free_param(s, i, LogView::start(), log);
    let first = forward(s, i, param(s, i, log));
    assert(first.hit == Some((end, x)));
    first.log
}

proof fn lemma_no_more_params(s: StreamView, i: int, log: LogView)
    requires
        param(s, i, LogView::start()).hit is None,
    ensures
        all_params(s, i, log).0 == Seq::<FuncParamView>::empty(),
        all_params(s, i, log).1 == i,
{
    reveal(all_params);
    free_param(s, i, LogView::start(), log);
}

proof fn lemma_all_params(s: StreamView, i: int, run: Run<FuncParamView>, log: LogView)
    requires
        param_run(s, i, run),
        param(s, run_end(i, run), LogView::start()).hit is None,
    ensures
        all_params(s, i, log).0 == items(run),
        all_params(s, i, log).1 == run_end(i, run),
        i <= run_end(i, run),
        run.len() > 0 ==> i < run_end(i, run) <= s.len(),
    decreases run.len(),
{
    if run.len() > 0 {
        let rest = lemma_more_params(s, i, run[0].0, run[0].1, log);
        lemma_items(run);
        assert(run_end(run[0].0, run.skip(1)) == run_end(i, run));
        lemma_all_params(s, run[0].0, run.skip(1), rest);
    } else {
        lemma_no_more_params(s, i, log);
        assert(items(run) =~= Seq::empty());
    }
}

proof fn lemma_params(s: StreamView, i: int, run: Run<FuncParamView>, log: LogView)
    requires
        param_run(s, i, run),
        param(s, run_end(i, run), LogView::start()).hit is None,
    ensures
        params(s, i, log).found == items(run),
        params(s, i, log).end == run_end(i, run),
        i <= run_end(i, run),
        run.len() > 0 ==> i < run_end(i, run) <= s.len(),
{
    lemma_all_params(s, i, run, log);
    reveal(all_params);
}

/// A function has its parameters in the order in which they stand, those without a default
/// value apart from those with one. Behind the arrow stand its type, if any, and its body.
pub proof fn law_a_function_has_its_parameters_and_its_body(
    s: StreamView,
    i: int,
    run: Run<FuncParamView>,
    end: int,
    body: ExprView,
    log: LogView,
)
    requires
        0 <= i,
        ({
            let keyword = s.has(i, TokenView::Keyword("func"@));
            let start = if keyword {
                i + 1
            } else {
                i
            };
            let arrow = run_end(start, run);
            let ty = type_annotation(s, arrow + 1, LogView::start());
            &&& keyword || run.len() > 0
            &&& param_run(s, start, run)
            &&& param(s, arrow, LogView::start()).hit is None
            &&& s.has(arrow, TokenView::ArrowThin)
            &&& took(s, ty.end, func_call(s, ty.end, LogView::start()), end, body)
        }),
    ensures
        ({
            let start = if s.has(i, TokenView::Keyword("func"@)) {
                i + 1
            } else {
                i
            };
            let ty = type_annotation(s, run_end(start, run) + 1, LogView::start());
            expr_call(s, i, log).hit == Some(
                (
                    end,
                    node(
                        ExprKindView::Func {
                            return_ty: in_box(ty.found),
                            body: Box::new(body),
                            params: items(run).filter(
                                |p: FuncParamView| p.default_value is None,
                            ),
                            named_params: items(run).filter(
                                |p: FuncParamView| p.default_value is Some,
                            ),
                        },
                        s,
                        i,
                        end,
                    ),
                ),
            )
        }),
{
    let keyword = s.has(i, TokenView::Keyword("func"@));
    let start = if keyword {
        i + 1
    } else {
        i
    };
    let arrow = run_end(start, run);
    let noted = if keyword {
        log
    } else {
        log.note(i, crate::common::just(TokenView::Keyword("func"@)))
    };
    lemma_params(s, start, run, noted);
    let given = forward(s, i, lambda_params(s, i, log));
    assert(given.hit == Some((arrow, items(run))));
    lemma_typed(s, arrow + 1, given.log);
    let ty = type_annotation(s, arrow + 1, given.log);
    crate::grammar::lemma_type_annotation(s, arrow + 1, given.log);
    free_func_call(s, ty.end, LogView::start(), ty.log);
    law_parameters_are_split(items(run));
    lemma_place(s, i, end);
    reveal(func_expr);
    assert(lambda_func(s, i, log) == lambda_body(s, i, items(run), arrow, given.log));
}

/// Where no function stands, an expression is a call.
pub proof fn law_what_is_no_function_is_a_call(s: StreamView, i: int, log: LogView)
    requires
        lambda_func(s, i, log).hit is None,
    ensures
        expr_call(s, i, log).hit == func_call(s, i, LogView::start()).hit,
{
    let quiet = lambda_func(s, i, log).log.rollback(log.emitted.len());
    free_func_call(s, i, LogView::start(), quiet);
}

/// A type without alternatives is a literal or names with dots between them, as it would be
/// read as a term.
pub proof fn law_a_plain_type_is_read_as_a_term(s: StreamView, i: int, log: LogView)
    ensures
        (s.token(i) matches Some(TokenView::Literal(_))) || (s.token(i) matches Some(
            TokenView::Ident(_),
        )) ==> type_term(s, i, log).hit == term(s, i, log).hit,
        !(s.token(i) matches Some(TokenView::Literal(_))) && !(s.token(i) matches Some(
            TokenView::Ident(_),
        )) ==> type_term(s, i, log).hit is None,
{
    reveal(atom);
    reveal(ident);
}

/// Behind a type that ends at `i` stand further ones, each with bars before it.
pub open spec fn type_run(s: StreamView, i: int, run: Run<ExprView>) -> bool
    decreases run.len(),
{
    run.len() > 0 ==> {
        &&& s.has(i, TokenView::Or)
        &&& took(s, i + 1, term(s, i + 1, LogView::start()), run[0].0, run[0].1)
        &&& (s.token(i + 1) matches Some(TokenView::Literal(_))) || (s.token(i + 1) matches Some(
            TokenView::Ident(_),
        ))
        &&& type_run(s, run[0].0, run.skip(1))
    }
}

/// The types as alternatives, from the left; the first begins at `i`.
pub open spec fn alternatives(
    s: StreamView,
    i: int,
    x: ExprView,
    run: Run<ExprView>,
) -> ExprView
    decreases run.len(),
{
    if run.len() == 0 {
        x
    } else {
        alternatives(
            s,
            i,
            node(
                ExprKindView::Binary(Box::new(x), BinOp::Or, Box::new(run[0].1)),
                s,
                i,
                run[0].0,
            ),
            run.skip(1),
        )
    }
}

proof fn lemma_alternatives(
    s: StreamView,
    i: int,
    j: int,
    x: ExprView,
    run: Run<ExprView>,
    log: LogView,
)
    requires
        0 <= i < j <= s.len(),
        type_run(s, j, run),
        !s.has(run_end(j, run), TokenView::Or),
    ensures
        ({
            let rest = type_rest(s, x, s.span_since(i, j), j, log);
            &&& rest.found == alternatives(s, i, x, run)
            &&& rest.end == run_end(j, run)
        }),
    decreases run.len(),
{
    if run.len() > 0 {
        let (k, y) = run[0];
        law_a_plain_type_is_read_as_a_term(s, j + 1, log);
        free_term(s, j + 1, LogView::start(), log);
        let right = forward(s, j, type_term(s, j + 1, log));
        assert(right.hit == Some((k, y)));
        let span = joined(s.span_since(i, j), s.span_since(j + 1, k));
        assert(span == s.span_since(i, k)) by {
            reveal(joined);
            reveal(StreamView::span_since);
        }
        lemma_place(s, i, k);
        assert(binary_expr(x, BinOp::Or, y, span) == node(
            ExprKindView::Binary(Box::new(x), BinOp::Or, Box::new(y)),
            s,
            i,
            k,
        )) by {
            reveal(binary_expr);
        }
        assert(run_end(k, run.skip(1)) == run_end(j, run));
        lemma_alternatives(
            s,
            i,
            k,
            binary_expr(x, BinOp::Or, y, span),
            run.skip(1),
            right.log,
        );
    }
}

/// Any number of types between angle brackets, with bars between them, are alternatives,
/// grouped from the left.
pub proof fn law_types_are_alternatives(
    s: StreamView,
    i: int,
    j: int,
    x: ExprView,
    run: Run<ExprView>,
    log: LogView,
)
    requires
        0 <= i,
        s.has(i, TokenView::Control('<')),
        took(s, i + 1, term(s, i + 1, LogView::start()), j, x),
        (s.token(i + 1) matches Some(TokenView::Literal(_))) || (s.token(i + 1) matches Some(
            TokenView::Ident(_),
        )),
        type_run(s, j, run),
        s.has(run_end(j, run), TokenView::Control('>')),
    ensures
        type_annotation(s, i, log).found == Some(alternatives(s, i + 1, x, run)),
        type_annotation(s, i, log).end == run_end(j, run) + 1,
{
    law_a_plain_type_is_read_as_a_term(s, i + 1, log);
    free_term(s, i + 1, LogView::start(), log);
    let first = type_term(s, i + 1, log);
    lemma_alternatives(s, i + 1, j, x, run, first.log);
    reveal(type_annotation);
    reveal(type_expr);
}

} // verus!
