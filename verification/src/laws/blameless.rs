//! What finds fault with a source, and what does not.
use vstd::prelude::*;

use crate::ast::{BinOp, ExprView, FuncParamView, Text};
use crate::common::{any_name, just};
use crate::grammar::{
    alias, arg, args, atom, binary, binary_expr, binary_op, binary_rest, brackets, case_item,
    case_value, cases, cases_end, cases_rest, check_args, default_value, expr, expr_call, forward,
    func_call, ident, ident_expr, ident_rest, interpolation, joined, lambda_body, lambda_func,
    lambda_params, lemma_new_lines, lemma_pipe, lemma_type_annotation, list, list_end, list_item,
    list_rest, loosest, named_arg, new_lines, opening, operand, param, params, parens, pipe,
    pipe_rest, pipe_step, pipeline, range, range_from, range_to, switch, term, type_annotation,
    type_expr, type_rest, type_term, unary, unary_op, ArgView, Taken,
};
use crate::interpolation::interpolated;
use crate::lexer::token::TokenView;
use crate::laws::free::lemma_kept_arg;
use crate::laws::{lemma_given, names, repeats};
use crate::log::LogView;
use crate::places::Places;
use crate::source_grammar::{
    annotations, let_def, on_new_line, query_def, single_expr, source, stmt, stmts, var_def,
};
use crate::span::Span;
use crate::stream::StreamView;
use crate::twins::{place_arg, place_args, same_args, Twins};

verus! {

/// The braces of all interpolated strings match, no call gives two arguments the same
/// name, and there is no header.
pub open spec fn blameless(s: StreamView) -> bool {
    &&& forall|k: int| !#[trigger] s.has(k, TokenView::Keyword("prql"@))
    &&& forall|k: int| !repeats((#[trigger] args(s, k, LogView::start())).found)
    &&& forall|k: int, letter: char, text: Text|
        #![trigger s.has(k, TokenView::Interpolation(letter, text))]
        s.has(k, TokenView::Interpolation(letter, text)) ==> interpolated(
            text,
            s.spans[k].start + 2,
            s.eoi.source_id,
        ) is Ok
}

#[verifier::spinoff_prover]
proof fn quiet_new_lines(s: StreamView, i: int, log: LogView)
    requires
        blameless(s),
    ensures
        new_lines(s, i, log).log.emitted == log.emitted,
    decreases s.len() - i,
{
    broadcast use crate::laws::quiet::group_emitted;

    reveal(new_lines);
    if s.has(i, TokenView::NewLine) {
        quiet_new_lines(s, i + 1, log);
    }
}

#[verifier::spinoff_prover]
proof fn quiet_ident_rest(s: StreamView, i: int, log: LogView)
    requires
        blameless(s),
    ensures
        ident_rest(s, i, log).log.emitted == log.emitted,
    decreases s.len() - i,
{
    broadcast use crate::laws::quiet::group_emitted;

    if s.has(i, TokenView::Control('.')) && s.token(i + 1) is Some {
        quiet_ident_rest(s, i + 2, log);
        quiet_ident_rest(s, i + 2, log.note(i + 1, just(any_name())));
    }
}

#[verifier::spinoff_prover]
proof fn quiet_ident_expr(s: StreamView, i: int, log: LogView)
    requires
        blameless(s),
    ensures
        ident_expr(s, i, log).log.emitted == log.emitted,
{
    broadcast use crate::laws::quiet::group_emitted;

    reveal(ident);
    quiet_ident_rest(s, i + 1, log);
}

#[verifier::spinoff_prover]
proof fn quiet_type_term(s: StreamView, i: int, log: LogView)
    requires
        blameless(s),
    ensures
        type_term(s, i, log).log.emitted == log.emitted,
{
    broadcast use crate::laws::quiet::group_emitted;

    quiet_ident_expr(s, i, log);
}

#[verifier::spinoff_prover]
proof fn quiet_type_rest(s: StreamView, left: ExprView, span: Span, i: int, log: LogView)
    requires
        blameless(s),
    ensures
        type_rest(s, left, span, i, log).log.emitted == log.emitted,
    decreases s.len() - i,
{
    broadcast use crate::laws::quiet::group_emitted;

    if s.has(i, TokenView::Or) {
        quiet_type_term(s, i + 1, log);
        let right = forward(s, i, type_term(s, i + 1, log));
        if let Some((end, e)) = right.hit {
            let both = joined(span, s.span_since(i + 1, end));
            quiet_type_rest(
                s,
                binary_expr(left, BinOp::Or, e, both),
                both,
                end,
                right.log,
            );
        }
    }
}

#[verifier::spinoff_prover]
proof fn quiet_type_annotation(s: StreamView, i: int, log: LogView)
    requires
        blameless(s),
    ensures
        type_annotation(s, i, log).log.emitted == log.emitted,
{
    broadcast use crate::laws::quiet::group_emitted;

    reveal(type_annotation);
    reveal(type_expr);
    if s.has(i, TokenView::Control('<')) {
        quiet_type_term(s, i + 1, log);
        let left = type_term(s, i + 1, log);
        if let Some((end, e)) = left.hit {
            quiet_type_rest(s, e, s.span_since(i + 1, end), end, left.log);
        }
    }
}

#[verifier::spinoff_prover]
proof fn quiet_atom(s: StreamView, i: int, log: LogView)
    requires
        blameless(s),
    ensures
        atom(s, i, log).log.emitted == log.emitted,
{
    broadcast use crate::laws::quiet::group_emitted;

    reveal(atom);
    quiet_ident_expr(s, i, log);
    if let Some(TokenView::Interpolation(letter, text)) = s.token(i) {
        assert(s.has(i, TokenView::Interpolation(letter, text)));
        reveal(interpolation);
        reveal(StreamView::span_since);
    }
}

#[verifier::spinoff_prover]
proof fn quiet_pipe(s: StreamView, i: int, log: LogView)
    requires
        blameless(s),
    ensures
        pipe(s, i, log).log.emitted == log.emitted,
{
    broadcast use crate::laws::quiet::group_emitted;

    reveal(pipe);
    quiet_new_lines(s, i, log.note(i, just(TokenView::Control('|'))));
}

proof fn quiet_check_args(given: Seq<ArgView>, span: Span, log: LogView)
    requires
        !repeats(given),
    ensures
        check_args(given, span, log) == log,
    decreases given.len(),
{
    reveal(check_args);
    if given.len() > 0 {
        let before = given.drop_last();
        let last = given.len() - 1;
        assert(forall|i: int, name: Text| names(before, i, name) ==> names(given, i, name));
        assert(!repeats(before)) by {
            if repeats(before) {
                let (i, j, name) = choose|i: int, j: int, name: Text|
                    i < j && #[trigger] names(before, i, name) && #[trigger] names(
                        before,
                        j,
                        name,
                    );
                assert(names(given, i, name) && names(given, j, name));
            }
        }
        quiet_check_args(before, span, log);
        if let ArgView::Named(name, value) = given[last] {
            lemma_given(before, name);
            assert(names(given, last, name));
            if exists|i: int| names(before, i, name) {
                let i = choose|i: int| names(before, i, name);
                assert(names(given, i, name));
            }
        }
    }
}

proof fn lemma_args_free(s: StreamView, i: int, log: LogView)
    ensures
        args(s, i, log).found == args(s, i, LogView::start()).found,
{
    let w = Twins { p: Places::Kept, s, q: Places::Kept, t: s };
    same_args(w, i, log, LogView::start());
    lemma_kept_args(args(s, i, log).found);
    lemma_kept_args(args(s, i, LogView::start()).found);
}

proof fn lemma_kept_args(given: Seq<ArgView>)
    ensures
        place_args(Places::Kept, given) == given,
{
    assert forall|k: int| 0 <= k < given.len() implies place_arg(
        Places::Kept,
        #[trigger] given[k],
    ) == given[k] by {
        lemma_kept_arg(given[k]);
    }
    assert(place_args(Places::Kept, given) =~= given);
}

#[verifier::spinoff_prover]
proof fn quiet_brackets(s: StreamView, tuple: bool, i: int, log: LogView)
    requires
        blameless(s),
    ensures
        brackets(s, tuple, i, log).log.emitted == log.emitted,
    decreases s.len() - i, 5nat,
{
    broadcast use crate::laws::quiet::group_emitted;

    if s.has(i, TokenView::Control(opening(tuple))) {
        quiet_list(s, tuple, i + 1, log);
        let items = list(s, tuple, i + 1, log);
        reveal(list_end);
        quiet_new_lines(s, items.end, items.log);
    }
}

#[verifier::spinoff_prover]
proof fn quiet_switch(s: StreamView, i: int, log: LogView)
    requires
        blameless(s),
    ensures
        switch(s, i, log).log.emitted == log.emitted,
    decreases s.len() - i, 5nat,
{
    broadcast use crate::laws::quiet::group_emitted;

    if s.has(i, TokenView::Keyword("case"@)) && s.has(i + 1, TokenView::Control('[')) {
        quiet_cases(s, i + 2, log);
        let items = cases(s, i + 2, log);
        reveal(cases_end);
        quiet_new_lines(s, items.end, items.log);
    }
}

#[verifier::spinoff_prover]
proof fn quiet_parens(s: StreamView, i: int, log: LogView)
    requires
        blameless(s),
    ensures
        parens(s, i, log).log.emitted == log.emitted,
    decreases s.len() - i, 5nat,
{
    broadcast use crate::laws::quiet::group_emitted;

    if s.has(i, TokenView::Control('(')) {
        quiet_pipeline(s, i + 1, log);
    }
}

#[verifier::spinoff_prover]
proof fn quiet_term(s: StreamView, i: int, log: LogView)
    requires
        blameless(s),
    ensures
        term(s, i, log).log.emitted == log.emitted,
    decreases s.len() - i, 6nat,
{
    broadcast use crate::laws::quiet::group_emitted;

    quiet_brackets(s, true, i, log);
    quiet_brackets(s, false, i, log);
    quiet_parens(s, i, log);
    quiet_switch(s, i, log);
    quiet_atom(s, i, log);
}

#[verifier::spinoff_prover]
proof fn quiet_unary(s: StreamView, i: int, log: LogView)
    requires
        blameless(s),
    ensures
        unary(s, i, log).log.emitted == log.emitted,
    decreases s.len() - i, 7nat,
{
    broadcast use crate::laws::quiet::group_emitted;

    quiet_term(s, i, log);
    let plain = term(s, i, log);
    if plain.hit is None && unary_op(s.token(i)) is Some {
        quiet_term(s, i + 1, plain.log.rollback(log.emitted.len()));
    }
}

#[verifier::spinoff_prover]
proof fn quiet_range_from(s: StreamView, i: int, start: ExprView, j: int, log: LogView)
    requires
        blameless(s),
    ensures
        range_from(s, i, start, j, log).log.emitted == log.emitted,
    decreases s.len() - j, 8nat,
{
    broadcast use crate::laws::quiet::group_emitted;

    if s.token(j) is Some {
        quiet_unary(s, j + 1, log);
    }
}

#[verifier::spinoff_prover]
proof fn quiet_range_to(s: StreamView, i: int, log: LogView)
    requires
        blameless(s),
    ensures
        range_to(s, i, log).log.emitted == log.emitted,
    decreases s.len() - i, 8nat,
{
    broadcast use crate::laws::quiet::group_emitted;

    if s.token(i) is Some {
        quiet_unary(s, i + 1, log);
    }
}

#[verifier::spinoff_prover]
proof fn quiet_range(s: StreamView, i: int, log: LogView)
    requires
        blameless(s),
    ensures
        range(s, i, log).log.emitted == log.emitted,
    decreases s.len() - i, 9nat,
{
    broadcast use crate::laws::quiet::group_emitted;

    quiet_unary(s, i, log);
    let first = forward(s, i, unary(s, i, log));
    match first.hit {
        Some((j, start)) => {
            quiet_range_from(s, i, start, j, first.log);
        },
        None => {
            quiet_range_to(s, i, first.log.rollback(log.emitted.len()));
        },
    }
}

#[verifier::spinoff_prover]
proof fn quiet_operand(s: StreamView, level: nat, i: int, log: LogView)
    requires
        blameless(s),
    ensures
        operand(s, level, i, log).log.emitted == log.emitted,
    decreases s.len() - i, 10 + 2 * level,
{
    broadcast use crate::laws::quiet::group_emitted;

    if level == 0 {
        quiet_range(s, i, log);
    } else {
        quiet_binary(s, (level - 1) as nat, i, log);
    }
}

#[verifier::spinoff_prover]
proof fn quiet_binary(s: StreamView, level: nat, i: int, log: LogView)
    requires
        blameless(s),
    ensures
        binary(s, level, i, log).log.emitted == log.emitted,
    decreases s.len() - i, 11 + 2 * level,
{
    broadcast use crate::laws::quiet::group_emitted;

    quiet_operand(s, level, i, log);
    let left = forward(s, i, operand(s, level, i, log));
    if let Some((end, e)) = left.hit {
        quiet_binary_rest(s, level, e, s.span_since(i, end), end, left.log);
    }
}

#[verifier::spinoff_prover]
proof fn quiet_binary_rest(
    s: StreamView,
    level: nat,
    left: ExprView,
    span: Span,
    i: int,
    log: LogView,
)
    requires
        blameless(s),
    ensures
        binary_rest(s, level, left, span, i, log).log.emitted == log.emitted,
    decreases s.len() - i, 0nat,
{
    broadcast use crate::laws::quiet::group_emitted;

    if let Some(op) = binary_op(level, s.token(i)) {
        quiet_operand(s, level, i + 1, log);
        let right = forward(s, i + 1, operand(s, level, i + 1, log));
        if let Some((end, e)) = right.hit {
            let both = joined(span, s.span_since(i + 1, end));
            quiet_binary_rest(s, level, binary_expr(left, op, e, both), both, end, right.log);
        }
    }
}

#[verifier::spinoff_prover]
proof fn quiet_expr(s: StreamView, i: int, log: LogView)
    requires
        blameless(s),
    ensures
        expr(s, i, log).log.emitted == log.emitted,
    decreases s.len() - i, 30nat,
{
    broadcast use crate::laws::quiet::group_emitted;

    quiet_binary(s, loosest(), i, log);
}

#[verifier::spinoff_prover]
proof fn quiet_named_arg(s: StreamView, i: int, log: LogView)
    requires
        blameless(s),
    ensures
        named_arg(s, i, log).log.emitted == log.emitted,
    decreases s.len() - i, 31nat,
{
    broadcast use crate::laws::quiet::group_emitted;

    if s.token(i) is Some && s.has(i + 1, TokenView::Control(':')) {
        quiet_expr(s, i + 2, log);
    }
}

#[verifier::spinoff_prover]
proof fn quiet_arg(s: StreamView, i: int, log: LogView)
    requires
        blameless(s),
    ensures
        arg(s, i, log).log.emitted == log.emitted,
    decreases s.len() - i, 32nat,
{
    broadcast use crate::laws::quiet::group_emitted;

    quiet_named_arg(s, i, log);
    let named = named_arg(s, i, log);
    if named.hit is None {
        let name = alias(s, i, named.log.rollback(log.emitted.len()));
        quiet_expr(s, name.end, name.log);
    }
}

#[verifier::spinoff_prover]
proof fn quiet_args(s: StreamView, i: int, log: LogView)
    requires
        blameless(s),
    ensures
        args(s, i, log).log.emitted == log.emitted,
    decreases s.len() - i, 33nat,
{
    broadcast use crate::laws::quiet::group_emitted;

    quiet_arg(s, i, log);
    let first = forward(s, i, arg(s, i, log));
    if let Some((end, _)) = first.hit {
        quiet_args(s, end, first.log);
    }
}

#[verifier::spinoff_prover]
proof fn quiet_func_call(s: StreamView, i: int, log: LogView)
    requires
        blameless(s),
    ensures
        func_call(s, i, log).log.emitted == log.emitted,
    decreases s.len() - i, 34nat,
{
    broadcast use crate::laws::quiet::group_emitted;

    quiet_expr(s, i, log);
    let name = forward(s, i, expr(s, i, log));
    if let Some((j, _)) = name.hit {
        quiet_args(s, j, name.log);
        let given = args(s, j, name.log);
        lemma_args_free(s, j, name.log);
        assert(!repeats(args(s, j, LogView::start()).found));
        quiet_check_args(given.found, s.span_since(i, given.end), given.log);
    }
}

#[verifier::spinoff_prover]
proof fn quiet_default_value(s: StreamView, i: int, log: LogView)
    requires
        blameless(s),
    ensures
        default_value(s, i, log).log.emitted == log.emitted,
    decreases s.len() - i, 31nat,
{
    broadcast use crate::laws::quiet::group_emitted;

    if s.has(i, TokenView::Control(':')) {
        quiet_expr(s, i + 1, log);
    }
}

#[verifier::spinoff_prover]
proof fn quiet_param(s: StreamView, i: int, log: LogView)
    requires
        blameless(s),
    ensures
        param(s, i, log).log.emitted == log.emitted,
    decreases s.len() - i, 32nat,
{
    broadcast use crate::laws::quiet::group_emitted;

    if s.token(i) is Some {
        quiet_type_annotation(s, i + 1, log);
        lemma_type_annotation(s, i + 1, log);
        let ty = type_annotation(s, i + 1, log);
        quiet_default_value(s, ty.end, ty.log);
    }
}

#[verifier::spinoff_prover]
proof fn quiet_params(s: StreamView, i: int, log: LogView)
    requires
        blameless(s),
    ensures
        params(s, i, log).log.emitted == log.emitted,
    decreases s.len() - i, 33nat,
{
    broadcast use crate::laws::quiet::group_emitted;

    quiet_param(s, i, log);
    let first = forward(s, i, param(s, i, log));
    if let Some((end, _)) = first.hit {
        quiet_params(s, end, first.log);
    }
}

#[verifier::spinoff_prover]
proof fn quiet_lambda_params(s: StreamView, i: int, log: LogView)
    requires
        blameless(s),
    ensures
        lambda_params(s, i, log).log.emitted == log.emitted,
    decreases s.len() - i, 34nat,
{
    broadcast use crate::laws::quiet::group_emitted;

    if s.has(i, TokenView::Keyword("func"@)) {
        quiet_params(s, i + 1, log);
    } else {
        quiet_params(
            s,
            i,
            log.note(i, just(TokenView::Keyword("func"@))),
        );
    }
}

#[verifier::spinoff_prover]
proof fn quiet_lambda_body(s: StreamView, i: int, all: Seq<FuncParamView>, arrow: int, log: LogView)
    requires
        blameless(s),
    ensures
        lambda_body(s, i, all, arrow, log).log.emitted == log.emitted,
    decreases s.len() - arrow, 35nat,
{
    broadcast use crate::laws::quiet::group_emitted;

    if s.has(arrow, TokenView::ArrowThin) {
        quiet_type_annotation(s, arrow + 1, log);
        lemma_type_annotation(s, arrow + 1, log);
        let ty = type_annotation(s, arrow + 1, log);
        quiet_func_call(s, ty.end, ty.log);
    }
}

#[verifier::spinoff_prover]
proof fn quiet_lambda_func(s: StreamView, i: int, log: LogView)
    requires
        blameless(s),
    ensures
        lambda_func(s, i, log).log.emitted == log.emitted,
    decreases s.len() - i, 35nat,
{
    broadcast use crate::laws::quiet::group_emitted;

    quiet_lambda_params(s, i, log);
    let given = forward(s, i, lambda_params(s, i, log));
    if let Some((arrow, all)) = given.hit {
        quiet_lambda_body(s, i, all, arrow, given.log);
    }
}

#[verifier::spinoff_prover]
pub(crate) proof fn quiet_expr_call(s: StreamView, i: int, log: LogView)
    requires
        blameless(s),
    ensures
        expr_call(s, i, log).log.emitted == log.emitted,
    decreases s.len() - i, 36nat,
{
    broadcast use crate::laws::quiet::group_emitted;

    quiet_lambda_func(s, i, log);
    let func = lambda_func(s, i, log);
    if func.hit is None {
        quiet_func_call(s, i, func.log.rollback(log.emitted.len()));
    }
}

#[verifier::spinoff_prover]
proof fn quiet_pipe_step(s: StreamView, i: int, log: LogView)
    requires
        blameless(s),
    ensures
        pipe_step(s, i, log).log.emitted == log.emitted,
    decreases s.len() - i, 37nat,
{
    broadcast use crate::laws::quiet::group_emitted;

    let name = alias(s, i, log);
    quiet_expr_call(s, name.end, name.log);
}

#[verifier::spinoff_prover]
proof fn quiet_pipe_rest(s: StreamView, i: int, log: LogView)
    requires
        blameless(s),
    ensures
        pipe_rest(s, i, log).log.emitted == log.emitted,
    decreases s.len() - i, 38nat,
{
    broadcast use crate::laws::quiet::group_emitted;

    quiet_pipe(s, i, log);
    lemma_pipe(s, i, log);
    let sep = pipe(s, i, log);
    if sep.end != i {
        quiet_pipe_step(s, sep.end, sep.log);
        let first = forward(s, i, pipe_step(s, sep.end, sep.log));
        if let Some((end, _)) = first.hit {
            quiet_pipe_rest(s, end, first.log);
        }
    }
}

#[verifier::spinoff_prover]
proof fn quiet_pipeline(s: StreamView, i: int, log: LogView)
    requires
        blameless(s),
    ensures
        pipeline(s, i, log).log.emitted == log.emitted,
    decreases s.len() - i, 39nat,
{
    broadcast use crate::laws::quiet::group_emitted;

    quiet_new_lines(s, i, log);
    lemma_new_lines(s, i, log);
    let start = new_lines(s, i, log);
    quiet_pipe_step(s, start.end, start.log);
    let first = forward(s, i, pipe_step(s, start.end, start.log));
    if let Some((j, _)) = first.hit {
        quiet_pipe_rest(s, j, first.log);
        let rest = pipe_rest(s, j, first.log);
        quiet_new_lines(s, rest.end, rest.log);
    }
}

#[verifier::spinoff_prover]
proof fn quiet_list_item(s: StreamView, tuple: bool, i: int, log: LogView)
    requires
        blameless(s),
    ensures
        list_item(s, tuple, i, log).log.emitted == log.emitted,
    decreases s.len() - i, 40nat,
{
    broadcast use crate::laws::quiet::group_emitted;

    quiet_new_lines(s, i, log);
    lemma_new_lines(s, i, log);
    let start = new_lines(s, i, log);
    let name = if tuple {
        alias(s, start.end, start.log)
    } else {
        Taken { found: None, end: start.end, log: start.log }
    };
    quiet_pipeline(s, name.end, name.log);
    let value = pipeline(s, name.end, name.log);
    if let Some((j, _)) = value.hit {
        quiet_new_lines(s, j, value.log);
    }
}

#[verifier::spinoff_prover]
proof fn quiet_list_rest(s: StreamView, tuple: bool, i: int, log: LogView)
    requires
        blameless(s),
    ensures
        list_rest(s, tuple, i, log).log.emitted == log.emitted,
    decreases s.len() - i, 41nat,
{
    broadcast use crate::laws::quiet::group_emitted;

    if s.has(i, TokenView::Control(',')) {
        quiet_list_item(s, tuple, i + 1, log);
        let first = forward(s, i, list_item(s, tuple, i + 1, log));
        if let Some((end, _)) = first.hit {
            quiet_list_rest(s, tuple, end, first.log);
        }
    }
}

#[verifier::spinoff_prover]
proof fn quiet_list(s: StreamView, tuple: bool, i: int, log: LogView)
    requires
        blameless(s),
    ensures
        list(s, tuple, i, log).log.emitted == log.emitted,
    decreases s.len() - i, 42nat,
{
    broadcast use crate::laws::quiet::group_emitted;

    quiet_list_item(s, tuple, i, log);
    let first = forward(s, i, list_item(s, tuple, i, log));
    if let Some((end, _)) = first.hit {
        quiet_list_rest(s, tuple, end, first.log);
    }
}

#[verifier::spinoff_prover]
proof fn quiet_case_value(s: StreamView, condition: ExprView, arrow: int, log: LogView)
    requires
        blameless(s),
    ensures
        case_value(s, condition, arrow, log).log.emitted == log.emitted,
    decreases s.len() - arrow, 35nat,
{
    broadcast use crate::laws::quiet::group_emitted;

    if s.has(arrow, TokenView::ArrowFat) {
        quiet_func_call(s, arrow + 1, log);
        let value = func_call(s, arrow + 1, log);
        if let Some((j, _)) = value.hit {
            quiet_new_lines(s, j, value.log);
        }
    }
}

#[verifier::spinoff_prover]
proof fn quiet_case_item(s: StreamView, i: int, log: LogView)
    requires
        blameless(s),
    ensures
        case_item(s, i, log).log.emitted == log.emitted,
    decreases s.len() - i, 40nat,
{
    broadcast use crate::laws::quiet::group_emitted;

    quiet_new_lines(s, i, log);
    lemma_new_lines(s, i, log);
    let start = new_lines(s, i, log);
    quiet_func_call(s, start.end, start.log);
    let condition = forward(s, i, func_call(s, start.end, start.log));
    if let Some((arrow, e)) = condition.hit {
        quiet_case_value(s, e, arrow, condition.log);
    }
}

#[verifier::spinoff_prover]
proof fn quiet_cases_rest(s: StreamView, i: int, log: LogView)
    requires
        blameless(s),
    ensures
        cases_rest(s, i, log).log.emitted == log.emitted,
    decreases s.len() - i, 41nat,
{
    broadcast use crate::laws::quiet::group_emitted;

    if s.has(i, TokenView::Control(',')) {
        quiet_case_item(s, i + 1, log);
        let first = forward(s, i, case_item(s, i + 1, log));
        if let Some((end, _)) = first.hit {
            quiet_cases_rest(s, end, first.log);
        }
    }
}

#[verifier::spinoff_prover]
proof fn quiet_cases(s: StreamView, i: int, log: LogView)
    requires
        blameless(s),
    ensures
        cases(s, i, log).log.emitted == log.emitted,
    decreases s.len() - i, 42nat,
{
    broadcast use crate::laws::quiet::group_emitted;

    quiet_case_item(s, i, log);
    let first = forward(s, i, case_item(s, i, log));
    if let Some((end, _)) = first.hit {
        quiet_cases_rest(s, end, first.log);
    }
}

#[verifier::spinoff_prover]
proof fn quiet_query_def(s: StreamView, i: int, log: LogView)
    requires
        blameless(s),
    ensures
        query_def(s, i, log).log.emitted == log.emitted,
{
    broadcast use crate::laws::quiet::group_emitted;

    quiet_new_lines(s, i, log);
    assert(!s.has(new_lines(s, i, log).end, TokenView::Keyword("prql"@)));
}

#[verifier::spinoff_prover]
proof fn quiet_annotations(s: StreamView, i: int, log: LogView)
    requires
        blameless(s),
    ensures
        annotations(s, i, log).log.emitted == log.emitted,
    decreases s.len() - i,
{
    broadcast use crate::laws::quiet::group_emitted;

    if s.has(i, TokenView::Annotate) {
        quiet_expr(s, i + 1, log);
        let first = forward(s, i, expr(s, i + 1, log));
        if let Some((j, _)) = first.hit {
            quiet_new_lines(s, j, first.log);
            lemma_new_lines(s, j, first.log);
            let end = new_lines(s, j, first.log);
            quiet_annotations(s, end.end, end.log);
        }
    }
}

#[verifier::spinoff_prover]
proof fn quiet_let_def(s: StreamView, i: int, log: LogView)
    requires
        blameless(s),
    ensures
        let_def(s, i, log).log.emitted == log.emitted,
{
    broadcast use crate::laws::quiet::group_emitted;

    quiet_type_annotation(s, i + 2, log);
    let ty = type_annotation(s, i + 2, log);
    quiet_expr_call(s, ty.end + 1, ty.log);
}

#[verifier::spinoff_prover]
proof fn quiet_var_def(s: StreamView, i: int, log: LogView)
    requires
        blameless(s),
    ensures
        var_def(s, i, log).log.emitted == log.emitted,
{
    broadcast use crate::laws::quiet::group_emitted;

    quiet_let_def(s, i, log);
    quiet_pipeline(s, i, let_def(s, i, log).log.rollback(log.emitted.len()));
}

#[verifier::spinoff_prover]
proof fn quiet_stmt(s: StreamView, i: int, log: LogView)
    requires
        blameless(s),
    ensures
        stmt(s, i, log).log.emitted == log.emitted,
{
    broadcast use crate::laws::quiet::group_emitted;

    quiet_annotations(s, i, log);
    let notes = annotations(s, i, log);
    quiet_var_def(s, notes.end, notes.log);
}

#[verifier::spinoff_prover]
proof fn quiet_stmts(s: StreamView, i: int, log: LogView)
    requires
        blameless(s),
    ensures
        stmts(s, i, log).log.emitted == log.emitted,
    decreases s.len() - i,
{
    broadcast use crate::laws::quiet::group_emitted;

    quiet_new_lines(s, i, log);
    lemma_new_lines(s, i, log);
    let start = new_lines(s, i, log);
    if on_new_line(s, start.end) {
        quiet_stmt(s, start.end, start.log);
        let first = forward(s, i, stmt(s, start.end, start.log));
        if let Some((end, _)) = first.hit {
            quiet_stmts(s, end, first.log);
        }
    }
}

/// A source without a header whose interpolated strings have matching braces, and in which
/// no call gives a name twice, is found no fault with as long as it follows the grammar.
pub proof fn law_nothing_else_is_found_fault_with(s: StreamView)
    requires
        blameless(s),
    ensures
        source(s).ast is Some ==> source(s).errors.len() == 0,
        match expr_call(s, 0, LogView::start()).hit {
            Some((end, e)) => end == s.len() ==> single_expr(s) == Ok::<
                ExprView,
                Seq<crate::error::PErrorView>,
            >(e),
            None => single_expr(s) is Err,
        },
{
    broadcast use crate::laws::quiet::group_emitted;

    let start = LogView::start();
    quiet_query_def(s, 0, start);
    let def = query_def(s, 0, start);
    let (at, log) = match def.hit {
        Some((at, _)) => (at, def.log),
        None => (0, def.log.rollback(0)),
    };
    quiet_stmts(s, at, log);
    quiet_expr_call(s, 0, start);
}

} // verus!
