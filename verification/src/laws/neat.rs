//! What the rules leave behind of failures: nothing is ever expected twice.
use vstd::prelude::*;

use crate::ast::{BinOp, ExprView, FuncParamView, NamedArgView, Text};
use crate::common::{any_name, just};
use crate::error::{custom_error, PErrorView};
use crate::grammar::{
    alias, arg, args, atom, binary, binary_expr, binary_op, binary_rest, brackets, case_item,
    case_value, cases, cases_end, cases_rest, check_args, default_value, expr, expr_call, forward,
    func_call, ident, ident_expr, ident_rest, interpolation, joined, lambda_body, lambda_func,
    lambda_params, lemma_new_lines, lemma_pipe, lemma_type_annotation, list, list_end, list_item,
    list_rest, loosest, named_arg, new_lines, opening, operand, param, params, parens, pipe,
    pipe_rest, pipe_step, pipeline, range, range_from, range_to, switch, term, type_annotation,
    type_expr, type_rest, type_term, unary, unary_op, with_named, ArgView, Taken,
};
use crate::lexer::token::TokenView;
use crate::log::{wanted, LogView};
use crate::source_grammar::{
    annotations, header_args, let_def, on_new_line, query_def, single_expr, source, stmt, stmts,
    var_def,
};
use crate::span::Span;
use crate::stream::StreamView;

verus! {

/// Neither at the furthest failure nor in any of the errors is anything expected
/// twice.
#[verifier::opaque]
pub open spec fn neat(log: LogView) -> bool {
    &&& log.expected.no_duplicates()
    &&& forall|i: int|
        0 <= i < log.emitted.len() ==> (#[trigger] log.emitted[i]).expected.no_duplicates()
}

proof fn lemma_wanted(before: Seq<Option<TokenView>>, more: Seq<Option<TokenView>>)
    requires
        before.no_duplicates(),
    ensures
        wanted(before, more).no_duplicates(),
    decreases more.len(),
{
    if more.len() > 0 {
        lemma_wanted(before, more.drop_last());
    }
}

broadcast proof fn lemma_note(log: LogView, at: int, expected: Seq<Option<TokenView>>)
    requires
        neat(log),
    ensures
        neat(#[trigger] log.note(at, expected)),
{
    reveal(neat);
    reveal(LogView::note);
    lemma_wanted(log.expected, expected);
    lemma_wanted(Seq::empty(), expected);
}

broadcast proof fn lemma_rollback(log: LogView, n: nat)
    requires
        neat(log),
    ensures
        neat(#[trigger] log.rollback(n)),
{
    reveal(neat);
    reveal(LogView::rollback);
}

broadcast proof fn lemma_emit(log: LogView, span: Span, message: Text)
    requires
        neat(log),
    ensures
        neat(#[trigger] log.emit(custom_error(span, message))),
{
    reveal(neat);
    reveal(LogView::emit);
}

broadcast group group_neat {
    lemma_note,
    lemma_rollback,
    lemma_emit,
}

#[verifier::spinoff_prover]
proof fn neat_new_lines(s: StreamView, i: int, log: LogView)
    requires
        neat(log),
    ensures
        neat(new_lines(s, i, log).log),
    decreases s.len() - i,
{
    broadcast use group_neat;

    reveal(new_lines);
    if s.has(i, TokenView::NewLine) {
        neat_new_lines(s, i + 1, log);
    }
}

#[verifier::spinoff_prover]
proof fn neat_ident_rest(s: StreamView, i: int, log: LogView)
    requires
        neat(log),
    ensures
        neat(ident_rest(s, i, log).log),
    decreases s.len() - i,
{
    broadcast use group_neat;

    if s.has(i, TokenView::Control('.')) && s.token(i + 1) is Some {
        neat_ident_rest(s, i + 2, log);
        neat_ident_rest(s, i + 2, log.note(i + 1, just(any_name())));
    }
}

#[verifier::spinoff_prover]
proof fn neat_ident_expr(s: StreamView, i: int, log: LogView)
    requires
        neat(log),
    ensures
        neat(ident_expr(s, i, log).log),
{
    broadcast use group_neat;

    reveal(ident);
    neat_ident_rest(s, i + 1, log);
}

#[verifier::spinoff_prover]
proof fn neat_type_term(s: StreamView, i: int, log: LogView)
    requires
        neat(log),
    ensures
        neat(type_term(s, i, log).log),
{
    broadcast use group_neat;

    neat_ident_expr(s, i, log);
}

#[verifier::spinoff_prover]
proof fn neat_type_rest(s: StreamView, left: ExprView, span: Span, i: int, log: LogView)
    requires
        neat(log),
    ensures
        neat(type_rest(s, left, span, i, log).log),
    decreases s.len() - i,
{
    broadcast use group_neat;

    if s.has(i, TokenView::Or) {
        neat_type_term(s, i + 1, log);
        let right = forward(s, i, type_term(s, i + 1, log));
        if let Some((end, e)) = right.hit {
            let both = joined(span, s.span_since(i + 1, end));
            neat_type_rest(
                s,
                binary_expr(left, BinOp::Or, e, both),
                both,
                end,
                right.log,
            );
        }
    }
}

#[verifier::spinoff_prover]
proof fn neat_type_annotation(s: StreamView, i: int, log: LogView)
    requires
        neat(log),
    ensures
        neat(type_annotation(s, i, log).log),
{
    broadcast use group_neat;

    reveal(type_annotation);
    reveal(type_expr);
    if s.has(i, TokenView::Control('<')) {
        neat_type_term(s, i + 1, log);
        let left = type_term(s, i + 1, log);
        if let Some((end, e)) = left.hit {
            neat_type_rest(s, e, s.span_since(i + 1, end), end, left.log);
        }
    }
}

#[verifier::spinoff_prover]
proof fn neat_atom(s: StreamView, i: int, log: LogView)
    requires
        neat(log),
    ensures
        neat(atom(s, i, log).log),
{
    broadcast use group_neat;

    reveal(atom);
    reveal(interpolation);
    neat_ident_expr(s, i, log);
}

#[verifier::spinoff_prover]
proof fn neat_pipe(s: StreamView, i: int, log: LogView)
    requires
        neat(log),
    ensures
        neat(pipe(s, i, log).log),
{
    broadcast use group_neat;

    reveal(pipe);
    neat_new_lines(s, i, log.note(i, just(TokenView::Control('|'))));
}

proof fn neat_check_args(given: Seq<ArgView>, span: Span, log: LogView)
    requires
        neat(log),
    ensures
        neat(check_args(given, span, log)),
    decreases given.len(),
{
    broadcast use group_neat;

    reveal(check_args);
    if given.len() > 0 {
        neat_check_args(given.drop_last(), span, log);
    }
}

#[verifier::spinoff_prover]
proof fn neat_brackets(s: StreamView, tuple: bool, i: int, log: LogView)
    requires
        neat(log),
    ensures
        neat(brackets(s, tuple, i, log).log),
    decreases s.len() - i, 5nat,
{
    broadcast use group_neat;

    if s.has(i, TokenView::Control(opening(tuple))) {
        neat_list(s, tuple, i + 1, log);
        let items = list(s, tuple, i + 1, log);
        reveal(list_end);
        neat_new_lines(s, items.end, items.log);
    }
}

#[verifier::spinoff_prover]
proof fn neat_switch(s: StreamView, i: int, log: LogView)
    requires
        neat(log),
    ensures
        neat(switch(s, i, log).log),
    decreases s.len() - i, 5nat,
{
    broadcast use group_neat;

    if s.has(i, TokenView::Keyword("case"@)) && s.has(i + 1, TokenView::Control('[')) {
        neat_cases(s, i + 2, log);
        let items = cases(s, i + 2, log);
        reveal(cases_end);
        neat_new_lines(s, items.end, items.log);
    }
}

#[verifier::spinoff_prover]
proof fn neat_parens(s: StreamView, i: int, log: LogView)
    requires
        neat(log),
    ensures
        neat(parens(s, i, log).log),
    decreases s.len() - i, 5nat,
{
    broadcast use group_neat;

    if s.has(i, TokenView::Control('(')) {
        neat_pipeline(s, i + 1, log);
    }
}

#[verifier::spinoff_prover]
proof fn neat_term(s: StreamView, i: int, log: LogView)
    requires
        neat(log),
    ensures
        neat(term(s, i, log).log),
    decreases s.len() - i, 6nat,
{
    broadcast use group_neat;

    neat_brackets(s, true, i, log);
    neat_brackets(s, false, i, log);
    neat_parens(s, i, log);
    neat_switch(s, i, log);
    neat_atom(s, i, log);
}

#[verifier::spinoff_prover]
proof fn neat_unary(s: StreamView, i: int, log: LogView)
    requires
        neat(log),
    ensures
        neat(unary(s, i, log).log),
    decreases s.len() - i, 7nat,
{
    broadcast use group_neat;

    neat_term(s, i, log);
    let plain = term(s, i, log);
    if plain.hit is None && unary_op(s.token(i)) is Some {
        neat_term(s, i + 1, plain.log.rollback(log.emitted.len()));
    }
}

#[verifier::spinoff_prover]
proof fn neat_range_from(s: StreamView, i: int, start: ExprView, j: int, log: LogView)
    requires
        neat(log),
    ensures
        neat(range_from(s, i, start, j, log).log),
    decreases s.len() - j, 8nat,
{
    broadcast use group_neat;

    if s.token(j) is Some {
        neat_unary(s, j + 1, log);
    }
}

#[verifier::spinoff_prover]
proof fn neat_range_to(s: StreamView, i: int, log: LogView)
    requires
        neat(log),
    ensures
        neat(range_to(s, i, log).log),
    decreases s.len() - i, 8nat,
{
    broadcast use group_neat;

    if s.token(i) is Some {
        neat_unary(s, i + 1, log);
    }
}

#[verifier::spinoff_prover]
proof fn neat_range(s: StreamView, i: int, log: LogView)
    requires
        neat(log),
    ensures
        neat(range(s, i, log).log),
    decreases s.len() - i, 9nat,
{
    broadcast use group_neat;

    neat_unary(s, i, log);
    let first = forward(s, i, unary(s, i, log));
    match first.hit {
        Some((j, start)) => {
            neat_range_from(s, i, start, j, first.log);
        },
        None => {
            neat_range_to(s, i, first.log.rollback(log.emitted.len()));
        },
    }
}

#[verifier::spinoff_prover]
proof fn neat_operand(s: StreamView, level: nat, i: int, log: LogView)
    requires
        neat(log),
    ensures
        neat(operand(s, level, i, log).log),
    decreases s.len() - i, 10 + 2 * level,
{
    broadcast use group_neat;

    if level == 0 {
        neat_range(s, i, log);
    } else {
        neat_binary(s, (level - 1) as nat, i, log);
    }
}

#[verifier::spinoff_prover]
proof fn neat_binary(s: StreamView, level: nat, i: int, log: LogView)
    requires
        neat(log),
    ensures
        neat(binary(s, level, i, log).log),
    decreases s.len() - i, 11 + 2 * level,
{
    broadcast use group_neat;

    neat_operand(s, level, i, log);
    let left = forward(s, i, operand(s, level, i, log));
    if let Some((end, e)) = left.hit {
        neat_binary_rest(s, level, e, s.span_since(i, end), end, left.log);
    }
}

#[verifier::spinoff_prover]
proof fn neat_binary_rest(
    s: StreamView,
    level: nat,
    left: ExprView,
    span: Span,
    i: int,
    log: LogView,
)
    requires
        neat(log),
    ensures
        neat(binary_rest(s, level, left, span, i, log).log),
    decreases s.len() - i, 0nat,
{
    broadcast use group_neat;

    if let Some(op) = binary_op(level, s.token(i)) {
        neat_operand(s, level, i + 1, log);
        let right = forward(s, i + 1, operand(s, level, i + 1, log));
        if let Some((end, e)) = right.hit {
            let both = joined(span, s.span_since(i + 1, end));
            neat_binary_rest(s, level, binary_expr(left, op, e, both), both, end, right.log);
        }
    }
}

#[verifier::spinoff_prover]
proof fn neat_expr(s: StreamView, i: int, log: LogView)
    requires
        neat(log),
    ensures
        neat(expr(s, i, log).log),
    decreases s.len() - i, 30nat,
{
    broadcast use group_neat;

    neat_binary(s, loosest(), i, log);
}

#[verifier::spinoff_prover]
proof fn neat_named_arg(s: StreamView, i: int, log: LogView)
    requires
        neat(log),
    ensures
        neat(named_arg(s, i, log).log),
    decreases s.len() - i, 31nat,
{
    broadcast use group_neat;

    if s.token(i) is Some && s.has(i + 1, TokenView::Control(':')) {
        neat_expr(s, i + 2, log);
    }
}

#[verifier::spinoff_prover]
proof fn neat_arg(s: StreamView, i: int, log: LogView)
    requires
        neat(log),
    ensures
        neat(arg(s, i, log).log),
    decreases s.len() - i, 32nat,
{
    broadcast use group_neat;

    neat_named_arg(s, i, log);
    let named = named_arg(s, i, log);
    if named.hit is None {
        let name = alias(s, i, named.log.rollback(log.emitted.len()));
        neat_expr(s, name.end, name.log);
    }
}

#[verifier::spinoff_prover]
proof fn neat_args(s: StreamView, i: int, log: LogView)
    requires
        neat(log),
    ensures
        neat(args(s, i, log).log),
    decreases s.len() - i, 33nat,
{
    broadcast use group_neat;

    neat_arg(s, i, log);
    let first = forward(s, i, arg(s, i, log));
    if let Some((end, _)) = first.hit {
        neat_args(s, end, first.log);
    }
}

#[verifier::spinoff_prover]
proof fn neat_func_call(s: StreamView, i: int, log: LogView)
    requires
        neat(log),
    ensures
        neat(func_call(s, i, log).log),
    decreases s.len() - i, 34nat,
{
    broadcast use group_neat;

    neat_expr(s, i, log);
    let name = forward(s, i, expr(s, i, log));
    if let Some((j, _)) = name.hit {
        neat_args(s, j, name.log);
        let given = args(s, j, name.log);
        neat_check_args(given.found, s.span_since(i, given.end), given.log);
    }
}

#[verifier::spinoff_prover]
proof fn neat_default_value(s: StreamView, i: int, log: LogView)
    requires
        neat(log),
    ensures
        neat(default_value(s, i, log).log),
    decreases s.len() - i, 31nat,
{
    broadcast use group_neat;

    if s.has(i, TokenView::Control(':')) {
        neat_expr(s, i + 1, log);
    }
}

#[verifier::spinoff_prover]
proof fn neat_param(s: StreamView, i: int, log: LogView)
    requires
        neat(log),
    ensures
        neat(param(s, i, log).log),
    decreases s.len() - i, 32nat,
{
    broadcast use group_neat;

    if s.token(i) is Some {
        neat_type_annotation(s, i + 1, log);
        lemma_type_annotation(s, i + 1, log);
        let ty = type_annotation(s, i + 1, log);
        neat_default_value(s, ty.end, ty.log);
    }
}

#[verifier::spinoff_prover]
proof fn neat_params(s: StreamView, i: int, log: LogView)
    requires
        neat(log),
    ensures
        neat(params(s, i, log).log),
    decreases s.len() - i, 33nat,
{
    broadcast use group_neat;

    neat_param(s, i, log);
    let first = forward(s, i, param(s, i, log));
    if let Some((end, _)) = first.hit {
        neat_params(s, end, first.log);
    }
}

#[verifier::spinoff_prover]
proof fn neat_lambda_params(s: StreamView, i: int, log: LogView)
    requires
        neat(log),
    ensures
        neat(lambda_params(s, i, log).log),
    decreases s.len() - i, 34nat,
{
    broadcast use group_neat;

    if s.has(i, TokenView::Keyword("func"@)) {
        neat_params(s, i + 1, log);
    } else {
        neat_params(
            s,
            i,
            log.note(i, just(TokenView::Keyword("func"@))),
        );
    }
}

#[verifier::spinoff_prover]
proof fn neat_lambda_body(s: StreamView, i: int, all: Seq<FuncParamView>, arrow: int, log: LogView)
    requires
        neat(log),
    ensures
        neat(lambda_body(s, i, all, arrow, log).log),
    decreases s.len() - arrow, 35nat,
{
    broadcast use group_neat;

    if s.has(arrow, TokenView::ArrowThin) {
        neat_type_annotation(s, arrow + 1, log);
        lemma_type_annotation(s, arrow + 1, log);
        let ty = type_annotation(s, arrow + 1, log);
        neat_func_call(s, ty.end, ty.log);
    }
}

#[verifier::spinoff_prover]
proof fn neat_lambda_func(s: StreamView, i: int, log: LogView)
    requires
        neat(log),
    ensures
        neat(lambda_func(s, i, log).log),
    decreases s.len() - i, 35nat,
{
    broadcast use group_neat;

    neat_lambda_params(s, i, log);
    let given = forward(s, i, lambda_params(s, i, log));
    if let Some((arrow, all)) = given.hit {
        neat_lambda_body(s, i, all, arrow, given.log);
    }
}

#[verifier::spinoff_prover]
pub(crate) proof fn neat_expr_call(s: StreamView, i: int, log: LogView)
    requires
        neat(log),
    ensures
        neat(expr_call(s, i, log).log),
    decreases s.len() - i, 36nat,
{
    broadcast use group_neat;

    neat_lambda_func(s, i, log);
    let func = lambda_func(s, i, log);
    if func.hit is None {
        neat_func_call(s, i, func.log.rollback(log.emitted.len()));
    }
}

#[verifier::spinoff_prover]
proof fn neat_pipe_step(s: StreamView, i: int, log: LogView)
    requires
        neat(log),
    ensures
        neat(pipe_step(s, i, log).log),
    decreases s.len() - i, 37nat,
{
    broadcast use group_neat;

    let name = alias(s, i, log);
    neat_expr_call(s, name.end, name.log);
}

#[verifier::spinoff_prover]
proof fn neat_pipe_rest(s: StreamView, i: int, log: LogView)
    requires
        neat(log),
    ensures
        neat(pipe_rest(s, i, log).log),
    decreases s.len() - i, 38nat,
{
    broadcast use group_neat;

    neat_pipe(s, i, log);
    lemma_pipe(s, i, log);
    let sep = pipe(s, i, log);
    if sep.end != i {
        neat_pipe_step(s, sep.end, sep.log);
        let first = forward(s, i, pipe_step(s, sep.end, sep.log));
        if let Some((end, _)) = first.hit {
            neat_pipe_rest(s, end, first.log);
        }
    }
}

#[verifier::spinoff_prover]
proof fn neat_pipeline(s: StreamView, i: int, log: LogView)
    requires
        neat(log),
    ensures
        neat(pipeline(s, i, log).log),
    decreases s.len() - i, 39nat,
{
    broadcast use group_neat;

    neat_new_lines(s, i, log);
    lemma_new_lines(s, i, log);
    let start = new_lines(s, i, log);
    neat_pipe_step(s, start.end, start.log);
    let first = forward(s, i, pipe_step(s, start.end, start.log));
    if let Some((j, _)) = first.hit {
        neat_pipe_rest(s, j, first.log);
        let rest = pipe_rest(s, j, first.log);
        neat_new_lines(s, rest.end, rest.log);
    }
}

#[verifier::spinoff_prover]
proof fn neat_list_item(s: StreamView, tuple: bool, i: int, log: LogView)
    requires
        neat(log),
    ensures
        neat(list_item(s, tuple, i, log).log),
    decreases s.len() - i, 40nat,
{
    broadcast use group_neat;

    neat_new_lines(s, i, log);
    lemma_new_lines(s, i, log);
    let start = new_lines(s, i, log);
    let name = if tuple {
        alias(s, start.end, start.log)
    } else {
        Taken { found: None, end: start.end, log: start.log }
    };
    neat_pipeline(s, name.end, name.log);
    let value = pipeline(s, name.end, name.log);
    if let Some((j, _)) = value.hit {
        neat_new_lines(s, j, value.log);
    }
}

#[verifier::spinoff_prover]
proof fn neat_list_rest(s: StreamView, tuple: bool, i: int, log: LogView)
    requires
        neat(log),
    ensures
        neat(list_rest(s, tuple, i, log).log),
    decreases s.len() - i, 41nat,
{
    broadcast use group_neat;

    if s.has(i, TokenView::Control(',')) {
        neat_list_item(s, tuple, i + 1, log);
        let first = forward(s, i, list_item(s, tuple, i + 1, log));
        if let Some((end, _)) = first.hit {
            neat_list_rest(s, tuple, end, first.log);
        }
    }
}

#[verifier::spinoff_prover]
proof fn neat_list(s: StreamView, tuple: bool, i: int, log: LogView)
    requires
        neat(log),
    ensures
        neat(list(s, tuple, i, log).log),
    decreases s.len() - i, 42nat,
{
    broadcast use group_neat;

    neat_list_item(s, tuple, i, log);
    let first = forward(s, i, list_item(s, tuple, i, log));
    if let Some((end, _)) = first.hit {
        neat_list_rest(s, tuple, end, first.log);
    }
}

#[verifier::spinoff_prover]
proof fn neat_case_value(s: StreamView, condition: ExprView, arrow: int, log: LogView)
    requires
        neat(log),
    ensures
        neat(case_value(s, condition, arrow, log).log),
    decreases s.len() - arrow, 35nat,
{
    broadcast use group_neat;

    if s.has(arrow, TokenView::ArrowFat) {
        neat_func_call(s, arrow + 1, log);
        let value = func_call(s, arrow + 1, log);
        if let Some((j, _)) = value.hit {
            neat_new_lines(s, j, value.log);
        }
    }
}

#[verifier::spinoff_prover]
proof fn neat_case_item(s: StreamView, i: int, log: LogView)
    requires
        neat(log),
    ensures
        neat(case_item(s, i, log).log),
    decreases s.len() - i, 40nat,
{
    broadcast use group_neat;

    neat_new_lines(s, i, log);
    lemma_new_lines(s, i, log);
    let start = new_lines(s, i, log);
    neat_func_call(s, start.end, start.log);
    let condition = forward(s, i, func_call(s, start.end, start.log));
    if let Some((arrow, e)) = condition.hit {
        neat_case_value(s, e, arrow, condition.log);
    }
}

#[verifier::spinoff_prover]
proof fn neat_cases_rest(s: StreamView, i: int, log: LogView)
    requires
        neat(log),
    ensures
        neat(cases_rest(s, i, log).log),
    decreases s.len() - i, 41nat,
{
    broadcast use group_neat;

    if s.has(i, TokenView::Control(',')) {
        neat_case_item(s, i + 1, log);
        let first = forward(s, i, case_item(s, i + 1, log));
        if let Some((end, _)) = first.hit {
            neat_cases_rest(s, end, first.log);
        }
    }
}

#[verifier::spinoff_prover]
proof fn neat_cases(s: StreamView, i: int, log: LogView)
    requires
        neat(log),
    ensures
        neat(cases(s, i, log).log),
    decreases s.len() - i, 42nat,
{
    broadcast use group_neat;

    neat_case_item(s, i, log);
    let first = forward(s, i, case_item(s, i, log));
    if let Some((end, _)) = first.hit {
        neat_cases_rest(s, end, first.log);
    }
}

#[verifier::spinoff_prover]
proof fn neat_header_args(s: StreamView, given: Seq<NamedArgView>, i: int, log: LogView)
    requires
        neat(log),
    ensures
        neat(header_args(s, given, i, log).log),
    decreases s.len() - i,
{
    broadcast use group_neat;

    neat_named_arg(s, i, log);
    let first = forward(s, i, named_arg(s, i, log));
    if let Some((end, ArgView::Named(name, value))) = first.hit {
        neat_header_args(s, with_named(given, name, value), end, first.log);
    }
}

#[verifier::spinoff_prover]
proof fn neat_query_def(s: StreamView, i: int, log: LogView)
    requires
        neat(log),
    ensures
        neat(query_def(s, i, log).log),
{
    broadcast use group_neat;

    neat_new_lines(s, i, log);
    let start = new_lines(s, i, log);
    neat_header_args(s, Seq::empty(), start.end + 1, start.log);
}

#[verifier::spinoff_prover]
proof fn neat_annotations(s: StreamView, i: int, log: LogView)
    requires
        neat(log),
    ensures
        neat(annotations(s, i, log).log),
    decreases s.len() - i,
{
    broadcast use group_neat;

    if s.has(i, TokenView::Annotate) {
        neat_expr(s, i + 1, log);
        let first = forward(s, i, expr(s, i + 1, log));
        if let Some((j, _)) = first.hit {
            neat_new_lines(s, j, first.log);
            lemma_new_lines(s, j, first.log);
            let end = new_lines(s, j, first.log);
            neat_annotations(s, end.end, end.log);
        }
    }
}

#[verifier::spinoff_prover]
proof fn neat_let_def(s: StreamView, i: int, log: LogView)
    requires
        neat(log),
    ensures
        neat(let_def(s, i, log).log),
{
    broadcast use group_neat;

    neat_type_annotation(s, i + 2, log);
    let ty = type_annotation(s, i + 2, log);
    neat_expr_call(s, ty.end + 1, ty.log);
}

#[verifier::spinoff_prover]
proof fn neat_var_def(s: StreamView, i: int, log: LogView)
    requires
        neat(log),
    ensures
        neat(var_def(s, i, log).log),
{
    broadcast use group_neat;

    neat_let_def(s, i, log);
    neat_pipeline(s, i, let_def(s, i, log).log.rollback(log.emitted.len()));
}

#[verifier::spinoff_prover]
proof fn neat_stmt(s: StreamView, i: int, log: LogView)
    requires
        neat(log),
    ensures
        neat(stmt(s, i, log).log),
{
    broadcast use group_neat;

    neat_annotations(s, i, log);
    let notes = annotations(s, i, log);
    neat_var_def(s, notes.end, notes.log);
}

#[verifier::spinoff_prover]
proof fn neat_stmts(s: StreamView, i: int, log: LogView)
    requires
        neat(log),
    ensures
        neat(stmts(s, i, log).log),
    decreases s.len() - i,
{
    broadcast use group_neat;

    neat_new_lines(s, i, log);
    lemma_new_lines(s, i, log);
    let start = new_lines(s, i, log);
    if on_new_line(s, start.end) {
        neat_stmt(s, start.end, start.log);
        let first = forward(s, i, stmt(s, start.end, start.log));
        if let Some((end, _)) = first.hit {
            neat_stmts(s, end, first.log);
        }
    }
}

/// In none of the errors is anything expected twice.
pub open spec fn all_neat(errors: Seq<PErrorView>) -> bool {
    forall|i: int| 0 <= i < errors.len() ==> (#[trigger] errors[i]).expected.no_duplicates()
}

proof fn lemma_failure(s: StreamView, log: LogView)
    requires
        neat(log),
    ensures
        all_neat(log.failure(s)),
        all_neat(log.emitted),
{
    reveal(neat);
}

proof fn lemma_start()
    ensures
        neat(LogView::start()),
{
    reveal(neat);
}

/// In no error of a source is anything expected twice.
pub(crate) proof fn neat_source(s: StreamView)
    ensures
        all_neat(source(s).errors),
{
    broadcast use group_neat;

    lemma_start();
    neat_query_def(s, 0, LogView::start());
    let def = query_def(s, 0, LogView::start());
    let (start, log) = match def.hit {
        Some((start, _)) => (start, def.log),
        None => (0, def.log.rollback(0)),
    };
    neat_stmts(s, start, log);
    let body = stmts(s, start, log);
    lemma_failure(s, body.log);
    lemma_failure(s, body.log.note(body.end, seq![None]));
}

/// In no error of an expression is anything expected twice.
pub(crate) proof fn neat_single_expr(s: StreamView)
    ensures
        single_expr(s) matches Err(errors) ==> all_neat(errors),
{
    broadcast use group_neat;

    lemma_start();
    neat_expr_call(s, 0, LogView::start());
    let e = expr_call(s, 0, LogView::start());
    lemma_failure(s, e.log);
    if let Some((end, _)) = e.hit {
        lemma_failure(s, e.log.note(end, seq![None]));
    }
}

} // verus!
