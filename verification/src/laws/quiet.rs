//! What the rules make of a token that no expression begins with.
use vstd::prelude::*;

use crate::grammar::{
    alias, arg, args, atom, binary, expr, expr_call, func_call, lambda_func, lambda_params, loosest,
    named_arg, new_lines, operand, param, params, pipe_step, pipeline, range, range_to, term, unary,
    Step,
};
use crate::lexer::token::TokenView;
use crate::log::LogView;
use crate::stream::StreamView;

verus! {

/// Neither an expression nor a name begins with the token.
pub open spec fn begins_nothing(t: Option<TokenView>) -> bool {
    match t {
        None => true,
        Some(TokenView::Control(c)) => {
            c != '{' && c != '[' && c != '(' && c != '+' && c != '-' && c != '!'
        },
        _ => false,
    }
}

/// The rule does not apply, and finds no fault with that.
pub open spec fn silent<T>(log: LogView, step: Step<T>) -> bool {
    step.hit is None && step.log.emitted == log.emitted
}

pub(crate) broadcast proof fn lemma_note_emitted(
    log: LogView,
    at: int,
    expected: Seq<Option<TokenView>>,
)
    ensures
        (#[trigger] log.note(at, expected)).emitted == log.emitted,
{
    reveal(LogView::note);
}

pub(crate) broadcast proof fn lemma_rollback_emitted(log: LogView, n: nat)
    ensures
        n >= log.emitted.len() ==> (#[trigger] log.rollback(n)).emitted == log.emitted,
{
    reveal(LogView::rollback);
}

pub(crate) broadcast group group_emitted {
    lemma_note_emitted,
    lemma_rollback_emitted,
}

pub(crate) proof fn lemma_new_lines_emitted(s: StreamView, i: int, log: LogView)
    ensures
        new_lines(s, i, log).log.emitted == log.emitted,
    decreases s.len() - i,
{
    broadcast use group_emitted;

    reveal(new_lines);
    if s.has(i, TokenView::NewLine) {
        lemma_new_lines_emitted(s, i + 1, log);
    }
}

#[verifier::spinoff_prover]
pub(crate) proof fn lemma_term(s: StreamView, i: int, log: LogView)
    requires
        begins_nothing(s.token(i)),
    ensures
        silent(log, term(s, i, log)),
{
    broadcast use group_emitted;

    reveal(atom);
}

#[verifier::spinoff_prover]
pub(crate) proof fn lemma_unary(s: StreamView, i: int, log: LogView)
    requires
        begins_nothing(s.token(i)),
    ensures
        silent(log, unary(s, i, log)),
{
    broadcast use group_emitted;

    lemma_term(s, i, log);
}

#[verifier::spinoff_prover]
pub(crate) proof fn lemma_range(s: StreamView, i: int, log: LogView)
    requires
        begins_nothing(s.token(i)),
    ensures
        silent(log, range(s, i, log)),
{
    broadcast use group_emitted;

    lemma_unary(s, i, log);
    let quiet = unary(s, i, log).log.rollback(log.emitted.len());
    assert(range_to(s, i, quiet).hit is None);
}

#[verifier::spinoff_prover]
pub(crate) proof fn lemma_operand(s: StreamView, level: nat, i: int, log: LogView)
    requires
        begins_nothing(s.token(i)),
    ensures
        silent(log, operand(s, level, i, log)),
    decreases 2 * level,
{
    broadcast use group_emitted;

    if level == 0 {
        lemma_range(s, i, log);
    } else {
        lemma_binary(s, (level - 1) as nat, i, log);
    }
}

#[verifier::spinoff_prover]
pub(crate) proof fn lemma_binary(s: StreamView, level: nat, i: int, log: LogView)
    requires
        begins_nothing(s.token(i)),
    ensures
        silent(log, binary(s, level, i, log)),
    decreases 2 * level + 1,
{
    broadcast use group_emitted;

    lemma_operand(s, level, i, log);
}

#[verifier::spinoff_prover]
pub(crate) proof fn lemma_expr(s: StreamView, i: int, log: LogView)
    requires
        begins_nothing(s.token(i)),
    ensures
        silent(log, expr(s, i, log)),
{
    broadcast use group_emitted;

    lemma_binary(s, loosest(), i, log);
}

#[verifier::spinoff_prover]
pub(crate) proof fn lemma_arg(s: StreamView, i: int, log: LogView)
    requires
        begins_nothing(s.token(i)),
    ensures
        silent(log, arg(s, i, log)),
{
    broadcast use group_emitted;

    let named = named_arg(s, i, log);
    let name = alias(s, i, named.log.rollback(log.emitted.len()));
    lemma_expr(s, i, name.log);
}

#[verifier::spinoff_prover]
pub(crate) proof fn lemma_args(s: StreamView, i: int, log: LogView)
    requires
        begins_nothing(s.token(i)),
    ensures
        args(s, i, log).found.len() == 0,
        args(s, i, log).end == i,
        args(s, i, log).log.emitted == log.emitted,
{
    broadcast use group_emitted;

    lemma_arg(s, i, log);
}

#[verifier::spinoff_prover]
pub(crate) proof fn lemma_func_call(s: StreamView, i: int, log: LogView)
    requires
        begins_nothing(s.token(i)),
    ensures
        silent(log, func_call(s, i, log)),
{
    broadcast use group_emitted;

    lemma_expr(s, i, log);
}

#[verifier::spinoff_prover]
pub(crate) proof fn lemma_params(s: StreamView, i: int, log: LogView)
    requires
        begins_nothing(s.token(i)),
    ensures
        params(s, i, log).found.len() == 0,
        params(s, i, log).log.emitted == log.emitted,
{
    broadcast use group_emitted;

    assert(silent(log, param(s, i, log)));
}

#[verifier::spinoff_prover]
pub(crate) proof fn lemma_lambda_func(s: StreamView, i: int, log: LogView)
    requires
        begins_nothing(s.token(i)),
    ensures
        silent(log, lambda_func(s, i, log)),
{
    broadcast use group_emitted;

    let noted = log.note(
        i,
        crate::common::just(TokenView::Keyword("func"@)),
    );
    lemma_params(s, i, noted);
    assert(silent(log, lambda_params(s, i, log)));
}

#[verifier::spinoff_prover]
pub(crate) proof fn lemma_expr_call(s: StreamView, i: int, log: LogView)
    requires
        begins_nothing(s.token(i)),
    ensures
        silent(log, expr_call(s, i, log)),
{
    broadcast use group_emitted;

    lemma_lambda_func(s, i, log);
    lemma_func_call(s, i, lambda_func(s, i, log).log.rollback(log.emitted.len()));
}

#[verifier::spinoff_prover]
pub(crate) proof fn lemma_pipe_step(s: StreamView, i: int, log: LogView)
    requires
        begins_nothing(s.token(i)),
    ensures
        silent(log, pipe_step(s, i, log)),
{
    broadcast use group_emitted;

    lemma_expr_call(s, i, alias(s, i, log).log);
}

#[verifier::spinoff_prover]
pub(crate) proof fn lemma_pipeline(s: StreamView, i: int, log: LogView)
    requires
        begins_nothing(s.token(i)),
    ensures
        silent(log, pipeline(s, i, log)),
{
    broadcast use group_emitted;

    reveal(new_lines);
    lemma_pipe_step(s, i, new_lines(s, i, log).log);
}

} // verus!
