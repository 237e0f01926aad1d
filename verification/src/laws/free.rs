//! What a rule finds does not depend on what went wrong before.
use vstd::prelude::*;

use crate::ast::{ExprView, FuncParamView, SwitchCaseView};
use crate::grammar::{
    arg, case_item, expr, expr_call, func_call, list_item, param, pipe_step, pipeline, term, unary,
    ArgView,
};
use crate::log::LogView;
use crate::places::{lemma_kept_boxed, lemma_kept_expr, place_case, place_param, Places};
use crate::stream::StreamView;
use crate::twins::{
    place_arg, same_arg, same_case_item, same_expr, same_expr_call, same_func_call, same_list_item,
    same_param, same_pipe_step, same_pipeline, same_term, same_unary, Twins,
};

verus! {

spec fn with_itself(s: StreamView) -> Twins {
    Twins { p: Places::Kept, s, q: Places::Kept, t: s }
}

proof fn lemma_kept(a: Option<(int, ExprView)>)
    ensures
        a matches Some((_, e)) ==> crate::places::place_expr(Places::Kept, e) == e,
{
    if let Some((_, e)) = a {
        lemma_kept_expr(e);
    }
}

pub(crate) proof fn free_term(s: StreamView, i: int, a: LogView, b: LogView)
    ensures
        term(s, i, a).hit == term(s, i, b).hit,
{
    same_term(with_itself(s), i, a, b);
    lemma_kept(term(s, i, a).hit);
    lemma_kept(term(s, i, b).hit);
}

pub(crate) proof fn free_unary(s: StreamView, i: int, a: LogView, b: LogView)
    ensures
        unary(s, i, a).hit == unary(s, i, b).hit,
{
    same_unary(with_itself(s), i, a, b);
    lemma_kept(unary(s, i, a).hit);
    lemma_kept(unary(s, i, b).hit);
}

pub(crate) proof fn free_expr(s: StreamView, i: int, a: LogView, b: LogView)
    ensures
        expr(s, i, a).hit == expr(s, i, b).hit,
{
    same_expr(with_itself(s), i, a, b);
    lemma_kept(expr(s, i, a).hit);
    lemma_kept(expr(s, i, b).hit);
}

pub(crate) proof fn free_func_call(s: StreamView, i: int, a: LogView, b: LogView)
    ensures
        func_call(s, i, a).hit == func_call(s, i, b).hit,
{
    same_func_call(with_itself(s), i, a, b);
    lemma_kept(func_call(s, i, a).hit);
    lemma_kept(func_call(s, i, b).hit);
}

pub(crate) proof fn free_expr_call(s: StreamView, i: int, a: LogView, b: LogView)
    ensures
        expr_call(s, i, a).hit == expr_call(s, i, b).hit,
{
    same_expr_call(with_itself(s), i, a, b);
    lemma_kept(expr_call(s, i, a).hit);
    lemma_kept(expr_call(s, i, b).hit);
}

pub(crate) proof fn free_pipe_step(s: StreamView, i: int, a: LogView, b: LogView)
    ensures
        pipe_step(s, i, a).hit == pipe_step(s, i, b).hit,
{
    same_pipe_step(with_itself(s), i, a, b);
    lemma_kept(pipe_step(s, i, a).hit);
    lemma_kept(pipe_step(s, i, b).hit);
}

pub(crate) proof fn free_pipeline(s: StreamView, i: int, a: LogView, b: LogView)
    ensures
        pipeline(s, i, a).hit == pipeline(s, i, b).hit,
{
    same_pipeline(with_itself(s), i, a, b);
    lemma_kept(pipeline(s, i, a).hit);
    lemma_kept(pipeline(s, i, b).hit);
}

pub(crate) proof fn free_list_item(s: StreamView, tuple: bool, i: int, a: LogView, b: LogView)
    ensures
        list_item(s, tuple, i, a).hit == list_item(s, tuple, i, b).hit,
{
    same_list_item(with_itself(s), tuple, i, a, b);
    lemma_kept(list_item(s, tuple, i, a).hit);
    lemma_kept(list_item(s, tuple, i, b).hit);
}

pub(crate) proof fn lemma_kept_arg(a: ArgView)
    ensures
        place_arg(Places::Kept, a) == a,
{
    match a {
        ArgView::Named(_, e) => {
            lemma_kept_expr(e);
        },
        ArgView::Positional(e) => {
            lemma_kept_expr(e);
        },
    }
}

proof fn lemma_kept_param(p: FuncParamView)
    ensures
        place_param(Places::Kept, p) == p,
{
    lemma_kept_boxed(p.ty_expr);
    lemma_kept_boxed(p.default_value);
}

proof fn lemma_kept_case(c: SwitchCaseView)
    ensures
        place_case(Places::Kept, c) == c,
{
    lemma_kept_expr(c.condition);
    lemma_kept_expr(c.value);
}

pub(crate) proof fn free_arg(s: StreamView, i: int, a: LogView, b: LogView)
    ensures
        arg(s, i, a).hit == arg(s, i, b).hit,
{
    same_arg(with_itself(s), i, a, b);
    if let Some((_, x)) = arg(s, i, a).hit {
        lemma_kept_arg(x);
    }
    if let Some((_, x)) = arg(s, i, b).hit {
        lemma_kept_arg(x);
    }
}

pub(crate) proof fn free_param(s: StreamView, i: int, a: LogView, b: LogView)
    ensures
        param(s, i, a).hit == param(s, i, b).hit,
{
    same_param(with_itself(s), i, a, b);
    if let Some((_, x)) = param(s, i, a).hit {
        lemma_kept_param(x);
    }
    if let Some((_, x)) = param(s, i, b).hit {
        lemma_kept_param(x);
    }
}

pub(crate) proof fn free_case_item(s: StreamView, i: int, a: LogView, b: LogView)
    ensures
        case_item(s, i, a).hit == case_item(s, i, b).hit,
{
    same_case_item(with_itself(s), i, a, b);
    if let Some((_, x)) = case_item(s, i, a).hit {
        lemma_kept_case(x);
    }
    if let Some((_, x)) = case_item(s, i, b).hit {
        lemma_kept_case(x);
    }
}

} // verus!
