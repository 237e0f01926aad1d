//! What is no expression, no statement and no source.
use vstd::prelude::*;

use crate::ast::{BinOp, ExprView, UnOp};
use crate::grammar::{
    alias, atom, binary, binary_rest, case_item, case_value, expr, expr_call, forward, func_call,
    lambda_func, lambda_params, list_item, new_lines, operand, pipe_step, pipeline, range, range_to,
    term, type_annotation, unary,
};
use crate::laws::calls::lemma_typed_free;
use crate::laws::free::{free_expr_call, free_func_call, free_pipeline, free_term, free_unary};
use crate::laws::lists::{lemma_lines, lines};
use crate::laws::precedence::{lemma_operand_free, looseness, operator_token};
use crate::laws::shapes::{sign_token, took};
use crate::lexer::token::TokenView;
use crate::log::LogView;
use crate::source_grammar::{
    annotations, header_args, let_def, main_def, query_def, single_expr, source, stmt, stmts,
};
use crate::stream::StreamView;

verus! {

/// Whether a term can begin with the token.
pub open spec fn begins_a_term(t: TokenView) -> bool {
    match t {
        TokenView::Literal(_) => true,
        TokenView::Param(_) => true,
        TokenView::Interpolation(_, _) => true,
        TokenView::Ident(_) => true,
        TokenView::Keyword(word) => word == "case"@,
        TokenView::Control(c) => c == '{' || c == '[' || c == '(',
        _ => false,
    }
}

/// A term begins with a token that one can begin with.
pub proof fn law_not_every_token_begins_a_term(s: StreamView, i: int, log: LogView)
    requires
        s.token(i) matches Some(t) ==> !begins_a_term(t),
    ensures
        term(s, i, log).hit is None,
{
    reveal(atom);
}

/// Neither a sign nor nothing at all stands for a term.
pub proof fn law_a_sign_needs_a_term_behind_it(s: StreamView, i: int, log: LogView)
    requires
        term(s, i, LogView::start()).hit is None,
        (exists|op: UnOp| s.has(i, #[trigger] sign_token(op))) ==> term(
            s,
            i + 1,
            LogView::start(),
        ).hit is None,
    ensures
        unary(s, i, log).hit is None,
{
    free_term(s, i, LogView::start(), log);
    let quiet = term(s, i, log).log.rollback(log.emitted.len());
    free_term(s, i + 1, LogView::start(), quiet);
    assert(sign_token(UnOp::Neg) == TokenView::Control('-'));
    assert(sign_token(UnOp::Add) == TokenView::Control('+'));
    assert(sign_token(UnOp::Not) == TokenView::Control('!'));
    assert(sign_token(UnOp::EqSelf) == TokenView::Eq);
}

/// What is neither a bound nor dots is no operand, and no level of operators makes one of
/// it.
pub proof fn law_there_is_no_expression_without_an_operand(
    s: StreamView,
    level: nat,
    i: int,
    log: LogView,
)
    requires
        unary(s, i, LogView::start()).hit is None,
        !(s.token(i) matches Some(TokenView::Range { .. })),
    ensures
        range(s, i, log).hit is None,
        binary(s, level, i, log).hit is None,
        expr(s, i, log).hit is None,
        func_call(s, i, log).hit is None,
{
    lemma_no_range(s, i, log);
    lemma_no_binary(s, level, i, log);
    lemma_no_binary(s, 5, i, log);
}

proof fn lemma_no_range(s: StreamView, i: int, log: LogView)
    requires
        unary(s, i, LogView::start()).hit is None,
        !(s.token(i) matches Some(TokenView::Range { .. })),
    ensures
        range(s, i, log).hit is None,
{
    free_unary(s, i, LogView::start(), log);
    let quiet = unary(s, i, log).log.rollback(log.emitted.len());
    assert(range_to(s, i, quiet).hit is None);
}

proof fn lemma_no_binary(s: StreamView, level: nat, i: int, log: LogView)
    requires
        unary(s, i, LogView::start()).hit is None,
        !(s.token(i) matches Some(TokenView::Range { .. })),
    ensures
        binary(s, level, i, log).hit is None,
    decreases level,
{
    if level == 0 {
        lemma_no_range(s, i, log);
        assert(operand(s, 0, i, log) == range(s, i, log));
    } else {
        lemma_no_binary(s, (level - 1) as nat, i, log);
        assert(operand(s, level, i, log) == binary(s, (level - 1) as nat, i, log));
    }
}

/// An operator without an operand behind it is not taken.
pub proof fn law_an_operator_needs_an_operand_behind_it(
    s: StreamView,
    i: int,
    j: int,
    x: ExprView,
    op: BinOp,
    log: LogView,
)
    requires
        0 <= i < j <= s.len(),
        operand(s, looseness(op), i, LogView::start()).hit == Some((j, x)),
        s.has(j, operator_token(op)),
        operand(s, looseness(op), j + 1, LogView::start()).hit is None,
    ensures
        binary(s, looseness(op), i, log).hit == Some((j, x)),
{
    let level = looseness(op);
    lemma_operand_free(s, level, i, LogView::start(), log);
    let left = forward(s, i, operand(s, level, i, log));
    lemma_operand_free(s, level, j + 1, LogView::start(), left.log);
    assert(binary_rest(s, level, x, s.span_since(i, j), j, left.log).end == j);
}

/// A name with an equals sign behind it needs a step, or an item, behind that.
pub proof fn law_an_alias_needs_something_behind_it(
    s: StreamView,
    i: int,
    log: LogView,
)
    requires
        s.token(i) matches Some(TokenView::Ident(_)),
        s.has(i + 1, TokenView::Control('=')),
    ensures
        expr_call(s, i + 2, LogView::start()).hit is None ==> pipe_step(s, i, log).hit is None,
        pipeline(s, i + 2, LogView::start()).hit is None ==> list_item(s, true, i, log).hit is None,
{
    let name = alias(s, i, log);
    free_expr_call(s, i + 2, LogView::start(), name.log);
    assert(lines(s, i, i));
    lemma_lines(s, i, i, log);
    let first = new_lines(s, i, log);
    let given = alias(s, i, first.log);
    free_pipeline(s, i + 2, LogView::start(), given.log);
}

/// A line of a `case` needs an arrow behind its condition, and a value behind the arrow.
pub proof fn law_a_condition_needs_an_arrow_and_a_value(
    s: StreamView,
    i: int,
    start: int,
    arrow: int,
    condition: ExprView,
    log: LogView,
)
    requires
        0 <= i,
        lines(s, i, start),
        took(s, start, func_call(s, start, LogView::start()), arrow, condition),
        s.has(arrow, TokenView::ArrowFat) ==> func_call(
            s,
            arrow + 1,
            LogView::start(),
        ).hit is None,
    ensures
        case_item(s, i, log).hit is None,
{
    lemma_lines(s, i, start, log);
    let first = new_lines(s, i, log);
    free_func_call(s, start, LogView::start(), first.log);
    let head = forward(s, i, func_call(s, start, first.log));
    free_func_call(s, arrow + 1, LogView::start(), head.log);
    assert(case_item(s, i, log) == case_value(s, condition, arrow, head.log));
}

/// `let` needs a name, an equals sign and a value, or it defines nothing.
pub proof fn law_let_needs_a_name_and_a_value(s: StreamView, i: int, log: LogView)
    requires
        s.has(i, TokenView::Keyword("let"@)),
        ({
            let ty = type_annotation(s, i + 2, LogView::start());
            ||| !(s.token(i + 1) matches Some(TokenView::Ident(_)))
            ||| !s.has(ty.end, TokenView::Control('='))
            ||| expr_call(s, ty.end + 1, LogView::start()).hit is None
        }),
    ensures
        stmt(s, i, log).hit is None,
{
    let notes = annotations(s, i, log);
    assert(notes.end == i);
    lemma_typed_free(s, i + 2, notes.log);
    let ty = type_annotation(s, i + 2, notes.log);
    free_expr_call(s, ty.end + 1, LogView::start(), ty.log);
    let def = let_def(s, i, notes.log);
    assert(def.hit is None);
    let quiet = def.log.rollback(notes.log.emitted.len());
    lemma_no_pipeline(s, i, quiet);
    assert(main_def(s, i, quiet).hit is None);
}

proof fn lemma_no_pipeline(s: StreamView, i: int, log: LogView)
    requires
        s.has(i, TokenView::Keyword("let"@)),
    ensures
        pipeline(s, i, log).hit is None,
{
    assert(lines(s, i, i));
    lemma_lines(s, i, i, log);
    let first = new_lines(s, i, log);
    let name = alias(s, i, first.log);
    assert(name.end == i);
    lemma_let_is_no_call(s, i, name.log);
}

proof fn lemma_let_is_no_call(s: StreamView, i: int, log: LogView)
    requires
        s.has(i, TokenView::Keyword("let"@)),
    ensures
        expr_call(s, i, log).hit is None,
{
    reveal_strlit("let");
    reveal_strlit("case");
    reveal_strlit("func");
    assert("let"@.len() == 3 && "case"@.len() == 4 && "func"@.len() == 4);
    assert(!begins_a_term(TokenView::Keyword("let"@)));
    law_not_every_token_begins_a_term(s, i, LogView::start());
    assert forall|op: UnOp| !s.has(i, #[trigger] sign_token(op)) by {}
    law_a_sign_needs_a_term_behind_it(s, i, LogView::start());
    let noted = log.note(i, crate::common::just(TokenView::Keyword("func"@)));
    assert(crate::grammar::param(s, i, noted).hit is None);
    assert(crate::grammar::params(s, i, noted).found.len() == 0);
    assert(lambda_params(s, i, log).hit is None);
    let func = lambda_func(s, i, log);
    assert(func.hit is None);
    law_there_is_no_expression_without_an_operand(
        s,
        5,
        i,
        func.log.rollback(log.emitted.len()),
    );
}

/// A header ends with its line.
pub proof fn law_a_header_ends_with_its_line(s: StreamView, i: int, start: int, log: LogView)
    requires
        lines(s, i, start),
        s.has(start, TokenView::Keyword("prql"@)) ==> {
            let args = header_args(s, Seq::empty(), start + 1, new_lines(s, i, log).log);
            !s.has(args.end, TokenView::NewLine)
        },
    ensures
        query_def(s, i, log).hit is None,
{
    lemma_lines(s, i, start, log);
}

/// Statements stop where no statement follows.
pub proof fn law_statements_stop_where_none_follows(
    s: StreamView,
    i: int,
    start: int,
    log: LogView,
)
    requires
        lines(s, i, start),
        stmt(s, start, new_lines(s, i, log).log).hit is None,
    ensures
        stmts(s, i, log).found.len() == 0,
        stmts(s, i, log).end == start,
{
    lemma_lines(s, i, start, log);
}

/// A source is taken as a whole, or not at all: what is left over behind the last
/// statement, or behind the expression, is an error.
pub proof fn law_nothing_may_be_left_over(s: StreamView)
    ensures
        ({
            let def = query_def(s, 0, LogView::start());
            let body = match def.hit {
                Some((start, _)) => stmts(s, start, def.log),
                None => stmts(s, 0, def.log.rollback(0)),
            };
            &&& source(s).ast is Some <==> body.end == s.len()
            &&& body.end != s.len() ==> source(s).errors.len() > body.log.emitted.len()
            &&& body.end == s.len() ==> source(s).errors == body.log.emitted
        }),
        single_expr(s) matches Ok(e) ==> expr_call(s, 0, LogView::start()).hit == Some(
            (s.len(), e),
        ) && expr_call(s, 0, LogView::start()).log.emitted.len() == 0,
{
    broadcast use crate::laws::quiet::group_emitted;

}

} // verus!
