//! What the rules of statements make of two streams with the same tokens.
use vstd::prelude::*;

use crate::ast::{ExprView, NamedArgView, StmtKindView, StmtView, Text};
use crate::common::stmt_at;
use crate::grammar::{
    expr, forward, lemma_new_lines, named_arg, new_lines, type_annotation, with_named, ArgView,
};
use crate::lexer::token::TokenView;
use crate::log::LogView;
use crate::places::{
    place, place_expr, place_exprs, place_kind, place_named, place_named_arg, place_opt,
    place_perror, place_perrors, place_stmt, place_stmt_kind, place_stmts, Places,
};
use crate::source_grammar::{
    annotations, check_header, header, header_args, is_known, let_def, main_def, on_new_line,
    query_def, source, stmt, stmts, target, value_of, var_def, version,
};
use crate::span::Span;
use crate::twins::{
    lemma_named_index, lemma_named_index_bound, lemma_nothing, lemma_prepend, lemma_span_since,
    lemma_with_named, place_log, same_expr, same_expr_call, same_named_arg, same_new_lines,
    same_pipeline, same_type_annotation, Twins,
};

verus! {

proof fn lemma_value_of(p: Places, args: Seq<NamedArgView>, name: Text)
    ensures
        value_of(place_named(p, args), name) == place_opt(p, value_of(args, name)),
{
    lemma_named_index(p, args, name, 0);
    lemma_named_index_bound(args, name, 0);
}

proof fn lemma_header(p: Places, args: Seq<NamedArgView>)
    ensures
        version(place_named(p, args)) == version(args),
        target(place_named(p, args)) == target(args),
        header(place_named(p, args)) == header(args),
{
    lemma_value_of(p, args, "version"@);
    lemma_value_of(p, args, "target"@);
    if let Some(e) = value_of(args, "version"@) {
        assert(place_expr(p, e).kind == place_kind(p, e.kind));
    }
    if let Some(e) = value_of(args, "target"@) {
        assert(place_expr(p, e).kind == place_kind(p, e.kind));
    }
}

proof fn lemma_check_header(p: Places, args: Seq<NamedArgView>, span: Span, log: LogView)
    ensures
        place_log(p, check_header(args, span, log)) == check_header(
            place_named(p, args),
            place(p, span),
            place_log(p, log),
        ),
{
    broadcast use crate::twins::group_log;

    let placed = place_named(p, args);
    lemma_header(p, args);
    lemma_value_of(p, args, "version"@);
    lemma_value_of(p, args, "target"@);
    assert forall|i: int| 0 <= i < args.len() implies #[trigger] placed[i].name == args[i].name by {
        assert(placed[i] == place_named_arg(p, args[i]));
    }
    let known = forall|i: int| 0 <= i < args.len() ==> is_known(#[trigger] args[i].name);
    if known {
        assert forall|i: int| 0 <= i < placed.len() implies is_known(#[trigger] placed[i].name) by {
            assert(is_known(args[i].name));
        }
    } else {
        let i = choose|i: int| 0 <= i < args.len() && !is_known(#[trigger] args[i].name);
        assert(!is_known(placed[i].name));
    }
}

proof fn same_header_args(
    w: Twins,
    given: Seq<NamedArgView>,
    twins: Seq<NamedArgView>,
    i: int,
    a: LogView,
    b: LogView,
)
    requires
        w.agree(),
        place_named(w.p, given) == place_named(w.q, twins),
    ensures
        ({
            let x = header_args(w.s, given, i, a);
            let y = header_args(w.t, twins, i, b);
            &&& place_named(w.p, x.found) == place_named(w.q, y.found)
            &&& x.end == y.end
            &&& w.logs(a, b) ==> w.logs(x.log, y.log)
        }),
    decreases w.s.len() - i,
{
    broadcast use crate::twins::group_log;

    same_named_arg(w, i, a, b);
    let x = forward(w.s, i, named_arg(w.s, i, a));
    let y = forward(w.t, i, named_arg(w.t, i, b));
    assert(a.emitted.len() == place_log(w.p, a).emitted.len());
    assert(b.emitted.len() == place_log(w.q, b).emitted.len());
    if let Some((end, ArgView::Named(name, value))) = x.hit {
        if let Some((_, ArgView::Named(_, twin))) = y.hit {
            lemma_with_named(w.p, given, name, value);
            lemma_with_named(w.q, twins, name, twin);
            same_header_args(
                w,
                with_named(given, name, value),
                with_named(twins, name, twin),
                end,
                x.log,
                y.log,
            );
        }
    }
}

proof fn lemma_stmt_at(p: Places, notes: Seq<ExprView>, kind: StmtKindView, span: Span)
    ensures
        place_stmt(p, stmt_at(notes, kind, span)) == stmt_at(
            place_exprs(p, notes),
            place_stmt_kind(p, kind),
            place(p, span),
        ),
{
}

pub(crate) proof fn same_query_def(w: Twins, i: int, a: LogView, b: LogView)
    requires
        w.agree(),
    ensures
        ({
            let x = query_def(w.s, i, a);
            let y = query_def(w.t, i, b);
            &&& match (x.hit, y.hit) {
                (Some((j, e)), Some((k, f))) => j == k && place_stmt(w.p, e) == place_stmt(w.q, f),
                (None, None) => true,
                _ => false,
            }
            &&& w.logs(a, b) ==> w.logs(x.log, y.log)
        }),
{
    broadcast use crate::twins::group_log;

    same_new_lines(w, i, a, b);
    let start = new_lines(w.s, i, a);
    let twin_start = new_lines(w.t, i, b);
    let none = Seq::<NamedArgView>::empty();
    assert(place_named(w.p, none) =~= place_named(w.q, none));
    same_header_args(w, none, none, start.end + 1, start.log, twin_start.log);
    let x = header_args(w.s, none, start.end + 1, start.log);
    let y = header_args(w.t, none, start.end + 1, twin_start.log);
    lemma_span_since(w, i, x.end + 1);
    let span = w.s.span_since(i, x.end + 1);
    let twin = w.t.span_since(i, x.end + 1);
    lemma_header(w.p, x.found);
    lemma_header(w.q, y.found);
    lemma_check_header(w.p, x.found, span, x.log);
    lemma_check_header(w.q, y.found, twin, y.log);
    lemma_nothing(w);
    lemma_stmt_at(w.p, Seq::empty(), header(x.found), span);
    lemma_stmt_at(w.q, Seq::empty(), header(y.found), twin);
}

pub(crate) proof fn same_annotations(w: Twins, i: int, a: LogView, b: LogView)
    requires
        w.agree(),
    ensures
        ({
            let x = annotations(w.s, i, a);
            let y = annotations(w.t, i, b);
            &&& place_exprs(w.p, x.found) == place_exprs(w.q, y.found)
            &&& x.end == y.end
            &&& w.logs(a, b) ==> w.logs(x.log, y.log)
        }),
    decreases w.s.len() - i,
{
    broadcast use crate::twins::group_log;

    assert(a.emitted.len() == place_log(w.p, a).emitted.len());
    assert(b.emitted.len() == place_log(w.q, b).emitted.len());
    lemma_nothing(w);
    if w.s.has(i, TokenView::Annotate) {
        same_expr(w, i + 1, a, b);
        let x = forward(w.s, i, expr(w.s, i + 1, a));
        let y = forward(w.t, i, expr(w.t, i + 1, b));
        if let Some((j, e)) = x.hit {
            if let Some((_, f)) = y.hit {
                same_new_lines(w, j, x.log, y.log);
                lemma_new_lines(w.s, j, x.log);
                let end = new_lines(w.s, j, x.log);
                let twin = new_lines(w.t, j, y.log);
                same_annotations(w, end.end, end.log, twin.log);
                lemma_prepend(w.p, e, annotations(w.s, end.end, end.log).found);
                lemma_prepend(w.q, f, annotations(w.t, end.end, twin.log).found);
            }
        }
    }
}

proof fn same_let_def(w: Twins, i: int, a: LogView, b: LogView)
    requires
        w.agree(),
    ensures
        ({
            let x = let_def(w.s, i, a);
            let y = let_def(w.t, i, b);
            &&& match (x.hit, y.hit) {
                (Some((j, e)), Some((k, f))) => {
                    j == k && place_stmt_kind(w.p, e) == place_stmt_kind(w.q, f)
                },
                (None, None) => true,
                _ => false,
            }
            &&& w.logs(a, b) ==> w.logs(x.log, y.log)
        }),
{
    broadcast use crate::twins::group_log;

    same_type_annotation(w, i + 2, a, b);
    let x = type_annotation(w.s, i + 2, a);
    let y = type_annotation(w.t, i + 2, b);
    same_expr_call(w, x.end + 1, x.log, y.log);
}

proof fn same_main_def(w: Twins, i: int, a: LogView, b: LogView)
    requires
        w.agree(),
    ensures
        ({
            let x = main_def(w.s, i, a);
            let y = main_def(w.t, i, b);
            &&& match (x.hit, y.hit) {
                (Some((j, e)), Some((k, f))) => {
                    j == k && place_stmt_kind(w.p, e) == place_stmt_kind(w.q, f)
                },
                (None, None) => true,
                _ => false,
            }
            &&& w.logs(a, b) ==> w.logs(x.log, y.log)
        }),
{
    broadcast use crate::twins::group_log;

    same_pipeline(w, i, a, b);
}

pub(crate) proof fn same_var_def(w: Twins, i: int, a: LogView, b: LogView)
    requires
        w.agree(),
    ensures
        ({
            let x = var_def(w.s, i, a);
            let y = var_def(w.t, i, b);
            &&& match (x.hit, y.hit) {
                (Some((j, e)), Some((k, f))) => {
                    j == k && place_stmt_kind(w.p, e) == place_stmt_kind(w.q, f)
                },
                (None, None) => true,
                _ => false,
            }
            &&& w.logs(a, b) ==> w.logs(x.log, y.log)
        }),
{
    broadcast use crate::twins::group_log;

    same_let_def(w, i, a, b);
    assert(a.emitted.len() == place_log(w.p, a).emitted.len());
    assert(b.emitted.len() == place_log(w.q, b).emitted.len());
    let c = let_def(w.s, i, a).log.rollback(a.emitted.len());
    let d = let_def(w.t, i, b).log.rollback(b.emitted.len());
    same_main_def(w, i, c, d);
}

pub(crate) proof fn same_stmt(w: Twins, i: int, a: LogView, b: LogView)
    requires
        w.agree(),
    ensures
        ({
            let x = stmt(w.s, i, a);
            let y = stmt(w.t, i, b);
            &&& match (x.hit, y.hit) {
                (Some((j, e)), Some((k, f))) => j == k && place_stmt(w.p, e) == place_stmt(w.q, f),
                (None, None) => true,
                _ => false,
            }
            &&& w.logs(a, b) ==> w.logs(x.log, y.log)
        }),
{
    broadcast use crate::twins::group_log;

    same_annotations(w, i, a, b);
    let x = annotations(w.s, i, a);
    let y = annotations(w.t, i, b);
    same_var_def(w, x.end, x.log, y.log);
    if let Some((end, kind)) = var_def(w.s, x.end, x.log).hit {
        if let Some((_, twin)) = var_def(w.t, x.end, y.log).hit {
            lemma_span_since(w, i, end);
            lemma_stmt_at(w.p, x.found, kind, w.s.span_since(i, end));
            lemma_stmt_at(w.q, y.found, twin, w.t.span_since(i, end));
        }
    }
}

proof fn lemma_prepend_stmts(p: Places, first: StmtView, rest: Seq<StmtView>)
    ensures
        place_stmts(p, seq![first] + rest) == seq![place_stmt(p, first)] + place_stmts(p, rest),
{
    assert(place_stmts(p, seq![first] + rest) =~= seq![place_stmt(p, first)] + place_stmts(
        p,
        rest,
    ));
}

proof fn same_stmts(w: Twins, i: int, a: LogView, b: LogView)
    requires
        w.agree(),
    ensures
        ({
            let x = stmts(w.s, i, a);
            let y = stmts(w.t, i, b);
            &&& place_stmts(w.p, x.found) == place_stmts(w.q, y.found)
            &&& x.end == y.end
            &&& w.logs(a, b) ==> w.logs(x.log, y.log)
        }),
    decreases w.s.len() - i,
{
    broadcast use crate::twins::group_log;

    same_new_lines(w, i, a, b);
    lemma_new_lines(w.s, i, a);
    let start = new_lines(w.s, i, a);
    let twin_start = new_lines(w.t, i, b);
    let none = Seq::<StmtView>::empty();
    assert(place_stmts(w.p, none) =~= place_stmts(w.q, none));
    if on_new_line(w.s, start.end) {
        same_stmt(w, start.end, start.log, twin_start.log);
        let x = forward(w.s, i, stmt(w.s, start.end, start.log));
        let y = forward(w.t, i, stmt(w.t, start.end, twin_start.log));
        assert(start.log.emitted.len() == place_log(w.p, start.log).emitted.len());
        assert(twin_start.log.emitted.len() == place_log(w.q, twin_start.log).emitted.len());
        if let Some((end, e)) = x.hit {
            if let Some((_, f)) = y.hit {
                same_stmts(w, end, x.log, y.log);
                lemma_prepend_stmts(w.p, e, stmts(w.s, end, x.log).found);
                lemma_prepend_stmts(w.q, f, stmts(w.t, end, y.log).found);
            }
        }
    }
}

proof fn lemma_failure(w: Twins, a: LogView, b: LogView)
    requires
        w.agree(),
        w.logs(a, b),
    ensures
        place_perrors(w.p, a.failure(w.s)) == place_perrors(w.q, b.failure(w.t)),
{
    reveal(place_log);
    assert(place(w.p, w.s.span_at(a.at)) == place(w.q, w.t.span_at(b.at)));
    let x = w.s.unexpected(a.at, a.expected);
    let y = w.t.unexpected(b.at, b.expected);
    assert(place_perrors(w.p, a.failure(w.s)) =~= place_perrors(w.p, a.emitted).push(
        place_perror(w.p, x),
    ));
    assert(place_perrors(w.q, b.failure(w.t)) =~= place_perrors(w.q, b.emitted).push(
        place_perror(w.q, y),
    ));
}

/// The parser makes the same of both streams, but for the places.
pub(crate) proof fn same_source(w: Twins)
    requires
        w.agree(),
    ensures
        match (source(w.s).ast, source(w.t).ast) {
            (Some(x), Some(y)) => place_stmts(w.p, x) == place_stmts(w.q, y),
            (None, None) => true,
            _ => false,
        },
        place_perrors(w.p, source(w.s).errors) == place_perrors(w.q, source(w.t).errors),
{
    broadcast use crate::twins::group_log;

    let log = LogView::start();
    assert(w.logs(log, log)) by {
        reveal(place_log);
        assert(place_perrors(w.p, log.emitted) =~= place_perrors(w.q, log.emitted));
    }
    same_query_def(w, 0, log, log);
    let x = query_def(w.s, 0, log);
    let y = query_def(w.t, 0, log);
    let (start, a, b) = match x.hit {
        Some((start, _)) => (start, x.log, y.log),
        None => (0, x.log.rollback(0), y.log.rollback(0)),
    };
    same_stmts(w, start, a, b);
    let body = stmts(w.s, start, a);
    let twin = stmts(w.t, start, b);
    if let Some((_, head)) = x.hit {
        if let Some((_, twin_head)) = y.hit {
            lemma_prepend_stmts(w.p, head, body.found);
            lemma_prepend_stmts(w.q, twin_head, twin.found);
        }
    }
    if body.end == w.s.len() {
        reveal(place_log);
    } else {
        let end: Seq<Option<TokenView>> = seq![None];
        lemma_failure(w, body.log.note(body.end, end), twin.log.note(body.end, end));
    }
}

} // verus!
