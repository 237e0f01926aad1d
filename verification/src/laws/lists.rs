//! What tuples, arrays, `case` expressions and pipelines hold, and in which order.
use vstd::prelude::*;

use crate::ast::{ExprKindView, ExprView, SwitchCaseView, Text};
use crate::common::just;
use crate::grammar::{
    alias, brackets, case_item, case_value, cases, cases_end, cases_rest, expr_call, forward,
    func_call, list, list_end, list_item, list_rest, new_lines, pipe, pipe_rest, pipe_step, piped,
    pipeline, switch, term, with_alias, Taken,
};
use crate::laws::free::{
    free_case_item, free_expr_call, free_func_call, free_list_item, free_pipe_step, free_pipeline,
};
use crate::laws::precedence::lemma_place;
use crate::laws::shapes::{node, took};
use crate::lexer::token::TokenView;
use crate::log::LogView;
use crate::stream::StreamView;

verus! {

/// What a rule took, one behind the other, each with the place where it ends.
pub type Run<T> = Seq<(int, T)>;

/// What was taken, without the places.
pub open spec fn items<T>(run: Run<T>) -> Seq<T> {
    Seq::new(run.len(), |n: int| run[n].1)
}

pub(crate) proof fn lemma_items<T>(run: Run<T>)
    requires
        run.len() > 0,
    ensures
        items(run) == seq![run[0].1] + items(run.skip(1)),
        run.len() > 1 ==> run.skip(1).last() == run.last(),
{
    assert(items(run) =~= seq![run[0].1] + items(run.skip(1)));
}

/// Nothing but line breaks stands from `i` up to `j`, and none at `j`.
pub open spec fn lines(s: StreamView, i: int, j: int) -> bool {
    &&& i <= j
    &&& forall|n: int| i <= n < j ==> s.has(n, TokenView::NewLine)
    &&& !s.has(j, TokenView::NewLine)
}

pub(crate) proof fn lemma_lines(s: StreamView, i: int, j: int, log: LogView)
    requires
        lines(s, i, j),
    ensures
        new_lines(s, i, log).end == j,
    decreases j - i,
{
    reveal(new_lines);
    if i < j {
        lemma_lines(s, i + 1, j, log);
    }
}

pub(crate) proof fn lemma_lines_end(s: StreamView, i: int, log: LogView)
    ensures
        lines(s, i, new_lines(s, i, log).end),
    decreases s.len() - i,
{
    reveal(new_lines);
    if s.has(i, TokenView::NewLine) {
        lemma_lines_end(s, i + 1, log);
    }
}

/// Items of a tuple or of an array stand from `i` on, with a comma between any two.
pub open spec fn item_run(s: StreamView, tuple: bool, i: int, run: Run<ExprView>) -> bool
    decreases run.len(),
{
    &&& run.len() > 0
    &&& took(s, i, list_item(s, tuple, i, LogView::start()), run[0].0, run[0].1)
    &&& run.len() > 1 ==> s.has(run[0].0, TokenView::Control(',')) && item_run(
        s,
        tuple,
        run[0].0 + 1,
        run.skip(1),
    )
}

proof fn lemma_list_rest(s: StreamView, tuple: bool, i: int, run: Run<ExprView>, log: LogView)
    requires
        s.has(i, TokenView::Control(',')),
        item_run(s, tuple, i + 1, run),
        !s.has(run.last().0, TokenView::Control(',')),
    ensures
        list_rest(s, tuple, i, log).found == items(run),
        list_rest(s, tuple, i, log).end == run.last().0,
    decreases run.len(),
{
    free_list_item(s, tuple, i + 1, LogView::start(), log);
    let first = forward(s, i, list_item(s, tuple, i + 1, log));
    lemma_items(run);
    if run.len() > 1 {
        lemma_list_rest(s, tuple, run[0].0, run.skip(1), first.log);
    } else {
        assert(items(run.skip(1)) =~= Seq::empty());
        assert(list_rest(s, tuple, run[0].0, first.log).found =~= Seq::empty());
    }
}

proof fn lemma_list(s: StreamView, tuple: bool, i: int, run: Run<ExprView>, log: LogView)
    requires
        item_run(s, tuple, i, run),
        !s.has(run.last().0, TokenView::Control(',')),
    ensures
        list(s, tuple, i, log).found == items(run),
        list(s, tuple, i, log).end == run.last().0,
{
    free_list_item(s, tuple, i, LogView::start(), log);
    let first = forward(s, i, list_item(s, tuple, i, log));
    lemma_items(run);
    if run.len() > 1 {
        lemma_list_rest(s, tuple, run[0].0, run.skip(1), first.log);
    } else {
        assert(items(run.skip(1)) =~= Seq::empty());
        assert(list_rest(s, tuple, run[0].0, first.log).found =~= Seq::empty());
    }
}

/// Items between braces are a tuple of these items, in the order in which they stand,
/// and items between square brackets are an array of them.
pub proof fn law_brackets_hold_the_items_in_order(
    s: StreamView,
    tuple: bool,
    i: int,
    run: Run<ExprView>,
    close: int,
    log: LogView,
)
    requires
        0 <= i,
        s.has(i, TokenView::Control(if tuple { '{' } else { '[' })),
        item_run(s, tuple, i + 1, run),
        lines(s, run.last().0, close),
        s.has(close, TokenView::Control(if tuple { '}' } else { ']' })),
    ensures
        term(s, i, log).hit == Some(
            (
                close + 1,
                node(
                    if tuple {
                        ExprKindView::Tuple(items(run))
                    } else {
                        ExprKindView::Array(items(run))
                    },
                    s,
                    i,
                    close + 1,
                ),
            ),
        ),
{
    if run.last().0 < close {
        assert(s.has(run.last().0, TokenView::NewLine));
    }
    lemma_list(s, tuple, i + 1, run, log);
    let all = list(s, tuple, i + 1, log);
    lemma_run_ahead(s, tuple, i + 1, run);
    lemma_lines(s, all.end, close, all.log);
    lemma_place(s, i, close + 1);
    reveal(list_end);
    assert(term(s, i, log) == brackets(s, tuple, i, log));
}

proof fn lemma_run_ahead(s: StreamView, tuple: bool, i: int, run: Run<ExprView>)
    requires
        item_run(s, tuple, i, run),
    ensures
        i < run.last().0 <= s.len(),
    decreases run.len(),
{
    if run.len() > 1 {
        lemma_run_ahead(s, tuple, run[0].0 + 1, run.skip(1));
    }
}

/// Brackets with nothing but line breaks in them hold no items.
pub proof fn law_brackets_may_be_empty(
    s: StreamView,
    tuple: bool,
    i: int,
    close: int,
    log: LogView,
)
    requires
        0 <= i,
        s.has(i, TokenView::Control(if tuple { '{' } else { '[' })),
        lines(s, i + 1, close),
        s.has(close, TokenView::Control(if tuple { '}' } else { ']' })),
    ensures
        term(s, i, log).hit == Some(
            (
                close + 1,
                node(
                    if tuple {
                        ExprKindView::Tuple(Seq::empty())
                    } else {
                        ExprKindView::Array(Seq::empty())
                    },
                    s,
                    i,
                    close + 1,
                ),
            ),
        ),
{
    broadcast use crate::laws::quiet::group_emitted;

    let start = new_lines(s, i + 1, log);
    lemma_lines(s, i + 1, close, log);
    let name = if tuple {
        alias(s, close, start.log)
    } else {
        Taken { found: None, end: close, log: start.log }
    };
    crate::laws::quiet::lemma_pipeline(s, close, name.log);
    assert(list_item(s, tuple, i + 1, log).hit is None);
    let all = list(s, tuple, i + 1, log);
    assert(all.found =~= Seq::empty());
    lemma_lines(s, i + 1, close, all.log);
    lemma_place(s, i, close + 1);
    reveal(list_end);
    assert(term(s, i, log) == brackets(s, tuple, i, log));
}

proof fn lemma_pipeline_end(s: StreamView, i: int, log: LogView)
    ensures
        pipeline(s, i, log).hit matches Some((j, _)) ==> !s.has(j, TokenView::NewLine),
{
    let start = new_lines(s, i, log);
    let first = forward(s, i, pipe_step(s, start.end, start.log));
    if let Some((j, _)) = first.hit {
        let rest = pipe_rest(s, j, first.log);
        lemma_lines_end(s, rest.end, rest.log);
    }
}

/// An item is the pipeline that stands there. In a tuple it may have a name, behind which
/// an equals sign stands. Line breaks before it do not count.
pub proof fn law_an_item_may_have_a_name(
    s: StreamView,
    tuple: bool,
    i: int,
    start: int,
    name: Text,
    j: int,
    e: ExprView,
    log: LogView,
)
    requires
        0 <= i,
        lines(s, i, start),
    ensures
        s.has(start, TokenView::Ident(name)) && tuple && s.has(
            start + 1,
            TokenView::Control('='),
        ) && took(s, start + 2, pipeline(s, start + 2, LogView::start()), j, e) ==> list_item(
            s,
            tuple,
            i,
            log,
        ).hit == Some((j, ExprView { kind: e.kind, span: e.span, alias: Some(name) })),
        !(tuple && s.token(start) is Some && s.has(start + 1, TokenView::Control('='))) && took(
            s,
            start,
            pipeline(s, start, LogView::start()),
            j,
            e,
        ) ==> list_item(s, tuple, i, log).hit == Some((j, e)),
{
    reveal(with_alias);
    let first = new_lines(s, i, log);
    lemma_lines(s, i, start, log);
    let given = if tuple {
        alias(s, start, first.log)
    } else {
        Taken { found: None, end: start, log: first.log }
    };
    free_pipeline(s, given.end, LogView::start(), given.log);
    lemma_pipeline_end(s, given.end, given.log);
    let value = pipeline(s, given.end, given.log);
    if let Some((k, _)) = value.hit {
        lemma_lines(s, k, k, value.log);
    }
}

/// Lines of a `case` stand from `i` on, with a comma between any two.
pub open spec fn case_run(s: StreamView, i: int, run: Run<SwitchCaseView>) -> bool
    decreases run.len(),
{
    &&& run.len() > 0
    &&& took(s, i, case_item(s, i, LogView::start()), run[0].0, run[0].1)
    &&& run.len() > 1 ==> s.has(run[0].0, TokenView::Control(',')) && case_run(
        s,
        run[0].0 + 1,
        run.skip(1),
    )
}

proof fn lemma_cases_rest(s: StreamView, i: int, run: Run<SwitchCaseView>, log: LogView)
    requires
        s.has(i, TokenView::Control(',')),
        case_run(s, i + 1, run),
        !s.has(run.last().0, TokenView::Control(',')),
    ensures
        cases_rest(s, i, log).found == items(run),
        cases_rest(s, i, log).end == run.last().0,
    decreases run.len(),
{
    free_case_item(s, i + 1, LogView::start(), log);
    let first = forward(s, i, case_item(s, i + 1, log));
    lemma_items(run);
    if run.len() > 1 {
        lemma_cases_rest(s, run[0].0, run.skip(1), first.log);
    } else {
        assert(items(run.skip(1)) =~= Seq::empty());
        assert(cases_rest(s, run[0].0, first.log).found =~= Seq::empty());
    }
}

proof fn lemma_case_run_ahead(s: StreamView, i: int, run: Run<SwitchCaseView>)
    requires
        case_run(s, i, run),
    ensures
        i < run.last().0 <= s.len(),
    decreases run.len(),
{
    if run.len() > 1 {
        lemma_case_run_ahead(s, run[0].0 + 1, run.skip(1));
    }
}

proof fn lemma_cases(s: StreamView, i: int, run: Run<SwitchCaseView>, log: LogView)
    requires
        case_run(s, i, run),
        !s.has(run.last().0, TokenView::Control(',')),
    ensures
        cases(s, i, log).found == items(run),
        cases(s, i, log).end == run.last().0,
{
    free_case_item(s, i, LogView::start(), log);
    let first = forward(s, i, case_item(s, i, log));
    lemma_items(run);
    if run.len() > 1 {
        lemma_cases_rest(s, run[0].0, run.skip(1), first.log);
    } else {
        assert(items(run.skip(1)) =~= Seq::empty());
        assert(cases_rest(s, run[0].0, first.log).found =~= Seq::empty());
    }
}

/// A `case` holds its lines in the order in which they stand.
pub proof fn law_a_case_holds_its_lines_in_order(
    s: StreamView,
    i: int,
    run: Run<SwitchCaseView>,
    close: int,
    log: LogView,
)
    requires
        0 <= i,
        s.has(i, TokenView::Keyword("case"@)),
        s.has(i + 1, TokenView::Control('[')),
        case_run(s, i + 2, run),
        lines(s, run.last().0, close),
        s.has(close, TokenView::Control(']')),
    ensures
        term(s, i, log).hit == Some(
            (close + 1, node(ExprKindView::Case(items(run)), s, i, close + 1)),
        ),
{
    if run.last().0 < close {
        assert(s.has(run.last().0, TokenView::NewLine));
    }
    lemma_case_run_ahead(s, i + 2, run);
    lemma_cases(s, i + 2, run, log);
    let all = cases(s, i + 2, log);
    lemma_lines(s, all.end, close, all.log);
    lemma_place(s, i, close + 1);
    reveal(cases_end);
    assert(term(s, i, log) == switch(s, i, log));
}

/// A line of a `case` is what stands before its arrow and what stands behind it. Line
/// breaks around it do not count.
pub proof fn law_an_arrow_leads_from_a_condition_to_its_value(
    s: StreamView,
    i: int,
    start: int,
    arrow: int,
    condition: ExprView,
    k: int,
    value: ExprView,
    end: int,
    log: LogView,
)
    requires
        0 <= i,
        lines(s, i, start),
        took(s, start, func_call(s, start, LogView::start()), arrow, condition),
        s.has(arrow, TokenView::ArrowFat),
        took(s, arrow + 1, func_call(s, arrow + 1, LogView::start()), k, value),
        lines(s, k, end),
    ensures
        case_item(s, i, log).hit == Some((end, SwitchCaseView { condition, value })),
{
    lemma_lines(s, i, start, log);
    let first = new_lines(s, i, log);
    free_func_call(s, start, LogView::start(), first.log);
    let head = forward(s, i, func_call(s, start, first.log));
    free_func_call(s, arrow + 1, LogView::start(), head.log);
    let tail = func_call(s, arrow + 1, head.log);
    lemma_lines(s, k, end, tail.log);
    assert(case_item(s, i, log) == case_value(s, condition, arrow, head.log));
}

/// The steps of a pipeline are parted, from `i` up to `j`, by a bar or by line breaks.
pub open spec fn parted(s: StreamView, i: int, j: int) -> bool {
    ||| s.has(i, TokenView::Control('|')) && j == i + 1
    ||| s.has(i, TokenView::NewLine) && lines(s, i, j)
}

/// Steps of a pipeline stand from `i` on. For each step but the first `starts` tells
/// where it begins.
pub open spec fn step_run(s: StreamView, i: int, run: Run<ExprView>, starts: Seq<int>) -> bool
    decreases run.len(),
{
    &&& run.len() > 0
    &&& starts.len() == run.len() - 1
    &&& took(s, i, pipe_step(s, i, LogView::start()), run[0].0, run[0].1)
    &&& run.len() > 1 ==> parted(s, run[0].0, starts[0]) && step_run(
        s,
        starts[0],
        run.skip(1),
        starts.skip(1),
    )
}

/// No step follows at `i`.
pub open spec fn no_step(s: StreamView, i: int) -> bool {
    &&& s.has(i, TokenView::Control('|')) ==> pipe_step(s, i + 1, LogView::start()).hit is None
    &&& forall|j: int|
        s.has(i, TokenView::NewLine) && #[trigger] lines(s, i, j) ==> pipe_step(
            s,
            j,
            LogView::start(),
        ).hit is None
}

proof fn lemma_parted(s: StreamView, i: int, j: int, log: LogView)
    requires
        parted(s, i, j),
    ensures
        pipe(s, i, log).end == j,
        i < j,
{
    reveal(pipe);
    if !s.has(i, TokenView::Control('|')) {
        lemma_lines(s, i, j, log.note(i, just(TokenView::Control('|'))));
    }
    if i == j {
        assert(s.has(i, TokenView::NewLine));
    }
}

proof fn lemma_no_step(s: StreamView, i: int, log: LogView)
    requires
        no_step(s, i),
    ensures
        pipe_rest(s, i, log).found.len() == 0,
        pipe_rest(s, i, log).end == i,
{
    let sep = pipe(s, i, log);
    reveal(pipe);
    lemma_lines_end(s, i, log.note(i, just(TokenView::Control('|'))));
    if sep.end != i {
        free_pipe_step(s, sep.end, LogView::start(), sep.log);
        if !s.has(i, TokenView::Control('|')) {
            assert(lines(s, i, sep.end));
            assert(s.has(i, TokenView::NewLine));
        }
    }
}

proof fn lemma_pipe_rest(
    s: StreamView,
    i: int,
    start: int,
    run: Run<ExprView>,
    starts: Seq<int>,
    log: LogView,
)
    requires
        parted(s, i, start),
        step_run(s, start, run, starts),
        no_step(s, run.last().0),
    ensures
        pipe_rest(s, i, log).found == items(run),
        pipe_rest(s, i, log).end == run.last().0,
    decreases run.len(),
{
    lemma_parted(s, i, start, log);
    let sep = pipe(s, i, log);
    free_pipe_step(s, start, LogView::start(), sep.log);
    let first = forward(s, i, pipe_step(s, start, sep.log));
    lemma_items(run);
    if run.len() > 1 {
        lemma_pipe_rest(s, run[0].0, starts[0], run.skip(1), starts.skip(1), first.log);
    } else {
        lemma_no_step(s, run[0].0, first.log);
        assert(items(run.skip(1)) =~= Seq::empty());
        assert(pipe_rest(s, run[0].0, first.log).found =~= Seq::empty());
    }
}

proof fn lemma_step_run_ahead(s: StreamView, i: int, run: Run<ExprView>, starts: Seq<int>)
    requires
        step_run(s, i, run, starts),
    ensures
        i < run.last().0 <= s.len(),
    decreases run.len(),
{
    if run.len() > 1 {
        lemma_parted(s, run[0].0, starts[0], LogView::start());
        lemma_step_run_ahead(s, starts[0], run.skip(1), starts.skip(1));
    }
}

/// A pipeline holds its steps in the order in which they stand, whether bars or line
/// breaks part them; one step alone is no pipeline. Line breaks around it do not count.
pub proof fn law_a_pipeline_holds_its_steps_in_order(
    s: StreamView,
    i: int,
    start: int,
    run: Run<ExprView>,
    starts: Seq<int>,
    end: int,
    log: LogView,
)
    requires
        0 <= i,
        lines(s, i, start),
        step_run(s, start, run, starts),
        no_step(s, run.last().0),
        lines(s, run.last().0, end),
    ensures
        pipeline(s, i, log).hit == Some(
            (
                end,
                if run.len() == 1 {
                    run[0].1
                } else {
                    node(ExprKindView::Pipeline(items(run)), s, start, run.last().0)
                },
            ),
        ),
{
    lemma_lines(s, i, start, log);
    lemma_step_run_ahead(s, start, run, starts);
    let lead = new_lines(s, i, log);
    free_pipe_step(s, start, LogView::start(), lead.log);
    let first = forward(s, i, pipe_step(s, start, lead.log));
    lemma_items(run);
    if run.len() > 1 {
        lemma_pipe_rest(s, run[0].0, starts[0], run.skip(1), starts.skip(1), first.log);
    } else {
        lemma_no_step(s, run[0].0, first.log);
    }
    let rest = pipe_rest(s, run[0].0, first.log);
    lemma_lines(s, rest.end, end, rest.log);
    lemma_place(s, start, run.last().0);
    reveal(piped);
}

/// A step is the call or the function that stands there. It may have a name, behind which
/// an equals sign stands.
pub proof fn law_a_step_may_have_a_name(
    s: StreamView,
    i: int,
    name: Text,
    j: int,
    e: ExprView,
    log: LogView,
)
    requires
        0 <= i,
    ensures
        s.has(i, TokenView::Ident(name)) && s.has(i + 1, TokenView::Control('='))
            && took(s, i + 2, expr_call(s, i + 2, LogView::start()), j, e) ==> pipe_step(
            s,
            i,
            log,
        ).hit == Some((j, ExprView { kind: e.kind, span: e.span, alias: Some(name) })),
        !s.has(i + 1, TokenView::Control('=')) && took(
            s,
            i,
            expr_call(s, i, LogView::start()),
            j,
            e,
        ) ==> pipe_step(s, i, log).hit == Some((j, e)),
{
    reveal(with_alias);
    let given = alias(s, i, log);
    free_expr_call(s, given.end, LogView::start(), given.log);
}

proof fn lemma_list_rest_comma(
    s: StreamView,
    tuple: bool,
    i: int,
    run: Run<ExprView>,
    log: LogView,
)
    requires
        s.has(i, TokenView::Control(',')),
        run.len() > 0 ==> item_run(s, tuple, i + 1, run) && s.has(
            run.last().0,
            TokenView::Control(','),
        ),
        list_item(
            s,
            tuple,
            if run.len() == 0 {
                i + 1
            } else {
                run.last().0 + 1
            },
            LogView::start(),
        ).hit is None,
    ensures
        list_rest(s, tuple, i, log).found == items(run),
        list_rest(s, tuple, i, log).end == if run.len() == 0 {
            i + 1
        } else {
            run.last().0 + 1
        },
    decreases run.len(),
{
    free_list_item(s, tuple, i + 1, LogView::start(), log);
    let first = forward(s, i, list_item(s, tuple, i + 1, log));
    if run.len() == 0 {
        assert(items(run) =~= Seq::empty());
        assert(list_rest(s, tuple, i, log).found =~= Seq::empty());
    } else {
        lemma_items(run);
        lemma_list_rest_comma(s, tuple, run[0].0, run.skip(1), first.log);
    }
}

proof fn lemma_no_item(s: StreamView, tuple: bool, i: int, close: int, log: LogView)
    requires
        lines(s, i, close),
        s.has(close, TokenView::Control(if tuple { '}' } else { ']' })),
    ensures
        list_item(s, tuple, i, log).hit is None,
{
    let start = new_lines(s, i, log);
    lemma_lines(s, i, close, log);
    let name = if tuple {
        alias(s, close, start.log)
    } else {
        Taken { found: None, end: close, log: start.log }
    };
    crate::laws::quiet::lemma_pipeline(s, close, name.log);
}

/// A comma behind the last item changes nothing: the tuple or the array holds the items
/// before it, in the order in which they stand.
pub proof fn law_a_last_comma_changes_nothing(
    s: StreamView,
    tuple: bool,
    i: int,
    run: Run<ExprView>,
    close: int,
    log: LogView,
)
    requires
        0 <= i,
        s.has(i, TokenView::Control(if tuple { '{' } else { '[' })),
        item_run(s, tuple, i + 1, run),
        s.has(run.last().0, TokenView::Control(',')),
        lines(s, run.last().0 + 1, close),
        s.has(close, TokenView::Control(if tuple { '}' } else { ']' })),
    ensures
        term(s, i, log).hit == Some(
            (
                close + 1,
                node(
                    if tuple {
                        ExprKindView::Tuple(items(run))
                    } else {
                        ExprKindView::Array(items(run))
                    },
                    s,
                    i,
                    close + 1,
                ),
            ),
        ),
{
    lemma_run_ahead(s, tuple, i + 1, run);
    lemma_no_item(s, tuple, run.last().0 + 1, close, LogView::start());
    free_list_item(s, tuple, i + 1, LogView::start(), log);
    let first = forward(s, i + 1, list_item(s, tuple, i + 1, log));
    lemma_items(run);
    lemma_list_rest_comma(s, tuple, run[0].0, run.skip(1), first.log);
    let all = list(s, tuple, i + 1, log);
    assert(all.found == items(run));
    lemma_lines(s, all.end, close, all.log);
    lemma_place(s, i, close + 1);
    reveal(list_end);
    assert(term(s, i, log) == brackets(s, tuple, i, log));
}

proof fn lemma_cases_rest_comma(s: StreamView, i: int, run: Run<SwitchCaseView>, log: LogView)
    requires
        s.has(i, TokenView::Control(',')),
        run.len() > 0 ==> case_run(s, i + 1, run) && s.has(
            run.last().0,
            TokenView::Control(','),
        ),
        case_item(
            s,
            if run.len() == 0 {
                i + 1
            } else {
                run.last().0 + 1
            },
            LogView::start(),
        ).hit is None,
    ensures
        cases_rest(s, i, log).found == items(run),
        cases_rest(s, i, log).end == if run.len() == 0 {
            i + 1
        } else {
            run.last().0 + 1
        },
    decreases run.len(),
{
    free_case_item(s, i + 1, LogView::start(), log);
    let first = forward(s, i, case_item(s, i + 1, log));
    if run.len() == 0 {
        assert(items(run) =~= Seq::empty());
        assert(cases_rest(s, i, log).found =~= Seq::empty());
    } else {
        lemma_items(run);
        lemma_cases_rest_comma(s, run[0].0, run.skip(1), first.log);
    }
}

/// A comma behind the last line of a `case` changes nothing either.
#[verifier::spinoff_prover]
#[verifier::rlimit(40)]
pub proof fn law_a_last_comma_in_a_case_changes_nothing(
    s: StreamView,
    i: int,
    run: Run<SwitchCaseView>,
    close: int,
    log: LogView,
)
    requires
        0 <= i,
        s.has(i, TokenView::Keyword("case"@)),
        s.has(i + 1, TokenView::Control('[')),
        case_run(s, i + 2, run),
        s.has(run.last().0, TokenView::Control(',')),
        lines(s, run.last().0 + 1, close),
        s.has(close, TokenView::Control(']')),
    ensures
        term(s, i, log).hit == Some(
            (close + 1, node(ExprKindView::Case(items(run)), s, i, close + 1)),
        ),
{
    lemma_case_run_ahead(s, i + 2, run);
    let last = run.last().0 + 1;
    let start = new_lines(s, last, LogView::start());
    lemma_lines(s, last, close, LogView::start());
    crate::laws::quiet::lemma_func_call(s, close, start.log);
    assert(case_item(s, last, LogView::start()).hit is None);
    free_case_item(s, i + 2, LogView::start(), log);
    let first = forward(s, i + 2, case_item(s, i + 2, log));
    lemma_items(run);
    lemma_cases_rest_comma(s, run[0].0, run.skip(1), first.log);
    let all = cases(s, i + 2, log);
    assert(all.found == items(run));
    lemma_lines(s, all.end, close, all.log);
    lemma_place(s, i, close + 1);
    reveal(cases_end);
    assert(term(s, i, log) == switch(s, i, log));
}

/// A `case` with nothing but line breaks in it has no lines.
pub proof fn law_a_case_may_be_empty(s: StreamView, i: int, close: int, log: LogView)
    requires
        0 <= i,
        s.has(i, TokenView::Keyword("case"@)),
        s.has(i + 1, TokenView::Control('[')),
        lines(s, i + 2, close),
        s.has(close, TokenView::Control(']')),
    ensures
        term(s, i, log).hit == Some(
            (close + 1, node(ExprKindView::Case(Seq::empty()), s, i, close + 1)),
        ),
{
    let start = new_lines(s, i + 2, log);
    lemma_lines(s, i + 2, close, log);
    crate::laws::quiet::lemma_func_call(s, close, start.log);
    assert(case_item(s, i + 2, log).hit is None);
    let all = cases(s, i + 2, log);
    assert(all.found =~= Seq::empty());
    lemma_lines(s, i + 2, close, all.log);
    lemma_place(s, i, close + 1);
    reveal(cases_end);
    assert(term(s, i, log) == switch(s, i, log));
}

} // verus!
