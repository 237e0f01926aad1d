//! What statements and sources are made of, and in which order.
use vstd::prelude::*;

use crate::ast::{
    ExprKindView, ExprView, LiteralView, NamedArgView, StmtKindView, StmtView, Text, VarDefKind,
};
use crate::grammar::{
    expr, expr_call, forward, named_arg, named_index, new_lines, pipeline, type_annotation,
    with_named,
};
use crate::laws::calls::{lemma_typed_free, run_end};
use crate::laws::free::{free_expr, free_expr_call, free_pipeline};
use crate::laws::lists::{items, lemma_items, lemma_lines, lines, Run};
use crate::laws::precedence::{lemma_place, place_of};
use crate::laws::shapes::took;
use crate::lexer::token::TokenView;
use crate::log::LogView;
use crate::places::{lemma_kept_stmts, place_stmt, place_stmts, Places};
use crate::source_grammar::{
    annotations, check_header, dotted, header_args, let_def, main_def, query_def, source, stmt,
    stmts, target, var_def, version,
};
use crate::source_twins::same_stmt;
use crate::span::Span;
use crate::stream::StreamView;
use crate::twins::Twins;

verus! {

/// Annotations stand from `i` on: each is an `@` and an expression behind it, which ends
/// where `ends` tells, with line breaks behind that.
pub open spec fn annotation_run(
    s: StreamView,
    i: int,
    run: Run<ExprView>,
    ends: Seq<int>,
) -> bool
    decreases run.len(),
{
    &&& ends.len() == run.len()
    &&& run.len() > 0 ==> {
        &&& s.has(i, TokenView::Annotate)
        &&& took(s, i + 1, expr(s, i + 1, LogView::start()), ends[0], run[0].1)
        &&& lines(s, ends[0], run[0].0)
        &&& annotation_run(s, run[0].0, run.skip(1), ends.skip(1))
    }
}

proof fn lemma_annotations(
    s: StreamView,
    i: int,
    run: Run<ExprView>,
    ends: Seq<int>,
    log: LogView,
)
    requires
        0 <= i,
        annotation_run(s, i, run, ends),
        !s.has(run_end(i, run), TokenView::Annotate),
    ensures
        annotations(s, i, log).found == items(run),
        annotations(s, i, log).end == run_end(i, run),
        i <= run_end(i, run),
    decreases run.len(),
{
    if run.len() > 0 {
        free_expr(s, i + 1, LogView::start(), log);
        let first = forward(s, i, expr(s, i + 1, log));
        lemma_lines(s, ends[0], run[0].0, first.log);
        let next = new_lines(s, ends[0], first.log);
        assert(run_end(run[0].0, run.skip(1)) == run_end(i, run));
        crate::grammar::lemma_new_lines(s, ends[0], first.log);
        lemma_annotations(s, run[0].0, run.skip(1), ends.skip(1), next.log);
        assert(items(run) =~= seq![run[0].1] + items(run.skip(1)));
    } else {
        assert(items(run) =~= Seq::empty());
        assert(annotations(s, i, log).found =~= Seq::empty());
    }
}

/// A statement of that kind, with those annotations, at the place of the tokens from `i`
/// up to `j`.
pub open spec fn statement(
    annotations: Seq<ExprView>,
    kind: StmtKindView,
    s: StreamView,
    i: int,
    j: int,
) -> StmtView {
    StmtView { kind, span: Some(place_of(s, i, j)), annotations }
}

/// `let` defines the name behind it as the value behind the equals sign. The annotations
/// before it are those of the statement, in the order in which they stand.
pub proof fn law_let_defines_a_name(
    s: StreamView,
    i: int,
    run: Run<ExprView>,
    ends: Seq<int>,
    name: Text,
    end: int,
    value: ExprView,
    log: LogView,
)
    requires
        0 <= i,
        annotation_run(s, i, run, ends),
        ({
            let at = run_end(i, run);
            let ty = type_annotation(s, at + 2, LogView::start());
            &&& s.has(at, TokenView::Keyword("let"@))
            &&& s.has(at + 1, TokenView::Ident(name))
            &&& s.has(ty.end, TokenView::Control('='))
            &&& took(s, ty.end + 1, expr_call(s, ty.end + 1, LogView::start()), end, value)
        }),
    ensures
        stmt(s, i, log).hit == Some(
            (
                end,
                statement(
                    items(run),
                    StmtKindView::VarDef {
                        name,
                        value,
                        ty_expr: type_annotation(
                            s,
                            run_end(i, run) + 2,
                            LogView::start(),
                        ).found,
                        kind: VarDefKind::Let,
                    },
                    s,
                    i,
                    end,
                ),
            ),
        ),
{
    lemma_annotations(s, i, run, ends, log);
    let notes = annotations(s, i, log);
    let at = notes.end;
    lemma_typed_free(s, at + 2, notes.log);
    crate::grammar::lemma_type_annotation(s, at + 2, notes.log);
    let ty = type_annotation(s, at + 2, notes.log);
    free_expr_call(s, ty.end + 1, LogView::start(), ty.log);
    assert(var_def(s, at, notes.log) == let_def(s, at, notes.log));
    lemma_place(s, i, end);
}

/// A pipeline is a statement of its own or, with `into` and a name behind it, the
/// definition of that name.
pub proof fn law_a_pipeline_may_go_into_a_name(
    s: StreamView,
    i: int,
    run: Run<ExprView>,
    ends: Seq<int>,
    j: int,
    value: ExprView,
    name: Text,
    log: LogView,
)
    requires
        0 <= i,
        annotation_run(s, i, run, ends),
        !s.has(run_end(i, run), TokenView::Annotate),
        !s.has(run_end(i, run), TokenView::Keyword("let"@)),
        took(
            s,
            run_end(i, run),
            pipeline(s, run_end(i, run), LogView::start()),
            j,
            value,
        ),
    ensures
        s.has(j, TokenView::Keyword("into"@)) && s.has(j + 1, TokenView::Ident(name)) ==> stmt(
            s,
            i,
            log,
        ).hit == Some(
            (
                j + 2,
                statement(
                    items(run),
                    StmtKindView::VarDef { name, value, ty_expr: None, kind: VarDefKind::Into },
                    s,
                    i,
                    j + 2,
                ),
            ),
        ),
        !s.has(j, TokenView::Keyword("into"@)) ==> stmt(s, i, log).hit == Some(
            (j, statement(items(run), StmtKindView::Main(value), s, i, j)),
        ),
{
    lemma_annotations(s, i, run, ends, log);
    let notes = annotations(s, i, log);
    let at = notes.end;
    let def = let_def(s, at, notes.log);
    let quiet = def.log.rollback(notes.log.emitted.len());
    free_pipeline(s, at, LogView::start(), quiet);
    let found = pipeline(s, at, quiet);
    assert(var_def(s, at, notes.log) == main_def(s, at, quiet));
    lemma_place(s, i, j);
    if s.has(j, TokenView::Keyword("into"@)) && s.has(j + 1, TokenView::Ident(name)) {
        lemma_place(s, i, j + 2);
    }
}

spec fn with_itself(s: StreamView) -> Twins {
    Twins { p: Places::Kept, s, q: Places::Kept, t: s }
}

proof fn lemma_kept_stmt(st: StmtView)
    ensures
        place_stmt(Places::Kept, st) == st,
{
    lemma_kept_stmts(seq![st]);
    assert(place_stmts(Places::Kept, seq![st])[0] == place_stmt(Places::Kept, st));
}

proof fn lemma_stmt_free(s: StreamView, i: int, log: LogView)
    ensures
        stmt(s, i, log).hit == stmt(s, i, LogView::start()).hit,
{
    same_stmt(with_itself(s), i, log, LogView::start());
    if let Some((_, st)) = stmt(s, i, log).hit {
        lemma_kept_stmt(st);
    }
    if let Some((_, st)) = stmt(s, i, LogView::start()).hit {
        lemma_kept_stmt(st);
    }
}

/// Statements stand from `i` on, each on a line of its own; `starts` tells where they
/// begin.
pub open spec fn stmt_run(s: StreamView, i: int, run: Run<StmtView>, starts: Seq<int>) -> bool
    decreases run.len(),
{
    &&& starts.len() == run.len()
    &&& run.len() > 0 ==> {
        &&& lines(s, i, starts[0])
        &&& starts[0] == 0 || s.has(starts[0] - 1, TokenView::NewLine)
        &&& took(s, starts[0], stmt(s, starts[0], LogView::start()), run[0].0, run[0].1)
        &&& stmt_run(s, run[0].0, run.skip(1), starts.skip(1))
    }
}

/// What the rule takes from `i` on, and where that ends.
#[verifier::opaque]
spec fn all_stmts(s: StreamView, i: int, log: LogView) -> (Seq<StmtView>, int) {
    (stmts(s, i, log).found, stmts(s, i, log).end)
}

proof fn lemma_no_stmts(s: StreamView, i: int, log: LogView)
    requires
        lines(s, i, s.len()),
    ensures
        all_stmts(s, i, log).0 == Seq::<StmtView>::empty(),
        all_stmts(s, i, log).1 == s.len(),
{
    reveal(all_stmts);
    lemma_lines(s, i, s.len(), log);
    let start = new_lines(s, i, log);
    lemma_no_stmt(s, s.len(), start.log);
}

proof fn lemma_more_stmts(
    s: StreamView,
    i: int,
    start: int,
    end: int,
    st: StmtView,
    log: LogView,
) -> (rest: LogView)
    requires
        lines(s, i, start),
        start == 0 || s.has(start - 1, TokenView::NewLine),
        took(s, start, stmt(s, start, LogView::start()), end, st),
    ensures
        all_stmts(s, i, log).0 == seq![st] + all_stmts(s, end, rest).0,
        all_stmts(s, i, log).1 == all_stmts(s, end, rest).1,
{
    reveal(all_stmts);
    lemma_lines(s, i, start, log);
    let lead = new_lines(s, i, log);
    lemma_stmt_free(s, start, lead.log);
    let first = forward(s, i, stmt(s, start, lead.log));
    assert(first.hit == Some((end, st)));
    first.log
}

proof fn lemma_all_stmts(
    s: StreamView,
    i: int,
    run: Run<StmtView>,
    starts: Seq<int>,
    log: LogView,
)
    requires
        stmt_run(s, i, run, starts),
        lines(s, run_end(i, run), s.len()),
    ensures
        all_stmts(s, i, log).0 == items(run),
        all_stmts(s, i, log).1 == s.len(),
    decreases run.len(),
{
    if run.len() > 0 {
        let rest = lemma_more_stmts(s, i, starts[0], run[0].0, run[0].1, log);
        lemma_items(run);
        assert(run_end(run[0].0, run.skip(1)) == run_end(i, run));
        lemma_all_stmts(s, run[0].0, run.skip(1), starts.skip(1), rest);
    } else {
        lemma_no_stmts(s, i, log);
        assert(items(run) =~= Seq::empty());
    }
}

proof fn lemma_stmts(
    s: StreamView,
    i: int,
    run: Run<StmtView>,
    starts: Seq<int>,
    log: LogView,
)
    requires
        stmt_run(s, i, run, starts),
        lines(s, run_end(i, run), s.len()),
    ensures
        stmts(s, i, log).found == items(run),
        stmts(s, i, log).end == s.len(),
{
    lemma_all_stmts(s, i, run, starts, log);
    reveal(all_stmts);
}

proof fn lemma_no_stmt(s: StreamView, i: int, log: LogView)
    requires
        s.token(i) is None,
    ensures
        stmt(s, i, log).hit is None,
{
    let notes = annotations(s, i, log);
    let def = let_def(s, i, notes.log);
    let quiet = def.log.rollback(notes.log.emitted.len());
    crate::laws::quiet::lemma_pipeline(s, i, quiet);
}

/// A source holds its statements in the order in which they stand. If a header stands
/// first, it is the first statement.
pub proof fn law_a_source_holds_its_statements_in_order(
    s: StreamView,
    run: Run<StmtView>,
    starts: Seq<int>,
    h: int,
    head: StmtView,
)
    ensures
        query_def(s, 0, LogView::start()).hit is None && stmt_run(s, 0, run, starts) && lines(
            s,
            run_end(0, run),
            s.len(),
        ) ==> source(s).ast == Some(items(run)),
        took(s, 0, query_def(s, 0, LogView::start()), h, head) && stmt_run(s, h, run, starts)
            && lines(s, run_end(h, run), s.len()) ==> source(s).ast == Some(
            seq![head] + items(run),
        ),
{
    let def = query_def(s, 0, LogView::start());
    if def.hit is None && stmt_run(s, 0, run, starts) && lines(s, run_end(0, run), s.len()) {
        lemma_stmts(s, 0, run, starts, def.log.rollback(0));
    }
    if took(s, 0, def, h, head) && stmt_run(s, h, run, starts) && lines(
        s,
        run_end(h, run),
        s.len(),
    ) {
        lemma_stmts(s, h, run, starts, def.log);
    }
}

/// Arguments of a header stand from `i` on, one behind the other, each with a name that
/// none before it has.
pub open spec fn header_run(
    s: StreamView,
    given: Seq<NamedArgView>,
    i: int,
    run: Run<NamedArgView>,
) -> bool
    decreases run.len(),
{
    run.len() > 0 ==> {
        &&& s.has(i, TokenView::Ident(run[0].1.name))
        &&& s.has(i + 1, TokenView::Control(':'))
        &&& took(s, i + 2, expr(s, i + 2, LogView::start()), run[0].0, run[0].1.value)
        &&& forall|k: int| 0 <= k < given.len() ==> (#[trigger] given[k]).name != run[0].1.name
        &&& header_run(s, given.push(run[0].1), run[0].0, run.skip(1))
    }
}

proof fn lemma_absent(given: Seq<NamedArgView>, name: Text, i: int)
    requires
        0 <= i <= given.len(),
        forall|k: int| 0 <= k < given.len() ==> (#[trigger] given[k]).name != name,
    ensures
        named_index(given, name, i) == given.len(),
    decreases given.len() - i,
{
    if i < given.len() {
        lemma_absent(given, name, i + 1);
    }
}

proof fn lemma_more_header_args(
    s: StreamView,
    given: Seq<NamedArgView>,
    i: int,
    end: int,
    one: NamedArgView,
    log: LogView,
) -> (rest: LogView)
    requires
        0 <= i,
        s.has(i, TokenView::Ident(one.name)),
        s.has(i + 1, TokenView::Control(':')),
        took(s, i + 2, expr(s, i + 2, LogView::start()), end, one.value),
        forall|k: int| 0 <= k < given.len() ==> (#[trigger] given[k]).name != one.name,
    ensures
        all_header_args(s, given, i, log) == all_header_args(s, given.push(one), end, rest),
{
    reveal(all_header_args);
    free_expr(s, i + 2, LogView::start(), log);
    let first = forward(s, i, named_arg(s, i, log));
    lemma_absent(given, one.name, 0);
    assert(with_named(given, one.name, one.value) == given.push(one));
    first.log
}

/// What the rule takes from `i` on, and where that ends.
#[verifier::opaque]
spec fn all_header_args(s: StreamView, given: Seq<NamedArgView>, i: int, log: LogView) -> (
    Seq<NamedArgView>,
    int,
) {
    (header_args(s, given, i, log).found, header_args(s, given, i, log).end)
}

proof fn lemma_all_header_args(
    s: StreamView,
    given: Seq<NamedArgView>,
    i: int,
    run: Run<NamedArgView>,
    log: LogView,
)
    requires
        0 <= i,
        header_run(s, given, i, run),
        !s.has(run_end(i, run) + 1, TokenView::Control(':')),
    ensures
        all_header_args(s, given, i, log) == (given + items(run), run_end(i, run)),
        i <= run_end(i, run),
    decreases run.len(),
{
    if run.len() > 0 {
        let one = run[0].1;
        let rest = lemma_more_header_args(s, given, i, run[0].0, one, log);
        lemma_items(run);
        assert(run_end(run[0].0, run.skip(1)) == run_end(i, run));
        lemma_all_header_args(s, given.push(one), run[0].0, run.skip(1), rest);
        assert(given.push(one) + items(run.skip(1)) =~= given + items(run));
    } else {
        assert(given + items(run) =~= given);
        reveal(all_header_args);
    }
}

proof fn lemma_header_args(
    s: StreamView,
    given: Seq<NamedArgView>,
    i: int,
    run: Run<NamedArgView>,
    log: LogView,
)
    requires
        0 <= i,
        header_run(s, given, i, run),
        !s.has(run_end(i, run) + 1, TokenView::Control(':')),
    ensures
        header_args(s, given, i, log).found == given + items(run),
        header_args(s, given, i, log).end == run_end(i, run),
        i <= run_end(i, run),
{
    lemma_all_header_args(s, given, i, run, log);
    reveal(all_header_args);
}

/// The names with a dot between any two.
pub open spec fn with_dots(names: Seq<Text>) -> Text
    decreases names.len(),
{
    if names.len() == 0 {
        Seq::empty()
    } else if names.len() == 1 {
        names[0]
    } else {
        names[0] + seq!['.'] + with_dots(names.skip(1))
    }
}

proof fn lemma_dots(names: Seq<Text>, last: Text)
    requires
        names.len() > 0,
    ensures
        with_dots(names.push(last)) == with_dots(names) + seq!['.'] + last,
    decreases names.len(),
{
    let all = names.push(last);
    if names.len() == 1 {
        assert(all.skip(1) =~= seq![last]);
        assert(with_dots(all.skip(1)) == last);
    } else {
        lemma_dots(names.skip(1), last);
        assert(all.skip(1) =~= names.skip(1).push(last));
        assert(names[0] + seq!['.'] + (with_dots(names.skip(1)) + seq!['.'] + last) =~= (names[0]
            + seq!['.'] + with_dots(names.skip(1))) + seq!['.'] + last);
    }
}

/// The names of a target are joined by dots, in the order in which they stand.
pub proof fn law_a_target_is_its_names_with_dots(names: Seq<Text>)
    ensures
        dotted(names) == with_dots(names),
    decreases names.len(),
{
    reveal_strlit(".");
    if names.len() > 1 {
        let before = names.drop_last();
        law_a_target_is_its_names_with_dots(before);
        lemma_dots(before, names.last());
        assert(before.push(names.last()) =~= names);
        assert("."@ =~= seq!['.']);
    }
}

/// A header asks for the version that its argument of that name writes as a string, and
/// names as its target what its argument of that name writes as an identifier. It takes
/// its arguments behind `prql`, up to the line break.
#[verifier::spinoff_prover]
#[verifier::rlimit(40)]
pub proof fn law_a_header_has_its_version_and_its_target(
    s: StreamView,
    i: int,
    start: int,
    run: Run<NamedArgView>,
    k: int,
    text: Text,
    n: int,
    names: Seq<Text>,
    log: LogView,
)
    requires
        0 <= i,
        lines(s, i, start),
        s.has(start, TokenView::Keyword("prql"@)),
        header_run(s, Seq::empty(), start + 1, run),
        s.has(run_end(start + 1, run), TokenView::NewLine),
        !s.has(run_end(start + 1, run) + 1, TokenView::Control(':')),
    ensures
        ({
            let args = items(run);
            let no_version = forall|m: int|
                0 <= m < args.len() ==> (#[trigger] args[m]).name != "version"@;
            let no_target = forall|m: int|
                0 <= m < args.len() ==> (#[trigger] args[m]).name != "target"@;
            let has_version = 0 <= k < args.len() && args[k].name == "version"@
                && args[k].value.kind == ExprKindView::Literal(LiteralView::String(text));
            let has_target = 0 <= n < args.len() && args[n].name == "target"@
                && args[n].value.kind == ExprKindView::Ident(names);
            let end = run_end(start + 1, run) + 1;
            (no_version || has_version) && (no_target || has_target) ==> query_def(
                s,
                i,
                log,
            ).hit == Some(
                (
                    end,
                    statement(
                        Seq::empty(),
                        StmtKindView::QueryDef {
                            version: if no_version {
                                None
                            } else {
                                Some(text)
                            },
                            other: if no_target {
                                Seq::empty()
                            } else {
                                seq![("target"@, with_dots(names))]
                            },
                        },
                        s,
                        i,
                        end,
                    ),
                ),
            )
        }),
{
    let args = items(run);
    lemma_lines(s, i, start, log);
    let lead = new_lines(s, i, log);
    lemma_header_args(s, Seq::empty(), start + 1, run, lead.log);
    assert(Seq::<NamedArgView>::empty() + args =~= args);
    lemma_header_distinct(s, Seq::empty(), start + 1, run);
    law_a_target_is_its_names_with_dots(names);
    if forall|m: int| 0 <= m < args.len() ==> (#[trigger] args[m]).name != "version"@ {
        lemma_absent(args, "version"@, 0);
    }
    if forall|m: int| 0 <= m < args.len() ==> (#[trigger] args[m]).name != "target"@ {
        lemma_absent(args, "target"@, 0);
    }
    if 0 <= k < args.len() && args[k].name == "version"@ {
        lemma_present(args, "version"@, 0, k);
    }
    if 0 <= n < args.len() && args[n].name == "target"@ {
        lemma_present(args, "target"@, 0, n);
    }
    lemma_place(s, i, run_end(start + 1, run) + 1);
}

proof fn lemma_present(args: Seq<NamedArgView>, name: Text, i: int, k: int)
    requires
        0 <= i <= k < args.len(),
        args[k].name == name,
        forall|a: int, b: int|
            0 <= a < b < args.len() ==> (#[trigger] args[a]).name != (#[trigger] args[b]).name,
    ensures
        named_index(args, name, i) == k,
    decreases k - i,
{
    if i < k {
        assert(args[i].name != args[k].name);
        lemma_present(args, name, i + 1, k);
    }
}

proof fn lemma_header_distinct(
    s: StreamView,
    given: Seq<NamedArgView>,
    i: int,
    run: Run<NamedArgView>,
)
    requires
        header_run(s, given, i, run),
        forall|a: int, b: int|
            0 <= a < b < given.len() ==> (#[trigger] given[a]).name != (#[trigger] given[b]).name,
    ensures
        ({
            let all = given + items(run);
            forall|a: int, b: int|
                0 <= a < b < all.len() ==> (#[trigger] all[a]).name != (#[trigger] all[b]).name
        }),
    decreases run.len(),
{
    if run.len() > 0 {
        let one = run[0].1;
        lemma_header_distinct(s, given.push(one), run[0].0, run.skip(1));
        assert(given.push(one) + items(run.skip(1)) =~= given + items(run));
    } else {
        assert(given + items(run) =~= given);
    }
}

/// A header is at fault once for a version that is no string, once for a target that is no
/// identifier, and once if it has an argument of any other name.
pub proof fn law_a_header_is_at_fault_for_its_arguments_only(
    args: Seq<NamedArgView>,
    k: int,
    n: int,
    span: Span,
    log: LogView,
)
    requires
        forall|a: int, b: int|
            0 <= a < b < args.len() ==> (#[trigger] args[a]).name != (#[trigger] args[b]).name,
        (0 <= k < args.len() && args[k].name == "version"@) || forall|m: int|
            0 <= m < args.len() ==> (#[trigger] args[m]).name != "version"@,
        (0 <= n < args.len() && args[n].name == "target"@) || forall|m: int|
            0 <= m < args.len() ==> (#[trigger] args[m]).name != "target"@,
    ensures
        ({
            let bad_version: int = if 0 <= k < args.len() && args[k].name == "version"@ && !(
            args[k].value.kind matches ExprKindView::Literal(LiteralView::String(_))) {
                1
            } else {
                0
            };
            let bad_target: int = if 0 <= n < args.len() && args[n].name == "target"@ && !(
            args[n].value.kind is Ident) {
                1
            } else {
                0
            };
            let unknown: int = if forall|m: int|
                0 <= m < args.len() ==> (#[trigger] args[m]).name == "version"@ || args[m].name
                    == "target"@ {
                0
            } else {
                1
            };
            check_header(args, span, log).emitted.len() == log.emitted.len() + bad_version
                + bad_target + unknown
        }),
{
    reveal(LogView::emit);
    if forall|m: int| 0 <= m < args.len() ==> (#[trigger] args[m]).name != "version"@ {
        lemma_absent(args, "version"@, 0);
    } else {
        lemma_present(args, "version"@, 0, k);
    }
    if forall|m: int| 0 <= m < args.len() ==> (#[trigger] args[m]).name != "target"@ {
        lemma_absent(args, "target"@, 0);
    } else {
        lemma_present(args, "target"@, 0, n);
    }
    assert((forall|m: int|
        0 <= m < args.len() ==> crate::source_grammar::is_known(#[trigger] args[m].name)) <==> (
    forall|m: int|
        0 <= m < args.len() ==> (#[trigger] args[m]).name == "version"@ || args[m].name
            == "target"@)) by {
        if forall|m: int|
            0 <= m < args.len() ==> (#[trigger] args[m]).name == "version"@ || args[m].name
                == "target"@ {
            assert forall|m: int| 0 <= m < args.len() implies crate::source_grammar::is_known(
                #[trigger] args[m].name,
            ) by {}
        } else {
            let m = choose|m: int|
                0 <= m < args.len() && !((#[trigger] args[m]).name == "version"@ || args[m].name
                    == "target"@);
            assert(!crate::source_grammar::is_known(args[m].name));
        }
    }
}

} // verus!
