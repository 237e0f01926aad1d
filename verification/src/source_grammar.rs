//! The grammar of statements, and of a source as a whole.
use vstd::prelude::*;

use crate::ast::{
    ExprKindView, ExprView, LiteralView, NamedArgView, StmtKindView, StmtView, Text, VarDefKind,
};
use crate::common::{any_name, just, stmt_at};
use crate::error::{custom_error, PErrorView};
use crate::grammar::{
    expr, expr_call, forward, hit, lemma_new_lines, miss, named_arg, named_index, new_lines,
    nothing, pipeline, prepend, type_annotation, with_named, ArgView, Step, Taken,
};
use crate::lexer::token::TokenView;
use crate::log::LogView;
use crate::span::Span;
use crate::stream::StreamView;

verus! {

/// `{name ":" expr}`, behind the arguments that were given before. Of two with the
/// same name the later counts.
pub open spec fn header_args(
    s: StreamView,
    given: Seq<NamedArgView>,
    i: int,
    log: LogView,
) -> Taken<Seq<NamedArgView>>
    decreases s.len() - i,
{
    let first = forward(s, i, named_arg(s, i, log));
    match first.hit {
        Some((end, ArgView::Named(name, value))) => header_args(
            s,
            with_named(given, name, value),
            end,
            first.log,
        ),
        _ => Taken { found: given, end: i, log: first.log.rollback(log.emitted.len()) },
    }
}

/// The argument of that name.
pub open spec fn value_of(args: Seq<NamedArgView>, name: Text) -> Option<ExprView> {
    let i = named_index(args, name, 0);
    if i < args.len() {
        Some(args[i].value)
    } else {
        None
    }
}

/// The version that a header asks for.
pub open spec fn version(args: Seq<NamedArgView>) -> Option<Text> {
    match value_of(args, "version"@) {
        Some(e) => match e.kind {
            ExprKindView::Literal(LiteralView::String(v)) => Some(v),
            _ => None,
        },
        None => None,
    }
}

/// Names with a dot between any two of them.
pub open spec fn dotted(names: Seq<Text>) -> Text
    decreases names.len(),
{
    if names.len() == 0 {
        Seq::empty()
    } else if names.len() == 1 {
        names[0]
    } else {
        dotted(names.drop_last()) + "."@ + names.last()
    }
}

/// The target that a header names.
pub open spec fn target(args: Seq<NamedArgView>) -> Option<Text> {
    match value_of(args, "target"@) {
        Some(e) => match e.kind {
            ExprKindView::Ident(names) => Some(dotted(names)),
            _ => None,
        },
        None => None,
    }
}

/// Whether a header can have an argument of that name.
pub open spec fn is_known(name: Text) -> bool {
    name == "version"@ || name == "target"@
}

/// The log with the errors of a header's arguments.
pub open spec fn check_header(args: Seq<NamedArgView>, span: Span, log: LogView) -> LogView {
    let log = if value_of(args, "version"@) is Some && version(args) is None {
        log.emit(custom_error(span, "version must be a string literal"@))
    } else {
        log
    };
    let log = if value_of(args, "target"@) is Some && target(args) is None {
        log.emit(custom_error(span, "target must be an identifier"@))
    } else {
        log
    };
    if forall|i: int| 0 <= i < args.len() ==> is_known(#[trigger] args[i].name) {
        log
    } else {
        log.emit(custom_error(span, "unknown argument of the query definition"@))
    }
}

/// The header with those arguments.
pub open spec fn header(args: Seq<NamedArgView>) -> StmtKindView {
    StmtKindView::QueryDef {
        version: version(args),
        other: match target(args) {
            Some(t) => seq![("target"@, t)],
            None => Seq::empty(),
        },
    }
}

/// `new_lines "prql" {name ":" expr} new_line`
pub open spec fn query_def(s: StreamView, i: int, log: LogView) -> Step<StmtView> {
    let start = new_lines(s, i, log);
    if s.has(start.end, TokenView::Keyword("prql"@)) {
        let args = header_args(s, Seq::empty(), start.end + 1, start.log);
        if s.has(args.end, TokenView::NewLine) {
            let span = s.span_since(i, args.end + 1);
            hit(
                args.end + 1,
                stmt_at(Seq::empty(), header(args.found), span),
                check_header(args.found, span, args.log),
            )
        } else {
            miss(args.log.note(args.end, just(TokenView::NewLine)))
        }
    } else {
        miss(start.log.note(start.end, just(TokenView::Keyword("prql"@))))
    }
}

/// `{"@" expr new_lines}`
pub open spec fn annotations(s: StreamView, i: int, log: LogView) -> Taken<Seq<ExprView>>
    decreases s.len() - i,
{
    if s.has(i, TokenView::Annotate) {
        let first = forward(s, i, expr(s, i + 1, log));
        match first.hit {
            Some((j, e)) => {
                proof {
                    lemma_new_lines(s, j, first.log);
                }
                let end = new_lines(s, j, first.log);
                let rest = annotations(s, end.end, end.log);
                prepend(e, rest)
            },
            None => nothing(i, first.log.rollback(log.emitted.len())),
        }
    } else {
        nothing(i, log.note(i, just(TokenView::Annotate)))
    }
}

/// `"let" name type_annotation "=" expr_call`
pub open spec fn let_def(s: StreamView, i: int, log: LogView) -> Step<StmtKindView> {
    if !s.has(i, TokenView::Keyword("let"@)) {
        miss(log.note(i, just(TokenView::Keyword("let"@))))
    } else {
        match s.token(i + 1) {
            Some(TokenView::Ident(name)) => {
                let ty = type_annotation(s, i + 2, log);
                if s.has(ty.end, TokenView::Control('=')) {
                    let value = expr_call(s, ty.end + 1, ty.log);
                    match value.hit {
                        Some((end, e)) => hit(
                            end,
                            StmtKindView::VarDef {
                                name,
                                value: e,
                                ty_expr: ty.found,
                                kind: VarDefKind::Let,
                            },
                            value.log,
                        ),
                        None => miss(value.log),
                    }
                } else {
                    miss(ty.log.note(ty.end, just(TokenView::Control('='))))
                }
            },
            _ => miss(log.note(i + 1, just(any_name()))),
        }
    }
}

/// `["into" name]`
pub open spec fn into_name(s: StreamView, i: int, log: LogView) -> Taken<Option<Text>> {
    if !s.has(i, TokenView::Keyword("into"@)) {
        Taken { found: None, end: i, log: log.note(i, just(TokenView::Keyword("into"@))) }
    } else {
        match s.token(i + 1) {
            Some(TokenView::Ident(name)) => Taken { found: Some(name), end: i + 2, log },
            _ => Taken { found: None, end: i, log: log.note(i + 1, just(any_name())) },
        }
    }
}

/// `pipeline into_name`
pub open spec fn main_def(s: StreamView, i: int, log: LogView) -> Step<StmtKindView> {
    let value = pipeline(s, i, log);
    match value.hit {
        Some((j, e)) => {
            let name = into_name(s, j, value.log);
            match name.found {
                Some(name_text) => hit(
                    name.end,
                    StmtKindView::VarDef {
                        name: name_text,
                        value: e,
                        ty_expr: None,
                        kind: VarDefKind::Into,
                    },
                    name.log,
                ),
                None => hit(name.end, StmtKindView::Main(e), name.log),
            }
        },
        None => miss(value.log),
    }
}

/// `let_def | main_def`
pub open spec fn var_def(s: StreamView, i: int, log: LogView) -> Step<StmtKindView> {
    let def = let_def(s, i, log);
    if def.hit is Some {
        def
    } else {
        main_def(s, i, def.log.rollback(log.emitted.len()))
    }
}

/// `annotations var_def`
pub open spec fn stmt(s: StreamView, i: int, log: LogView) -> Step<StmtView> {
    let notes = annotations(s, i, log);
    let def = var_def(s, notes.end, notes.log);
    match def.hit {
        Some((end, kind)) => hit(
            end,
            stmt_at(notes.found, kind, s.span_since(i, end)),
            def.log,
        ),
        None => miss(def.log),
    }
}

/// Whether a line begins at `i`.
pub open spec fn on_new_line(s: StreamView, i: int) -> bool {
    i == 0 || s.has(i - 1, TokenView::NewLine)
}

/// `{new_lines stmt} new_lines`, each statement on a line of its own.
pub open spec fn stmts(s: StreamView, i: int, log: LogView) -> Taken<Seq<StmtView>>
    decreases s.len() - i,
{
    let start = new_lines(s, i, log);
    if on_new_line(s, start.end) {
        let first = forward(s, i, stmt(s, start.end, start.log));
        match first.hit {
            Some((end, st)) => {
                let rest = stmts(s, end, first.log);
                prepend(st, rest)
            },
            None => nothing(start.end, first.log.rollback(start.log.emitted.len())),
        }
    } else {
        nothing(start.end, start.log)
    }
}

/// What the parser makes of a source, with the errors that it found.
pub struct ParsedView {
    pub ast: Option<Seq<StmtView>>,
    pub errors: Seq<PErrorView>,
}

/// `[query_def] stmts end`
pub open spec fn source(s: StreamView) -> ParsedView {
    let def = query_def(s, 0, LogView::start());
    let body = match def.hit {
        Some((start, head)) => stmts(s, start, def.log),
        None => stmts(s, 0, def.log.rollback(0)),
    };
    let ast = match def.hit {
        Some((_, head)) => seq![head] + body.found,
        None => body.found,
    };
    if body.end == s.len() {
        ParsedView { ast: Some(ast), errors: body.log.emitted }
    } else {
        ParsedView { ast: None, errors: body.log.note(body.end, seq![None]).failure(s) }
    }
}

/// `expr_call end`
pub open spec fn single_expr(s: StreamView) -> Result<ExprView, Seq<PErrorView>> {
    let e = expr_call(s, 0, LogView::start());
    match e.hit {
        Some((end, found)) => if end != s.len() {
            Err(e.log.note(end, seq![None]).failure(s))
        } else if e.log.emitted.len() > 0 {
            Err(e.log.emitted)
        } else {
            Ok(found)
        },
        None => Err(e.log.failure(s)),
    }
}

} // verus!
