//! Trees and errors with other places in them.
use vstd::prelude::*;

use crate::ast::{
    ExprKindView, ExprView, FuncParamView, InterpolateItemView, NamedArgView, StmtKindView,
    StmtView, SwitchCaseView,
};
use crate::error::{ErrorView, PErrorView};
use crate::span::Span;

verus! {

/// What becomes of the places in a tree.
pub enum Places {
    /// They stay.
    Kept,
    /// They are moved, as they are, into another source.
    MovedTo(u16),
    /// They are forgotten.
    Dropped,
}

/// What becomes of one place.
pub open spec fn place(p: Places, span: Span) -> Span {
    match p {
        Places::Kept => span,
        Places::MovedTo(source_id) => Span { start: span.start, end: span.end, source_id },
        Places::Dropped => Span { start: 0, end: 0, source_id: 0 },
    }
}

pub open spec fn opt_place(p: Places, span: Option<Span>) -> Option<Span> {
    match span {
        Some(span) => Some(place(p, span)),
        None => None,
    }
}

/// An expression with other places.
pub open spec fn place_expr(p: Places, e: ExprView) -> ExprView
    decreases e,
{
    ExprView { kind: place_kind(p, e.kind), span: opt_place(p, e.span), alias: e.alias }
}

pub open spec fn place_kind(p: Places, kind: ExprKindView) -> ExprKindView
    decreases kind,
{
    match kind {
        ExprKindView::Ident(names) => ExprKindView::Ident(names),
        ExprKindView::Literal(literal) => ExprKindView::Literal(literal),
        ExprKindView::Pipeline(exprs) => ExprKindView::Pipeline(place_exprs(p, exprs)),
        ExprKindView::Tuple(exprs) => ExprKindView::Tuple(place_exprs(p, exprs)),
        ExprKindView::Array(exprs) => ExprKindView::Array(place_exprs(p, exprs)),
        ExprKindView::Range(start, end) => ExprKindView::Range(
            place_boxed(p, start),
            place_boxed(p, end),
        ),
        ExprKindView::Binary(left, op, right) => ExprKindView::Binary(
            Box::new(place_expr(p, *left)),
            op,
            Box::new(place_expr(p, *right)),
        ),
        ExprKindView::Unary(op, e) => ExprKindView::Unary(op, Box::new(place_expr(p, *e))),
        ExprKindView::FuncCall { name, args, named_args } => ExprKindView::FuncCall {
            name: Box::new(place_expr(p, *name)),
            args: place_exprs(p, args),
            named_args: place_named(p, named_args),
        },
        ExprKindView::Func { return_ty, body, params, named_params } => ExprKindView::Func {
            return_ty: place_boxed(p, return_ty),
            body: Box::new(place_expr(p, *body)),
            params: place_params(p, params),
            named_params: place_params(p, named_params),
        },
        ExprKindView::SString(items) => ExprKindView::SString(place_items(p, items)),
        ExprKindView::FString(items) => ExprKindView::FString(place_items(p, items)),
        ExprKindView::Case(cases) => ExprKindView::Case(place_cases(p, cases)),
        ExprKindView::Param(name) => ExprKindView::Param(name),
    }
}

pub open spec fn place_boxed(p: Places, e: Option<Box<ExprView>>) -> Option<Box<ExprView>>
    decreases e,
{
    match e {
        Some(e) => Some(Box::new(place_expr(p, *e))),
        None => None,
    }
}

pub open spec fn place_named_arg(p: Places, arg: NamedArgView) -> NamedArgView
    decreases arg,
{
    NamedArgView { name: arg.name, value: place_expr(p, arg.value) }
}

pub open spec fn place_param(p: Places, param: FuncParamView) -> FuncParamView
    decreases param,
{
    FuncParamView {
        name: param.name,
        ty_expr: place_boxed(p, param.ty_expr),
        default_value: place_boxed(p, param.default_value),
    }
}

pub open spec fn place_item(p: Places, item: InterpolateItemView) -> InterpolateItemView
    decreases item,
{
    match item {
        InterpolateItemView::String(text) => InterpolateItemView::String(text),
        InterpolateItemView::Expr(e, format) => InterpolateItemView::Expr(
            Box::new(place_expr(p, *e)),
            format,
        ),
    }
}

pub open spec fn place_case(p: Places, case: SwitchCaseView) -> SwitchCaseView
    decreases case,
{
    SwitchCaseView {
        condition: place_expr(p, case.condition),
        value: place_expr(p, case.value),
    }
}

pub open spec fn place_exprs(p: Places, s: Seq<ExprView>) -> Seq<ExprView>
    decreases s,
{
    Seq::new(
        s.len(),
        |i: int|
            if 0 <= i < s.len() {
                place_expr(p, s[i])
            } else {
                arbitrary()
            },
    )
}

pub open spec fn place_named(p: Places, s: Seq<NamedArgView>) -> Seq<NamedArgView>
    decreases s,
{
    Seq::new(
        s.len(),
        |i: int|
            if 0 <= i < s.len() {
                place_named_arg(p, s[i])
            } else {
                arbitrary()
            },
    )
}

pub open spec fn place_params(p: Places, s: Seq<FuncParamView>) -> Seq<FuncParamView>
    decreases s,
{
    Seq::new(
        s.len(),
        |i: int|
            if 0 <= i < s.len() {
                place_param(p, s[i])
            } else {
                arbitrary()
            },
    )
}

pub open spec fn place_items(p: Places, s: Seq<InterpolateItemView>) -> Seq<InterpolateItemView>
    decreases s,
{
    Seq::new(
        s.len(),
        |i: int|
            if 0 <= i < s.len() {
                place_item(p, s[i])
            } else {
                arbitrary()
            },
    )
}

pub open spec fn place_cases(p: Places, s: Seq<SwitchCaseView>) -> Seq<SwitchCaseView>
    decreases s,
{
    Seq::new(
        s.len(),
        |i: int|
            if 0 <= i < s.len() {
                place_case(p, s[i])
            } else {
                arbitrary()
            },
    )
}

pub open spec fn place_opt(p: Places, e: Option<ExprView>) -> Option<ExprView> {
    match e {
        Some(e) => Some(place_expr(p, e)),
        None => None,
    }
}

pub open spec fn place_stmt_kind(p: Places, kind: StmtKindView) -> StmtKindView {
    match kind {
        StmtKindView::QueryDef { version, other } => StmtKindView::QueryDef { version, other },
        StmtKindView::Main(e) => StmtKindView::Main(place_expr(p, e)),
        StmtKindView::VarDef { name, value, ty_expr, kind } => StmtKindView::VarDef {
            name,
            value: place_expr(p, value),
            ty_expr: place_opt(p, ty_expr),
            kind,
        },
    }
}

/// A statement with other places.
pub open spec fn place_stmt(p: Places, stmt: StmtView) -> StmtView {
    StmtView {
        kind: place_stmt_kind(p, stmt.kind),
        span: opt_place(p, stmt.span),
        annotations: place_exprs(p, stmt.annotations),
    }
}

pub open spec fn place_stmts(p: Places, s: Seq<StmtView>) -> Seq<StmtView> {
    Seq::new(s.len(), |i: int| place_stmt(p, s[i]))
}

pub open spec fn place_perror(p: Places, e: PErrorView) -> PErrorView {
    PErrorView {
        span: place(p, e.span),
        reason: e.reason,
        expected: e.expected,
        found: e.found,
    }
}

pub open spec fn place_perrors(p: Places, s: Seq<PErrorView>) -> Seq<PErrorView> {
    Seq::new(s.len(), |i: int| place_perror(p, s[i]))
}

/// An error with another place.
pub open spec fn place_error(p: Places, e: ErrorView) -> ErrorView {
    ErrorView { span: place(p, e.span), reason: e.reason }
}

pub open spec fn place_errors(p: Places, s: Seq<ErrorView>) -> Seq<ErrorView> {
    Seq::new(s.len(), |i: int| place_error(p, s[i]))
}

/// A tree whose places stay is the same tree.
pub proof fn lemma_kept_expr(e: ExprView)
    ensures
        place_expr(Places::Kept, e) == e,
    decreases e,
{
    lemma_kept_kind(e.kind);
}

proof fn lemma_kept_kind(kind: ExprKindView)
    ensures
        place_kind(Places::Kept, kind) == kind,
    decreases kind,
{
    match kind {
        ExprKindView::Ident(_) => {},
        ExprKindView::Literal(_) => {},
        ExprKindView::Pipeline(exprs) => {
            lemma_kept_exprs(exprs);
        },
        ExprKindView::Tuple(exprs) => {
            lemma_kept_exprs(exprs);
        },
        ExprKindView::Array(exprs) => {
            lemma_kept_exprs(exprs);
        },
        ExprKindView::Range(start, end) => {
            lemma_kept_boxed(start);
            lemma_kept_boxed(end);
        },
        ExprKindView::Binary(left, _, right) => {
            lemma_kept_expr(*left);
            lemma_kept_expr(*right);
        },
        ExprKindView::Unary(_, e) => {
            lemma_kept_expr(*e);
        },
        ExprKindView::FuncCall { name, args, named_args } => {
            lemma_kept_expr(*name);
            lemma_kept_exprs(args);
            assert forall|i: int| 0 <= i < named_args.len() implies place_named_arg(
                Places::Kept,
                #[trigger] named_args[i],
            ) == named_args[i] by {
                lemma_kept_expr(named_args[i].value);
            }
            assert(place_named(Places::Kept, named_args) =~= named_args);
        },
        ExprKindView::Func { return_ty, body, params, named_params } => {
            lemma_kept_boxed(return_ty);
            lemma_kept_expr(*body);
            lemma_kept_params(params);
            lemma_kept_params(named_params);
        },
        ExprKindView::SString(items) => {
            lemma_kept_items(items);
        },
        ExprKindView::FString(items) => {
            lemma_kept_items(items);
        },
        ExprKindView::Case(cases) => {
            assert forall|i: int| 0 <= i < cases.len() implies place_case(
                Places::Kept,
                #[trigger] cases[i],
            ) == cases[i] by {
                lemma_kept_expr(cases[i].condition);
                lemma_kept_expr(cases[i].value);
            }
            assert(place_cases(Places::Kept, cases) =~= cases);
        },
        ExprKindView::Param(_) => {},
    }
}

pub(crate) proof fn lemma_kept_boxed(e: Option<Box<ExprView>>)
    ensures
        place_boxed(Places::Kept, e) == e,
    decreases e,
{
    if let Some(e) = e {
        lemma_kept_expr(*e);
    }
}

pub(crate) proof fn lemma_kept_exprs(s: Seq<ExprView>)
    ensures
        place_exprs(Places::Kept, s) == s,
    decreases s,
{
    assert forall|i: int| 0 <= i < s.len() implies place_expr(
        Places::Kept,
        #[trigger] s[i],
    ) == s[i] by {
        lemma_kept_expr(s[i]);
    }
    assert(place_exprs(Places::Kept, s) =~= s);
}

proof fn lemma_kept_params(s: Seq<FuncParamView>)
    ensures
        place_params(Places::Kept, s) == s,
    decreases s,
{
    assert forall|i: int| 0 <= i < s.len() implies place_param(
        Places::Kept,
        #[trigger] s[i],
    ) == s[i] by {
        lemma_kept_boxed(s[i].ty_expr);
        lemma_kept_boxed(s[i].default_value);
    }
    assert(place_params(Places::Kept, s) =~= s);
}

proof fn lemma_kept_items(s: Seq<InterpolateItemView>)
    ensures
        place_items(Places::Kept, s) == s,
    decreases s,
{
    assert forall|i: int| 0 <= i < s.len() implies place_item(
        Places::Kept,
        #[trigger] s[i],
    ) == s[i] by {
        if let InterpolateItemView::Expr(e, _) = s[i] {
            lemma_kept_expr(*e);
        }
    }
    assert(place_items(Places::Kept, s) =~= s);
}

pub proof fn lemma_kept_stmts(s: Seq<StmtView>)
    ensures
        place_stmts(Places::Kept, s) == s,
{
    assert forall|i: int| 0 <= i < s.len() implies place_stmt(
        Places::Kept,
        #[trigger] s[i],
    ) == s[i] by {
        lemma_kept_exprs(s[i].annotations);
        match s[i].kind {
            StmtKindView::QueryDef { version, other } => {},
            StmtKindView::Main(e) => {
                lemma_kept_expr(e);
            },
            StmtKindView::VarDef { name, value, ty_expr, kind } => {
                lemma_kept_expr(value);
                if let Some(ty) = ty_expr {
                    lemma_kept_expr(ty);
                }
            },
        }
    }
    assert(place_stmts(Places::Kept, s) =~= s);
}

} // verus!
