//! The syntax tree, and the mathematical tree that stands for it in contracts.
//!
//! Each type of the tree has a `view`: the same tree with sequences of
//! characters for strings and sequences for vectors.
use vstd::prelude::*;

use crate::span::Span;

verus! {

/// A literal value.
///
/// A number that is not an integer keeps its decimal text, without the
/// underscores that may group its digits.
#[derive(Debug, PartialEq, Eq, Hash)]
pub enum Literal {
    Null,
    Integer(i64),
    Float(String),
    Boolean(bool),
    String(String),
    Date(String),
    Time(String),
    Timestamp(String),
    ValueAndUnit(ValueAndUnit),
}

/// A duration such as `2years`.
#[derive(Debug, PartialEq, Eq, Hash)]
pub struct ValueAndUnit {
    pub n: i64,
    pub unit: String,
}

#[derive(Clone, Copy, Debug, PartialEq, Eq, Structural)]
pub enum UnOp {
    Neg,
    Add,
    Not,
    EqSelf,
}

#[derive(Clone, Copy, Debug, PartialEq, Eq, Structural)]
pub enum BinOp {
    Mul,
    DivInt,
    DivFloat,
    Mod,
    Add,
    Sub,
    Eq,
    Ne,
    Gt,
    Lt,
    Gte,
    Lte,
    RegexSearch,
    And,
    Or,
    Coalesce,
}

/// A name with its qualifiers, outermost first: `rel.col` is `["rel", "col"]`.
#[derive(Debug, PartialEq, Eq)]
pub struct Ident {
    pub path: Vec<String>,
}

/// An expression with the place it came from and the name given to its value.
#[derive(Debug, PartialEq, Eq)]
pub struct Expr {
    pub kind: ExprKind,
    pub span: Option<Span>,
    pub alias: Option<String>,
}

#[derive(Debug, PartialEq, Eq)]
pub enum ExprKind {
    Ident(Ident),
    Literal(Literal),
    Pipeline(Pipeline),
    Tuple(Vec<Expr>),
    Array(Vec<Expr>),
    Range(Range),
    Binary(BinaryExpr),
    Unary(UnaryExpr),
    FuncCall(FuncCall),
    Func(Func),
    SString(Vec<InterpolateItem>),
    FString(Vec<InterpolateItem>),
    Case(Vec<SwitchCase>),
    Param(String),
}

/// Steps that feed each its value to the next.
#[derive(Debug, PartialEq, Eq)]
pub struct Pipeline {
    pub exprs: Vec<Expr>,
}

/// A range that is open where a bound is missing.
#[derive(Debug, PartialEq, Eq)]
pub struct Range {
    pub start: Option<Box<Expr>>,
    pub end: Option<Box<Expr>>,
}

#[derive(Debug, PartialEq, Eq)]
pub struct BinaryExpr {
    pub left: Box<Expr>,
    pub op: BinOp,
    pub right: Box<Expr>,
}

#[derive(Debug, PartialEq, Eq)]
pub struct UnaryExpr {
    pub op: UnOp,
    pub expr: Box<Expr>,
}

/// A call. No name occurs twice among `named_args`; they stand in the order in
/// which they were first given.
#[derive(Debug, PartialEq, Eq)]
pub struct FuncCall {
    pub name: Box<Expr>,
    pub args: Vec<Expr>,
    pub named_args: Vec<NamedArg>,
}

#[derive(Debug, PartialEq, Eq)]
pub struct NamedArg {
    pub name: String,
    pub value: Expr,
}

/// A function: the parameters without a default, then those with one.
#[derive(Debug, PartialEq, Eq)]
pub struct Func {
    pub return_ty: Option<Box<Expr>>,
    pub body: Box<Expr>,
    pub params: Vec<FuncParam>,
    pub named_params: Vec<FuncParam>,
}

#[derive(Debug, PartialEq, Eq)]
pub struct FuncParam {
    pub name: String,
    pub ty_expr: Option<Box<Expr>>,
    pub default_value: Option<Box<Expr>>,
}

/// A piece of an s-string or an f-string.
#[derive(Debug, PartialEq, Eq)]
pub enum InterpolateItem {
    String(String),
    Expr { expr: Box<Expr>, format: Option<String> },
}

/// One line of a `case`.
#[derive(Debug, PartialEq, Eq)]
pub struct SwitchCase {
    pub condition: Expr,
    pub value: Expr,
}

/// A statement with the place it came from and its annotations.
#[derive(Debug, PartialEq, Eq)]
pub struct Stmt {
    pub kind: StmtKind,
    pub span: Option<Span>,
    pub annotations: Vec<Annotation>,
}

#[derive(Debug, PartialEq, Eq)]
pub enum StmtKind {
    QueryDef(QueryDef),
    Main(Expr),
    VarDef(VarDef),
}

/// The query header. `version` holds the text of the version requirement.
#[derive(Debug, PartialEq, Eq)]
pub struct QueryDef {
    pub version: Option<String>,
    pub other: Vec<(String, String)>,
}

#[derive(Debug, PartialEq, Eq)]
pub struct VarDef {
    pub name: String,
    pub value: Expr,
    pub ty_expr: Option<Expr>,
    pub kind: VarDefKind,
}

#[derive(Clone, Copy, Debug, PartialEq, Eq, Structural)]
pub enum VarDefKind {
    Let,
    Into,
}

#[derive(Debug, PartialEq, Eq)]
pub struct Annotation {
    pub expr: Expr,
}

/// What a string holds.
pub type Text = Seq<char>;

pub enum LiteralView {
    Null,
    Integer(int),
    Float(Text),
    Boolean(bool),
    String(Text),
    Date(Text),
    Time(Text),
    Timestamp(Text),
    ValueAndUnit(int, Text),
}

pub struct ExprView {
    pub kind: ExprKindView,
    pub span: Option<Span>,
    pub alias: Option<Text>,
}

pub enum ExprKindView {
    Ident(Seq<Text>),
    Literal(LiteralView),
    Pipeline(Seq<ExprView>),
    Tuple(Seq<ExprView>),
    Array(Seq<ExprView>),
    Range(Option<Box<ExprView>>, Option<Box<ExprView>>),
    Binary(Box<ExprView>, BinOp, Box<ExprView>),
    Unary(UnOp, Box<ExprView>),
    FuncCall { name: Box<ExprView>, args: Seq<ExprView>, named_args: Seq<NamedArgView> },
    Func {
        return_ty: Option<Box<ExprView>>,
        body: Box<ExprView>,
        params: Seq<FuncParamView>,
        named_params: Seq<FuncParamView>,
    },
    SString(Seq<InterpolateItemView>),
    FString(Seq<InterpolateItemView>),
    Case(Seq<SwitchCaseView>),
    Param(Text),
}

pub struct NamedArgView {
    pub name: Text,
    pub value: ExprView,
}

pub struct FuncParamView {
    pub name: Text,
    pub ty_expr: Option<Box<ExprView>>,
    pub default_value: Option<Box<ExprView>>,
}

pub enum InterpolateItemView {
    String(Text),
    Expr(Box<ExprView>, Option<Text>),
}

pub struct SwitchCaseView {
    pub condition: ExprView,
    pub value: ExprView,
}

pub struct StmtView {
    pub kind: StmtKindView,
    pub span: Option<Span>,
    pub annotations: Seq<ExprView>,
}

pub enum StmtKindView {
    QueryDef { version: Option<Text>, other: Seq<(Text, Text)> },
    Main(ExprView),
    VarDef { name: Text, value: ExprView, ty_expr: Option<ExprView>, kind: VarDefKind },
}

pub open spec fn opt_text(s: Option<String>) -> Option<Text> {
    match s {
        Some(s) => Some(s@),
        None => None,
    }
}

pub open spec fn texts(s: Seq<String>) -> Seq<Text> {
    Seq::new(s.len(), |i: int| s[i]@)
}

impl Literal {
    pub open spec fn view(&self) -> LiteralView {
        match self {
            Literal::Null => LiteralView::Null,
            Literal::Integer(n) => LiteralView::Integer(*n as int),
            Literal::Float(s) => LiteralView::Float(s@),
            Literal::Boolean(b) => LiteralView::Boolean(*b),
            Literal::String(s) => LiteralView::String(s@),
            Literal::Date(s) => LiteralView::Date(s@),
            Literal::Time(s) => LiteralView::Time(s@),
            Literal::Timestamp(s) => LiteralView::Timestamp(s@),
            Literal::ValueAndUnit(v) => LiteralView::ValueAndUnit(v.n as int, v.unit@),
        }
    }
}

impl Literal {
    /// Whether the two are the same literal.
    pub fn same(&self, other: &Literal) -> (r: bool)
        ensures
            r == (self.view() == other.view()),
    {
        match (self, other) {
            (Literal::Null, Literal::Null) => true,
            (Literal::Integer(a), Literal::Integer(b)) => *a == *b,
            (Literal::Float(a), Literal::Float(b)) => *a == *b,
            (Literal::Boolean(a), Literal::Boolean(b)) => *a == *b,
            (Literal::String(a), Literal::String(b)) => *a == *b,
            (Literal::Date(a), Literal::Date(b)) => *a == *b,
            (Literal::Time(a), Literal::Time(b)) => *a == *b,
            (Literal::Timestamp(a), Literal::Timestamp(b)) => *a == *b,
            (Literal::ValueAndUnit(a), Literal::ValueAndUnit(b)) => {
                a.n == b.n && a.unit == b.unit
            },
            _ => false,
        }
    }
}

impl Clone for Literal {
    fn clone(&self) -> (literal: Literal)
        ensures
            literal == *self,
    {
        match self {
            Literal::Null => Literal::Null,
            Literal::Integer(n) => Literal::Integer(*n),
            Literal::Float(s) => Literal::Float(s.clone()),
            Literal::Boolean(b) => Literal::Boolean(*b),
            Literal::String(s) => Literal::String(s.clone()),
            Literal::Date(s) => Literal::Date(s.clone()),
            Literal::Time(s) => Literal::Time(s.clone()),
            Literal::Timestamp(s) => Literal::Timestamp(s.clone()),
            Literal::ValueAndUnit(v) => Literal::ValueAndUnit(
                ValueAndUnit { n: v.n, unit: v.unit.clone() },
            ),
        }
    }
}

impl Ident {
    pub open spec fn view(&self) -> Seq<Text> {
        texts(self.path@)
    }
}

impl Expr {
    pub open spec fn view(&self) -> ExprView
        decreases self,
    {
        ExprView { kind: self.kind.view(), span: self.span, alias: opt_text(self.alias) }
    }
}

impl ExprKind {
    pub open spec fn view(&self) -> ExprKindView
        decreases self,
    {
        match self {
            ExprKind::Ident(ident) => ExprKindView::Ident(ident.view()),
            ExprKind::Literal(literal) => ExprKindView::Literal(literal.view()),
            ExprKind::Pipeline(pipeline) => ExprKindView::Pipeline(exprs_view(pipeline.exprs@)),
            ExprKind::Tuple(items) => ExprKindView::Tuple(exprs_view(items@)),
            ExprKind::Array(items) => ExprKindView::Array(exprs_view(items@)),
            ExprKind::Range(range) => ExprKindView::Range(
                opt_expr_view(range.start),
                opt_expr_view(range.end),
            ),
            ExprKind::Binary(b) => ExprKindView::Binary(
                Box::new(b.left.view()),
                b.op,
                Box::new(b.right.view()),
            ),
            ExprKind::Unary(u) => ExprKindView::Unary(u.op, Box::new(u.expr.view())),
            ExprKind::FuncCall(call) => ExprKindView::FuncCall {
                name: Box::new(call.name.view()),
                args: exprs_view(call.args@),
                named_args: named_args_view(call.named_args@),
            },
            ExprKind::Func(func) => ExprKindView::Func {
                return_ty: opt_expr_view(func.return_ty),
                body: Box::new(func.body.view()),
                params: params_view(func.params@),
                named_params: params_view(func.named_params@),
            },
            ExprKind::SString(items) => ExprKindView::SString(items_view(items@)),
            ExprKind::FString(items) => ExprKindView::FString(items_view(items@)),
            ExprKind::Case(cases) => ExprKindView::Case(cases_view(cases@)),
            ExprKind::Param(name) => ExprKindView::Param(name@),
        }
    }
}

impl NamedArg {
    pub open spec fn view(&self) -> NamedArgView
        decreases self,
    {
        NamedArgView { name: self.name@, value: self.value.view() }
    }
}

impl FuncParam {
    pub open spec fn view(&self) -> FuncParamView
        decreases self,
    {
        FuncParamView {
            name: self.name@,
            ty_expr: opt_expr_view(self.ty_expr),
            default_value: opt_expr_view(self.default_value),
        }
    }
}

impl InterpolateItem {
    pub open spec fn view(&self) -> InterpolateItemView
        decreases self,
    {
        match self {
            InterpolateItem::String(s) => InterpolateItemView::String(s@),
            InterpolateItem::Expr { expr, format } => InterpolateItemView::Expr(
                Box::new(expr.view()),
                opt_text(*format),
            ),
        }
    }
}

impl SwitchCase {
    pub open spec fn view(&self) -> SwitchCaseView
        decreases self,
    {
        SwitchCaseView { condition: self.condition.view(), value: self.value.view() }
    }
}

pub open spec fn opt_expr_view(e: Option<Box<Expr>>) -> Option<Box<ExprView>>
    decreases e,
{
    match e {
        Some(e) => Some(Box::new(e.view())),
        None => None,
    }
}

pub open spec fn exprs_view(s: Seq<Expr>) -> Seq<ExprView>
    decreases s,
{
    Seq::new(
        s.len(),
        |i: int|
            if 0 <= i < s.len() {
                s[i].view()
            } else {
                arbitrary()
            },
    )
}

pub open spec fn named_args_view(s: Seq<NamedArg>) -> Seq<NamedArgView>
    decreases s,
{
    Seq::new(
        s.len(),
        |i: int|
            if 0 <= i < s.len() {
                s[i].view()
            } else {
                arbitrary()
            },
    )
}

pub open spec fn params_view(s: Seq<FuncParam>) -> Seq<FuncParamView>
    decreases s,
{
    Seq::new(
        s.len(),
        |i: int|
            if 0 <= i < s.len() {
                s[i].view()
            } else {
                arbitrary()
            },
    )
}

pub open spec fn items_view(s: Seq<InterpolateItem>) -> Seq<InterpolateItemView>
    decreases s,
{
    Seq::new(
        s.len(),
        |i: int|
            if 0 <= i < s.len() {
                s[i].view()
            } else {
                arbitrary()
            },
    )
}

pub open spec fn cases_view(s: Seq<SwitchCase>) -> Seq<SwitchCaseView>
    decreases s,
{
    Seq::new(
        s.len(),
        |i: int|
            if 0 <= i < s.len() {
                s[i].view()
            } else {
                arbitrary()
            },
    )
}

impl QueryDef {
    pub open spec fn other_view(&self) -> Seq<(Text, Text)> {
        Seq::new(self.other@.len(), |i: int| (self.other@[i].0@, self.other@[i].1@))
    }
}

impl StmtKind {
    pub open spec fn view(&self) -> StmtKindView {
        match self {
            StmtKind::QueryDef(def) => StmtKindView::QueryDef {
                version: opt_text(def.version),
                other: def.other_view(),
            },
            StmtKind::Main(e) => StmtKindView::Main(e.view()),
            StmtKind::VarDef(def) => StmtKindView::VarDef {
                name: def.name@,
                value: def.value.view(),
                ty_expr: match def.ty_expr {
                    Some(e) => Some(e.view()),
                    None => None,
                },
                kind: def.kind,
            },
        }
    }
}

pub open spec fn annotations_view(s: Seq<Annotation>) -> Seq<ExprView> {
    Seq::new(s.len(), |i: int| s[i].expr.view())
}

impl Stmt {
    pub open spec fn view(&self) -> StmtView {
        StmtView {
            kind: self.kind.view(),
            span: self.span,
            annotations: annotations_view(self.annotations@),
        }
    }
}

pub open spec fn stmts_view(s: Seq<Stmt>) -> Seq<StmtView> {
    Seq::new(s.len(), |i: int| s[i].view())
}

impl ExprKind {
    /// The name that this expression consists of, or the expression itself.
    pub fn into_ident(self) -> (r: Result<Ident, ExprKind>)
        ensures
            match r {
                Ok(ident) => self == ExprKind::Ident(ident),
                Err(kind) => kind == self && !(self is Ident),
            },
    {
        match self {
            ExprKind::Ident(ident) => Ok(ident),
            kind => Err(kind),
        }
    }

    /// The call that this expression consists of, or the expression itself.
    pub fn into_func_call(self) -> (r: Result<FuncCall, ExprKind>)
        ensures
            match r {
                Ok(call) => self == ExprKind::FuncCall(call),
                Err(kind) => kind == self && !(self is FuncCall),
            },
    {
        match self {
            ExprKind::FuncCall(call) => Ok(call),
            kind => Err(kind),
        }
    }
}

impl Expr {
    /// An expression that stands nowhere and has no alias.
    pub fn new(kind: ExprKind) -> (expr: Expr)
        ensures
            expr == (Expr { kind, span: None, alias: None }),
    {
        Expr { kind, span: None, alias: None }
    }
}

} // verus!
