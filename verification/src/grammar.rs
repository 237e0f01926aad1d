//! The grammar of expressions.
//!
//! Each rule is a function of the tokens, of the place where it begins and of the log
//! so far. It tells what stands there, where that ends, and the log afterwards. Of
//! several ways to go on a rule takes the first that leads anywhere, and a rule that
//! repeats takes as much as it can.
use vstd::prelude::*;

use crate::ast::{
    BinOp, ExprKindView, ExprView, FuncParamView, NamedArgView, SwitchCaseView, Text, UnOp,
};
use crate::common::{any_name, expr_at, just};
use crate::error::custom_error;
use crate::interpolation::interpolated;
use crate::lexer::token::TokenView;
use crate::log::LogView;
use crate::span::Span;
use crate::stream::StreamView;

verus! {

/// What a rule found, with the place behind it; `None`, where it does not apply.
pub struct Step<T> {
    pub hit: Option<(int, T)>,
    pub log: LogView,
}

/// What a rule that repeats, or that may find nothing, took, and where that ends.
pub struct Taken<T> {
    pub found: T,
    pub end: int,
    pub log: LogView,
}

/// An argument of a call.
pub enum ArgView {
    Named(Text, ExprView),
    Positional(ExprView),
}

pub open spec fn hit<T>(end: int, found: T, log: LogView) -> Step<T> {
    Step { hit: Some((end, found)), log }
}

pub open spec fn miss<T>(log: LogView) -> Step<T> {
    Step { hit: None, log }
}

/// A list that ends where it begins.
pub open spec fn nothing<T>(i: int, log: LogView) -> Taken<Seq<T>> {
    Taken { found: Seq::empty(), end: i, log }
}

/// A list with one more item in front.
pub open spec fn prepend<T>(first: T, rest: Taken<Seq<T>>) -> Taken<Seq<T>> {
    Taken { found: seq![first] + rest.found, end: rest.end, log: rest.log }
}

/// Whether `j` lies behind `i`, within the tokens.
pub open spec fn ahead(s: StreamView, i: int, j: int) -> bool {
    i < j <= s.len()
}

/// What a rule found, as long as that ends behind `i`. A rule that goes on behind
/// another one counts only on what takes it further.
pub open spec fn forward<T>(s: StreamView, i: int, step: Step<T>) -> Step<T> {
    match step.hit {
        Some((end, _)) => if ahead(s, i, end) {
            step
        } else {
            miss(step.log)
        },
        None => step,
    }
}

/// Where the line breaks at `i` end.
#[verifier::opaque]
pub open spec fn new_lines(s: StreamView, i: int, log: LogView) -> Taken<()>
    decreases s.len() - i,
{
    if s.has(i, TokenView::NewLine) {
        new_lines(s, i + 1, log)
    } else {
        Taken { found: (), end: i, log: log.note(i, just(TokenView::NewLine)) }
    }
}

/// `[name "="]`
pub open spec fn alias(s: StreamView, i: int, log: LogView) -> Taken<Option<Text>> {
    match s.token(i) {
        Some(TokenView::Ident(name)) => if s.has(i + 1, TokenView::Control('=')) {
            Taken { found: Some(name), end: i + 2, log }
        } else {
            Taken { found: None, end: i, log: log.note(i + 1, just(TokenView::Control('='))) }
        },
        _ => Taken { found: None, end: i, log: log.note(i, just(any_name())) },
    }
}

/// The expression under the name that it was given, if it was given one.
#[verifier::opaque]
pub open spec fn with_alias(alias: Option<Text>, e: ExprView) -> ExprView {
    match alias {
        Some(name) => ExprView { kind: e.kind, span: e.span, alias: Some(name) },
        None => e,
    }
}

/// `{"." (name | "*")}`
pub open spec fn ident_rest(s: StreamView, i: int, log: LogView) -> Taken<Seq<Text>>
    decreases s.len() - i,
{
    if s.has(i, TokenView::Control('.')) {
        let part = if let Some(TokenView::Ident(name)) = s.token(i + 1) {
            Some(name)
        } else if s.has(i + 1, TokenView::Control('*')) {
            Some("*"@)
        } else {
            None
        };
        let log = if s.token(i + 1) matches Some(TokenView::Ident(_)) {
            log
        } else {
            log.note(i + 1, just(any_name()))
        };
        match part {
            Some(name) => {
                let rest = ident_rest(s, i + 2, log);
                prepend(name, rest)
            },
            None => nothing(i, log.note(i + 1, just(TokenView::Control('*')))),
        }
    } else {
        nothing(i, log.note(i, just(TokenView::Control('.'))))
    }
}

/// `name {"." (name | "*")}`
#[verifier::opaque]
pub open spec fn ident(s: StreamView, i: int, log: LogView) -> Step<Seq<Text>> {
    match s.token(i) {
        Some(TokenView::Ident(name)) => {
            let rest = ident_rest(s, i + 1, log);
            hit(rest.end, seq![name] + rest.found, rest.log)
        },
        _ => miss(log.note(i, just(any_name()))),
    }
}

/// A type: `literal | ident`
pub open spec fn type_term(s: StreamView, i: int, log: LogView) -> Step<ExprView> {
    match s.token(i) {
        Some(TokenView::Literal(l)) => hit(
            i + 1,
            expr_at(ExprKindView::Literal(l), s.span_since(i, i + 1)),
            log,
        ),
        _ => ident_expr(s, i, log),
    }
}

/// The place from the beginning of one up to the end of another.
#[verifier::opaque]
pub open spec fn joined(left: Span, right: Span) -> Span {
    Span { start: left.start, end: right.end, source_id: left.source_id }
}

/// The binary expression of `left` and `right`.
#[verifier::opaque]
pub open spec fn binary_expr(left: ExprView, op: BinOp, right: ExprView, span: Span) -> ExprView {
    expr_at(ExprKindView::Binary(Box::new(left), op, Box::new(right)), span)
}

/// `{"||" type_term}`, with what stands left of it.
pub open spec fn type_rest(
    s: StreamView,
    left: ExprView,
    span: Span,
    i: int,
    log: LogView,
) -> Taken<ExprView>
    decreases s.len() - i,
{
    if s.has(i, TokenView::Or) {
        let right = forward(s, i, type_term(s, i + 1, log));
        match right.hit {
            Some((end, e)) => {
                let span = joined(span, s.span_since(i + 1, end));
                type_rest(s, binary_expr(left, BinOp::Or, e, span), span, end, right.log)
            },
            None => Taken { found: left, end: i, log: right.log },
        }
    } else {
        Taken { found: left, end: i, log: log.note(i, just(TokenView::Or)) }
    }
}

/// `type_term {"||" type_term}`
#[verifier::opaque]
pub open spec fn type_expr(s: StreamView, i: int, log: LogView) -> Step<ExprView> {
    let left = type_term(s, i, log);
    match left.hit {
        Some((end, e)) => {
            let all = type_rest(s, e, s.span_since(i, end), end, left.log);
            hit(all.end, all.found, all.log)
        },
        None => miss(left.log),
    }
}

/// `["<" type_expr ">"]`
#[verifier::opaque]
pub open spec fn type_annotation(s: StreamView, i: int, log: LogView) -> Taken<Option<ExprView>> {
    if s.has(i, TokenView::Control('<')) {
        let ty = type_expr(s, i + 1, log);
        match ty.hit {
            Some((end, e)) => if s.has(end, TokenView::Control('>')) {
                Taken { found: Some(e), end: end + 1, log: ty.log }
            } else {
                Taken { found: None, end: i, log: ty.log.note(end, just(TokenView::Control('>'))) }
            },
            None => Taken { found: None, end: i, log: ty.log },
        }
    } else {
        Taken { found: None, end: i, log: log.note(i, just(TokenView::Control('<'))) }
    }
}

/// The unary operator that a token stands for.
pub open spec fn unary_op(t: Option<TokenView>) -> Option<UnOp> {
    match t {
        Some(TokenView::Control('+')) => Some(UnOp::Add),
        Some(TokenView::Control('-')) => Some(UnOp::Neg),
        Some(TokenView::Control('!')) => Some(UnOp::Not),
        Some(TokenView::Eq) => Some(UnOp::EqSelf),
        _ => None,
    }
}

/// The tokens of the unary operators.
#[verifier::opaque]
pub open spec fn unary_ops() -> Seq<Option<TokenView>> {
    seq![
        Some(TokenView::Control('+')),
        Some(TokenView::Control('-')),
        Some(TokenView::Control('!')),
        Some(TokenView::Eq),
    ]
}

/// The loosest level of binary operators. On level 0 they bind tightest.
pub open spec fn loosest() -> nat {
    5
}

/// The binary operator of a level that a token stands for.
pub open spec fn binary_op(level: nat, t: Option<TokenView>) -> Option<BinOp> {
    if level == 0 {
        match t {
            Some(TokenView::DivInt) => Some(BinOp::DivInt),
            Some(TokenView::Control('*')) => Some(BinOp::Mul),
            Some(TokenView::Control('/')) => Some(BinOp::DivFloat),
            Some(TokenView::Control('%')) => Some(BinOp::Mod),
            _ => None,
        }
    } else if level == 1 {
        match t {
            Some(TokenView::Control('+')) => Some(BinOp::Add),
            Some(TokenView::Control('-')) => Some(BinOp::Sub),
            _ => None,
        }
    } else if level == 2 {
        match t {
            Some(TokenView::Eq) => Some(BinOp::Eq),
            Some(TokenView::Ne) => Some(BinOp::Ne),
            Some(TokenView::Lte) => Some(BinOp::Lte),
            Some(TokenView::Gte) => Some(BinOp::Gte),
            Some(TokenView::Control('<')) => Some(BinOp::Lt),
            Some(TokenView::Control('>')) => Some(BinOp::Gt),
            Some(TokenView::RegexSearch) => Some(BinOp::RegexSearch),
            _ => None,
        }
    } else if level == 3 {
        match t {
            Some(TokenView::Coalesce) => Some(BinOp::Coalesce),
            _ => None,
        }
    } else if level == 4 {
        match t {
            Some(TokenView::And) => Some(BinOp::And),
            _ => None,
        }
    } else {
        match t {
            Some(TokenView::Or) => Some(BinOp::Or),
            _ => None,
        }
    }
}

/// The tokens of the binary operators of a level.
#[verifier::opaque]
pub open spec fn binary_ops(level: nat) -> Seq<Option<TokenView>> {
    if level == 0 {
        seq![
            Some(TokenView::DivInt),
            Some(TokenView::Control('*')),
            Some(TokenView::Control('/')),
            Some(TokenView::Control('%')),
        ]
    } else if level == 1 {
        seq![Some(TokenView::Control('+')), Some(TokenView::Control('-'))]
    } else if level == 2 {
        seq![
            Some(TokenView::Eq),
            Some(TokenView::Ne),
            Some(TokenView::Lte),
            Some(TokenView::Gte),
            Some(TokenView::Control('<')),
            Some(TokenView::Control('>')),
            Some(TokenView::RegexSearch),
        ]
    } else if level == 3 {
        seq![Some(TokenView::Coalesce)]
    } else if level == 4 {
        seq![Some(TokenView::And)]
    } else {
        seq![Some(TokenView::Or)]
    }
}

/// What a term can begin with, as far as one token tells.
#[verifier::opaque]
pub open spec fn term_starts() -> Seq<Option<TokenView>> {
    seq![
        Some(TokenView::Control('{')),
        Some(TokenView::Control('[')),
        Some(any_name()),
        Some(TokenView::Keyword("case"@)),
        Some(TokenView::Control('(')),
    ]
}

/// An s-string or an f-string. Where its braces do not match, it holds nothing and
/// that is an error.
#[verifier::opaque]
pub open spec fn interpolation(
    s: StreamView,
    i: int,
    letter: char,
    text: Text,
    log: LogView,
) -> Step<ExprView> {
    let span = s.span_since(i, i + 1);
    let parsed = interpolated(text, span.start + 2, span.source_id);
    let items = match parsed {
        Ok(items) => items,
        Err(_) => Seq::empty(),
    };
    let log = match parsed {
        Ok(_) => log,
        Err(at) => log.emit(
            custom_error(
                Span {
                    start: (span.start + 2 + at) as usize,
                    end: (span.start + 2 + at + 1) as usize,
                    source_id: span.source_id,
                },
                "unmatched brace in an interpolated string"@,
            ),
        ),
    };
    if letter == 's' {
        hit(i + 1, expr_at(ExprKindView::SString(items), span), log)
    } else {
        hit(i + 1, expr_at(ExprKindView::FString(items), span), log)
    }
}

/// The bracket that opens a tuple or an array.
pub open spec fn opening(tuple: bool) -> char {
    if tuple {
        '{'
    } else {
        '['
    }
}

/// The bracket that closes a tuple or an array.
pub open spec fn closing(tuple: bool) -> char {
    if tuple {
        '}'
    } else {
        ']'
    }
}

/// `new_lines "}"`, or `new_lines "]"`: the end of the tuple or the array that began at
/// `i` and has those items.
#[verifier::opaque]
pub open spec fn list_end(
    s: StreamView,
    tuple: bool,
    i: int,
    items: Taken<Seq<ExprView>>,
) -> Step<ExprView> {
    let end = new_lines(s, items.end, items.log);
    if s.has(end.end, TokenView::Control(closing(tuple))) {
        let kind = if tuple {
            ExprKindView::Tuple(items.found)
        } else {
            ExprKindView::Array(items.found)
        };
        hit(end.end + 1, expr_at(kind, s.span_since(i, end.end + 1)), end.log)
    } else {
        miss(end.log.note(end.end, just(TokenView::Control(closing(tuple)))))
    }
}

/// A tuple `"{" list list_end`, or an array `"[" list list_end`
pub open spec fn brackets(s: StreamView, tuple: bool, i: int, log: LogView) -> Step<ExprView>
    decreases s.len() - i, 5nat,
{
    if s.has(i, TokenView::Control(opening(tuple))) {
        list_end(s, tuple, i, list(s, tuple, i + 1, log))
    } else {
        miss(log.note(i, just(TokenView::Control(opening(tuple)))))
    }
}

/// `new_lines "]"`: the end of the `case` that began at `i` and has those lines.
#[verifier::opaque]
pub open spec fn cases_end(
    s: StreamView,
    i: int,
    items: Taken<Seq<SwitchCaseView>>,
) -> Step<ExprView> {
    let end = new_lines(s, items.end, items.log);
    if s.has(end.end, TokenView::Control(']')) {
        hit(
            end.end + 1,
            expr_at(ExprKindView::Case(items.found), s.span_since(i, end.end + 1)),
            end.log,
        )
    } else {
        miss(end.log.note(end.end, just(TokenView::Control(']'))))
    }
}

/// `"case" "[" cases cases_end`
pub open spec fn switch(s: StreamView, i: int, log: LogView) -> Step<ExprView>
    decreases s.len() - i, 5nat,
{
    if !s.has(i, TokenView::Keyword("case"@)) {
        miss(log.note(i, just(TokenView::Keyword("case"@))))
    } else if !s.has(i + 1, TokenView::Control('[')) {
        miss(log.note(i + 1, just(TokenView::Control('['))))
    } else {
        cases_end(s, i, cases(s, i + 2, log))
    }
}

/// `"(" pipeline ")"`
pub open spec fn parens(s: StreamView, i: int, log: LogView) -> Step<ExprView>
    decreases s.len() - i, 5nat,
{
    if s.has(i, TokenView::Control('(')) {
        let inner = pipeline(s, i + 1, log);
        match inner.hit {
            Some((end, e)) => if s.has(end, TokenView::Control(')')) {
                hit(end + 1, e, inner.log)
            } else {
                miss(inner.log.note(end, just(TokenView::Control(')'))))
            },
            None => miss(inner.log),
        }
    } else {
        miss(log.note(i, just(TokenView::Control('('))))
    }
}

/// An identifier as an expression.
pub open spec fn ident_expr(s: StreamView, i: int, log: LogView) -> Step<ExprView> {
    let path = ident(s, i, log);
    match path.hit {
        Some((end, names)) => hit(
            end,
            expr_at(ExprKindView::Ident(names), s.span_since(i, end)),
            path.log,
        ),
        None => miss(path.log),
    }
}

/// `literal | param | interpolation | ident`
#[verifier::opaque]
pub open spec fn atom(s: StreamView, i: int, log: LogView) -> Step<ExprView> {
    match s.token(i) {
        Some(TokenView::Literal(l)) => hit(
            i + 1,
            expr_at(ExprKindView::Literal(l), s.span_since(i, i + 1)),
            log,
        ),
        Some(TokenView::Param(name)) => hit(
            i + 1,
            expr_at(ExprKindView::Param(name), s.span_since(i, i + 1)),
            log,
        ),
        Some(TokenView::Interpolation(letter, text)) => interpolation(s, i, letter, text, log),
        Some(TokenView::Ident(_)) => ident_expr(s, i, log),
        _ => miss(log.note(i, term_starts())),
    }
}

/// `brackets | parens | switch | atom`
pub open spec fn term(s: StreamView, i: int, log: LogView) -> Step<ExprView>
    decreases s.len() - i, 6nat,
{
    if s.has(i, TokenView::Control('{')) {
        brackets(s, true, i, log)
    } else if s.has(i, TokenView::Control('[')) {
        brackets(s, false, i, log)
    } else if s.has(i, TokenView::Control('(')) {
        parens(s, i, log)
    } else if s.has(i, TokenView::Keyword("case"@)) {
        switch(s, i, log)
    } else {
        atom(s, i, log)
    }
}

/// `term | ("+" | "-" | "!" | "==") term`
pub open spec fn unary(s: StreamView, i: int, log: LogView) -> Step<ExprView>
    decreases s.len() - i, 7nat,
{
    let plain = term(s, i, log);
    if plain.hit is Some {
        plain
    } else {
        let log = plain.log.rollback(log.emitted.len());
        match unary_op(s.token(i)) {
            Some(op) => {
                let operand = term(s, i + 1, log);
                match operand.hit {
                    Some((end, e)) => hit(
                        end,
                        expr_at(ExprKindView::Unary(op, Box::new(e)), s.span_since(i, end)),
                        operand.log,
                    ),
                    None => miss(operand.log),
                }
            },
            None => miss(log.note(i, unary_ops())),
        }
    }
}

#[verifier::opaque]
pub open spec fn range_expr(
    start: Option<ExprView>,
    end: Option<ExprView>,
    span: Span,
) -> ExprView {
    expr_at(ExprKindView::Range(boxed(start), boxed(end)), span)
}

/// `".." [unary]` from `j` on, behind a range's lower bound.
pub open spec fn range_from(
    s: StreamView,
    i: int,
    start: ExprView,
    j: int,
    log: LogView,
) -> Step<ExprView>
    decreases s.len() - j, 8nat,
{
    match s.token(j) {
        Some(TokenView::Range { bind_left: true, bind_right: true }) => {
            let last = unary(s, j + 1, log);
            match last.hit {
                Some((end, e)) => hit(
                    end,
                    range_expr(Some(start), Some(e), s.span_since(i, end)),
                    last.log,
                ),
                None => hit(
                    j + 1,
                    range_expr(Some(start), None, s.span_since(i, j + 1)),
                    last.log.rollback(log.emitted.len()),
                ),
            }
        },
        Some(TokenView::Range { bind_left: true, bind_right: false }) => hit(
            j + 1,
            range_expr(Some(start), None, s.span_since(i, j + 1)),
            log,
        ),
        _ => hit(
            j,
            start,
            log.note(j, just(TokenView::Range { bind_left: true, bind_right: true })),
        ),
    }
}

/// `".." [unary]`, without a lower bound.
pub open spec fn range_to(s: StreamView, i: int, log: LogView) -> Step<ExprView>
    decreases s.len() - i, 8nat,
{
    match s.token(i) {
        Some(TokenView::Range { bind_left: _, bind_right: true }) => {
            let last = unary(s, i + 1, log);
            match last.hit {
                Some((end, e)) => hit(
                    end,
                    range_expr(None, Some(e), s.span_since(i, end)),
                    last.log,
                ),
                None => hit(
                    i + 1,
                    range_expr(None, None, s.span_since(i, i + 1)),
                    last.log.rollback(log.emitted.len()),
                ),
            }
        },
        Some(TokenView::Range { bind_left: _, bind_right: false }) => hit(
            i + 1,
            range_expr(None, None, s.span_since(i, i + 1)),
            log,
        ),
        _ => miss(log),
    }
}

/// `unary [".." [unary]] | ".." [unary]`
///
/// A bound belongs to the range only where no space parts them.
pub open spec fn range(s: StreamView, i: int, log: LogView) -> Step<ExprView>
    decreases s.len() - i, 9nat,
{
    let first = forward(s, i, unary(s, i, log));
    match first.hit {
        Some((j, start)) => range_from(s, i, start, j, first.log),
        None => range_to(s, i, first.log.rollback(log.emitted.len())),
    }
}

/// What the operators of a level stand between.
pub open spec fn operand(s: StreamView, level: nat, i: int, log: LogView) -> Step<ExprView>
    decreases s.len() - i, 10 + 2 * level,
{
    if level == 0 {
        range(s, i, log)
    } else {
        binary(s, (level - 1) as nat, i, log)
    }
}

/// `operand {operator operand}`: operators of one level group from the left.
pub open spec fn binary(s: StreamView, level: nat, i: int, log: LogView) -> Step<ExprView>
    decreases s.len() - i, 11 + 2 * level,
{
    let left = forward(s, i, operand(s, level, i, log));
    match left.hit {
        Some((end, e)) => {
            let all = binary_rest(s, level, e, s.span_since(i, end), end, left.log);
            hit(all.end, all.found, all.log)
        },
        None => miss(left.log),
    }
}

/// `{operator operand}`, with what stands left of it.
pub open spec fn binary_rest(
    s: StreamView,
    level: nat,
    left: ExprView,
    span: Span,
    i: int,
    log: LogView,
) -> Taken<ExprView>
    decreases s.len() - i, 0nat,
{
    match binary_op(level, s.token(i)) {
        Some(op) => {
            let right = forward(s, i + 1, operand(s, level, i + 1, log));
            match right.hit {
                Some((end, e)) => {
                    let span = joined(span, s.span_since(i + 1, end));
                    binary_rest(s, level, binary_expr(left, op, e, span), span, end, right.log)
                },
                None => Taken {
                    found: left,
                    end: i,
                    log: right.log.rollback(log.emitted.len()),
                },
            }
        },
        None => Taken { found: left, end: i, log: log.note(i, binary_ops(level)) },
    }
}

/// An expression without a call.
pub open spec fn expr(s: StreamView, i: int, log: LogView) -> Step<ExprView>
    decreases s.len() - i, 30nat,
{
    binary(s, loosest(), i, log)
}

/// `name ":" expr`
pub open spec fn named_arg(s: StreamView, i: int, log: LogView) -> Step<ArgView>
    decreases s.len() - i, 31nat,
{
    match s.token(i) {
        Some(TokenView::Ident(name)) => if s.has(i + 1, TokenView::Control(':')) {
            let value = expr(s, i + 2, log);
            match value.hit {
                Some((end, e)) => hit(end, ArgView::Named(name, e), value.log),
                None => miss(value.log),
            }
        } else {
            miss(log.note(i + 1, just(TokenView::Control(':'))))
        },
        _ => miss(log.note(i, just(any_name()))),
    }
}

/// `named_arg | [name "="] expr`
pub open spec fn arg(s: StreamView, i: int, log: LogView) -> Step<ArgView>
    decreases s.len() - i, 32nat,
{
    let named = named_arg(s, i, log);
    if named.hit is Some {
        named
    } else {
        let name = alias(s, i, named.log.rollback(log.emitted.len()));
        let value = expr(s, name.end, name.log);
        match value.hit {
            Some((end, e)) => hit(
                end,
                ArgView::Positional(with_alias(name.found, e)),
                value.log,
            ),
            None => miss(value.log),
        }
    }
}

/// `{arg}`
pub open spec fn args(s: StreamView, i: int, log: LogView) -> Taken<Seq<ArgView>>
    decreases s.len() - i, 33nat,
{
    let first = forward(s, i, arg(s, i, log));
    match first.hit {
        Some((end, a)) => {
            let rest = args(s, end, first.log);
            prepend(a, rest)
        },
        None => nothing(i, first.log.rollback(log.emitted.len())),
    }
}

/// The arguments without a name, in order.
pub open spec fn positional(args: Seq<ArgView>) -> Seq<ExprView>
    decreases args.len(),
{
    if args.len() == 0 {
        Seq::empty()
    } else {
        match args.last() {
            ArgView::Positional(e) => positional(args.drop_last()).push(e),
            ArgView::Named(_, _) => positional(args.drop_last()),
        }
    }
}

/// Where the first argument of that name stands, from `i` on; the number of
/// arguments, where there is none.
pub open spec fn named_index(args: Seq<NamedArgView>, name: Text, i: int) -> int
    decreases args.len() - i,
{
    if i >= args.len() {
        args.len() as int
    } else if args[i].name == name {
        i
    } else {
        named_index(args, name, i + 1)
    }
}

/// The arguments with one more of that name: it takes the place of an earlier one.
pub open spec fn with_named(args: Seq<NamedArgView>, name: Text, value: ExprView) -> Seq<
    NamedArgView,
> {
    let i = named_index(args, name, 0);
    if i < args.len() {
        args.update(i, NamedArgView { name, value })
    } else {
        args.push(NamedArgView { name, value })
    }
}

/// The arguments with a name. Of two with the same name the later counts.
pub open spec fn named(args: Seq<ArgView>) -> Seq<NamedArgView>
    decreases args.len(),
{
    if args.len() == 0 {
        Seq::empty()
    } else {
        match args.last() {
            ArgView::Positional(_) => named(args.drop_last()),
            ArgView::Named(name, value) => with_named(named(args.drop_last()), name, value),
        }
    }
}

/// The error for a name that is given more than one argument.
pub open spec fn repeated_arg(span: Span) -> crate::error::PErrorView {
    custom_error(span, "argument is used multiple times"@)
}

/// The log with one error for each argument whose name was given before.
#[verifier::opaque]
pub open spec fn check_args(args: Seq<ArgView>, span: Span, log: LogView) -> LogView
    decreases args.len(),
{
    if args.len() == 0 {
        log
    } else {
        let before = check_args(args.drop_last(), span, log);
        match args.last() {
            ArgView::Positional(_) => before,
            ArgView::Named(name, _) => {
                let earlier = named(args.drop_last());
                if named_index(earlier, name, 0) < earlier.len() {
                    before.emit(repeated_arg(span))
                } else {
                    before
                }
            },
        }
    }
}

/// The call of `name` with `args`. Without arguments nothing is called.
#[verifier::opaque]
pub open spec fn call(name: ExprView, args: Seq<ArgView>, span: Span) -> ExprView {
    if args.len() == 0 {
        name
    } else {
        expr_at(
            ExprKindView::FuncCall {
                name: Box::new(name),
                args: positional(args),
                named_args: named(args),
            },
            span,
        )
    }
}

/// `expr {arg}`
pub open spec fn func_call(s: StreamView, i: int, log: LogView) -> Step<ExprView>
    decreases s.len() - i, 34nat,
{
    let name = forward(s, i, expr(s, i, log));
    match name.hit {
        Some((j, e)) => {
            let given = args(s, j, name.log);
            let span = s.span_since(i, given.end);
            hit(given.end, call(e, given.found, span), check_args(given.found, span, given.log))
        },
        None => miss(name.log),
    }
}

/// `[":" expr]`
pub open spec fn default_value(s: StreamView, i: int, log: LogView) -> Taken<Option<ExprView>>
    decreases s.len() - i, 31nat,
{
    if s.has(i, TokenView::Control(':')) {
        let value = expr(s, i + 1, log);
        match value.hit {
            Some((end, e)) => Taken { found: Some(e), end, log: value.log },
            None => Taken {
                found: None,
                end: i,
                log: value.log.rollback(log.emitted.len()),
            },
        }
    } else {
        Taken { found: None, end: i, log: log.note(i, just(TokenView::Control(':'))) }
    }
}

pub open spec fn boxed(e: Option<ExprView>) -> Option<Box<ExprView>> {
    match e {
        Some(e) => Some(Box::new(e)),
        None => None,
    }
}

/// `name type_annotation default_value`
pub open spec fn param(s: StreamView, i: int, log: LogView) -> Step<FuncParamView>
    decreases s.len() - i, 32nat,
{
    match s.token(i) {
        Some(TokenView::Ident(name)) => {
            proof {
                lemma_type_annotation(s, i + 1, log);
            }
            let ty = type_annotation(s, i + 1, log);
            let default = default_value(s, ty.end, ty.log);
            hit(
                default.end,
                FuncParamView {
                    name,
                    ty_expr: boxed(ty.found),
                    default_value: boxed(default.found),
                },
                default.log,
            )
        },
        _ => miss(log.note(i, just(any_name()))),
    }
}

/// `{param}`
pub open spec fn params(s: StreamView, i: int, log: LogView) -> Taken<Seq<FuncParamView>>
    decreases s.len() - i, 33nat,
{
    let first = forward(s, i, param(s, i, log));
    match first.hit {
        Some((end, p)) => {
            let rest = params(s, end, first.log);
            prepend(p, rest)
        },
        None => nothing(i, first.log.rollback(log.emitted.len())),
    }
}

/// The parameters with a default value, or those without one.
#[verifier::opaque]
pub open spec fn params_with(params: Seq<FuncParamView>, default: bool) -> Seq<FuncParamView>
    decreases params.len(),
{
    if params.len() == 0 {
        Seq::empty()
    } else if (params.last().default_value is Some) == default {
        params_with(params.drop_last(), default).push(params.last())
    } else {
        params_with(params.drop_last(), default)
    }
}

/// The function with those parameters.
#[verifier::opaque]
pub open spec fn func_expr(
    params: Seq<FuncParamView>,
    return_ty: Option<ExprView>,
    body: ExprView,
    span: Span,
) -> ExprView {
    expr_at(
        ExprKindView::Func {
            return_ty: boxed(return_ty),
            body: Box::new(body),
            params: params_with(params, false),
            named_params: params_with(params, true),
        },
        span,
    )
}

/// `"func" {param} | param {param}`
pub open spec fn lambda_params(s: StreamView, i: int, log: LogView) -> Step<Seq<FuncParamView>>
    decreases s.len() - i, 34nat,
{
    if s.has(i, TokenView::Keyword("func"@)) {
        let given = params(s, i + 1, log);
        hit(given.end, given.found, given.log)
    } else {
        let given = params(s, i, log.note(i, just(TokenView::Keyword("func"@))));
        if given.found.len() == 0 {
            miss(given.log)
        } else {
            hit(given.end, given.found, given.log)
        }
    }
}

/// `"->" type_annotation func_call` from `arrow` on, in the function that began at `i`.
pub open spec fn lambda_body(
    s: StreamView,
    i: int,
    all: Seq<FuncParamView>,
    arrow: int,
    log: LogView,
) -> Step<ExprView>
    decreases s.len() - arrow, 35nat,
{
    if s.has(arrow, TokenView::ArrowThin) {
        proof {
            lemma_type_annotation(s, arrow + 1, log);
        }
        let ty = type_annotation(s, arrow + 1, log);
        let body = func_call(s, ty.end, ty.log);
        match body.hit {
            Some((end, e)) => hit(
                end,
                func_expr(all, ty.found, e, s.span_since(i, end)),
                body.log,
            ),
            None => miss(body.log),
        }
    } else {
        miss(log.note(arrow, just(TokenView::ArrowThin)))
    }
}

/// `lambda_params lambda_body`
pub open spec fn lambda_func(s: StreamView, i: int, log: LogView) -> Step<ExprView>
    decreases s.len() - i, 35nat,
{
    let given = forward(s, i, lambda_params(s, i, log));
    match given.hit {
        Some((arrow, all)) => lambda_body(s, i, all, arrow, given.log),
        None => miss(given.log),
    }
}

/// `lambda_func | func_call`
pub open spec fn expr_call(s: StreamView, i: int, log: LogView) -> Step<ExprView>
    decreases s.len() - i, 36nat,
{
    let func = lambda_func(s, i, log);
    if func.hit is Some {
        func
    } else {
        func_call(s, i, func.log.rollback(log.emitted.len()))
    }
}

/// `[name "="] expr_call`
pub open spec fn pipe_step(s: StreamView, i: int, log: LogView) -> Step<ExprView>
    decreases s.len() - i, 37nat,
{
    let name = alias(s, i, log);
    let value = expr_call(s, name.end, name.log);
    match value.hit {
        Some((end, e)) => hit(end, with_alias(name.found, e), value.log),
        None => miss(value.log),
    }
}

/// What parts the steps of a pipeline: a bar, or line breaks.
#[verifier::opaque]
pub open spec fn pipe(s: StreamView, i: int, log: LogView) -> Taken<()> {
    if s.has(i, TokenView::Control('|')) {
        Taken { found: (), end: i + 1, log }
    } else {
        new_lines(s, i, log.note(i, just(TokenView::Control('|'))))
    }
}

/// `{pipe pipe_step}`
pub open spec fn pipe_rest(s: StreamView, i: int, log: LogView) -> Taken<Seq<ExprView>>
    decreases s.len() - i, 38nat,
{
    proof {
        lemma_pipe(s, i, log);
    }
    let sep = pipe(s, i, log);
    if sep.end == i {
        nothing(i, sep.log)
    } else {
        let first = forward(s, i, pipe_step(s, sep.end, sep.log));
        match first.hit {
            Some((end, e)) => {
                let rest = pipe_rest(s, end, first.log);
                prepend(e, rest)
            },
            None => nothing(i, first.log.rollback(log.emitted.len())),
        }
    }
}

/// The pipeline of those steps; a single step is no pipeline.
#[verifier::opaque]
pub open spec fn piped(first: ExprView, rest: Seq<ExprView>, span: Span) -> ExprView {
    if rest.len() == 0 {
        first
    } else {
        expr_at(ExprKindView::Pipeline(seq![first] + rest), span)
    }
}

/// `new_lines pipe_step {pipe pipe_step} new_lines`
pub open spec fn pipeline(s: StreamView, i: int, log: LogView) -> Step<ExprView>
    decreases s.len() - i, 39nat,
{
    proof {
        lemma_new_lines(s, i, log);
    }
    let start = new_lines(s, i, log);
    let first = forward(s, i, pipe_step(s, start.end, start.log));
    match first.hit {
        Some((j, e)) => {
            let rest = pipe_rest(s, j, first.log);
            let end = new_lines(s, rest.end, rest.log);
            hit(end.end, piped(e, rest.found, s.span_since(start.end, rest.end)), end.log)
        },
        None => miss(first.log),
    }
}

/// An item of a tuple, which may have a name, or of an array:
/// `new_lines [name "="] pipeline new_lines`
pub open spec fn list_item(s: StreamView, tuple: bool, i: int, log: LogView) -> Step<ExprView>
    decreases s.len() - i, 40nat,
{
    proof {
        lemma_new_lines(s, i, log);
    }
    let start = new_lines(s, i, log);
    let name = if tuple {
        alias(s, start.end, start.log)
    } else {
        Taken { found: None, end: start.end, log: start.log }
    };
    let value = pipeline(s, name.end, name.log);
    match value.hit {
        Some((j, e)) => {
            let end = new_lines(s, j, value.log);
            hit(end.end, with_alias(name.found, e), end.log)
        },
        None => miss(value.log),
    }
}

/// `{"," list_item} [","]`
pub open spec fn list_rest(s: StreamView, tuple: bool, i: int, log: LogView) -> Taken<Seq<ExprView>>
    decreases s.len() - i, 41nat,
{
    if s.has(i, TokenView::Control(',')) {
        let first = forward(s, i, list_item(s, tuple, i + 1, log));
        match first.hit {
            Some((end, e)) => {
                let rest = list_rest(s, tuple, end, first.log);
                prepend(e, rest)
            },
            None => nothing(i + 1, first.log.rollback(log.emitted.len())),
        }
    } else {
        nothing(i, log.note(i, just(TokenView::Control(','))))
    }
}

/// `[list_item {"," list_item} [","]]`
pub open spec fn list(s: StreamView, tuple: bool, i: int, log: LogView) -> Taken<Seq<ExprView>>
    decreases s.len() - i, 42nat,
{
    let first = forward(s, i, list_item(s, tuple, i, log));
    match first.hit {
        Some((end, e)) => {
            let rest = list_rest(s, tuple, end, first.log);
            prepend(e, rest)
        },
        None => nothing(i, first.log.rollback(log.emitted.len())),
    }
}

/// `"=>" func_call new_lines` from `arrow` on, behind the condition.
pub open spec fn case_value(
    s: StreamView,
    condition: ExprView,
    arrow: int,
    log: LogView,
) -> Step<SwitchCaseView>
    decreases s.len() - arrow, 35nat,
{
    if s.has(arrow, TokenView::ArrowFat) {
        let value = func_call(s, arrow + 1, log);
        match value.hit {
            Some((j, e)) => {
                let end = new_lines(s, j, value.log);
                hit(end.end, SwitchCaseView { condition, value: e }, end.log)
            },
            None => miss(value.log),
        }
    } else {
        miss(log.note(arrow, just(TokenView::ArrowFat)))
    }
}

/// `new_lines func_call case_value`
pub open spec fn case_item(s: StreamView, i: int, log: LogView) -> Step<SwitchCaseView>
    decreases s.len() - i, 40nat,
{
    proof {
        lemma_new_lines(s, i, log);
    }
    let start = new_lines(s, i, log);
    let condition = forward(s, i, func_call(s, start.end, start.log));
    match condition.hit {
        Some((arrow, e)) => case_value(s, e, arrow, condition.log),
        None => miss(condition.log),
    }
}

/// `{"," case_item} [","]`
pub open spec fn cases_rest(s: StreamView, i: int, log: LogView) -> Taken<Seq<SwitchCaseView>>
    decreases s.len() - i, 41nat,
{
    if s.has(i, TokenView::Control(',')) {
        let first = forward(s, i, case_item(s, i + 1, log));
        match first.hit {
            Some((end, c)) => {
                let rest = cases_rest(s, end, first.log);
                prepend(c, rest)
            },
            None => nothing(i + 1, first.log.rollback(log.emitted.len())),
        }
    } else {
        nothing(i, log.note(i, just(TokenView::Control(','))))
    }
}

/// `[case_item {"," case_item} [","]]`
pub open spec fn cases(s: StreamView, i: int, log: LogView) -> Taken<Seq<SwitchCaseView>>
    decreases s.len() - i, 42nat,
{
    let first = forward(s, i, case_item(s, i, log));
    match first.hit {
        Some((end, c)) => {
            let rest = cases_rest(s, end, first.log);
            prepend(c, rest)
        },
        None => nothing(i, first.log.rollback(log.emitted.len())),
    }
}

/// Line breaks end where they begin, or behind that and within the tokens.
pub proof fn lemma_new_lines(s: StreamView, i: int, log: LogView)
    ensures
        new_lines(s, i, log).end == i || i < new_lines(s, i, log).end <= s.len(),
    decreases s.len() - i,
{
    reveal(new_lines);
    if s.has(i, TokenView::NewLine) {
        lemma_new_lines(s, i + 1, log);
    }
}

/// What parts two steps ends where it begins, because it is missing, or behind that
/// and within the tokens.
pub proof fn lemma_pipe(s: StreamView, i: int, log: LogView)
    ensures
        pipe(s, i, log).end == i || i < pipe(s, i, log).end <= s.len(),
{
    reveal(pipe);
    lemma_new_lines(s, i, log.note(i, just(TokenView::Control('|'))));
}

proof fn lemma_ident_rest(s: StreamView, i: int, log: LogView)
    ensures
        ident_rest(s, i, log).end == i || i < ident_rest(s, i, log).end <= s.len(),
    decreases s.len() - i,
{
    if s.has(i, TokenView::Control('.')) {
        if s.token(i + 1) is Some {
            lemma_ident_rest(s, i + 2, log);
            lemma_ident_rest(s, i + 2, log.note(i + 1, just(any_name())));
        }
    }
}

proof fn lemma_type_rest(s: StreamView, left: ExprView, span: Span, i: int, log: LogView)
    ensures
        ({
            let end = type_rest(s, left, span, i, log).end;
            end == i || i < end <= s.len()
        }),
    decreases s.len() - i,
{
    if s.has(i, TokenView::Or) {
        let right = forward(s, i, type_term(s, i + 1, log));
        if let Some((end, e)) = right.hit {
            let both = joined(span, s.span_since(i + 1, end));
            lemma_type_rest(s, binary_expr(left, BinOp::Or, e, both), both, end, right.log);
        }
    }
}

/// A type between angle brackets ends where it begins, because there is none, or
/// behind that and within the tokens.
pub proof fn lemma_type_annotation(s: StreamView, i: int, log: LogView)
    ensures
        ({
            let end = type_annotation(s, i, log).end;
            end == i || i < end <= s.len()
        }),
{
    reveal(type_annotation);
    reveal(type_expr);
    reveal(ident);
    if s.has(i, TokenView::Control('<')) {
        lemma_ident_rest(s, i + 2, log);
        let left = type_term(s, i + 1, log);
        if let Some((end, e)) = left.hit {
            lemma_type_rest(s, e, s.span_since(i + 1, end), end, left.log);
        }
    }
}

} // verus!
