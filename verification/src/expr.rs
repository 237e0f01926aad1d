//! The parser of expressions: one function for each rule of the grammar.
use vstd::prelude::*;

use crate::ast::{
    cases_view, exprs_view, items_view, named_args_view, opt_expr_view, opt_text, params_view,
    texts, BinOp, BinaryExpr, Expr, ExprKind, ExprView, Func, FuncCall, FuncParam, FuncParamView,
    Ident, NamedArg, Pipeline, Range, SwitchCase, SwitchCaseView, UnOp, UnaryExpr,
};
use crate::common::{ctrl, ident_part, into_expr, keyword, new_line, only};
use crate::error::{opt_tokens_view, PError};
use crate::grammar::{self, ahead, ArgView, Step, Taken};
use crate::interpolation;
use crate::lexer::token::{token_fits, Token, TokenView};
use crate::log::Log;
use crate::span::{ParserSpan, Span};
use crate::stream::{StreamView, TokenStream};

verus! {

/// What a rule found at `at` is what the grammar says stands there.
pub open spec fn agrees(
    s: StreamView,
    at: usize,
    r: Option<(usize, Expr)>,
    log: Log,
    step: Step<ExprView>,
) -> bool {
    &&& match r {
        Some((end, e)) => step.hit == Some((end as int, e.view())) && ahead(
            s,
            at as int,
            end as int,
        ),
        None => step.hit is None,
    }
    &&& log.view() == step.log
}

/// The view of an expression that may be missing.
pub open spec fn viewed(e: Option<Expr>) -> Option<ExprView> {
    match e {
        Some(e) => Some(e.view()),
        None => None,
    }
}

/// Skips line breaks.
pub fn new_lines(stream: &TokenStream, at: usize, log: &mut Log) -> (end: usize)
    requires
        at <= stream.view().len(),
    ensures
        grammar::new_lines(stream.view(), at as int, old(log).view()) == (Taken {
            found: (),
            end: end as int,
            log: final(log).view(),
        }),
        at <= end <= stream.view().len(),
{
    proof {
        reveal(grammar::new_lines);
    }
    let mut end: usize = at;
    loop
        invariant_except_break
            at <= end <= stream.view().len(),
            grammar::new_lines(stream.view(), end as int, log.view()) == grammar::new_lines(
                stream.view(),
                at as int,
                old(log).view(),
            ),
        ensures
            grammar::new_lines(stream.view(), at as int, old(log).view()) == (Taken {
                found: (),
                end: end as int,
                log: log.view(),
            }),
            at <= end <= stream.view().len(),
        decreases stream.view().len() - end,
    {
        proof {
            reveal(grammar::new_lines);
        }
        match new_line(stream, end) {
            Ok(next) => {
                end = next;
            },
            Err(e) => {
                log.note(end, e.expected);
                break ;
            },
        }
    }
    end
}

/// Takes the name that an expression is given.
pub fn alias(stream: &TokenStream, at: usize, log: &mut Log) -> (r: (usize, Option<String>))
    requires
        at <= stream.view().len(),
    ensures
        grammar::alias(stream.view(), at as int, old(log).view()) == (Taken {
            found: opt_text(r.1),
            end: r.0 as int,
            log: final(log).view(),
        }),
        at <= r.0 <= stream.view().len(),
{
    match ident_part(stream, at) {
        Ok((name, next)) => match ctrl(stream, next, '=') {
            Ok(end) => (end, Some(name)),
            Err(e) => {
                log.note(next, e.expected);
                (at, None)
            },
        },
        Err(e) => {
            log.note(at, e.expected);
            (at, None)
        },
    }
}

/// Gives an expression a name.
pub fn with_alias(alias: Option<String>, e: Expr) -> (r: Expr)
    ensures
        r.view() == grammar::with_alias(opt_text(alias), e.view()),
{
    proof {
        reveal(grammar::with_alias);
    }
    match alias {
        Some(name) => Expr { kind: e.kind, span: e.span, alias: Some(name) },
        None => e,
    }
}

/// Takes a name, and what follows it behind dots.
pub fn ident(stream: &TokenStream, at: usize, log: &mut Log) -> (r: Option<(usize, Vec<String>)>)
    requires
        at <= stream.view().len(),
    ensures
        match r {
            Some((end, names)) => grammar::ident(stream.view(), at as int, old(log).view()).hit
                == Some((end as int, texts(names@))) && ahead(
                stream.view(),
                at as int,
                end as int,
            ),
            None => grammar::ident(stream.view(), at as int, old(log).view()).hit is None,
        },
        final(log).view() == grammar::ident(stream.view(), at as int, old(log).view()).log,
{
    proof {
        reveal(grammar::ident);
    }
    let (first, first_end) = match ident_part(stream, at) {
        Ok(found) => found,
        Err(e) => {
            log.note(at, e.expected);
            return None;
        },
    };
    let mut names: Vec<String> = Vec::new();
    names.push(first);
    let mut end: usize = first_end;
    let ghost whole = grammar::ident(stream.view(), at as int, old(log).view());
    assert(texts(names@) =~= seq![first@]);
    loop
        invariant_except_break
            ahead(stream.view(), at as int, end as int),
            ({
                let rest = grammar::ident_rest(stream.view(), end as int, log.view());
                whole == grammar::hit(rest.end, texts(names@) + rest.found, rest.log)
            }),
        ensures
            ahead(stream.view(), at as int, end as int),
            whole == grammar::hit(end as int, texts(names@), log.view()),
        decreases stream.view().len() - end,
    {
        proof {
            reveal(grammar::ident);
        }
        let ghost before = names@;
        match ctrl(stream, end, '.') {
            Ok(dot_end) => {
                let part = match ident_part(stream, dot_end) {
                    Ok((name, next)) => Some((name, next)),
                    Err(e) => {
                        log.note(dot_end, e.expected);
                        match ctrl(stream, dot_end, '*') {
                            Ok(next) => Some(("*".to_owned(), next)),
                            Err(e) => {
                                log.note(dot_end, e.expected);
                                None
                            },
                        }
                    },
                };
                match part {
                    Some((name, next)) => {
                        names.push(name);
                        proof {
                            let rest = grammar::ident_rest(
                                stream.view(),
                                next as int,
                                log.view(),
                            ).found;
                            assert(texts(before) + (seq![name@] + rest) =~= texts(names@) + rest);
                        }
                        end = next;
                    },
                    None => {
                        assert(texts(names@) + Seq::<Seq<char>>::empty() =~= texts(names@));
                        break ;
                    },
                }
            },
            Err(e) => {
                log.note(end, e.expected);
                assert(texts(names@) + Seq::<Seq<char>>::empty() =~= texts(names@));
                break ;
            },
        }
    }
    Some((end, names))
}

/// Takes an identifier as an expression.
pub fn ident_expr(stream: &TokenStream, at: usize, log: &mut Log) -> (r: Option<(usize, Expr)>)
    requires
        at <= stream.view().len(),
    ensures
        agrees(
            stream.view(),
            at,
            r,
            *final(log),
            grammar::ident_expr(stream.view(), at as int, old(log).view()),
        ),
{
    match ident(stream, at, log) {
        Some((end, path)) => Some(
            (end, into_expr(ExprKind::Ident(Ident { path }), stream.span_since(at, end))),
        ),
        None => None,
    }
}

/// Takes a type without alternatives.
pub fn type_term(stream: &TokenStream, at: usize, log: &mut Log) -> (r: Option<(usize, Expr)>)
    requires
        at <= stream.view().len(),
    ensures
        agrees(
            stream.view(),
            at,
            r,
            *final(log),
            grammar::type_term(stream.view(), at as int, old(log).view()),
        ),
{
    if let Some(Token::Literal(l)) = stream.token(at) {
        return Some(
            (at + 1, into_expr(ExprKind::Literal(l.clone()), stream.span_since(at, at + 1))),
        );
    }
    ident_expr(stream, at, log)
}

/// The place from the beginning of one up to the end of another.
pub fn joined(left: Span, right: Span) -> (span: Span)
    ensures
        span == grammar::joined(left, right),
{
    proof {
        reveal(grammar::joined);
    }
    Span { start: left.start, end: right.end, source_id: left.source_id }
}

/// Makes a binary expression.
pub fn binary_expr(left: Expr, op: BinOp, right: Expr, span: Span) -> (e: Expr)
    ensures
        e.view() == grammar::binary_expr(left.view(), op, right.view(), span),
{
    proof {
        reveal(grammar::binary_expr);
    }
    into_expr(
        ExprKind::Binary(BinaryExpr { left: Box::new(left), op, right: Box::new(right) }),
        ParserSpan(span),
    )
}

/// Takes a type.
pub fn type_expr(stream: &TokenStream, at: usize, log: &mut Log) -> (r: Option<(usize, Expr)>)
    requires
        at <= stream.view().len(),
    ensures
        agrees(
            stream.view(),
            at,
            r,
            *final(log),
            grammar::type_expr(stream.view(), at as int, old(log).view()),
        ),
{
    proof {
        reveal(grammar::type_expr);
    }
    let (mut end, mut left) = match type_term(stream, at, log) {
        Some(found) => found,
        None => {
            return None;
        },
    };
    let mut span: Span = stream.span_since(at, end).0;
    let ghost whole = grammar::type_rest(
        stream.view(),
        left.view(),
        span,
        end as int,
        log.view(),
    );
    loop
        invariant_except_break
            ahead(stream.view(), at as int, end as int),
            whole == grammar::type_rest(
                stream.view(),
                left.view(),
                span,
                end as int,
                log.view(),
            ),
        ensures
            ahead(stream.view(), at as int, end as int),
            whole == (Taken { found: left.view(), end: end as int, log: log.view() }),
        decreases stream.view().len() - end,
    {
        proof {
            reveal(grammar::type_expr);
        }
        if let Some(Token::Or) = stream.token(end) {
            match type_term(stream, end + 1, log) {
                Some((next, right)) => {
                    span = joined(span, stream.span_since(end + 1, next).0);
                    left = binary_expr(left, BinOp::Or, right, span);
                    end = next;
                },
                None => {
                    break ;
                },
            }
        } else {
            log.note(end, only(Token::Or));
            break ;
        }
    }
    Some((end, left))
}

/// Takes a type between angle brackets.
pub fn type_annotation(stream: &TokenStream, at: usize, log: &mut Log) -> (r: (
    usize,
    Option<Expr>,
))
    requires
        at <= stream.view().len(),
    ensures
        grammar::type_annotation(stream.view(), at as int, old(log).view()) == (Taken {
            found: viewed(r.1),
            end: r.0 as int,
            log: final(log).view(),
        }),
        at <= r.0 <= stream.view().len(),
{
    proof {
        reveal(grammar::type_annotation);
    }
    match ctrl(stream, at, '<') {
        Ok(inner) => match type_expr(stream, inner, log) {
            Some((end, e)) => match ctrl(stream, end, '>') {
                Ok(next) => (next, Some(e)),
                Err(e) => {
                    log.note(end, e.expected);
                    (at, None)
                },
            },
            None => (at, None),
        },
        Err(e) => {
            log.note(at, e.expected);
            (at, None)
        },
    }
}

/// The unary operator that a token stands for.
pub fn unary_op(t: Option<&Token>) -> (op: Option<UnOp>)
    ensures
        op == grammar::unary_op(
            match t {
                Some(t) => Some(t.view()),
                None => None,
            },
        ),
{
    match t {
        Some(Token::Control('+')) => Some(UnOp::Add),
        Some(Token::Control('-')) => Some(UnOp::Neg),
        Some(Token::Control('!')) => Some(UnOp::Not),
        Some(Token::Eq) => Some(UnOp::EqSelf),
        _ => None,
    }
}

fn unary_ops() -> (v: Vec<Option<Token>>)
    ensures
        opt_tokens_view(v@) == grammar::unary_ops(),
{
    proof {
        reveal(grammar::unary_ops);
    }
    let v = vec![
        Some(Token::Control('+')),
        Some(Token::Control('-')),
        Some(Token::Control('!')),
        Some(Token::Eq),
    ];
    assert(opt_tokens_view(v@) =~= grammar::unary_ops());
    v
}

/// The binary operator of a level that a token stands for.
pub fn binary_op(level: usize, t: Option<&Token>) -> (op: Option<BinOp>)
    ensures
        op == grammar::binary_op(
            level as nat,
            match t {
                Some(t) => Some(t.view()),
                None => None,
            },
        ),
{
    match level {
        0 => match t {
            Some(Token::DivInt) => Some(BinOp::DivInt),
            Some(Token::Control('*')) => Some(BinOp::Mul),
            Some(Token::Control('/')) => Some(BinOp::DivFloat),
            Some(Token::Control('%')) => Some(BinOp::Mod),
            _ => None,
        },
        1 => match t {
            Some(Token::Control('+')) => Some(BinOp::Add),
            Some(Token::Control('-')) => Some(BinOp::Sub),
            _ => None,
        },
        2 => match t {
            Some(Token::Eq) => Some(BinOp::Eq),
            Some(Token::Ne) => Some(BinOp::Ne),
            Some(Token::Lte) => Some(BinOp::Lte),
            Some(Token::Gte) => Some(BinOp::Gte),
            Some(Token::Control('<')) => Some(BinOp::Lt),
            Some(Token::Control('>')) => Some(BinOp::Gt),
            Some(Token::RegexSearch) => Some(BinOp::RegexSearch),
            _ => None,
        },
        3 => match t {
            Some(Token::Coalesce) => Some(BinOp::Coalesce),
            _ => None,
        },
        4 => match t {
            Some(Token::And) => Some(BinOp::And),
            _ => None,
        },
        _ => match t {
            Some(Token::Or) => Some(BinOp::Or),
            _ => None,
        },
    }
}

fn binary_ops(level: usize) -> (v: Vec<Option<Token>>)
    ensures
        opt_tokens_view(v@) == grammar::binary_ops(level as nat),
{
    proof {
        reveal(grammar::binary_ops);
    }
    let v = match level {
        0 => vec![
            Some(Token::DivInt),
            Some(Token::Control('*')),
            Some(Token::Control('/')),
            Some(Token::Control('%')),
        ],
        1 => vec![Some(Token::Control('+')), Some(Token::Control('-'))],
        2 => vec![
            Some(Token::Eq),
            Some(Token::Ne),
            Some(Token::Lte),
            Some(Token::Gte),
            Some(Token::Control('<')),
            Some(Token::Control('>')),
            Some(Token::RegexSearch),
        ],
        3 => vec![Some(Token::Coalesce)],
        4 => vec![Some(Token::And)],
        _ => vec![Some(Token::Or)],
    };
    assert(opt_tokens_view(v@) =~= grammar::binary_ops(level as nat));
    v
}

fn term_starts() -> (v: Vec<Option<Token>>)
    ensures
        opt_tokens_view(v@) == grammar::term_starts(),
{
    proof {
        reveal(grammar::term_starts);
    }
    let v = vec![
        Some(Token::Control('{')),
        Some(Token::Control('[')),
        Some(Token::Ident(String::new())),
        Some(Token::Keyword("case".to_owned())),
        Some(Token::Control('(')),
    ];
    assert(opt_tokens_view(v@) =~= grammar::term_starts());
    v
}

/// Takes an s-string or an f-string.
pub fn interpolation(
    stream: &TokenStream,
    at: usize,
    letter: char,
    text: &String,
    log: &mut Log,
) -> (r: Option<(usize, Expr)>)
    requires
        stream.wf(),
        at < stream.tokens.len(),
        stream.view().has(at as int, TokenView::Interpolation(letter, text@)),
    ensures
        agrees(
            stream.view(),
            at,
            r,
            *final(log),
            grammar::interpolation(stream.view(), at as int, letter, text@, old(log).view()),
        ),
{
    proof {
        reveal(StreamView::span_since);
        reveal(TokenStream::view);
        reveal(grammar::interpolation);
    }
    let span = stream.span_since(at, at + 1);
    assert(token_fits(
        stream.tokens@[at as int].0.view(),
        stream.tokens@[at as int].1.0.start as int,
        stream.tokens@[at as int].1.0.end as int,
    ));
    let base: usize = span.0.start + 2;
    let items = match interpolation::parse(text.as_str(), base, span.0.source_id) {
        Ok(items) => items,
        Err(place) => {
            let brace = Span {
                start: base + place,
                end: base + place + 1,
                source_id: span.0.source_id,
            };
            log.emit(
                PError::custom(
                    ParserSpan(brace),
                    "unmatched brace in an interpolated string".to_owned(),
                ),
            );
            Vec::new()
        },
    };
    proof {
        if items@.len() == 0 {
            assert(items_view(items@) =~= Seq::empty());
        }
    }
    let kind = if letter == 's' {
        ExprKind::SString(items)
    } else {
        ExprKind::FString(items)
    };
    Some((at + 1, into_expr(kind, span)))
}

/// Takes the end of the tuple or the array that began at `at`.
pub fn list_end(
    stream: &TokenStream,
    tuple: bool,
    at: usize,
    items_end: usize,
    items: Vec<Expr>,
    log: &mut Log,
) -> (r: Option<(usize, Expr)>)
    requires
        at < items_end <= stream.view().len(),
    ensures
        agrees(
            stream.view(),
            at,
            r,
            *final(log),
            grammar::list_end(
                stream.view(),
                tuple,
                at as int,
                (Taken {
                    found: exprs_view(items@),
                    end: items_end as int,
                    log: old(log).view(),
                }),
            ),
        ),
{
    proof {
        reveal(grammar::list_end);
    }
    let close = if tuple {
        '}'
    } else {
        ']'
    };
    let end: usize = new_lines(stream, items_end, log);
    match ctrl(stream, end, close) {
        Ok(next) => {
            let kind = if tuple {
                ExprKind::Tuple(items)
            } else {
                ExprKind::Array(items)
            };
            Some((next, into_expr(kind, stream.span_since(at, next))))
        },
        Err(e) => {
            log.note(end, e.expected);
            None
        },
    }
}

/// Takes a tuple or an array.
#[verifier::spinoff_prover]
pub fn brackets(
    stream: &TokenStream,
    tuple: bool,
    at: usize,
    log: &mut Log,
) -> (r: Option<(usize, Expr)>)
    requires
        stream.wf(),
        at <= stream.view().len(),
    ensures
        agrees(
            stream.view(),
            at,
            r,
            *final(log),
            grammar::brackets(stream.view(), tuple, at as int, old(log).view()),
        ),
    decreases stream.view().len() - at, 5nat,
{
    let open = if tuple {
        '{'
    } else {
        '['
    };
    match ctrl(stream, at, open) {
        Ok(inner) => {
            let (items_end, items) = list(stream, tuple, inner, log);
            list_end(stream, tuple, at, items_end, items, log)
        },
        Err(e) => {
            log.note(at, e.expected);
            None
        },
    }
}

/// Takes the end of the `case` that began at `at`.
pub fn cases_end(
    stream: &TokenStream,
    at: usize,
    items_end: usize,
    items: Vec<SwitchCase>,
    log: &mut Log,
) -> (r: Option<(usize, Expr)>)
    requires
        at < items_end <= stream.view().len(),
    ensures
        agrees(
            stream.view(),
            at,
            r,
            *final(log),
            grammar::cases_end(
                stream.view(),
                at as int,
                (Taken {
                    found: cases_view(items@),
                    end: items_end as int,
                    log: old(log).view(),
                }),
            ),
        ),
{
    proof {
        reveal(grammar::cases_end);
    }
    let end: usize = new_lines(stream, items_end, log);
    match ctrl(stream, end, ']') {
        Ok(next) => Some((next, into_expr(ExprKind::Case(items), stream.span_since(at, next)))),
        Err(e) => {
            log.note(end, e.expected);
            None
        },
    }
}

/// Takes a `case` expression.
#[verifier::spinoff_prover]
pub fn switch(stream: &TokenStream, at: usize, log: &mut Log) -> (r: Option<(usize, Expr)>)
    requires
        stream.wf(),
        at <= stream.view().len(),
    ensures
        agrees(
            stream.view(),
            at,
            r,
            *final(log),
            grammar::switch(stream.view(), at as int, old(log).view()),
        ),
    decreases stream.view().len() - at, 5nat,
{
    let start: usize = match keyword(stream, at, "case") {
        Ok(next) => next,
        Err(e) => {
            log.note(at, e.expected);
            return None;
        },
    };
    match ctrl(stream, start, '[') {
        Ok(inner) => {
            let (items_end, items) = cases(stream, inner, log);
            cases_end(stream, at, items_end, items, log)
        },
        Err(e) => {
            log.note(start, e.expected);
            None
        },
    }
}

/// Takes a pipeline between parentheses.
#[verifier::spinoff_prover]
pub fn parens(
    stream: &TokenStream,
    at: usize,
    log: &mut Log,
) -> (r: Option<(usize, Expr)>)
    requires
        stream.wf(),
        at <= stream.view().len(),
    ensures
        agrees(
            stream.view(),
            at,
            r,
            *final(log),
            grammar::parens(stream.view(), at as int, old(log).view()),
        ),
    decreases stream.view().len() - at, 5nat,
{
    match ctrl(stream, at, '(') {
        Ok(inner) => match pipeline(stream, inner, log) {
            Some((end, e)) => match ctrl(stream, end, ')') {
                Ok(next) => Some((next, e)),
                Err(e) => {
                    log.note(end, e.expected);
                    None
                },
            },
            None => None,
        },
        Err(e) => {
            log.note(at, e.expected);
            None
        },
    }
}

/// Takes an expression that one token tells.
#[verifier::spinoff_prover]
pub fn atom(
    stream: &TokenStream,
    at: usize,
    log: &mut Log,
) -> (r: Option<(usize, Expr)>)
    requires
        stream.wf(),
        at <= stream.view().len(),
    ensures
        agrees(
            stream.view(),
            at,
            r,
            *final(log),
            grammar::atom(stream.view(), at as int, old(log).view()),
        ),
{
    proof {
        reveal(grammar::atom);
    }
    match stream.token(at) {
        Some(Token::Literal(l)) => Some(
            (at + 1, into_expr(ExprKind::Literal(l.clone()), stream.span_since(at, at + 1))),
        ),
        Some(Token::Param(name)) => Some(
            (at + 1, into_expr(ExprKind::Param(name.clone()), stream.span_since(at, at + 1))),
        ),
        Some(Token::Interpolation(letter, text)) => interpolation(stream, at, *letter, text, log),
        Some(Token::Ident(_)) => ident_expr(stream, at, log),
        _ => {
            log.note(at, term_starts());
            None
        },
    }
}

/// Takes an expression without operators.
#[verifier::spinoff_prover]
pub fn term(
    stream: &TokenStream,
    at: usize,
    log: &mut Log,
) -> (r: Option<(usize, Expr)>)
    requires
        stream.wf(),
        at <= stream.view().len(),
    ensures
        agrees(
            stream.view(),
            at,
            r,
            *final(log),
            grammar::term(stream.view(), at as int, old(log).view()),
        ),
    decreases stream.view().len() - at, 6nat,
{
    if ctrl(stream, at, '{').is_ok() {
        brackets(stream, true, at, log)
    } else if ctrl(stream, at, '[').is_ok() {
        brackets(stream, false, at, log)
    } else if ctrl(stream, at, '(').is_ok() {
        parens(stream, at, log)
    } else if keyword(stream, at, "case").is_ok() {
        switch(stream, at, log)
    } else {
        atom(stream, at, log)
    }
}

/// Takes a term, or a unary operator with one.
#[verifier::spinoff_prover]
pub fn unary(
    stream: &TokenStream,
    at: usize,
    log: &mut Log,
) -> (r: Option<(usize, Expr)>)
    requires
        stream.wf(),
        at <= stream.view().len(),
    ensures
        agrees(
            stream.view(),
            at,
            r,
            *final(log),
            grammar::unary(stream.view(), at as int, old(log).view()),
        ),
    decreases stream.view().len() - at, 7nat,
{
    let before: usize = log.emitted_len();
    if let Some(found) = term(stream, at, log) {
        return Some(found);
    }
    log.rollback(before);
    match unary_op(stream.token(at)) {
        Some(op) => match term(stream, at + 1, log) {
            Some((end, e)) => Some(
                (
                    end,
                    into_expr(
                        ExprKind::Unary(UnaryExpr { op, expr: Box::new(e) }),
                        stream.span_since(at, end),
                    ),
                ),
            ),
            None => None,
        },
        None => {
            log.note(at, unary_ops());
            None
        },
    }
}

/// Makes a range.
#[verifier::spinoff_prover]
pub fn range_expr(start: Option<Expr>, end: Option<Expr>, span: ParserSpan) -> (e: Expr)
    ensures
        e.view() == grammar::range_expr(viewed(start), viewed(end), span.0),
{
    proof {
        reveal(grammar::range_expr);
    }
    into_expr(ExprKind::Range(Range { start: boxed(start), end: boxed(end) }), span)
}

fn boxed(e: Option<Expr>) -> (r: Option<Box<Expr>>)
    ensures
        opt_expr_view(r) == grammar::boxed(viewed(e)),
{
    match e {
        Some(e) => Some(Box::new(e)),
        None => None,
    }
}

/// Takes the rest of a range that begins at `at` and whose lower bound ends at `end`.
#[verifier::spinoff_prover]
pub fn range_from(
    stream: &TokenStream,
    at: usize,
    start: Expr,
    end: usize,
    log: &mut Log,
) -> (r: Option<(usize, Expr)>)
    requires
        stream.wf(),
        ahead(stream.view(), at as int, end as int),
    ensures
        agrees(
            stream.view(),
            at,
            r,
            *final(log),
            grammar::range_from(
                stream.view(),
                at as int,
                start.view(),
                end as int,
                old(log).view(),
            ),
        ),
    decreases stream.view().len() - end, 8nat,
{
    match stream.token(end) {
        Some(Token::Range { bind_left: true, bind_right: true }) => {
            let before: usize = log.emitted_len();
            match unary(stream, end + 1, log) {
                Some((next, last)) => Some(
                    (next, range_expr(Some(start), Some(last), stream.span_since(at, next))),
                ),
                None => {
                    log.rollback(before);
                    Some(
                        (end + 1, range_expr(Some(start), None, stream.span_since(at, end + 1))),
                    )
                },
            }
        },
        Some(Token::Range { bind_left: true, bind_right: false }) => Some(
            (end + 1, range_expr(Some(start), None, stream.span_since(at, end + 1))),
        ),
        _ => {
            log.note(end, only(Token::Range { bind_left: true, bind_right: true }));
            Some((end, start))
        },
    }
}

/// Takes a range without a lower bound.
#[verifier::spinoff_prover]
pub fn range_to(
    stream: &TokenStream,
    at: usize,
    log: &mut Log,
) -> (r: Option<(usize, Expr)>)
    requires
        stream.wf(),
        at <= stream.view().len(),
    ensures
        agrees(
            stream.view(),
            at,
            r,
            *final(log),
            grammar::range_to(stream.view(), at as int, old(log).view()),
        ),
    decreases stream.view().len() - at, 8nat,
{
    match stream.token(at) {
        Some(Token::Range { bind_left: _, bind_right: true }) => {
            let before: usize = log.emitted_len();
            match unary(stream, at + 1, log) {
                Some((next, last)) => Some(
                    (next, range_expr(None, Some(last), stream.span_since(at, next))),
                ),
                None => {
                    log.rollback(before);
                    Some((at + 1, range_expr(None, None, stream.span_since(at, at + 1))))
                },
            }
        },
        Some(Token::Range { bind_left: _, bind_right: false }) => Some(
            (at + 1, range_expr(None, None, stream.span_since(at, at + 1))),
        ),
        _ => None,
    }
}

/// Takes a range, or what one can begin with.
#[verifier::spinoff_prover]
pub fn range(
    stream: &TokenStream,
    at: usize,
    log: &mut Log,
) -> (r: Option<(usize, Expr)>)
    requires
        stream.wf(),
        at <= stream.view().len(),
    ensures
        agrees(
            stream.view(),
            at,
            r,
            *final(log),
            grammar::range(stream.view(), at as int, old(log).view()),
        ),
    decreases stream.view().len() - at, 9nat,
{
    let before: usize = log.emitted_len();
    match unary(stream, at, log) {
        Some((end, start)) => range_from(stream, at, start, end, log),
        None => {
            log.rollback(before);
            range_to(stream, at, log)
        },
    }
}

/// Takes what the operators of a level stand between.
#[verifier::spinoff_prover]
pub fn operand(
    stream: &TokenStream,
    level: usize,
    at: usize,
    log: &mut Log,
) -> (r: Option<(usize, Expr)>)
    requires
        stream.wf(),
        at <= stream.view().len(),
        level <= grammar::loosest(),
    ensures
        agrees(
            stream.view(),
            at,
            r,
            *final(log),
            grammar::operand(stream.view(), level as nat, at as int, old(log).view()),
        ),
    decreases stream.view().len() - at, 10 + 2 * level,
{
    if level == 0 {
        range(stream, at, log)
    } else {
        binary(stream, level - 1, at, log)
    }
}

/// Takes operands with the operators of a level between them.
#[verifier::spinoff_prover]
pub fn binary(
    stream: &TokenStream,
    level: usize,
    at: usize,
    log: &mut Log,
) -> (r: Option<(usize, Expr)>)
    requires
        stream.wf(),
        at <= stream.view().len(),
        level <= grammar::loosest(),
    ensures
        agrees(
            stream.view(),
            at,
            r,
            *final(log),
            grammar::binary(stream.view(), level as nat, at as int, old(log).view()),
        ),
    decreases stream.view().len() - at, 11 + 2 * level,
{
    let (mut end, mut left) = match operand(stream, level, at, log) {
        Some(found) => found,
        None => {
            return None;
        },
    };
    let mut span: Span = stream.span_since(at, end).0;
    let ghost whole = grammar::binary_rest(
        stream.view(),
        level as nat,
        left.view(),
        span,
        end as int,
        log.view(),
    );
    loop
        invariant_except_break
            stream.wf(),
            level <= grammar::loosest(),
            ahead(stream.view(), at as int, end as int),
            whole == grammar::binary_rest(
                stream.view(),
                level as nat,
                left.view(),
                span,
                end as int,
                log.view(),
            ),
        ensures
            ahead(stream.view(), at as int, end as int),
            whole == (Taken { found: left.view(), end: end as int, log: log.view() }),
        decreases stream.view().len() - end,
    {
        match binary_op(level, stream.token(end)) {
            Some(op) => {
                let before: usize = log.emitted_len();
                match operand(stream, level, end + 1, log) {
                    Some((next, right)) => {
                        span = joined(span, stream.span_since(end + 1, next).0);
                        left = binary_expr(left, op, right, span);
                        end = next;
                    },
                    None => {
                        log.rollback(before);
                        break ;
                    },
                }
            },
            None => {
                log.note(end, binary_ops(level));
                break ;
            },
        }
    }
    Some((end, left))
}

/// Takes an expression without a call.
#[verifier::spinoff_prover]
pub fn expr(
    stream: &TokenStream,
    at: usize,
    log: &mut Log,
) -> (r: Option<(usize, Expr)>)
    requires
        stream.wf(),
        at <= stream.view().len(),
    ensures
        agrees(
            stream.view(),
            at,
            r,
            *final(log),
            grammar::expr(stream.view(), at as int, old(log).view()),
        ),
    decreases stream.view().len() - at, 30nat,
{
    binary(stream, 5, at, log)
}

/// An argument of a call.
pub enum Arg {
    Named(String, Expr),
    Positional(Expr),
}

impl Arg {
    pub open spec fn view(&self) -> ArgView {
        match self {
            Arg::Named(name, value) => ArgView::Named(name@, value.view()),
            Arg::Positional(e) => ArgView::Positional(e.view()),
        }
    }
}

pub open spec fn args_view(s: Seq<Arg>) -> Seq<ArgView> {
    Seq::new(s.len(), |i: int| s[i].view())
}

/// Takes an argument with a name.
#[verifier::spinoff_prover]
pub fn named_arg(stream: &TokenStream, at: usize, log: &mut Log) -> (r: Option<(usize, Arg)>)
    requires
        stream.wf(),
        at <= stream.view().len(),
    ensures
        ({
            let step = grammar::named_arg(stream.view(), at as int, old(log).view());
            &&& match r {
                Some((end, found)) => step.hit == Some((end as int, found.view())) && ahead(
                    stream.view(),
                    at as int,
                    end as int,
                ),
                None => step.hit is None,
            }
            &&& final(log).view() == step.log
        }),
    decreases stream.view().len() - at, 31nat,
{
    let (name, name_end) = match ident_part(stream, at) {
        Ok(found) => found,
        Err(e) => {
            log.note(at, e.expected);
            return None;
        },
    };
    match ctrl(stream, name_end, ':') {
        Ok(start) => match expr(stream, start, log) {
            Some((end, value)) => Some((end, Arg::Named(name, value))),
            None => None,
        },
        Err(e) => {
            log.note(name_end, e.expected);
            None
        },
    }
}

/// Takes an argument.
#[verifier::spinoff_prover]
pub fn arg(stream: &TokenStream, at: usize, log: &mut Log) -> (r: Option<(usize, Arg)>)
    requires
        stream.wf(),
        at <= stream.view().len(),
    ensures
        ({
            let step = grammar::arg(stream.view(), at as int, old(log).view());
            &&& match r {
                Some((end, found)) => step.hit == Some((end as int, found.view())) && ahead(
                    stream.view(),
                    at as int,
                    end as int,
                ),
                None => step.hit is None,
            }
            &&& final(log).view() == step.log
        }),
    decreases stream.view().len() - at, 32nat,
{
    let before: usize = log.emitted_len();
    if let Some(found) = named_arg(stream, at, log) {
        return Some(found);
    }
    log.rollback(before);
    let (start, name) = alias(stream, at, log);
    match expr(stream, start, log) {
        Some((end, e)) => Some((end, Arg::Positional(with_alias(name, e)))),
        None => None,
    }
}

/// Takes arguments.
#[verifier::spinoff_prover]
pub fn args(stream: &TokenStream, at: usize, log: &mut Log) -> (r: (usize, Vec<Arg>))
    requires
        stream.wf(),
        at <= stream.view().len(),
    ensures
        grammar::args(stream.view(), at as int, old(log).view()) == (Taken {
            found: args_view(r.1@),
            end: r.0 as int,
            log: final(log).view(),
        }),
        at <= r.0 <= stream.view().len(),
    decreases stream.view().len() - at, 33nat,
{
    let mut found: Vec<Arg> = Vec::new();
    let mut end: usize = at;
    let ghost whole = grammar::args(stream.view(), at as int, log.view());
    assert(args_view(found@) + whole.found =~= whole.found);
    loop
        invariant_except_break
            stream.wf(),
            at <= end <= stream.view().len(),
            ({
                let rest = grammar::args(stream.view(), end as int, log.view());
                whole == (Taken {
                    found: args_view(found@) + rest.found,
                    end: rest.end,
                    log: rest.log,
                })
            }),
        ensures
            at <= end <= stream.view().len(),
            whole == (Taken { found: args_view(found@), end: end as int, log: log.view() }),
        decreases stream.view().len() - end,
    {
        let before: usize = log.emitted_len();
        let ghost taken = args_view(found@);
        match arg(stream, end, log) {
            Some((next, a)) => {
                found.push(a);
                proof {
                    let rest = grammar::args(stream.view(), next as int, log.view()).found;
                    assert(taken + (seq![a.view()] + rest) =~= args_view(found@) + rest);
                }
                end = next;
            },
            None => {
                log.rollback(before);
                assert(taken + Seq::<ArgView>::empty() =~= taken);
                break ;
            },
        }
    }
    (end, found)
}

/// Where the first argument of that name stands.
#[verifier::spinoff_prover]
pub fn named_index(args: &Vec<NamedArg>, name: &String) -> (i: usize)
    ensures
        i == grammar::named_index(named_args_view(args@), name@, 0),
        i <= args.len(),
{
    let mut i: usize = 0;
    while i < args.len()
        invariant
            i <= args.len(),
            grammar::named_index(named_args_view(args@), name@, i as int) == grammar::named_index(
                named_args_view(args@),
                name@,
                0,
            ),
        decreases args.len() - i,
    {
        if args[i].name == *name {
            return i;
        }
        i = i + 1;
    }
    i
}

/// Adds an argument of that name, or puts it in the place of an earlier one. Tells
/// whether there was an earlier one.
#[verifier::spinoff_prover]
pub fn insert_named(args: &mut Vec<NamedArg>, name: String, value: Expr) -> (repeated: bool)
    ensures
        named_args_view(final(args)@) == grammar::with_named(
            named_args_view(old(args)@),
            name@,
            value.view(),
        ),
        repeated == (grammar::named_index(named_args_view(old(args)@), name@, 0)
            < old(args)@.len()),
{
    let ghost before = named_args_view(args@);
    let ghost after = grammar::with_named(before, name@, value.view());
    let i: usize = named_index(args, &name);
    if i < args.len() {
        args.set(i, NamedArg { name, value });
        assert(named_args_view(args@) =~= after);
        true
    } else {
        args.push(NamedArg { name, value });
        assert(named_args_view(args@) =~= after);
        false
    }
}

/// Makes a call. A name that is given twice is an error.
#[verifier::spinoff_prover]
pub fn call(name: Expr, given: Vec<Arg>, span: ParserSpan, log: &mut Log) -> (e: Expr)
    ensures
        e.view() == grammar::call(name.view(), args_view(given@), span.0),
        final(log).view() == grammar::check_args(args_view(given@), span.0, old(log).view()),
{
    proof {
        reveal(grammar::call);
        reveal(grammar::check_args);
    }
    if given.len() == 0 {
        return name;
    }
    let mut positional: Vec<Expr> = Vec::new();
    let mut named: Vec<NamedArg> = Vec::new();
    let ghost all = args_view(given@);
    assert(exprs_view(positional@) =~= grammar::positional(all.take(0)));
    assert(named_args_view(named@) =~= grammar::named(all.take(0)));
    for a in it: given
        invariant
            all == args_view(it.seq()),
            exprs_view(positional@) == grammar::positional(all.take(it.index())),
            named_args_view(named@) == grammar::named(all.take(it.index())),
            log.view() == grammar::check_args(
                all.take(it.index()),
                span.0,
                old(log).view(),
            ),
    {
        proof {
            reveal(grammar::call);
            reveal(grammar::check_args);
        }
        assert(all.take(it.index() + 1).drop_last() =~= all.take(it.index()));
        match a {
            Arg::Positional(e) => {
                let ghost before = positional@;
                positional.push(e);
                assert(exprs_view(positional@) =~= exprs_view(before).push(e.view()));
            },
            Arg::Named(name, value) => {
                if insert_named(&mut named, name, value) {
                    log.emit(PError::custom(span, "argument is used multiple times".to_owned()));
                }
            },
        }
    }
    assert(all.take(all.len() as int) =~= all);
    into_expr(
        ExprKind::FuncCall(
            FuncCall { name: Box::new(name), args: positional, named_args: named },
        ),
        span,
    )
}

/// Takes an expression, and the arguments that it is called with.
#[verifier::spinoff_prover]
pub fn func_call(
    stream: &TokenStream,
    at: usize,
    log: &mut Log,
) -> (r: Option<(usize, Expr)>)
    requires
        stream.wf(),
        at <= stream.view().len(),
    ensures
        agrees(
            stream.view(),
            at,
            r,
            *final(log),
            grammar::func_call(stream.view(), at as int, old(log).view()),
        ),
    decreases stream.view().len() - at, 34nat,
{
    match expr(stream, at, log) {
        Some((name_end, name)) => {
            let (end, given) = args(stream, name_end, log);
            Some((end, call(name, given, stream.span_since(at, end), log)))
        },
        None => None,
    }
}

/// Takes the default value of a parameter.
#[verifier::spinoff_prover]
pub fn default_value(stream: &TokenStream, at: usize, log: &mut Log) -> (r: (usize, Option<Expr>))
    requires
        stream.wf(),
        at <= stream.view().len(),
    ensures
        grammar::default_value(stream.view(), at as int, old(log).view()) == (Taken {
            found: viewed(r.1),
            end: r.0 as int,
            log: final(log).view(),
        }),
        at <= r.0 <= stream.view().len(),
    decreases stream.view().len() - at, 31nat,
{
    match ctrl(stream, at, ':') {
        Ok(start) => {
            let before: usize = log.emitted_len();
            match expr(stream, start, log) {
                Some((end, e)) => (end, Some(e)),
                None => {
                    log.rollback(before);
                    (at, None)
                },
            }
        },
        Err(e) => {
            log.note(at, e.expected);
            (at, None)
        },
    }
}

/// Takes a parameter.
#[verifier::spinoff_prover]
pub fn param(stream: &TokenStream, at: usize, log: &mut Log) -> (r: Option<(usize, FuncParam)>)
    requires
        stream.wf(),
        at <= stream.view().len(),
    ensures
        ({
            let step = grammar::param(stream.view(), at as int, old(log).view());
            &&& match r {
                Some((end, found)) => step.hit == Some((end as int, found.view())) && ahead(
                    stream.view(),
                    at as int,
                    end as int,
                ),
                None => step.hit is None,
            }
            &&& final(log).view() == step.log
        }),
    decreases stream.view().len() - at, 32nat,
{
    match ident_part(stream, at) {
        Ok((name, name_end)) => {
            let (ty_end, ty) = type_annotation(stream, name_end, log);
            let (end, default) = default_value(stream, ty_end, log);
            Some(
                (end, FuncParam { name, ty_expr: boxed(ty), default_value: boxed(default) }),
            )
        },
        Err(e) => {
            log.note(at, e.expected);
            None
        },
    }
}

/// Takes parameters.
#[verifier::spinoff_prover]
pub fn params(stream: &TokenStream, at: usize, log: &mut Log) -> (r: (usize, Vec<FuncParam>))
    requires
        stream.wf(),
        at <= stream.view().len(),
    ensures
        grammar::params(stream.view(), at as int, old(log).view()) == (Taken {
            found: params_view(r.1@),
            end: r.0 as int,
            log: final(log).view(),
        }),
        at <= r.0 <= stream.view().len(),
        r.1@.len() > 0 ==> at < r.0,
    decreases stream.view().len() - at, 33nat,
{
    let mut found: Vec<FuncParam> = Vec::new();
    let mut end: usize = at;
    let ghost whole = grammar::params(stream.view(), at as int, log.view());
    assert(params_view(found@) + whole.found =~= whole.found);
    loop
        invariant_except_break
            stream.wf(),
            at <= end <= stream.view().len(),
            found@.len() > 0 ==> at < end,
            ({
                let rest = grammar::params(stream.view(), end as int, log.view());
                whole == (Taken {
                    found: params_view(found@) + rest.found,
                    end: rest.end,
                    log: rest.log,
                })
            }),
        ensures
            at <= end <= stream.view().len(),
            found@.len() > 0 ==> at < end,
            whole == (Taken { found: params_view(found@), end: end as int, log: log.view() }),
        decreases stream.view().len() - end,
    {
        let before: usize = log.emitted_len();
        let ghost taken = params_view(found@);
        match param(stream, end, log) {
            Some((next, p)) => {
                found.push(p);
                proof {
                    let rest = grammar::params(stream.view(), next as int, log.view()).found;
                    assert(taken + (seq![p.view()] + rest) =~= params_view(found@) + rest);
                }
                end = next;
            },
            None => {
                log.rollback(before);
                assert(taken + Seq::<FuncParamView>::empty() =~= taken);
                break ;
            },
        }
    }
    (end, found)
}

/// Parts the parameters without a default value from those with one.
#[verifier::spinoff_prover]
pub fn split_params(given: Vec<FuncParam>) -> (r: (Vec<FuncParam>, Vec<FuncParam>))
    ensures
        params_view(r.0@) == grammar::params_with(params_view(given@), false),
        params_view(r.1@) == grammar::params_with(params_view(given@), true),
{
    proof {
        reveal(grammar::params_with);
    }
    let mut params: Vec<FuncParam> = Vec::new();
    let mut named_params: Vec<FuncParam> = Vec::new();
    let ghost all = params_view(given@);
    assert(params_view(params@) =~= grammar::params_with(all.take(0), false));
    assert(params_view(named_params@) =~= grammar::params_with(all.take(0), true));
    for p in it: given
        invariant
            all == params_view(it.seq()),
            params_view(params@) == grammar::params_with(all.take(it.index()), false),
            params_view(named_params@) == grammar::params_with(all.take(it.index()), true),
    {
        proof {
            reveal(grammar::params_with);
        }
        assert(all.take(it.index() + 1).drop_last() =~= all.take(it.index()));
        if p.default_value.is_some() {
            let ghost before = named_params@;
            named_params.push(p);
            assert(params_view(named_params@) =~= params_view(before).push(p.view()));
        } else {
            let ghost before = params@;
            params.push(p);
            assert(params_view(params@) =~= params_view(before).push(p.view()));
        }
    }
    assert(all.take(all.len() as int) =~= all);
    (params, named_params)
}

/// Makes a function.
pub fn func_expr(
    given: Vec<FuncParam>,
    return_ty: Option<Expr>,
    body: Expr,
    span: ParserSpan,
) -> (e: Expr)
    ensures
        e.view() == grammar::func_expr(
            params_view(given@),
            viewed(return_ty),
            body.view(),
            span.0,
        ),
{
    proof {
        reveal(grammar::func_expr);
    }
    let (params, named_params) = split_params(given);
    let func = Func { return_ty: boxed(return_ty), body: Box::new(body), params, named_params };
    into_expr(ExprKind::Func(func), span)
}

/// Takes the parameters of a function, and what stands before them.
#[verifier::spinoff_prover]
pub fn lambda_params(stream: &TokenStream, at: usize, log: &mut Log) -> (r: Option<
    (usize, Vec<FuncParam>),
>)
    requires
        stream.wf(),
        at <= stream.view().len(),
    ensures
        ({
            let step = grammar::lambda_params(stream.view(), at as int, old(log).view());
            &&& match r {
                Some((end, found)) => step.hit == Some((end as int, params_view(found@))) && ahead(
                    stream.view(),
                    at as int,
                    end as int,
                ),
                None => step.hit is None,
            }
            &&& final(log).view() == step.log
        }),
    decreases stream.view().len() - at, 34nat,
{
    match keyword(stream, at, "func") {
        Ok(start) => Some(params(stream, start, log)),
        Err(e) => {
            log.note(at, e.expected);
            let (end, given) = params(stream, at, log);
            if given.len() == 0 {
                None
            } else {
                Some((end, given))
            }
        },
    }
}

/// Takes the arrow and the body of the function that began at `at`.
#[verifier::spinoff_prover]
pub fn lambda_body(
    stream: &TokenStream,
    at: usize,
    given: Vec<FuncParam>,
    arrow: usize,
    log: &mut Log,
) -> (r: Option<(usize, Expr)>)
    requires
        stream.wf(),
        ahead(stream.view(), at as int, arrow as int),
    ensures
        agrees(
            stream.view(),
            at,
            r,
            *final(log),
            grammar::lambda_body(
                stream.view(),
                at as int,
                params_view(given@),
                arrow as int,
                old(log).view(),
            ),
        ),
    decreases stream.view().len() - arrow, 35nat,
{
    if let Some(Token::ArrowThin) = stream.token(arrow) {
        let (ty_end, return_ty) = type_annotation(stream, arrow + 1, log);
        match func_call(stream, ty_end, log) {
            Some((end, body)) => Some(
                (end, func_expr(given, return_ty, body, stream.span_since(at, end))),
            ),
            None => None,
        }
    } else {
        log.note(arrow, only(Token::ArrowThin));
        None
    }
}

/// Takes a function.
#[verifier::spinoff_prover]
pub fn lambda_func(stream: &TokenStream, at: usize, log: &mut Log) -> (r: Option<(usize, Expr)>)
    requires
        stream.wf(),
        at <= stream.view().len(),
    ensures
        agrees(
            stream.view(),
            at,
            r,
            *final(log),
            grammar::lambda_func(stream.view(), at as int, old(log).view()),
        ),
    decreases stream.view().len() - at, 35nat,
{
    match lambda_params(stream, at, log) {
        Some((arrow, given)) => lambda_body(stream, at, given, arrow, log),
        None => None,
    }
}

/// Takes a function or a call.
#[verifier::spinoff_prover]
pub fn expr_call(
    stream: &TokenStream,
    at: usize,
    log: &mut Log,
) -> (r: Option<(usize, Expr)>)
    requires
        stream.wf(),
        at <= stream.view().len(),
    ensures
        agrees(
            stream.view(),
            at,
            r,
            *final(log),
            grammar::expr_call(stream.view(), at as int, old(log).view()),
        ),
    decreases stream.view().len() - at, 36nat,
{
    let before: usize = log.emitted_len();
    if let Some(found) = lambda_func(stream, at, log) {
        return Some(found);
    }
    log.rollback(before);
    func_call(stream, at, log)
}

/// Takes a step of a pipeline.
#[verifier::spinoff_prover]
pub fn pipe_step(
    stream: &TokenStream,
    at: usize,
    log: &mut Log,
) -> (r: Option<(usize, Expr)>)
    requires
        stream.wf(),
        at <= stream.view().len(),
    ensures
        agrees(
            stream.view(),
            at,
            r,
            *final(log),
            grammar::pipe_step(stream.view(), at as int, old(log).view()),
        ),
    decreases stream.view().len() - at, 37nat,
{
    let (start, name) = alias(stream, at, log);
    match expr_call(stream, start, log) {
        Some((end, e)) => Some((end, with_alias(name, e))),
        None => None,
    }
}

/// Takes what parts two steps of a pipeline.
#[verifier::spinoff_prover]
pub fn pipe(stream: &TokenStream, at: usize, log: &mut Log) -> (end: usize)
    requires
        at <= stream.view().len(),
    ensures
        grammar::pipe(stream.view(), at as int, old(log).view()) == (Taken {
            found: (),
            end: end as int,
            log: final(log).view(),
        }),
        at <= end <= stream.view().len(),
{
    proof {
        reveal(grammar::pipe);
    }
    match ctrl(stream, at, '|') {
        Ok(next) => next,
        Err(e) => {
            log.note(at, e.expected);
            new_lines(stream, at, log)
        },
    }
}

/// Takes the steps of a pipeline behind the first.
#[verifier::spinoff_prover]
pub fn pipe_rest(stream: &TokenStream, at: usize, log: &mut Log) -> (r: (usize, Vec<Expr>))
    requires
        stream.wf(),
        at <= stream.view().len(),
    ensures
        grammar::pipe_rest(stream.view(), at as int, old(log).view()) == (Taken {
            found: exprs_view(r.1@),
            end: r.0 as int,
            log: final(log).view(),
        }),
        at <= r.0 <= stream.view().len(),
    decreases stream.view().len() - at, 38nat,
{
    let mut found: Vec<Expr> = Vec::new();
    let mut end: usize = at;
    let ghost whole = grammar::pipe_rest(stream.view(), at as int, log.view());
    assert(exprs_view(found@) + whole.found =~= whole.found);
    loop
        invariant_except_break
            stream.wf(),
            at <= end <= stream.view().len(),
            ({
                let rest = grammar::pipe_rest(stream.view(), end as int, log.view());
                whole == (Taken {
                    found: exprs_view(found@) + rest.found,
                    end: rest.end,
                    log: rest.log,
                })
            }),
        ensures
            at <= end <= stream.view().len(),
            whole == (Taken { found: exprs_view(found@), end: end as int, log: log.view() }),
        decreases stream.view().len() - end,
    {
        let before: usize = log.emitted_len();
        let ghost taken = exprs_view(found@);
        assert(taken + Seq::<ExprView>::empty() =~= taken);
        let sep: usize = pipe(stream, end, log);
        if sep == end {
            break ;
        }
        match pipe_step(stream, sep, log) {
            Some((next, e)) => {
                found.push(e);
                proof {
                    let rest = grammar::pipe_rest(stream.view(), next as int, log.view()).found;
                    assert(taken + (seq![e.view()] + rest) =~= exprs_view(found@) + rest);
                }
                end = next;
            },
            None => {
                log.rollback(before);
                break ;
            },
        }
    }
    (end, found)
}

/// Makes a pipeline, unless there is but one step.
#[verifier::spinoff_prover]
pub fn piped(first: Expr, rest: Vec<Expr>, span: ParserSpan) -> (e: Expr)
    ensures
        e.view() == grammar::piped(first.view(), exprs_view(rest@), span.0),
{
    proof {
        reveal(grammar::piped);
    }
    if rest.len() == 0 {
        return first;
    }
    let mut exprs: Vec<Expr> = Vec::new();
    exprs.push(first);
    let mut more = rest;
    exprs.append(&mut more);
    assert(exprs_view(exprs@) =~= seq![first.view()] + exprs_view(rest@));
    into_expr(ExprKind::Pipeline(Pipeline { exprs }), span)
}

/// Takes a pipeline.
#[verifier::spinoff_prover]
pub fn pipeline(
    stream: &TokenStream,
    at: usize,
    log: &mut Log,
) -> (r: Option<(usize, Expr)>)
    requires
        stream.wf(),
        at <= stream.view().len(),
    ensures
        agrees(
            stream.view(),
            at,
            r,
            *final(log),
            grammar::pipeline(stream.view(), at as int, old(log).view()),
        ),
    decreases stream.view().len() - at, 39nat,
{
    let start: usize = new_lines(stream, at, log);
    match pipe_step(stream, start, log) {
        Some((first_end, first)) => {
            let (rest_end, rest) = pipe_rest(stream, first_end, log);
            let end: usize = new_lines(stream, rest_end, log);
            Some((end, piped(first, rest, stream.span_since(start, rest_end))))
        },
        None => None,
    }
}

/// Takes an item of a tuple or of an array.
#[verifier::spinoff_prover]
pub fn list_item(
    stream: &TokenStream,
    tuple: bool,
    at: usize,
    log: &mut Log,
) -> (r: Option<(usize, Expr)>)
    requires
        stream.wf(),
        at <= stream.view().len(),
    ensures
        agrees(
            stream.view(),
            at,
            r,
            *final(log),
            grammar::list_item(stream.view(), tuple, at as int, old(log).view()),
        ),
    decreases stream.view().len() - at, 40nat,
{
    let start: usize = new_lines(stream, at, log);
    let (name_end, name) = if tuple {
        alias(stream, start, log)
    } else {
        (start, None)
    };
    match pipeline(stream, name_end, log) {
        Some((value_end, e)) => {
            let end: usize = new_lines(stream, value_end, log);
            Some((end, with_alias(name, e)))
        },
        None => None,
    }
}

/// Takes the items of a tuple or of an array behind the first.
#[verifier::spinoff_prover]
pub fn list_rest(
    stream: &TokenStream,
    tuple: bool,
    at: usize,
    log: &mut Log,
) -> (r: (usize, Vec<Expr>))
    requires
        stream.wf(),
        at <= stream.view().len(),
    ensures
        grammar::list_rest(stream.view(), tuple, at as int, old(log).view()) == (Taken {
            found: exprs_view(r.1@),
            end: r.0 as int,
            log: final(log).view(),
        }),
        at <= r.0 <= stream.view().len(),
    decreases stream.view().len() - at, 41nat,
{
    let mut found: Vec<Expr> = Vec::new();
    let mut end: usize = at;
    let ghost whole = grammar::list_rest(stream.view(), tuple, at as int, log.view());
    assert(exprs_view(found@) + whole.found =~= whole.found);
    loop
        invariant_except_break
            stream.wf(),
            at <= end <= stream.view().len(),
            ({
                let rest = grammar::list_rest(stream.view(), tuple, end as int, log.view());
                whole == (Taken {
                    found: exprs_view(found@) + rest.found,
                    end: rest.end,
                    log: rest.log,
                })
            }),
        ensures
            at <= end <= stream.view().len(),
            whole == (Taken { found: exprs_view(found@), end: end as int, log: log.view() }),
        decreases stream.view().len() - end,
    {
        let ghost taken = exprs_view(found@);
        assert(taken + Seq::<ExprView>::empty() =~= taken);
        match ctrl(stream, end, ',') {
            Ok(start) => {
                let before: usize = log.emitted_len();
                match list_item(stream, tuple, start, log) {
                    Some((next, x)) => {
                        found.push(x);
                        proof {
                            let rest = grammar::list_rest(
                                stream.view(),
                                tuple,
                                next as int,
                                log.view(),
                            ).found;
                            assert(taken + (seq![x.view()] + rest) =~= exprs_view(found@) + rest);
                        }
                        end = next;
                    },
                    None => {
                        log.rollback(before);
                        end = start;
                        break ;
                    },
                }
            },
            Err(e) => {
                log.note(end, e.expected);
                break ;
            },
        }
    }
    (end, found)
}

/// Takes the items of a tuple or of an array.
#[verifier::spinoff_prover]
pub fn list(stream: &TokenStream, tuple: bool, at: usize, log: &mut Log) -> (r: (usize, Vec<Expr>))
    requires
        stream.wf(),
        at <= stream.view().len(),
    ensures
        grammar::list(stream.view(), tuple, at as int, old(log).view()) == (Taken {
            found: exprs_view(r.1@),
            end: r.0 as int,
            log: final(log).view(),
        }),
        at <= r.0 <= stream.view().len(),
    decreases stream.view().len() - at, 42nat,
{
    let mut found: Vec<Expr> = Vec::new();
    let before: usize = log.emitted_len();
    match list_item(stream, tuple, at, log) {
        Some((first_end, first)) => {
            let (end, mut rest) = list_rest(stream, tuple, first_end, log);
            let ghost more = exprs_view(rest@);
            found.push(first);
            found.append(&mut rest);
            assert(exprs_view(found@) =~= seq![first.view()] + more);
            (end, found)
        },
        None => {
            log.rollback(before);
            assert(exprs_view(found@) =~= Seq::<ExprView>::empty());
            (at, found)
        },
    }
}

/// Takes the value that a condition leads to.
#[verifier::spinoff_prover]
pub fn case_value(stream: &TokenStream, condition: Expr, arrow: usize, log: &mut Log) -> (r: Option<
    (usize, SwitchCase),
>)
    requires
        stream.wf(),
        arrow <= stream.view().len(),
    ensures
        ({
            let step = grammar::case_value(
                stream.view(),
                condition.view(),
                arrow as int,
                old(log).view(),
            );
            &&& match r {
                Some((end, found)) => step.hit == Some((end as int, found.view())) && ahead(
                    stream.view(),
                    arrow as int,
                    end as int,
                ),
                None => step.hit is None,
            }
            &&& final(log).view() == step.log
        }),
    decreases stream.view().len() - arrow, 35nat,
{
    if let Some(Token::ArrowFat) = stream.token(arrow) {
        match func_call(stream, arrow + 1, log) {
            Some((value_end, value)) => {
                let end: usize = new_lines(stream, value_end, log);
                Some((end, SwitchCase { condition, value }))
            },
            None => None,
        }
    } else {
        log.note(arrow, only(Token::ArrowFat));
        None
    }
}

/// Takes a condition with its value.
#[verifier::spinoff_prover]
pub fn case_item(stream: &TokenStream, at: usize, log: &mut Log) -> (r: Option<(usize, SwitchCase)>)
    requires
        stream.wf(),
        at <= stream.view().len(),
    ensures
        ({
            let step = grammar::case_item(stream.view(), at as int, old(log).view());
            &&& match r {
                Some((end, found)) => step.hit == Some((end as int, found.view())) && ahead(
                    stream.view(),
                    at as int,
                    end as int,
                ),
                None => step.hit is None,
            }
            &&& final(log).view() == step.log
        }),
    decreases stream.view().len() - at, 40nat,
{
    let start: usize = new_lines(stream, at, log);
    match func_call(stream, start, log) {
        Some((arrow, condition)) => case_value(stream, condition, arrow, log),
        None => None,
    }
}

/// Takes the conditions with their values behind the first.
#[verifier::spinoff_prover]
pub fn cases_rest(stream: &TokenStream, at: usize, log: &mut Log) -> (r: (usize, Vec<SwitchCase>))
    requires
        stream.wf(),
        at <= stream.view().len(),
    ensures
        grammar::cases_rest(stream.view(), at as int, old(log).view()) == (Taken {
            found: cases_view(r.1@),
            end: r.0 as int,
            log: final(log).view(),
        }),
        at <= r.0 <= stream.view().len(),
    decreases stream.view().len() - at, 41nat,
{
    let mut found: Vec<SwitchCase> = Vec::new();
    let mut end: usize = at;
    let ghost whole = grammar::cases_rest(stream.view(), at as int, log.view());
    assert(cases_view(found@) + whole.found =~= whole.found);
    loop
        invariant_except_break
            stream.wf(),
            at <= end <= stream.view().len(),
            ({
                let rest = grammar::cases_rest(stream.view(), end as int, log.view());
                whole == (Taken {
                    found: cases_view(found@) + rest.found,
                    end: rest.end,
                    log: rest.log,
                })
            }),
        ensures
            at <= end <= stream.view().len(),
            whole == (Taken { found: cases_view(found@), end: end as int, log: log.view() }),
        decreases stream.view().len() - end,
    {
        let ghost taken = cases_view(found@);
        assert(taken + Seq::<SwitchCaseView>::empty() =~= taken);
        match ctrl(stream, end, ',') {
            Ok(start) => {
                let before: usize = log.emitted_len();
                match case_item(stream, start, log) {
                    Some((next, x)) => {
                        found.push(x);
                        proof {
                            let rest = grammar::cases_rest(
                                stream.view(),
                                next as int,
                                log.view(),
                            ).found;
                            assert(taken + (seq![x.view()] + rest) =~= cases_view(found@) + rest);
                        }
                        end = next;
                    },
                    None => {
                        log.rollback(before);
                        end = start;
                        break ;
                    },
                }
            },
            Err(e) => {
                log.note(end, e.expected);
                break ;
            },
        }
    }
    (end, found)
}

/// Takes the conditions with their values.
#[verifier::spinoff_prover]
pub fn cases(stream: &TokenStream, at: usize, log: &mut Log) -> (r: (usize, Vec<SwitchCase>))
    requires
        stream.wf(),
        at <= stream.view().len(),
    ensures
        grammar::cases(stream.view(), at as int, old(log).view()) == (Taken {
            found: cases_view(r.1@),
            end: r.0 as int,
            log: final(log).view(),
        }),
        at <= r.0 <= stream.view().len(),
    decreases stream.view().len() - at, 42nat,
{
    let mut found: Vec<SwitchCase> = Vec::new();
    let before: usize = log.emitted_len();
    match case_item(stream, at, log) {
        Some((first_end, first)) => {
            let (end, mut rest) = cases_rest(stream, first_end, log);
            let ghost more = cases_view(rest@);
            found.push(first);
            found.append(&mut rest);
            assert(cases_view(found@) =~= seq![first.view()] + more);
            (end, found)
        },
        None => {
            log.rollback(before);
            assert(cases_view(found@) =~= Seq::<SwitchCaseView>::empty());
            (at, found)
        },
    }
}

} // verus!
