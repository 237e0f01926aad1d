//! How operators share the operands between them.
use vstd::prelude::*;

use crate::ast::{BinOp, ExprKindView, ExprView};
use crate::grammar::{
    args, atom, binary, binary_expr, binary_op, binary_rest, call, check_args, expr, expr_call,
    forward, func_call, joined, lambda_body, lambda_func, lambda_params, loosest, operand, range,
    range_from, term, unary,
};
use crate::laws::quiet::lemma_args;
use crate::lexer::token::TokenView;
use crate::log::LogView;
use crate::places::{lemma_kept_expr, Places};
use crate::source_grammar::single_expr;
use crate::span::Span;
use crate::stream::StreamView;
use crate::twins::{same_operand, same_range, Twins};

verus! {

/// The operand `e` stands from `i` up to `j`: something without an operator between
/// operands, unless it stands in brackets.
pub open spec fn operand_at(s: StreamView, i: int, j: int, e: ExprView) -> bool {
    forward(s, i, range(s, i, LogView::start())).hit == Some((j, e))
}

/// No fault is found with the operand at `i`.
pub open spec fn faultless(s: StreamView, i: int) -> bool {
    forall|log: LogView| (#[trigger] range(s, i, log)).log.emitted == log.emitted
}

/// How an operator is written.
pub open spec fn operator_token(op: BinOp) -> TokenView {
    match op {
        BinOp::Mul => TokenView::Control('*'),
        BinOp::DivInt => TokenView::DivInt,
        BinOp::DivFloat => TokenView::Control('/'),
        BinOp::Mod => TokenView::Control('%'),
        BinOp::Add => TokenView::Control('+'),
        BinOp::Sub => TokenView::Control('-'),
        BinOp::Eq => TokenView::Eq,
        BinOp::Ne => TokenView::Ne,
        BinOp::Gt => TokenView::Control('>'),
        BinOp::Lt => TokenView::Control('<'),
        BinOp::Gte => TokenView::Gte,
        BinOp::Lte => TokenView::Lte,
        BinOp::RegexSearch => TokenView::RegexSearch,
        BinOp::Coalesce => TokenView::Coalesce,
        BinOp::And => TokenView::And,
        BinOp::Or => TokenView::Or,
    }
}

/// How loosely an operator binds: multiplication and division bind tightest, then come
/// sums, comparisons, `??`, `&&` and `||`.
pub open spec fn looseness(op: BinOp) -> nat {
    match op {
        BinOp::Mul | BinOp::DivInt | BinOp::DivFloat | BinOp::Mod => 0,
        BinOp::Add | BinOp::Sub => 1,
        BinOp::Eq | BinOp::Ne | BinOp::Gt | BinOp::Lt | BinOp::Gte | BinOp::Lte => 2,
        BinOp::RegexSearch => 2,
        BinOp::Coalesce => 3,
        BinOp::And => 4,
        BinOp::Or => 5,
    }
}

/// No operator between operands stands at `i`.
pub open spec fn no_operator_at(s: StreamView, i: int) -> bool {
    forall|op: BinOp| !s.has(i, #[trigger] operator_token(op))
}

/// The place from the beginning of the token at `i` up to the end of the one before `j`.
pub open spec fn place_of(s: StreamView, i: int, j: int) -> Span {
    Span { start: s.spans[i].start, end: s.spans[j - 1].end, source_id: s.eoi.source_id }
}

/// The operator `op` between `x` and `y`: what stands before it is on the left.
pub open spec fn operation(x: ExprView, op: BinOp, y: ExprView, span: Span) -> ExprView {
    ExprView {
        kind: ExprKindView::Binary(Box::new(x), op, Box::new(y)),
        span: Some(span),
        alias: None,
    }
}

pub(crate) proof fn lemma_place(s: StreamView, i: int, j: int)
    requires
        0 <= i < j <= s.len(),
    ensures
        s.span_since(i, j) == place_of(s, i, j),
{
    reveal(StreamView::span_since);
}

proof fn lemma_operator(op: BinOp)
    ensures
        looseness(op) <= loosest(),
        binary_op(looseness(op), Some(operator_token(op))) == Some(op),
{
}

proof fn lemma_no_operator_at(s: StreamView, i: int, level: nat)
    requires
        no_operator_at(s, i),
        level <= loosest(),
    ensures
        no_operator(s, level as int, i),
{
    assert forall|l: nat| l <= level implies #[trigger] binary_op(l, s.token(i)) is None by {
        if let Some(op) = binary_op(l, s.token(i)) {
            assert(s.has(i, operator_token(op)));
        }
    }
}

/// No operator of that level, or of a tighter one, stands at `i`.
pub open spec fn no_operator(s: StreamView, level: int, i: int) -> bool {
    forall|l: nat| l <= level ==> #[trigger] binary_op(l, s.token(i)) is None
}

/// Three operands with two operators between them, and none behind them.
pub struct Three {
    pub s: StreamView,
    /// Where the first operand stands.
    pub i: int,
    pub x: ExprView,
    /// Where the first operator stands, and what it is.
    pub j: int,
    pub first: BinOp,
    pub y: ExprView,
    /// Where the second operator stands, and what it is.
    pub k: int,
    pub second: BinOp,
    pub z: ExprView,
    /// Where the last operand ends.
    pub end: int,
}

impl Three {
    pub open spec fn wf(self) -> bool {
        &&& 0 <= self.i
        &&& operand_at(self.s, self.i, self.j, self.x)
        &&& self.s.has(self.j, operator_token(self.first))
        &&& operand_at(self.s, self.j + 1, self.k, self.y)
        &&& self.s.has(self.k, operator_token(self.second))
        &&& operand_at(self.s, self.k + 1, self.end, self.z)
        &&& no_operator_at(self.s, self.end)
    }

    /// No fault is found with any of the operands.
    pub open spec fn faultless(self) -> bool {
        faultless(self.s, self.i) && faultless(self.s, self.j + 1) && faultless(
            self.s,
            self.k + 1,
        )
    }

    /// What the operands and the operators are grouped to: the operator that binds more
    /// tightly has the operands next to it, and of two that bind alike the first one
    /// has.
    pub open spec fn grouped(self) -> ExprView {
        let span = place_of(self.s, self.i, self.end);
        if looseness(self.first) <= looseness(self.second) {
            let left = operation(
                self.x,
                self.first,
                self.y,
                place_of(self.s, self.i, self.k),
            );
            operation(left, self.second, self.z, span)
        } else {
            let right = operation(
                self.y,
                self.second,
                self.z,
                place_of(self.s, self.j + 1, self.end),
            );
            operation(self.x, self.first, right, span)
        }
    }

    /// The first operator has its operands, and what that gives is an operand of the
    /// second.
    pub open spec fn grouped_left(self) -> ExprView {
        let span = joined(
            self.s.span_since(self.i, self.j),
            self.s.span_since(self.j + 1, self.k),
        );
        binary_expr(
            binary_expr(self.x, self.first, self.y, span),
            self.second,
            self.z,
            joined(span, self.s.span_since(self.k + 1, self.end)),
        )
    }

    /// The second operator has its operands, and what that gives is an operand of the
    /// first.
    pub open spec fn grouped_right(self) -> ExprView {
        let span = joined(
            self.s.span_since(self.j + 1, self.k),
            self.s.span_since(self.k + 1, self.end),
        );
        binary_expr(
            self.x,
            self.first,
            binary_expr(self.y, self.second, self.z, span),
            joined(
                self.s.span_since(self.i, self.j),
                self.s.span_since(self.j + 1, self.end),
            ),
        )
    }
}

/// What `range` takes does not depend on what went wrong before.
proof fn lemma_operand(s: StreamView, i: int, j: int, e: ExprView, log: LogView)
    requires
        operand_at(s, i, j, e),
    ensures
        forward(s, i, range(s, i, log)).hit == Some((j, e)),
        range(s, i, log).hit == Some((j, e)),
        i < j <= s.len(),
{
    let w = Twins { p: Places::Kept, s, q: Places::Kept, t: s };
    same_range(w, i, LogView::start(), log);
    lemma_kept_expr(e);
    if let Some((_, f)) = range(s, i, log).hit {
        lemma_kept_expr(f);
    }
}

/// A token is an operator of one level only.
proof fn lemma_one_level(t: Option<TokenView>, a: nat, b: nat)
    requires
        a <= loosest(),
        b <= loosest(),
        binary_op(a, t) is Some,
        binary_op(b, t) is Some,
    ensures
        a == b,
{
}

proof fn lemma_no_tighter(s: StreamView, level: nat, i: int)
    requires
        level <= loosest(),
        binary_op(level, s.token(i)) is Some,
    ensures
        no_operator(s, level - 1, i),
{
    assert forall|l: nat| l <= level - 1 implies #[trigger] binary_op(l, s.token(i)) is None by {
        if binary_op(l, s.token(i)) is Some {
            lemma_one_level(s.token(i), l, level);
        }
    }
}

proof fn lemma_operand_alone(
    s: StreamView,
    level: nat,
    i: int,
    j: int,
    e: ExprView,
    log: LogView,
)
    requires
        operand_at(s, i, j, e),
        no_operator(s, level - 1, j),
    ensures
        operand(s, level, i, log).hit == Some((j, e)),
        i < j <= s.len(),
        faultless(s, i) ==> operand(s, level, i, log).log.emitted == log.emitted,
    decreases 2 * level,
{
    lemma_operand(s, i, j, e, log);
    if level > 0 {
        lemma_alone(s, (level - 1) as nat, i, j, e, log);
    }
}

/// An operand with no operator of the level behind it stays alone.
proof fn lemma_alone(s: StreamView, level: nat, i: int, j: int, e: ExprView, log: LogView)
    requires
        operand_at(s, i, j, e),
        no_operator(s, level as int, j),
    ensures
        binary(s, level, i, log).hit == Some((j, e)),
        faultless(s, i) ==> binary(s, level, i, log).log.emitted == log.emitted,
    decreases 2 * level + 1,
{
    lemma_operand_alone(s, level, i, j, e, log);
    let left = forward(s, i, operand(s, level, i, log));
    assert(binary_op(level, s.token(j)) is None);
    lemma_rest_stops(s, level, e, s.span_since(i, j), j, left.log);
}

proof fn lemma_rest_stops(
    s: StreamView,
    level: nat,
    left: ExprView,
    span: Span,
    i: int,
    log: LogView,
)
    requires
        binary_op(level, s.token(i)) is None,
    ensures
        binary_rest(s, level, left, span, i, log).found == left,
        binary_rest(s, level, left, span, i, log).end == i,
        binary_rest(s, level, left, span, i, log).log.emitted == log.emitted,
{
    broadcast use crate::laws::quiet::group_emitted;

}

proof fn lemma_rest_goes_on(
    s: StreamView,
    level: nat,
    op: BinOp,
    left: ExprView,
    span: Span,
    i: int,
    log: LogView,
)
    requires
        binary_op(level, s.token(i)) == Some(op),
    ensures
        ({
            let right = forward(s, i + 1, operand(s, level, i + 1, log));
            right.hit matches Some((end, e)) ==> ({
                let whole = joined(span, s.span_since(i + 1, end));
                binary_rest(s, level, left, span, i, log) == binary_rest(
                    s,
                    level,
                    binary_expr(left, op, e, whole),
                    whole,
                    end,
                    right.log,
                )
            })
        }),
{
}

proof fn lemma_joined(s: StreamView, i: int, j: int, k: int)
    requires
        i < j,
        j + 1 < k,
    ensures
        joined(s.span_since(i, j), s.span_since(j + 1, k)) == s.span_since(i, k),
{
    reveal(StreamView::span_since);
    reveal(joined);
}

/// Two operands with an operator of the level, or of a tighter one, between them
/// belong together, if none follows.
proof fn lemma_pair(
    s: StreamView,
    level: nat,
    tight: nat,
    op: BinOp,
    i: int,
    j: int,
    x: ExprView,
    k: int,
    y: ExprView,
    log: LogView,
)
    requires
        tight <= level <= loosest(),
        operand_at(s, i, j, x),
        binary_op(tight, s.token(j)) == Some(op),
        operand_at(s, j + 1, k, y),
        no_operator(s, level as int, k),
    ensures
        binary(s, level, i, log).hit == Some(
            (k, binary_expr(x, op, y, joined(s.span_since(i, j), s.span_since(j + 1, k)))),
        ),
        i < j,
        j + 1 < k <= s.len(),
        faultless(s, i) && faultless(s, j + 1) ==> binary(s, level, i, log).log.emitted
            == log.emitted,
    decreases level,
{
    let span = joined(s.span_since(i, j), s.span_since(j + 1, k));
    let both = binary_expr(x, op, y, span);
    let left = forward(s, i, operand(s, level, i, log));
    lemma_operand(s, i, j, x, log);
    lemma_operand(s, j + 1, k, y, log);
    assert(binary_op(level, s.token(k)) is None);
    if level == tight {
        lemma_no_tighter(s, tight, j);
        lemma_operand_alone(s, level, i, j, x, log);
        lemma_operand_alone(s, level, j + 1, k, y, left.log);
        let right = forward(s, j + 1, operand(s, level, j + 1, left.log));
        lemma_rest_goes_on(s, level, op, x, s.span_since(i, j), j, left.log);
        lemma_rest_stops(s, level, both, span, k, right.log);
    } else {
        lemma_pair(s, (level - 1) as nat, tight, op, i, j, x, k, y, log);
        assert(operand(s, level, i, log) == binary(s, (level - 1) as nat, i, log));
        lemma_rest_stops(s, level, both, s.span_since(i, k), k, left.log);
    }
}

proof fn lemma_left(t: Three, level: nat, log: LogView)
    requires
        t.wf(),
        looseness(t.first) <= looseness(t.second) <= level <= loosest(),
    ensures
        binary(t.s, level, t.i, log).hit == Some((t.end, t.grouped_left())),
        t.i < t.end <= t.s.len(),
        t.faultless() ==> binary(t.s, level, t.i, log).log.emitted == log.emitted,
    decreases level,
{
    let (a, b) = (looseness(t.first), looseness(t.second));
    lemma_operator(t.first);
    lemma_operator(t.second);
    lemma_no_operator_at(t.s, t.end, level);
    let s = t.s;
    let head = s.span_since(t.i, t.j);
    let span = joined(head, s.span_since(t.j + 1, t.k));
    let pair = binary_expr(t.x, t.first, t.y, span);
    let whole = joined(span, s.span_since(t.k + 1, t.end));
    let left = forward(s, t.i, operand(s, level, t.i, log));
    lemma_operand(s, t.i, t.j, t.x, log);
    lemma_operand(s, t.j + 1, t.k, t.y, log);
    lemma_operand(s, t.k + 1, t.end, t.z, log);
    lemma_joined(s, t.i, t.j, t.k);
    lemma_no_tighter(s, a, t.j);
    lemma_no_tighter(s, b, t.k);
    assert(binary_op(level, s.token(t.end)) is None);
    if level > b {
        lemma_left(t, (level - 1) as nat, log);
        assert(operand(s, level, t.i, log) == binary(s, (level - 1) as nat, t.i, log));
        lemma_rest_stops(
            s,
            level,
            t.grouped_left(),
            s.span_since(t.i, t.end),
            t.end,
            left.log,
        );
    } else if a < b {
        lemma_pair(s, (level - 1) as nat, a, t.first, t.i, t.j, t.x, t.k, t.y, log);
        assert(operand(s, level, t.i, log) == binary(s, (level - 1) as nat, t.i, log));
        lemma_operand_alone(s, level, t.k + 1, t.end, t.z, left.log);
        let right = forward(s, t.k + 1, operand(s, level, t.k + 1, left.log));
        lemma_rest_goes_on(s, level, t.second, pair, span, t.k, left.log);
        lemma_rest_stops(s, level, t.grouped_left(), whole, t.end, right.log);
    } else {
        lemma_operand_alone(s, level, t.i, t.j, t.x, log);
        lemma_operand_alone(s, level, t.j + 1, t.k, t.y, left.log);
        let middle = forward(s, t.j + 1, operand(s, level, t.j + 1, left.log));
        lemma_rest_goes_on(s, level, t.first, t.x, head, t.j, left.log);
        lemma_operand_alone(s, level, t.k + 1, t.end, t.z, middle.log);
        let right = forward(s, t.k + 1, operand(s, level, t.k + 1, middle.log));
        lemma_rest_goes_on(s, level, t.second, pair, span, t.k, middle.log);
        lemma_rest_stops(s, level, t.grouped_left(), whole, t.end, right.log);
    }
}

proof fn lemma_right(t: Three, level: nat, log: LogView)
    requires
        t.wf(),
        looseness(t.second) < looseness(t.first) <= level <= loosest(),
    ensures
        binary(t.s, level, t.i, log).hit == Some((t.end, t.grouped_right())),
        t.i < t.end <= t.s.len(),
        t.faultless() ==> binary(t.s, level, t.i, log).log.emitted == log.emitted,
    decreases level,
{
    let (a, b) = (looseness(t.first), looseness(t.second));
    lemma_operator(t.first);
    lemma_operator(t.second);
    lemma_no_operator_at(t.s, t.end, level);
    let s = t.s;
    let head = s.span_since(t.i, t.j);
    let left = forward(s, t.i, operand(s, level, t.i, log));
    lemma_operand(s, t.i, t.j, t.x, log);
    lemma_operand(s, t.j + 1, t.k, t.y, log);
    lemma_operand(s, t.k + 1, t.end, t.z, log);
    lemma_no_tighter(s, a, t.j);
    assert(binary_op(level, s.token(t.end)) is None);
    if level > a {
        lemma_right(t, (level - 1) as nat, log);
        assert(operand(s, level, t.i, log) == binary(s, (level - 1) as nat, t.i, log));
        lemma_rest_stops(
            s,
            level,
            t.grouped_right(),
            s.span_since(t.i, t.end),
            t.end,
            left.log,
        );
    } else {
        lemma_operand_alone(s, level, t.i, t.j, t.x, log);
        lemma_pair(
            s,
            (level - 1) as nat,
            b,
            t.second,
            t.j + 1,
            t.k,
            t.y,
            t.end,
            t.z,
            left.log,
        );
        assert(operand(s, level, t.j + 1, left.log) == binary(
            s,
            (level - 1) as nat,
            t.j + 1,
            left.log,
        ));
        let right = forward(s, t.j + 1, operand(s, level, t.j + 1, left.log));
        let whole = joined(head, s.span_since(t.j + 1, t.end));
        lemma_rest_goes_on(s, level, t.first, t.x, head, t.j, left.log);
        lemma_rest_stops(s, level, t.grouped_right(), whole, t.end, right.log);
    }
}

/// An operator takes what stands before it as its left operand and what stands behind
/// it as its right one, whatever the operator and the operands are.
pub proof fn law_an_operator_takes_the_operands_next_to_it(
    s: StreamView,
    i: int,
    j: int,
    x: ExprView,
    op: BinOp,
    k: int,
    y: ExprView,
    log: LogView,
)
    requires
        0 <= i,
        operand_at(s, i, j, x),
        s.has(j, operator_token(op)),
        operand_at(s, j + 1, k, y),
        no_operator_at(s, k),
    ensures
        expr(s, i, log).hit == Some(
            (
                k,
                ExprView {
                    kind: ExprKindView::Binary(Box::new(x), op, Box::new(y)),
                    span: Some(place_of(s, i, k)),
                    alias: None,
                },
            ),
        ),
{
    lemma_operator(op);
    lemma_no_operator_at(s, k, loosest());
    lemma_pair(s, loosest(), looseness(op), op, i, j, x, k, y, log);
    lemma_joined(s, i, j, k);
    lemma_place(s, i, k);
    reveal(binary_expr);
}

/// Without an operator behind it an operand is an expression.
pub proof fn law_an_operand_is_an_expression(
    s: StreamView,
    i: int,
    j: int,
    x: ExprView,
    log: LogView,
)
    requires
        operand_at(s, i, j, x),
        no_operator_at(s, j),
    ensures
        expr(s, i, log).hit == Some((j, x)),
{
    lemma_no_operator_at(s, j, loosest());
    lemma_alone(s, loosest(), i, j, x, log);
}

/// Of two operators the one that binds more tightly takes its operands first, and
/// of two that bind alike the first one does, whatever the operands are.
pub proof fn law_tighter_operators_group_first(t: Three, log: LogView)
    requires
        t.wf(),
    ensures
        expr(t.s, t.i, log).hit == Some((t.end, t.grouped())),
        t.faultless() ==> expr(t.s, t.i, log).log.emitted == log.emitted,
{
    lemma_operator(t.first);
    lemma_operator(t.second);
    lemma_operand(t.s, t.i, t.j, t.x, log);
    lemma_operand(t.s, t.j + 1, t.k, t.y, log);
    lemma_operand(t.s, t.k + 1, t.end, t.z, log);
    if looseness(t.first) <= looseness(t.second) {
        lemma_left(t, loosest(), log);
    } else {
        lemma_right(t, loosest(), log);
    }
    lemma_joined(t.s, t.i, t.j, t.k);
    lemma_joined(t.s, t.j + 1, t.k, t.end);
    lemma_joined(t.s, t.i, t.k, t.end);
    lemma_joined(t.s, t.i, t.j, t.end);
    lemma_place(t.s, t.i, t.k);
    lemma_place(t.s, t.i, t.end);
    lemma_place(t.s, t.j + 1, t.end);
    reveal(binary_expr);
}

proof fn lemma_no_func(s: StreamView, i: int, log: LogView)
    requires
        forall|k: int| !#[trigger] s.has(k, TokenView::ArrowThin),
    ensures
        lambda_func(s, i, log).hit is None,
{
    let given = forward(s, i, lambda_params(s, i, log));
    if let Some((arrow, all)) = given.hit {
        assert(!s.has(arrow, TokenView::ArrowThin));
        assert(lambda_body(s, i, all, arrow, given.log).hit is None);
    }
}

/// A source of three operands and two operators, without a function in it, is grouped
/// so, unless fault is found with an operand.
pub proof fn law_operators_group_in_a_source(t: Three)
    requires
        t.wf(),
        t.i == 0,
        t.end == t.s.len(),
        forall|k: int| !#[trigger] t.s.has(k, TokenView::ArrowThin),
    ensures
        match single_expr(t.s) {
            Ok(e) => e == t.grouped(),
            Err(errors) => {
                &&& errors.len() > 0
                &&& errors == expr_call(t.s, 0, LogView::start()).log.emitted
                &&& !t.faultless()
            },
        },
{
    broadcast use crate::laws::quiet::group_emitted;

    let s = t.s;
    let start = LogView::start();
    lemma_no_func(s, 0, start);
    let log = lambda_func(s, 0, start).log.rollback(start.emitted.len());
    assert(log.emitted.len() == 0) by {
        reveal(LogView::rollback);
    }
    law_tighter_operators_group_first(t, log);
    lemma_operand(s, t.k + 1, t.end, t.z, log);
    lemma_operand(s, t.j + 1, t.k, t.y, log);
    lemma_operand(s, t.i, t.j, t.x, log);
    let head = forward(s, 0, expr(s, 0, log));
    assert(head == expr(s, 0, log));
    lemma_args(s, t.end, head.log);
    let given = args(s, t.end, head.log);
    assert(call(t.grouped(), given.found, s.span_since(0, t.end)) == t.grouped()) by {
        reveal(call);
    }
    assert(check_args(given.found, s.span_since(0, t.end), given.log) == given.log) by {
        reveal(check_args);
    }
    assert(func_call(s, 0, log).hit == Some((t.end, t.grouped())));
    assert(expr_call(s, 0, start) == func_call(s, 0, log));
}

/// The literal at `i` as an expression.
pub open spec fn literal_at(s: StreamView, i: int) -> ExprView {
    match s.token(i) {
        Some(TokenView::Literal(l)) => ExprView {
            kind: ExprKindView::Literal(l),
            span: Some(place_of(s, i, i + 1)),
            alias: None,
        },
        _ => arbitrary(),
    }
}

/// A literal is an operand without fault, unless a range follows it.
pub proof fn law_literals_are_operands(s: StreamView, i: int)
    requires
        s.token(i) matches Some(TokenView::Literal(_)),
        !(s.token(i + 1) matches Some(TokenView::Range { .. })),
    ensures
        operand_at(s, i, i + 1, literal_at(s, i)),
        faultless(s, i),
{
    broadcast use crate::laws::quiet::group_emitted;

    let e = literal_at(s, i);
    lemma_place(s, i, i + 1);
    assert forall|log: LogView|
        (#[trigger] range(s, i, log)).log.emitted == log.emitted && range(s, i, log).hit == Some(
            (i + 1, e),
        ) by {
        assert(term(s, i, log) == atom(s, i, log));
        assert(atom(s, i, log).hit == Some((i + 1, e)) && atom(s, i, log).log == log) by {
            reveal(atom);
        }
        let first = forward(s, i, unary(s, i, log));
        assert(first.hit == Some((i + 1, e)));
        assert(range(s, i, log) == range_from(s, i, e, i + 1, first.log));
    }
    assert(range(s, i, LogView::start()).hit == Some((i + 1, e)));
}

/// What stands between the operators of a level: what the next tighter level takes, or
/// a range, if there is none.
pub proof fn law_a_level_holds_the_tighter_ones(s: StreamView, level: nat, i: int, log: LogView)
    ensures
        operand(s, 0, i, log).hit == range(s, i, log).hit,
        operand(s, level + 1, i, log).hit == binary(s, level, i, log).hit,
        expr(s, i, log).hit == binary(s, 5, i, log).hit,
{
    assert(operand(s, 0, i, log) == range(s, i, log));
    assert(operand(s, level + 1, i, log) == binary(s, level, i, log));
}

/// Behind an operand that ends at `i` stand operators of one level, each with an operand
/// behind it.
pub open spec fn level_run(
    s: StreamView,
    level: nat,
    i: int,
    ops: Seq<BinOp>,
    run: Seq<(int, ExprView)>,
) -> bool
    decreases run.len(),
{
    &&& ops.len() == run.len()
    &&& run.len() > 0 ==> {
        &&& looseness(ops[0]) == level
        &&& s.has(i, operator_token(ops[0]))
        &&& operand(s, level, i + 1, LogView::start()).hit == Some(run[0])
        &&& i + 1 < run[0].0 <= s.len()
        &&& level_run(s, level, run[0].0, ops.skip(1), run.skip(1))
    }
}

/// The operators applied one after the other, from the left, to `x`, which begins at `i`.
pub open spec fn from_the_left(
    s: StreamView,
    i: int,
    x: ExprView,
    ops: Seq<BinOp>,
    run: Seq<(int, ExprView)>,
) -> ExprView
    decreases run.len(),
{
    if run.len() == 0 {
        x
    } else {
        from_the_left(
            s,
            i,
            ExprView {
                kind: ExprKindView::Binary(Box::new(x), ops[0], Box::new(run[0].1)),
                span: Some(place_of(s, i, run[0].0)),
                alias: None,
            },
            ops.skip(1),
            run.skip(1),
        )
    }
}

pub(crate) proof fn lemma_operand_free(s: StreamView, level: nat, i: int, a: LogView, b: LogView)
    ensures
        operand(s, level, i, a).hit == operand(s, level, i, b).hit,
{
    let w = Twins { p: Places::Kept, s, q: Places::Kept, t: s };
    same_operand(w, level, i, a, b);
    if let Some((_, e)) = operand(s, level, i, a).hit {
        lemma_kept_expr(e);
    }
    if let Some((_, e)) = operand(s, level, i, b).hit {
        lemma_kept_expr(e);
    }
}

proof fn lemma_from_the_left(
    s: StreamView,
    level: nat,
    i: int,
    j: int,
    x: ExprView,
    ops: Seq<BinOp>,
    run: Seq<(int, ExprView)>,
    log: LogView,
)
    requires
        level <= loosest(),
        0 <= i < j <= s.len(),
        level_run(s, level, j, ops, run),
        ({
            let end = if run.len() == 0 {
                j
            } else {
                run.last().0
            };
            forall|op: BinOp| looseness(op) == level ==> !s.has(end, #[trigger] operator_token(op))
        }),
    ensures
        ({
            let rest = binary_rest(s, level, x, s.span_since(i, j), j, log);
            &&& rest.found == from_the_left(s, i, x, ops, run)
            &&& rest.end == if run.len() == 0 {
                j
            } else {
                run.last().0
            }
        }),
    decreases run.len(),
{
    if run.len() == 0 {
        assert(binary_op(level, s.token(j)) is None) by {
            if let Some(op) = binary_op(level, s.token(j)) {
                assert(s.has(j, operator_token(op)));
                lemma_operator(op);
                lemma_one_level(s.token(j), level, looseness(op));
            }
        }
        lemma_rest_stops(s, level, x, s.span_since(i, j), j, log);
    } else {
        let op = ops[0];
        let (k, y) = run[0];
        lemma_operator(op);
        lemma_operand_free(s, level, j + 1, LogView::start(), log);
        let right = forward(s, j + 1, operand(s, level, j + 1, log));
        lemma_rest_goes_on(s, level, op, x, s.span_since(i, j), j, log);
        lemma_joined(s, i, j, k);
        lemma_place(s, i, k);
        let both = binary_expr(x, op, y, s.span_since(i, k));
        reveal(binary_expr);
        assert(run.len() > 1 ==> run.skip(1).last() == run.last());
        lemma_from_the_left(s, level, i, k, both, ops.skip(1), run.skip(1), right.log);
    }
}

/// Operators of one level group from the left, however many there are: each takes all that
/// stands before it as its left operand.
pub proof fn law_operators_of_a_level_group_from_the_left(
    s: StreamView,
    level: nat,
    i: int,
    j: int,
    x: ExprView,
    ops: Seq<BinOp>,
    run: Seq<(int, ExprView)>,
    log: LogView,
)
    requires
        level <= 5,
        0 <= i < j <= s.len(),
        operand(s, level, i, LogView::start()).hit == Some((j, x)),
        level_run(s, level, j, ops, run),
        ({
            let end = if run.len() == 0 {
                j
            } else {
                run.last().0
            };
            forall|op: BinOp| looseness(op) == level ==> !s.has(end, #[trigger] operator_token(op))
        }),
    ensures
        binary(s, level, i, log).hit == Some(
            (
                if run.len() == 0 {
                    j
                } else {
                    run.last().0
                },
                from_the_left(s, i, x, ops, run),
            ),
        ),
{
    lemma_operand_free(s, level, i, LogView::start(), log);
    let left = forward(s, i, operand(s, level, i, log));
    lemma_from_the_left(s, level, i, j, x, ops, run, left.log);
}

} // verus!
