//! Sources of one token: what was written is what is read.
use vstd::prelude::*;

use crate::ast::{ExprKindView, ExprView, LiteralView, Text};
use crate::common::{expr_at, just};
use crate::error::ErrorView;
use crate::grammar::{
    args, atom, binary, binary_rest, call, check_args, default_value, expr, expr_call, forward,
    func_call, ident, ident_rest, lambda_body, lambda_func, lambda_params, loosest, operand, param,
    params, range, range_from, term, type_annotation, unary,
};
use crate::laws::lexemes::{law_digits_write_a_number, written_number};
use crate::laws::quiet::{lemma_args, lemma_params, silent};
use crate::lexer::chars::{char_at, class_at, run_end, word_at, CharClass};
use crate::lexer::number::{decimal_value, int_end, number, unit_at};
use crate::lexer::quoted::{quoted_by, quoted_rest, quoted_string, quotes_at};
use crate::lexer::token::{keyword_at, literal, name, symbol, token, TokenView};
use crate::lexer::{ignored_end, lexed, lexed_from, LexemeView};
use crate::log::LogView;
use crate::source_grammar::single_expr;
use crate::span::Span;
use crate::stream::StreamView;
use crate::{parsed_expr, stream_of};

verus! {

/// The only token of the stream is the expression `e`.
spec fn is_atom(s: StreamView, e: ExprView) -> bool {
    &&& s.len() == 1
    &&& forall|log: LogView|
        (#[trigger] term(s, 0, log)).hit == Some((1int, e)) && term(s, 0, log).log.emitted
            == log.emitted
    &&& forall|log: LogView| silent(log, #[trigger] lambda_func(s, 0, log))
}

proof fn lemma_range(s: StreamView, e: ExprView, log: LogView)
    requires
        is_atom(s, e),
    ensures
        range(s, 0, log).hit == Some((1int, e)),
        range(s, 0, log).log.emitted == log.emitted,
{
    broadcast use crate::laws::quiet::group_emitted;

    let first = forward(s, 0, unary(s, 0, log));
    assert(unary(s, 0, log) == term(s, 0, log));
    assert(s.token(1) is None);
    assert(range_from(s, 0, e, 1, first.log).hit == Some((1int, e)));
}

proof fn lemma_operand(s: StreamView, level: nat, e: ExprView, log: LogView)
    requires
        is_atom(s, e),
    ensures
        operand(s, level, 0, log).hit == Some((1int, e)),
        operand(s, level, 0, log).log.emitted == log.emitted,
    decreases 2 * level,
{
    if level == 0 {
        lemma_range(s, e, log);
    } else {
        lemma_binary(s, (level - 1) as nat, e, log);
    }
}

proof fn lemma_binary(s: StreamView, level: nat, e: ExprView, log: LogView)
    requires
        is_atom(s, e),
    ensures
        binary(s, level, 0, log).hit == Some((1int, e)),
        binary(s, level, 0, log).log.emitted == log.emitted,
    decreases 2 * level + 1,
{
    broadcast use crate::laws::quiet::group_emitted;

    lemma_operand(s, level, e, log);
    let left = forward(s, 0, operand(s, level, 0, log));
    assert(s.token(1) is None);
    assert(binary_rest(s, level, e, s.span_since(0, 1), 1, left.log).found == e);
}

proof fn lemma_single_expr(s: StreamView, e: ExprView)
    requires
        is_atom(s, e),
    ensures
        single_expr(s) == Ok::<_, Seq<crate::error::PErrorView>>(e),
{
    broadcast use crate::laws::quiet::group_emitted;

    let start = LogView::start();
    let func = lambda_func(s, 0, start);
    let log = func.log.rollback(start.emitted.len());
    assert(silent(start, func));
    lemma_binary(s, loosest(), e, log);
    let head = forward(s, 0, expr(s, 0, log));
    assert(expr(s, 0, log) == binary(s, loosest(), 0, log));
    lemma_args(s, 1, head.log);
    let given = args(s, 1, head.log);
    assert(call(e, given.found, s.span_since(0, 1)) == e) by {
        reveal(call);
    }
    assert(check_args(given.found, s.span_since(0, 1), given.log) == given.log) by {
        reveal(check_args);
    }
    assert(func_call(s, 0, log).hit == Some((1int, e)));
    assert(expr_call(s, 0, start) == func_call(s, 0, log));
}

proof fn lemma_literal(s: StreamView, l: LiteralView)
    requires
        s.len() == 1,
        s.has(0, TokenView::Literal(l)),
    ensures
        is_atom(s, expr_at(ExprKindView::Literal(l), s.span_since(0, 1))),
{
    broadcast use crate::laws::quiet::group_emitted;

    reveal(atom);
    assert forall|log: LogView| silent(log, #[trigger] lambda_func(s, 0, log)) by {
        let noted = log.note(0, just(TokenView::Keyword("func"@)));
        assert(silent(noted, param(s, 0, noted)));
        assert(params(s, 0, noted).found.len() == 0);
        assert(silent(log, lambda_params(s, 0, log)));
    }
}

proof fn lemma_name(s: StreamView, text: Text)
    requires
        s.len() == 1,
        s.has(0, TokenView::Ident(text)),
    ensures
        is_atom(s, expr_at(ExprKindView::Ident(seq![text]), s.span_since(0, 1))),
{
    broadcast use crate::laws::quiet::group_emitted;

    let e = expr_at(ExprKindView::Ident(seq![text]), s.span_since(0, 1));
    assert(s.token(1) is None);
    assert forall|log: LogView|
        (#[trigger] term(s, 0, log)).hit == Some((1int, e)) && term(s, 0, log).log.emitted
            == log.emitted by {
        reveal(atom);
        reveal(ident);
        let rest = ident_rest(s, 1, log);
        assert(seq![text] + rest.found =~= seq![text]);
        assert(ident(s, 0, log).hit == Some((1int, seq![text])));
    }
    assert forall|log: LogView| silent(log, #[trigger] lambda_func(s, 0, log)) by {
        let noted = log.note(0, just(TokenView::Keyword("func"@)));
        reveal(type_annotation);
        let ty = type_annotation(s, 1, noted);
        let value = default_value(s, 1, ty.log);
        let first = forward(s, 0, param(s, 0, noted));
        assert(first.hit matches Some((end, _)) && end == 1);
        lemma_params(s, 1, first.log);
        let rest = params(s, 1, first.log);
        assert(params(s, 1, first.log).end == 1) by {
            assert(silent(first.log, param(s, 1, first.log)));
        }
        let given = forward(s, 0, lambda_params(s, 0, log));
        if let Some((arrow, all)) = given.hit {
            assert(arrow == 1);
            assert(silent(log, lambda_body(s, 0, all, 1, given.log)));
        }
    }
}

proof fn lemma_lone_token(text: Text, t: TokenView)
    requires
        text.len() > 0,
        !char_at(text, 0, '.'),
        !class_at(text, 0, CharClass::Blank),
        !char_at(text, 0, '#'),
        token(text, 0) == Some((text.len() as int, t)),
    ensures
        lexed(text).errors.len() == 0,
        lexed(text).tokens == Some(
            seq![LexemeView { token: t, start: 0, end: text.len() as int }],
        ),
{
    let end = text.len() as int;
    assert(run_end(text, end, CharClass::Blank) == end);
    assert(ignored_end(text, end) == end);
    assert(lexed_from(text, end).tokens == Some(Seq::<LexemeView>::empty()));
    assert(run_end(text, 0, CharClass::Blank) == 0);
    assert(ignored_end(text, 0) == 0);
    let one = seq![LexemeView { token: t, start: 0, end }];
    assert(one + Seq::<LexemeView>::empty() =~= one);
}

/// The place of the whole source.
pub open spec fn whole(text: Text) -> Span {
    Span { start: 0, end: text.len() as usize, source_id: 0 }
}

proof fn lemma_span(text: Text, t: TokenView)
    requires
        text.len() <= usize::MAX,
    ensures
        ({
            let one = seq![LexemeView { token: t, start: 0, end: text.len() as int }];
            let s = stream_of(one, text.len() as int, 0);
            &&& s.len() == 1
            &&& s.has(0, t)
            &&& s.span_since(0, 1) == whole(text)
        }),
{
    reveal(StreamView::span_since);
}

proof fn lemma_quoted_rest(s: Text, i: int, q: char)
    requires
        0 <= i < s.len(),
        s.last() == q,
        q != '\\',
        forall|k: int| i <= k < s.len() - 1 ==> #[trigger] s[k] != q && s[k] != '\\',
    ensures
        quoted_rest(s, i, q, 1, true) == Some((s.len() as int, s.subrange(i, s.len() - 1))),
    decreases s.len() - i,
{
    if i < s.len() - 1 {
        lemma_quoted_rest(s, i + 1, q);
        assert(seq![s[i]] + s.subrange(i + 1, s.len() - 1) =~= s.subrange(i, s.len() - 1));
    } else {
        assert(s.subrange(i, s.len() - 1) =~= Seq::empty());
    }
}

/// Text between quotes.
pub open spec fn quoted(text: Text, q: char) -> Text {
    seq![q] + text + seq![q]
}

/// Text between quotes, double or single, is a string of that text, as long as it
/// holds no backslash and none of the quotes.
pub proof fn law_quotes_make_a_string(text: Text, q: char)
    requires
        q == '"' || q == '\'',
        forall|k: int| 0 <= k < text.len() ==> #[trigger] text[k] != q && text[k] != '\\',
        text.len() + 2 <= usize::MAX,
    ensures
        parsed_expr(quoted(text, q)) == Ok::<_, Seq<ErrorView>>(
            ExprView {
                kind: ExprKindView::Literal(LiteralView::String(text)),
                span: Some(whole(quoted(text, q))),
                alias: None,
            },
        ),
{
    let s = quoted(text, q);
    let l = LiteralView::String(text);
    let t = TokenView::Literal(l);
    assert(s.len() == text.len() + 2);
    assert(s[0] == q);
    assert(s.last() == q);
    assert forall|k: int| 1 <= k < s.len() - 1 implies #[trigger] s[k] != q && s[k] != '\\' by {
        assert(s[k] == text[k - 1]);
    }
    assert(s.subrange(1, s.len() - 1) =~= text);
    lemma_quoted_rest(s, 1, q);
    assert(quoted_by(s, 0, q, 1, true) == Some((s.len() as int, text)));
    assert(!quotes_at(s, 0, q, 3)) by {
        if s.len() > 2 {
            assert(s[1] != q);
        }
    }
    assert(quoted_string(s, 0, true) == Some((s.len() as int, text)));
    assert(literal(s, 0) == Some((s.len() as int, l)));
    assert(symbol(s, 0) is None);
    assert(token(s, 0) == Some((s.len() as int, t)));
    lemma_lone_token(s, t);
    lemma_span(s, t);
    let one = seq![LexemeView { token: t, start: 0, end: s.len() as int }];
    let stream = stream_of(one, s.len() as int, 0);
    lemma_literal(stream, l);
    lemma_single_expr(stream, expr_at(ExprKindView::Literal(l), whole(s)));
}

proof fn lemma_backticked(s: Text, i: int)
    requires
        0 <= i < s.len(),
        s.last() == '`',
        forall|k: int| i <= k < s.len() - 1 ==> #[trigger] s[k] != '`',
    ensures
        run_end(s, i, CharClass::Backticked) == s.len() - 1,
    decreases s.len() - i,
{
    if i < s.len() - 1 {
        lemma_backticked(s, i + 1);
    }
}

/// Text between backticks is a name of that text, whatever the text holds other than
/// backticks.
pub proof fn law_backticks_make_a_name(text: Text)
    requires
        forall|k: int| 0 <= k < text.len() ==> #[trigger] text[k] != '`',
        text.len() + 2 <= usize::MAX,
    ensures
        parsed_expr(quoted(text, '`')) == Ok::<_, Seq<ErrorView>>(
            ExprView {
                kind: ExprKindView::Ident(seq![text]),
                span: Some(whole(quoted(text, '`'))),
                alias: None,
            },
        ),
{
    let s = quoted(text, '`');
    let t = TokenView::Ident(text);
    assert(s.len() == text.len() + 2);
    assert(s[0] == '`');
    assert forall|k: int| 1 <= k < s.len() - 1 implies #[trigger] s[k] != '`' by {
        assert(s[k] == text[k - 1]);
    }
    lemma_backticked(s, 1);
    assert(s.subrange(1, s.len() - 1) =~= text);
    assert(name(s, 0) == Some((s.len() as int, text)));
    lemma_no_word_at(s, 0);
    assert(literal(s, 0) is None);
    assert(keyword_at(s, 0) is None);
    assert(symbol(s, 0) is None);
    assert(token(s, 0) == Some((s.len() as int, t)));
    lemma_lone_token(s, t);
    lemma_span(s, t);
    let one = seq![LexemeView { token: t, start: 0, end: s.len() as int }];
    let stream = stream_of(one, s.len() as int, 0);
    lemma_name(stream, text);
    lemma_single_expr(stream, expr_at(ExprKindView::Ident(seq![text]), whole(s)));
}

/// No word that means something begins with a backtick, an `@` or a digit.
pub(crate) proof fn lemma_no_word_at(s: Text, i: int)
    requires
        0 <= i < s.len(),
        s[i] == '`' || s[i] == '@' || CharClass::Digit.has(s[i]),
    ensures
        !word_at(s, i, "true"@),
        !word_at(s, i, "false"@),
        !word_at(s, i, "null"@),
        keyword_at(s, i) is None,
{
    reveal_strlit("true");
    reveal_strlit("false");
    reveal_strlit("null");
    reveal_strlit("let");
    reveal_strlit("into");
    reveal_strlit("case");
    reveal_strlit("prql");
    reveal_strlit("func");
    assert forall|word: Text| word.len() > 0 && word[0] != s[i] implies !#[trigger] word_at(
        s,
        i,
        word,
    ) by {
        if word_at(s, i, word) {
            assert(s.subrange(i, i + word.len())[0] == s[i]);
        }
    }
}

proof fn lemma_digits_run(s: Text, i: int)
    requires
        0 <= i <= s.len(),
        forall|k: int| 0 <= k < s.len() ==> CharClass::Digit.has(#[trigger] s[k]),
    ensures
        run_end(s, i, CharClass::GroupedDigit) == s.len(),
    decreases s.len() - i,
{
    if i < s.len() {
        lemma_digits_run(s, i + 1);
    }
}

/// Digits without a needless zero in front are the integer that they write, as long
/// as it is not too large for one.
pub proof fn law_digits_make_an_integer(text: Text)
    requires
        0 < text.len() <= usize::MAX,
        forall|k: int| 0 <= k < text.len() ==> CharClass::Digit.has(#[trigger] text[k]),
        text.len() > 1 ==> text[0] != '0',
        written_number(text, 10, 0) <= i64::MAX,
    ensures
        parsed_expr(text) == Ok::<_, Seq<ErrorView>>(
            ExprView {
                kind: ExprKindView::Literal(
                    LiteralView::Integer(written_number(text, 10, 0)),
                ),
                span: Some(whole(text)),
                alias: None,
            },
        ),
{
    law_digits_write_a_number(text);
    let l = LiteralView::Integer(decimal_value(text));
    let t = TokenView::Literal(l);
    let len = text.len() as int;
    assert(CharClass::Digit.has(text[0]));
    lemma_digits_run(text, 1);
    assert(int_end(text, 0) == Some(len));
    assert(text.subrange(0, len) =~= text);
    assert(number(text, 0) == Some((len, l)));
    lemma_no_word_at(text, 0);
    assert(unit_at(text, len) is None) by {
        reveal_strlit("microseconds");
        reveal_strlit("milliseconds");
        reveal_strlit("seconds");
        reveal_strlit("minutes");
        reveal_strlit("hours");
        reveal_strlit("days");
        reveal_strlit("weeks");
        reveal_strlit("months");
        reveal_strlit("years");
    }
    assert(literal(text, 0) == Some((len, l)));
    assert(symbol(text, 0) is None);
    assert(token(text, 0) == Some((len, t)));
    lemma_lone_token(text, t);
    lemma_span(text, t);
    let one = seq![LexemeView { token: t, start: 0, end: len }];
    let stream = stream_of(one, len, 0);
    lemma_literal(stream, l);
    lemma_single_expr(stream, expr_at(ExprKindView::Literal(l), whole(text)));
}

} // verus!
