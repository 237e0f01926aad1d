//! What errors say, and what is refused.
use vstd::prelude::*;

use crate::ast::{ExprView, Text};
use crate::common::{any_name, just};
use crate::error::{parser_error, ErrorView, PErrorView, PReasonView, ReasonView};
use crate::grammar::{
    args, brackets, cases_end, expr, forward, func_call, lambda_body, lambda_func, lambda_params,
    list_end, parens, switch,
};
use crate::interpolation::{interpolated, items_from, plain, variable};
use crate::laws::interpolate::{
    at, lemma_at, lemma_plain_up_to, lemma_variable, valid, written, Piece,
};
use crate::laws::lists::lemma_lines;
use crate::laws::{law_repeated_names_are_errors, repeats};
use crate::lexer::chars::char_at;
use crate::lexer::quoted::{quoted_rest, quoted_string, quotes_at};
use crate::lexer::token::TokenView;
use crate::lexer::{lexed, LexemeView};
use crate::log::LogView;
use crate::source_grammar::{source, stmts};
use crate::span::Span;
use crate::stream::StreamView;
use crate::{parsed_source, stream_of};

verus! {

/// The errors of the lexer come first, one for each place that it could not read: that
/// place, and the character that stands there. Those of the parser follow.
pub proof fn law_errors_of_the_lexer_come_first(text: Text, source_id: u16)
    ensures
        parsed_source(text, source_id) matches Err(errors) ==> {
            let bad = lexed(text).errors;
            &&& bad.len() <= errors.len()
            &&& forall|k: int|
                0 <= k < bad.len() ==> (#[trigger] errors[k]) == (ErrorView {
                    span: Span {
                        start: bad[k] as usize,
                        end: (bad[k] + 1) as usize,
                        source_id,
                    },
                    reason: ReasonView::Unexpected(seq![text[bad[k]]]),
                })
            &&& lexed(text).tokens matches Some(tokens) ==> errors.len() == bad.len() + source(
                stream_of(tokens, text.len() as int, source_id),
            ).errors.len()
            &&& lexed(text).tokens is None ==> errors.len() == bad.len()
        },
{
}

/// The parser sees the tokens of the lexer in their order and at their places, and the
/// end of the input right behind the last character.
pub proof fn law_the_parser_sees_the_tokens_of_the_lexer(
    tokens: Seq<LexemeView>,
    len: int,
    source_id: u16,
    k: int,
)
    requires
        0 <= len < usize::MAX,
        0 <= k < tokens.len(),
        0 <= tokens[k].start <= tokens[k].end <= usize::MAX,
    ensures
        ({
            let s = stream_of(tokens, len, source_id);
            &&& s.len() == tokens.len()
            &&& s.has(k, tokens[k].token)
            &&& s.spans[k].start == tokens[k].start
            &&& s.spans[k].end == tokens[k].end
            &&& s.spans[k].source_id == source_id
            &&& s.eoi.start == len
            &&& s.eoi.end == len + 1
            &&& s.eoi.source_id == source_id
        }),
{
}

/// An error in words says these words at its place. One of a token that was not expected
/// says what was expected and what stood there; at the end of the input it points at the
/// last character.
pub proof fn law_an_error_keeps_what_it_says(e: PErrorView)
    ensures
        e.reason matches PReasonView::Custom(words) ==> parser_error(e) == (ErrorView {
            span: e.span,
            reason: ReasonView::Simple(words),
        }),
        e.reason is Unexpected ==> parser_error(e).reason == ReasonView::Expected(
            e.expected,
            e.found,
        ),
        e.reason is Unexpected && e.found is Some ==> parser_error(e).span == e.span,
        e.reason is Unexpected && e.found is None && e.span.start > 0 && e.span.end > 0
            ==> parser_error(e).span.start == e.span.start - 1 && parser_error(e).span.end
            == e.span.end - 1 && parser_error(e).span.source_id == e.span.source_id,
{
}

/// Only the furthest failure counts, and all that was expected there.
pub proof fn law_the_furthest_failure_counts(
    log: LogView,
    at: int,
    expected: Seq<Option<TokenView>>,
)
    ensures
        ({
            let after = log.note(at, expected);
            &&& after.emitted == log.emitted
            &&& after.at == if at > log.at {
                at
            } else {
                log.at
            }
            &&& at < log.at ==> after.expected == log.expected
            &&& at >= log.at ==> forall|k: int|
                0 <= k < expected.len() ==> after.expected.contains(#[trigger] expected[k])
            &&& at == log.at ==> forall|k: int|
                0 <= k < log.expected.len() ==> after.expected.contains(
                    #[trigger] log.expected[k],
                )
            &&& at >= log.at ==> forall|k: int|
                0 <= k < after.expected.len() ==> expected.contains(
                    #[trigger] after.expected[k],
                ) || (at == log.at && log.expected.contains(after.expected[k]))
        }),
{
    reveal(LogView::note);
    lemma_wanted(log.expected, expected);
    lemma_wanted(Seq::empty(), expected);
}

proof fn lemma_wanted(before: Seq<Option<TokenView>>, more: Seq<Option<TokenView>>)
    ensures
        ({
            let all = crate::log::wanted(before, more);
            &&& forall|k: int|
                0 <= k < before.len() ==> all.contains(#[trigger] before[k])
            &&& forall|k: int| 0 <= k < more.len() ==> all.contains(#[trigger] more[k])
            &&& forall|k: int|
                0 <= k < all.len() ==> more.contains(#[trigger] all[k]) || before.contains(all[k])
        }),
    decreases more.len(),
{
    if more.len() > 0 {
        let less = more.drop_last();
        let some = crate::log::wanted(before, less);
        let all = crate::log::wanted(before, more);
        lemma_wanted(before, less);
        assert forall|t: Option<TokenView>| some.contains(t) implies all.contains(t) by {
            let k = choose|k: int| 0 <= k < some.len() && some[k] == t;
            assert(all[k] == t);
        }
        assert(all.contains(more.last())) by {
            if !some.contains(more.last()) {
                assert(all[all.len() - 1] == more.last());
            }
        }
        assert forall|k: int| 0 <= k < more.len() implies all.contains(#[trigger] more[k]) by {
            if k < less.len() {
                assert(less[k] == more[k]);
            }
        }
        assert forall|t: Option<TokenView>| less.contains(t) implies more.contains(t) by {
            let k = choose|k: int| 0 <= k < less.len() && less[k] == t;
            assert(more[k] == t);
        }
        assert forall|k: int| 0 <= k < all.len() implies more.contains(#[trigger] all[k])
            || before.contains(all[k]) by {
            if k < some.len() {
                assert(all[k] == some[k]);
            } else {
                assert(more[more.len() - 1] == all[k]);
            }
        }
    } else {
        assert forall|k: int| 0 <= k < before.len() implies crate::log::wanted(
            before,
            more,
        ).contains(#[trigger] before[k]) by {}
    }
}

/// A source that does not follow the grammar gets an error for the furthest token that
/// does not fit: the error stands at the place of a token, and names that token.
pub proof fn law_a_failure_names_the_token_at_its_place(s: StreamView)
    ensures
        source(s).ast is None ==> exists|i: int|
            #![trigger s.token(i)]
            source(s).errors.last().span == s.span_at(i) && source(s).errors.last().found
                == s.token(i) && source(s).errors.last().reason is Unexpected,
{
    if source(s).ast is None {
        let def = crate::source_grammar::query_def(s, 0, LogView::start());
        let body = match def.hit {
            Some((start, _)) => stmts(s, start, def.log),
            None => stmts(s, 0, def.log.rollback(0)),
        };
        let log = body.log.note(body.end, seq![None]);
        assert(source(s).errors == log.failure(s));
        assert(s.token(log.at) == source(s).errors.last().found);
    }
}

/// A call is an error more than its parts are only where a name is given twice.
pub proof fn law_a_call_is_at_fault_for_repeated_names_only(
    s: StreamView,
    i: int,
    j: int,
    f: ExprView,
    log: LogView,
)
    requires
        forward(s, i, expr(s, i, log)).hit == Some((j, f)),
    ensures
        ({
            let given = args(s, j, expr(s, i, log).log);
            let after = func_call(s, i, log).log.emitted;
            &&& given.log.emitted.len() <= after.len()
            &&& repeats(given.found) <==> given.log.emitted.len() < after.len()
        }),
{
    let head = forward(s, i, expr(s, i, log));
    let given = args(s, j, head.log);
    law_repeated_names_are_errors(given.found, s.span_since(i, given.end), given.log);
}

/// Brackets, parentheses and `case` end with what closes them.
pub proof fn law_what_is_opened_is_closed(s: StreamView, tuple: bool, i: int, log: LogView)
    ensures
        brackets(s, tuple, i, log).hit matches Some((end, _)) ==> s.has(
            i,
            TokenView::Control(if tuple { '{' } else { '[' }),
        ) && s.has(end - 1, TokenView::Control(if tuple { '}' } else { ']' })),
        parens(s, i, log).hit matches Some((end, _)) ==> s.has(i, TokenView::Control('('))
            && s.has(end - 1, TokenView::Control(')')),
        switch(s, i, log).hit matches Some((end, _)) ==> s.has(
            i,
            TokenView::Keyword("case"@),
        ) && s.has(i + 1, TokenView::Control('[')) && s.has(end - 1, TokenView::Control(']')),
{
    reveal(list_end);
    reveal(cases_end);
}

/// There is no function without an arrow.
pub proof fn law_a_function_has_an_arrow(s: StreamView, i: int, log: LogView)
    requires
        forall|k: int| i < k ==> !#[trigger] s.has(k, TokenView::ArrowThin),
    ensures
        lambda_func(s, i, log).hit is None,
{
    let given = forward(s, i, lambda_params(s, i, log));
    if let Some((arrow, all)) = given.hit {
        assert(!s.has(arrow, TokenView::ArrowThin));
        assert(lambda_body(s, i, all, arrow, given.log).hit is None);
    }
}

/// A statement does not begin in the middle of a line.
pub proof fn law_a_statement_begins_on_a_line_of_its_own(
    s: StreamView,
    i: int,
    log: LogView,
)
    requires
        0 < i,
        !s.has(i, TokenView::NewLine),
        !s.has(i - 1, TokenView::NewLine),
    ensures
        stmts(s, i, log).found.len() == 0,
        stmts(s, i, log).end == i,
{
    lemma_lines(s, i, i, log);
}

proof fn lemma_quoted_end(s: Text, i: int, q: char, n: int, escaped: bool)
    requires
        n == 1 || n == 3,
        0 <= i,
    ensures
        quoted_rest(s, i, q, n, escaped) matches Some((end, _)) ==> i + n <= end <= s.len()
            && s[end - 1] == q,
    decreases s.len() - i,
{
    if !quotes_at(s, i, q, n) {
        if let Some((next, _)) = crate::lexer::quoted::quoted_char(s, i, escaped) {
            if i < next <= s.len() {
                lemma_quoted_end(s, next, q, n, escaped);
            }
        }
    }
}

/// A string ends with the quote that it begins with.
pub proof fn law_a_string_ends_with_its_quote(s: Text, i: int, escaped: bool)
    requires
        0 <= i,
    ensures
        quoted_string(s, i, escaped) matches Some((end, _)) ==> i + 2 <= end <= s.len() && (s[i]
            == '"' || s[i] == '\'') && s[end - 1] == s[i],
{
    lemma_quoted_end(s, i + 1, '"', 1, escaped);
    lemma_quoted_end(s, i + 3, '"', 3, escaped);
    lemma_quoted_end(s, i + 1, '\'', 1, escaped);
    lemma_quoted_end(s, i + 3, '\'', 3, escaped);
}

proof fn lemma_lone_brace(
    t: Text,
    i: int,
    pieces: Seq<Piece>,
    brace: int,
    base: int,
    source_id: u16,
)
    requires
        valid(pieces),
        0 <= i,
        at(t, i, written(pieces)),
        i + written(pieces).len() == brace,
        char_at(t, brace, '}'),
        !char_at(t, brace + 1, '}'),
    ensures
        items_from(t, i, base, source_id) == Err::<Seq<crate::ast::InterpolateItemView>, _>(brace),
    decreases pieces.len(),
{
    if pieces.len() == 0 {
        assert(variable(t, i, base, source_id) is None);
        assert(plain(t, i).0 == i);
    } else {
        let first = pieces[0];
        let rest = pieces.skip(1);
        let next = i + first.written().len();
        lemma_at(t, i, first.written(), written(rest));
        assert forall|k: int| 0 <= k < rest.len() implies (#[trigger] rest[k]).valid() by {
            assert(rest[k] == pieces[k + 1]);
        }
        assert forall|k: int| 0 < k < rest.len() implies !((#[trigger] rest[k]) is Plain
            && rest[k - 1] is Plain) by {
            assert(rest[k] == pieces[k + 1]);
            assert(rest[k - 1] == pieces[k]);
        }
        lemma_lone_brace(t, next, rest, brace, base, source_id);
        match first {
            Piece::Plain(text) => {
                if rest.len() > 0 {
                    assert(rest[0] == pieces[1]);
                    assert(!(pieces[1] is Plain && pieces[0] is Plain));
                    if let Piece::Variable(names, format) = rest[0] {
                        lemma_at(t, next, rest[0].written(), written(rest.skip(1)));
                        lemma_variable(t, next, names, format, base, source_id);
                    }
                } else {
                    assert(written(rest) =~= Seq::empty());
                }
                lemma_plain_up_to(t, i, text);
                if char_at(t, i, '{') {
                    assert(crate::lexer::token::name(t, i + 1) is None);
                }
                assert(variable(t, i, base, source_id) is None);
            },
            Piece::Variable(names, format) => {
                lemma_variable(t, i, names, format, base, source_id);
            },
        }
    }
}

/// A closing brace that closes nothing, and is not written twice, is told as an error at
/// its place.
pub proof fn law_a_lone_brace_is_refused(
    pieces: Seq<Piece>,
    rest: Text,
    base: int,
    source_id: u16,
)
    requires
        valid(pieces),
        rest.len() > 0 ==> rest[0] != '}',
    ensures
        interpolated(written(pieces) + seq!['}'] + rest, base, source_id) == Err::<
            Seq<crate::ast::InterpolateItemView>,
            _,
        >(written(pieces).len() as int),
{
    let w = written(pieces);
    let t = w + seq!['}'] + rest;
    assert(t.subrange(0, w.len() as int) =~= w);
    lemma_lone_brace(t, 0, pieces, w.len() as int, base, source_id);
}

/// Where one token was wanted, the error says which one, and what stood there instead. Any
/// name is told by an empty one.
pub proof fn law_a_wanted_token_is_named(s: StreamView, i: int, t: TokenView)
    ensures
        s.unexpected(i, just(t)) == (PErrorView {
            span: s.span_at(i),
            reason: PReasonView::Unexpected,
            expected: seq![Some(t)],
            found: s.token(i),
        }),
        any_name() == TokenView::Ident(Seq::empty()),
        0 <= i < s.len() ==> s.span_at(i) == s.spans[i] && s.token(i) == Some(s.tokens[i]),
        i >= s.len() ==> s.span_at(i) == s.eoi && s.token(i) is None,
{
}

} // verus!
