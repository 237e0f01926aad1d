//! What holds of the parser as a whole.
use vstd::prelude::*;

use crate::ast::{ExprKindView, ExprView, FuncParamView, NamedArgView, StmtView, Text};
use crate::common::expr_at;
use crate::error::{parser_error, ErrorView, PErrorView, ReasonView};
use crate::grammar::{
    alias, check_args, closing, list_end, list_item, list_rest, named, named_index, new_lines,
    params_with, parens, pipeline, with_named, ArgView, Taken,
};
use crate::laws::neat::{neat_single_expr, neat_source};
use crate::laws::quiet::{lemma_new_lines_emitted, lemma_pipeline, silent};
use crate::lexer::{
    ignored_end, lemma_ignored_end, lemma_next_token_start, lexed, lexed_from, next_token_start,
    some_of, LexemeView,
};
use crate::lexer::token::{range, token, TokenView};
use crate::log::LogView;
use crate::places::{
    lemma_kept_stmts, place_error, place_errors, place_perror, place_perrors, place_stmts, Places,
};
use crate::source_grammar::source;
use crate::source_twins::same_source;
use crate::span::Span;
use crate::stream::StreamView;
use crate::twins::Twins;
use crate::{lexer_errors, parsed_expr, parsed_source, parsed_tokens, parser_errors, stream_of};

pub mod blameless;
pub mod calls;
pub mod free;
pub mod interpolate;
pub mod lexemes;
pub mod lists;
pub mod neat;
pub mod precedence;
pub mod quiet;
pub mod refusals;
pub mod reports;
pub mod shapes;
pub mod statements;
pub mod tokens;

verus! {

proof fn lemma_gives_up(s: Text, i: int)
    ensures
        lexed_from(s, i).tokens is None ==> lexed_from(s, i).errors.len() > 0,
    decreases s.len() - i,
{
    lemma_ignored_end(s, i);
    let start = ignored_end(s, i);
    lemma_next_token_start(s, start + 1);
    match some_of(s, i, range(s, i)) {
        Some((end, _)) => {
            lemma_gives_up(s, end);
        },
        None => if start < s.len() {
            match some_of(s, start, token(s, start)) {
                Some((end, _)) => {
                    lemma_gives_up(s, end);
                },
                None => if let Some(next) = next_token_start(s, start + 1) {
                    lemma_gives_up(s, next);
                },
            }
        },
    }
}

/// The lexer gives up only on a source that it found an error in.
pub proof fn law_lexer_gives_up_on_errors_only(text: Text)
    ensures
        lexed(text).tokens is None ==> lexed(text).errors.len() > 0,
{
    lemma_gives_up(text, 0);
}

/// The parser gives up only on tokens that it found an error in.
pub proof fn law_parser_gives_up_on_errors_only(s: StreamView)
    ensures
        source(s).ast is None ==> source(s).errors.len() > 0,
{
}

/// A source that is refused is refused for a reason, and statements come out of
/// nothing but a parse without errors.
pub proof fn law_every_refusal_has_a_reason(text: Text, source_id: u16)
    ensures
        match parsed_source(text, source_id) {
            Ok(ast) => {
                &&& lexed(text).errors.len() == 0
                &&& lexed(text).tokens matches Some(tokens) && ({
                    let parsed = source(stream_of(tokens, text.len() as int, source_id));
                    parsed.ast == Some(ast) && parsed.errors.len() == 0
                })
            },
            Err(errors) => errors.len() > 0,
        },
{
    law_lexer_gives_up_on_errors_only(text);
    if let Some(tokens) = lexed(text).tokens {
        law_parser_gives_up_on_errors_only(stream_of(tokens, text.len() as int, source_id));
    }
}

/// An expression that is refused is refused for a reason.
pub proof fn law_every_refused_expression_has_a_reason(text: Text)
    ensures
        parsed_expr(text) matches Err(errors) ==> errors.len() > 0,
{
    law_lexer_gives_up_on_errors_only(text);
}

/// Whether nothing is expected twice, where something was expected.
pub open spec fn expects_nothing_twice(e: ErrorView) -> bool {
    e.reason matches ReasonView::Expected(expected, _) ==> expected.no_duplicates()
}

/// No error says twice that a token was expected: neither one of a source nor one of
/// an expression.
pub proof fn law_nothing_is_expected_twice(text: Text, source_id: u16)
    ensures
        parsed_source(text, source_id) matches Err(errors) ==> forall|i: int|
            0 <= i < errors.len() ==> expects_nothing_twice(#[trigger] errors[i]),
        parsed_expr(text) matches Err(errors) ==> forall|i: int|
            0 <= i < errors.len() ==> expects_nothing_twice(#[trigger] errors[i]),
{
    if let Some(tokens) = lexed(text).tokens {
        neat_source(stream_of(tokens, text.len() as int, source_id));
        neat_single_expr(stream_of(tokens, text.len() as int, 0));
    }
}

/// Tokens with something in each of them, one behind the other, none before `from`
/// and none behind `len`.
pub open spec fn in_order(tokens: Seq<LexemeView>, from: int, len: int) -> bool {
    &&& forall|i: int|
        0 <= i < tokens.len() ==> from <= (#[trigger] tokens[i]).start < tokens[i].end <= len
    &&& forall|i: int, j: int|
        0 <= i < j < tokens.len() ==> (#[trigger] tokens[i]).end <= (#[trigger] tokens[j]).start
}

proof fn lemma_in_order(s: Text, i: int)
    requires
        0 <= i <= s.len(),
    ensures
        lexed_from(s, i).tokens matches Some(tokens) ==> in_order(tokens, i, s.len() as int),
    decreases s.len() - i,
{
    lemma_ignored_end(s, i);
    let start = ignored_end(s, i);
    lemma_next_token_start(s, start + 1);
    match some_of(s, i, range(s, i)) {
        Some((end, t)) => {
            lemma_in_order(s, end);
            if let Some(rest) = lexed_from(s, end).tokens {
                lemma_first_in_order(
                    LexemeView { token: t, start: i, end },
                    rest,
                    i,
                    s.len() as int,
                );
            }
        },
        None => if start < s.len() {
            match some_of(s, start, token(s, start)) {
                Some((end, t)) => {
                    lemma_in_order(s, end);
                    if let Some(rest) = lexed_from(s, end).tokens {
                        lemma_first_in_order(
                            LexemeView { token: t, start, end },
                            rest,
                            i,
                            s.len() as int,
                        );
                    }
                },
                None => if let Some(next) = next_token_start(s, start + 1) {
                    lemma_in_order(s, next);
                },
            }
        },
    }
}

proof fn lemma_first_in_order(first: LexemeView, rest: Seq<LexemeView>, from: int, len: int)
    requires
        from <= first.start < first.end <= len,
        in_order(rest, first.end, len),
    ensures
        in_order(seq![first] + rest, from, len),
{
    let all = seq![first] + rest;
    assert forall|i: int| 0 <= i < all.len() implies from <= (#[trigger] all[i]).start < all[i].end
        <= len by {
        if i > 0 {
            assert(all[i] == rest[i - 1]);
        }
    }
    assert forall|i: int, j: int| 0 <= i < j < all.len() implies (#[trigger] all[i]).end <= (
    #[trigger] all[j]).start by {
        assert(all[j] == rest[j - 1]);
        if i > 0 {
            assert(all[i] == rest[i - 1]);
        }
    }
}

/// The tokens of a source stand in it one behind the other, and each takes up some
/// of its text.
pub proof fn law_tokens_stand_in_order(text: Text)
    ensures
        lexed(text).tokens matches Some(tokens) ==> in_order(tokens, 0, text.len() as int),
{
    lemma_in_order(text, 0);
}

proof fn lemma_parser_errors(w: Twins, x: Seq<PErrorView>, y: Seq<PErrorView>)
    requires
        w.agree(),
        place_perrors(w.p, x) == place_perrors(w.q, y),
    ensures
        place_errors(w.p, parser_errors(x)) == place_errors(w.q, parser_errors(y)),
{
    assert(x.len() == place_perrors(w.p, x).len());
    assert(y.len() == place_perrors(w.q, y).len());
    assert forall|i: int| 0 <= i < x.len() implies place_error(
        w.p,
        parser_error(#[trigger] x[i]),
    ) == place_error(w.q, parser_error(y[i])) by {
        assert(place_perrors(w.p, x)[i] == place_perror(w.p, x[i]));
        assert(place_perrors(w.q, y)[i] == place_perror(w.q, y[i]));
    }
    assert(place_errors(w.p, parser_errors(x)) =~= place_errors(w.q, parser_errors(y)));
}

proof fn lemma_kept_errors(s: Seq<ErrorView>)
    ensures
        place_errors(Places::Kept, s) == s,
{
    assert(place_errors(Places::Kept, s) =~= s);
}

proof fn lemma_join_errors(p: Places, x: Seq<ErrorView>, y: Seq<ErrorView>)
    ensures
        place_errors(p, x + y) == place_errors(p, x) + place_errors(p, y),
{
    assert(place_errors(p, x + y) =~= place_errors(p, x) + place_errors(p, y));
}

/// The number of a source decides over nothing but the places: under another number
/// a source gives the same statements, or the same errors, in the other source.
pub proof fn law_source_id_goes_into_places_only(text: Text, source_id: u16, other: u16)
    ensures
        match parsed_source(text, source_id) {
            Ok(ast) => parsed_source(text, other) == Ok::<_, Seq<ErrorView>>(
                place_stmts(Places::MovedTo(other), ast),
            ),
            Err(errors) => parsed_source(text, other) == Err::<Seq<StmtView>, _>(
                place_errors(Places::MovedTo(other), errors),
            ),
        },
{
    let lex = lexed(text);
    let len = text.len() as int;
    let moved = Places::MovedTo(other);
    let x = lexer_errors(text, lex.errors, source_id);
    let y = lexer_errors(text, lex.errors, other);
    assert(place_errors(moved, x) =~= y);
    let a = parsed_tokens(lex.tokens, len, source_id);
    let b = parsed_tokens(lex.tokens, len, other);
    lemma_join_errors(moved, x, parser_errors(a.errors));
    match lex.tokens {
        Some(tokens) => {
            let w = Twins {
                p: moved,
                s: stream_of(tokens, len, source_id),
                q: Places::Kept,
                t: stream_of(tokens, len, other),
            };
            assert(w.agree());
            same_source(w);
            lemma_parser_errors(w, a.errors, b.errors);
            lemma_kept_errors(parser_errors(b.errors));
            if let Some(ast) = b.ast {
                lemma_kept_stmts(ast);
            }
        },
        None => {
            assert(place_errors(moved, parser_errors(a.errors)) =~= parser_errors(b.errors));
        },
    }
    assert(place_stmts(moved, Seq::empty()) =~= Seq::empty());
}

/// The tokens alone, without their places.
pub open spec fn tokens_of(text: Text) -> Option<Seq<TokenView>> {
    match lexed(text).tokens {
        Some(lexemes) => Some(Seq::new(lexemes.len(), |i: int| lexemes[i].token)),
        None => None,
    }
}

/// Space and comments decide over nothing but the places: two sources with the same
/// tokens, which the lexer had nothing to say against, give the same statements in
/// other places, or are both refused for the same reasons.
pub proof fn law_layout_goes_into_places_only(text: Text, other: Text, source_id: u16)
    requires
        tokens_of(text) is Some,
        tokens_of(text) == tokens_of(other),
        lexed(text).errors.len() == 0,
        lexed(other).errors.len() == 0,
    ensures
        match (parsed_source(text, source_id), parsed_source(other, source_id)) {
            (Ok(x), Ok(y)) => place_stmts(Places::Dropped, x) == place_stmts(Places::Dropped, y),
            (Err(x), Err(y)) => place_errors(Places::Dropped, x) == place_errors(
                Places::Dropped,
                y,
            ),
            _ => false,
        },
{
    let x = lexed(text).tokens->0;
    let y = lexed(other).tokens->0;
    let w = Twins {
        p: Places::Dropped,
        s: stream_of(x, text.len() as int, source_id),
        q: Places::Dropped,
        t: stream_of(y, other.len() as int, source_id),
    };
    assert(w.s.tokens =~= tokens_of(text)->0);
    assert(w.t.tokens =~= tokens_of(other)->0);
    assert(w.agree());
    same_source(w);
    let a = source(w.s).errors;
    let b = source(w.t).errors;
    lemma_parser_errors(w, a, b);
    assert(place_perrors(w.p, a).len() == place_perrors(w.q, b).len());
    assert(lexer_errors(text, lexed(text).errors, source_id) + parser_errors(a)
        =~= parser_errors(a));
    assert(lexer_errors(other, lexed(other).errors, source_id) + parser_errors(b)
        =~= parser_errors(b));
}

/// No name occurs twice.
pub open spec fn distinct(args: Seq<NamedArgView>) -> bool {
    forall|i: int, j: int|
        0 <= i < j < args.len() ==> (#[trigger] args[i]).name != (#[trigger] args[j]).name
}

proof fn lemma_named_index(args: Seq<NamedArgView>, name: Text, i: int)
    requires
        0 <= i <= args.len(),
    ensures
        ({
            let at = named_index(args, name, i);
            &&& i <= at <= args.len()
            &&& forall|j: int| i <= j < at ==> (#[trigger] args[j]).name != name
            &&& at < args.len() ==> args[at].name == name
        }),
    decreases args.len() - i,
{
    if i < args.len() && args[i].name != name {
        lemma_named_index(args, name, i + 1);
    }
}

/// Whether the argument at `i` has that name.
pub open spec fn names(args: Seq<ArgView>, i: int, name: Text) -> bool {
    0 <= i < args.len() && (args[i] matches ArgView::Named(given, _) && given == name)
}

/// Whether the argument at `i` has a name that no later one has.
pub open spec fn last_of_its_name(args: Seq<ArgView>, i: int) -> bool {
    &&& 0 <= i < args.len()
    &&& args[i] matches ArgView::Named(name, _) && forall|j: int|
        i < j ==> !#[trigger] names(args, j, name)
}

/// An argument with a name, as a call holds it.
pub open spec fn as_named(a: ArgView) -> NamedArgView {
    match a {
        ArgView::Named(name, value) => NamedArgView { name, value },
        ArgView::Positional(_) => arbitrary(),
    }
}

/// A call has one argument of each name, however often the name was given: the
/// value that was given last.
pub proof fn law_named_arguments_are_distinct(args: Seq<ArgView>)
    ensures
        distinct(named(args)),
        forall|i: int|
            0 <= i < named(args).len() ==> args.contains(
                ArgView::Named((#[trigger] named(args)[i]).name, named(args)[i].value),
            ),
        forall|i: int| #[trigger]
            last_of_its_name(args, i) ==> named(args).contains(as_named(args[i])),
    decreases args.len(),
{
    if args.len() > 0 {
        let before = args.drop_last();
        let last = args.len() - 1;
        let all = named(args);
        law_named_arguments_are_distinct(before);
        assert forall|a: ArgView| before.contains(a) implies args.contains(a) by {
            let i = choose|i: int| 0 <= i < before.len() && before[i] == a;
            assert(args[i] == a);
        }
        if let ArgView::Named(name, value) = args.last() {
            let at = named_index(named(before), name, 0);
            lemma_named_index(named(before), name, 0);
            assert(all == with_named(named(before), name, value));
            assert(args[last] == args.last());
            assert forall|i: int| 0 <= i < all.len() implies args.contains(
                ArgView::Named((#[trigger] all[i]).name, all[i].value),
            ) by {
                if i != at {
                    assert(all[i] == named(before)[i]);
                }
            }
            assert(all[at] == as_named(args[last]));
        }
        assert forall|i: int| #[trigger] last_of_its_name(args, i) implies all.contains(
            as_named(args[i]),
        ) by {
            if i < last {
                lemma_last_before(args, i);
                let k = choose|k: int|
                    0 <= k < named(before).len() && named(before)[k] == as_named(before[i]);
                assert(named(before).contains(as_named(before[i])));
                assert(!names(args, last, as_named(args[i]).name));
                assert(all[k] == as_named(args[i]));
            }
        }
    }
}

proof fn lemma_last_before(args: Seq<ArgView>, i: int)
    requires
        last_of_its_name(args, i),
        i < args.len() - 1,
    ensures
        last_of_its_name(args.drop_last(), i),
{
    let before = args.drop_last();
    let name = as_named(args[i]).name;
    assert forall|j: int| i < j implies !#[trigger] names(before, j, name) by {
        assert(!names(args, j, name));
    }
}

/// Whether a name was given to two arguments.
pub open spec fn repeats(args: Seq<ArgView>) -> bool {
    exists|i: int, j: int, name: Text|
        i < j && #[trigger] names(args, i, name) && #[trigger] names(args, j, name)
}

pub(crate) proof fn lemma_given(args: Seq<ArgView>, name: Text)
    ensures
        named_index(named(args), name, 0) < named(args).len() <==> exists|i: int|
            names(args, i, name),
    decreases args.len(),
{
    lemma_named_index(named(args), name, 0);
    if args.len() > 0 {
        let before = args.drop_last();
        let last = args.len() - 1;
        lemma_given(before, name);
        lemma_named_index(named(before), name, 0);
        assert(forall|i: int| names(before, i, name) ==> names(args, i, name));
        assert(forall|i: int| names(args, i, name) && i != last ==> names(before, i, name));
        if let ArgView::Named(given, value) = args[last] {
            lemma_named_index(named(before), given, 0);
            let all = named(args);
            assert(all == with_named(named(before), given, value));
            if given == name {
                assert(names(args, last, name));
                let at = named_index(named(before), given, 0);
                assert(all[at].name == name);
            } else {
                assert(forall|i: int|
                    0 <= i < named(before).len() ==> (#[trigger] all[i]).name == named(
                        before,
                    )[i].name);
                if named_index(named(before), name, 0) < named(before).len() {
                    assert(all[named_index(named(before), name, 0)].name == name);
                }
            }
        }
    }
}

/// A call is found fault with for its arguments if, and only if, a name was given to
/// two of them.
pub proof fn law_repeated_names_are_errors(args: Seq<ArgView>, span: Span, log: LogView)
    ensures
        log.emitted.len() <= check_args(args, span, log).emitted.len(),
        repeats(args) <==> log.emitted.len() < check_args(args, span, log).emitted.len(),
    decreases args.len(),
{
    reveal(check_args);
    reveal(LogView::emit);
    if args.len() > 0 {
        let before = args.drop_last();
        let last = args.len() - 1;
        law_repeated_names_are_errors(before, span, log);
        assert(forall|i: int, name: Text| names(before, i, name) ==> names(args, i, name));
        assert(forall|i: int, name: Text|
            names(args, i, name) && i != last ==> names(before, i, name));
        if let ArgView::Named(given, _) = args[last] {
            lemma_given(before, given);
            assert(names(args, last, given));
            if exists|i: int| names(before, i, given) {
                let i = choose|i: int| names(before, i, given);
                assert(names(args, i, given));
                assert(repeats(args));
            } else if repeats(args) {
                let (i, j, name) = choose|i: int, j: int, name: Text|
                    i < j && #[trigger] names(args, i, name) && #[trigger] names(args, j, name);
                assert(names(before, i, name));
                assert(names(before, j, name));
            }
        } else if repeats(args) {
            let (i, j, name) = choose|i: int, j: int, name: Text|
                i < j && #[trigger] names(args, i, name) && #[trigger] names(args, j, name);
            assert(names(before, i, name));
            assert(names(before, j, name));
        }
    }
}

/// A parameter either has a default value or has none: each of them goes into one of
/// the two lists, and in order.
pub proof fn law_parameters_are_split(params: Seq<FuncParamView>)
    ensures
        params_with(params, true) == params.filter(|p: FuncParamView| p.default_value is Some),
        params_with(params, false) == params.filter(|p: FuncParamView| p.default_value is None),
        params_with(params, true).len() + params_with(params, false).len() == params.len(),
    decreases params.len(),
{
    reveal(params_with);
    reveal(Seq::filter);
    if params.len() > 0 {
        law_parameters_are_split(params.drop_last());
    }
}

/// A pipeline between parentheses is that pipeline, and nothing else between
/// parentheses is an expression.
pub proof fn law_parentheses_leave_no_trace(s: StreamView, i: int, log: LogView)
    requires
        s.has(i, TokenView::Control('(')),
    ensures
        parens(s, i, log).hit == match pipeline(s, i + 1, log).hit {
            Some((end, e)) => if s.has(end, TokenView::Control(')')) {
                Some((end + 1, e))
            } else {
                None
            },
            None => None,
        },
{
}

proof fn lemma_new_lines_end(s: StreamView, i: int, a: LogView, b: LogView)
    ensures
        new_lines(s, i, a).end == new_lines(s, i, b).end,
    decreases s.len() - i,
{
    reveal(new_lines);
    if s.has(i, TokenView::NewLine) {
        lemma_new_lines_end(s, i + 1, a, b);
    }
}

/// A comma may follow the last item of a tuple or of an array, and line breaks may
/// follow the comma: it adds no item, it is no error, and the bracket closes.
pub proof fn law_a_comma_may_follow_the_last_item(
    s: StreamView,
    tuple: bool,
    start: int,
    items: Seq<ExprView>,
    i: int,
    log: LogView,
)
    requires
        s.has(i, TokenView::Control(',')),
        s.has(new_lines(s, i + 1, log).end, TokenView::Control(closing(tuple))),
    ensures
        ({
            let rest = list_rest(s, tuple, i, log);
            let close = new_lines(s, i + 1, log).end;
            let kind = if tuple {
                ExprKindView::Tuple(items)
            } else {
                ExprKindView::Array(items)
            };
            let all = Taken { found: items + rest.found, end: rest.end, log: rest.log };
            &&& rest.found.len() == 0
            &&& rest.log.emitted == log.emitted
            &&& list_end(s, tuple, start, all).hit == Some(
                (close + 1, expr_at(kind, s.span_since(start, close + 1))),
            )
        }),
{
    broadcast use crate::laws::quiet::group_emitted;

    let lines = new_lines(s, i + 1, log);
    lemma_new_lines_emitted(s, i + 1, log);
    let name = if tuple {
        alias(s, lines.end, lines.log)
    } else {
        Taken { found: None, end: lines.end, log: lines.log }
    };
    lemma_pipeline(s, lines.end, name.log);
    assert(silent(log, list_item(s, tuple, i + 1, log)));
    let rest = list_rest(s, tuple, i, log);
    assert(rest.end == i + 1);
    assert(items + rest.found =~= items);
    lemma_new_lines_end(s, i + 1, log, rest.log);
    reveal(list_end);
}

} // verus!
