//! Splits the source text into tokens.
use vstd::prelude::*;

use crate::ast::Text;
use self::chars::{
    char_at, class_at, find_run_end, is_char_at, is_class_at, lemma_run_end, run_end, CharClass,
};
use self::token::{range, read_range, read_token, token, token_fits, TokenView};

pub mod chars;
pub mod datetime;
pub mod number;
pub mod quoted;
pub mod token;

pub use self::token::Token;

verus! {

/// A piece of the source text that no token begins with.
#[derive(Clone, Copy, Debug, PartialEq, Eq, Structural)]
pub struct LexError {
    pub start: usize,
    pub end: usize,
}

/// What the lexer makes of a source: its tokens with their places, unless it had to
/// give up, and the places that it could not read.
#[derive(Debug, PartialEq, Eq)]
pub struct Lexed {
    pub tokens: Option<Vec<(Token, core::ops::Range<usize>)>>,
    pub errors: Vec<LexError>,
}

pub struct LexemeView {
    pub token: TokenView,
    pub start: int,
    pub end: int,
}

pub struct LexedView {
    pub tokens: Option<Seq<LexemeView>>,
    pub errors: Seq<int>,
}

pub open spec fn lexeme_view(lexeme: (Token, core::ops::Range<usize>)) -> LexemeView {
    LexemeView {
        token: lexeme.0.view(),
        start: lexeme.1.start as int,
        end: lexeme.1.end as int,
    }
}

pub open spec fn lexemes_view(s: Seq<(Token, core::ops::Range<usize>)>) -> Seq<LexemeView> {
    Seq::new(s.len(), |i: int| lexeme_view(s[i]))
}

/// An error is told by the character that it is about.
pub open spec fn lex_errors_view(s: Seq<LexError>) -> Seq<int> {
    Seq::new(s.len(), |i: int| s[i].start as int)
}

impl Lexed {
    pub open spec fn view(&self) -> LexedView {
        LexedView {
            tokens: match self.tokens {
                Some(tokens) => Some(lexemes_view(tokens@)),
                None => None,
            },
            errors: lex_errors_view(self.errors@),
        }
    }

    /// Every error is about one character of the source, every token stands within
    /// the source and none begins before the one before it has ended.
    pub open spec fn wf(&self, len: int) -> bool {
        &&& forall|i: int|
            0 <= i < self.errors@.len() ==> (#[trigger] self.errors@[i]).start < len
                && self.errors@[i].end == self.errors@[i].start + 1
        &&& self.tokens matches Some(tokens) ==> lexemes_fit(lexemes_view(tokens@), len)
    }
}

pub open spec fn lexeme_fits(lexeme: LexemeView, len: int) -> bool {
    &&& 0 <= lexeme.start < lexeme.end <= len
    &&& token_fits(lexeme.token, lexeme.start, lexeme.end)
}

pub open spec fn lexemes_fit(s: Seq<LexemeView>, len: int) -> bool {
    &&& forall|i: int| 0 <= i < s.len() ==> lexeme_fits(#[trigger] s[i], len)
    &&& forall|i: int, j: int|
        0 <= i < j < s.len() ==> (#[trigger] s[i]).end <= (#[trigger] s[j]).start
}

/// Where the space and the comments at `i` end.
pub open spec fn ignored_end(s: Text, i: int) -> int
    decreases s.len() - i,
{
    if class_at(s, i, CharClass::Blank) {
        ignored_end(s, i + 1)
    } else if char_at(s, i, '#') {
        proof {
            lemma_run_end(s, i + 1, CharClass::Comment);
        }
        ignored_end(s, run_end(s, i + 1, CharClass::Comment))
    } else {
        i
    }
}

/// The first place from `i` on where a token begins.
pub open spec fn next_token_start(s: Text, i: int) -> Option<int>
    decreases s.len() - i,
{
    if i >= s.len() {
        None
    } else if token(s, i) is Some {
        Some(i)
    } else {
        next_token_start(s, i + 1)
    }
}

pub open spec fn with_token(lexeme: LexemeView, rest: LexedView) -> LexedView {
    LexedView {
        tokens: match rest.tokens {
            Some(tokens) => Some(seq![lexeme] + tokens),
            None => None,
        },
        errors: rest.errors,
    }
}

pub open spec fn with_error(at: int, rest: LexedView) -> LexedView {
    LexedView { tokens: rest.tokens, errors: seq![at] + rest.errors }
}

/// What was read at `i`, as long as it is some of the text.
pub open spec fn some_of(s: Text, i: int, r: Option<(int, TokenView)>) -> Option<(int, TokenView)> {
    match r {
        Some((end, _)) => if i < end <= s.len() {
            r
        } else {
            None
        },
        None => None,
    }
}

/// What the lexer makes of the source from `i` on.
///
/// It reads a range, or skips space and comments and reads a token. A character
/// that neither fits is an error: the lexer goes on at the next place where a token
/// begins, and gives up where there is none.
pub open spec fn lexed_from(s: Text, i: int) -> LexedView
    decreases s.len() - i,
{
    proof {
        lemma_ignored_end(s, i);
        lemma_next_token_start(s, ignored_end(s, i) + 1);
    }
    let start = ignored_end(s, i);
    match some_of(s, i, range(s, i)) {
        Some((end, t)) => with_token(LexemeView { token: t, start: i, end }, lexed_from(s, end)),
        None => if start >= s.len() {
            LexedView { tokens: Some(Seq::empty()), errors: Seq::empty() }
        } else {
            match some_of(s, start, token(s, start)) {
                Some((end, t)) => with_token(
                    LexemeView { token: t, start, end },
                    lexed_from(s, end),
                ),
                None => match next_token_start(s, start + 1) {
                    Some(next) => with_error(start, lexed_from(s, next)),
                    None => LexedView { tokens: None, errors: seq![start] },
                },
            }
        },
    }
}

/// Space and comments end where they begin or behind that.
pub proof fn lemma_ignored_end(s: Text, i: int)
    ensures
        i <= ignored_end(s, i),
        i <= s.len() ==> ignored_end(s, i) <= s.len(),
    decreases s.len() - i,
{
    if class_at(s, i, CharClass::Blank) {
        lemma_ignored_end(s, i + 1);
    } else if char_at(s, i, '#') {
        lemma_run_end(s, i + 1, CharClass::Comment);
        lemma_ignored_end(s, run_end(s, i + 1, CharClass::Comment));
    }
}

/// The next token begins at or behind the place where the search does.
pub proof fn lemma_next_token_start(s: Text, i: int)
    ensures
        next_token_start(s, i) matches Some(next) ==> i <= next < s.len(),
    decreases s.len() - i,
{
    if i < s.len() && token(s, i) is None {
        lemma_next_token_start(s, i + 1);
    }
}

/// What the lexer makes of a source.
pub open spec fn lexed(s: Text) -> LexedView {
    lexed_from(s, 0)
}

fn find_ignored_end(s: &Vec<char>, i: usize) -> (end: usize)
    requires
        i <= s.len(),
    ensures
        end == ignored_end(s@, i as int),
        i <= end <= s.len(),
{
    let mut end: usize = i;
    loop
        invariant
            i <= end <= s.len(),
            ignored_end(s@, end as int) == ignored_end(s@, i as int),
        ensures
            i <= end <= s.len(),
            end == ignored_end(s@, i as int),
        decreases s.len() - end,
    {
        if is_class_at(s, end, CharClass::Blank) {
            end = end + 1;
        } else if is_char_at(s, end, '#') {
            end = find_run_end(s, end + 1, CharClass::Comment);
        } else {
            break;
        }
    }
    end
}

fn find_next_token_start(s: &Vec<char>, i: usize) -> (r: Option<usize>)
    requires
        i <= s.len(),
    ensures
        match r {
            Some(next) => next_token_start(s@, i as int) == Some(next as int) && i <= next
                < s.len(),
            None => next_token_start(s@, i as int) is None,
        },
{
    let mut next: usize = i;
    while next < s.len()
        invariant
            i <= next <= s.len(),
            next_token_start(s@, next as int) == next_token_start(s@, i as int),
        decreases s.len() - next,
    {
        if read_token(s, next).is_some() {
            return Some(next);
        }
        next = next + 1;
    }
    None
}

/// Puts tokens and errors that were read before in front of what follows.
spec fn after(tokens: Seq<LexemeView>, errors: Seq<int>, rest: LexedView) -> LexedView {
    LexedView {
        tokens: match rest.tokens {
            Some(more) => Some(tokens + more),
            None => None,
        },
        errors: errors + rest.errors,
    }
}

proof fn lemma_after_token(
    tokens: Seq<LexemeView>,
    errors: Seq<int>,
    t: LexemeView,
    rest: LexedView,
)
    ensures
        after(tokens, errors, with_token(t, rest)) == after(tokens.push(t), errors, rest),
{
    if let Some(more) = rest.tokens {
        assert(tokens + (seq![t] + more) =~= tokens.push(t) + more);
    }
}

proof fn lemma_after_error(tokens: Seq<LexemeView>, errors: Seq<int>, at: int, rest: LexedView)
    ensures
        after(tokens, errors, with_error(at, rest)) == after(tokens, errors.push(at), rest),
{
    assert(errors + (seq![at] + rest.errors) =~= errors.push(at) + rest.errors);
}

/// Splits the source text into tokens.
pub fn tokenize(s: &Vec<char>) -> (r: Lexed)
    ensures
        r.view() == lexed(s@),
        r.wf(s@.len() as int),
        r.errors@.len() == 0 ==> r.tokens is Some,
{
    let mut tokens: Vec<(Token, core::ops::Range<usize>)> = Vec::new();
    let mut errors: Vec<LexError> = Vec::new();
    let mut i: usize = 0;
    proof {
        let rest = lexed(s@);
        assert(errors@.len() == 0);
        assert(lex_errors_view(errors@) + rest.errors =~= rest.errors);
        if let Some(more) = rest.tokens {
            assert(lexemes_view(tokens@) + more =~= more);
        }
    }
    loop
        invariant
            i <= s.len(),
            lexed(s@) == after(
                lexemes_view(tokens@),
                lex_errors_view(errors@),
                lexed_from(s@, i as int),
            ),
            lexemes_fit(lexemes_view(tokens@), s@.len() as int),
            forall|k: int| 0 <= k < tokens@.len() ==> lexemes_view(tokens@)[k].end <= i,
            forall|k: int|
                0 <= k < errors@.len() ==> (#[trigger] errors@[k]).start < s.len() && errors@[k].end
                    == errors@[k].start + 1,
        decreases s.len() - i,
    {
        let ghost tokens_before = tokens@;
        let ghost errors_before = errors@;
        let start: usize = find_ignored_end(s, i);
        if let Some((end, t)) = read_range(s, i) {
            tokens.push((t, i..end));
            proof {
                let lexeme = LexemeView { token: t.view(), start: i as int, end: end as int };
                lemma_after_token(
                    lexemes_view(tokens_before),
                    lex_errors_view(errors@),
                    lexeme,
                    lexed_from(s@, end as int),
                );
                assert(lexemes_view(tokens@) =~= lexemes_view(tokens_before).push(lexeme));
            }
            i = end;
        } else if start >= s.len() {
            assert(lexemes_view(tokens@) + Seq::<LexemeView>::empty() =~= lexemes_view(tokens@));
            assert(lex_errors_view(errors@) + Seq::<int>::empty() =~= lex_errors_view(errors@));
            return Lexed { tokens: Some(tokens), errors };
        } else if let Some((end, t)) = read_token(s, start) {
            tokens.push((t, start..end));
            proof {
                let lexeme = LexemeView { token: t.view(), start: start as int, end: end as int };
                lemma_after_token(
                    lexemes_view(tokens_before),
                    lex_errors_view(errors@),
                    lexeme,
                    lexed_from(s@, end as int),
                );
                assert(lexemes_view(tokens@) =~= lexemes_view(tokens_before).push(lexeme));
            }
            i = end;
        } else {
            errors.push(LexError { start, end: start + 1 });
            assert(lex_errors_view(errors@) =~= lex_errors_view(errors_before).push(start as int));
            match find_next_token_start(s, start + 1) {
                Some(next) => {
                    proof {
                        lemma_after_error(
                            lexemes_view(tokens@),
                            lex_errors_view(errors_before),
                            start as int,
                            lexed_from(s@, next as int),
                        );
                    }
                    i = next;
                },
                None => {
                    assert(lex_errors_view(errors_before) + seq![start as int] =~= lex_errors_view(
                        errors@,
                    ));
                    return Lexed { tokens: None, errors };
                },
            }
        }
    }
}

} // verus!
