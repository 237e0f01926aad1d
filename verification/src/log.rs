//! What a parse has found out about the errors of its input so far.
use vstd::prelude::*;

use crate::error::{opt_token_view, opt_tokens_view, perrors_view, PError, PErrorView};
use crate::lexer::token::{Token, TokenView};
use crate::stream::{StreamView, TokenStream};

verus! {

/// The furthest place where a rule found something else than it wanted, all that
/// the rules wanted there, and the errors of what was nevertheless taken.
pub struct Log {
    pub at: usize,
    pub expected: Vec<Option<Token>>,
    pub emitted: Vec<PError>,
}

pub struct LogView {
    pub at: int,
    pub expected: Seq<Option<TokenView>>,
    pub emitted: Seq<PErrorView>,
}

/// What was wanted before, and what of `more` was not.
pub open spec fn wanted(before: Seq<Option<TokenView>>, more: Seq<Option<TokenView>>) -> Seq<
    Option<TokenView>,
>
    decreases more.len(),
{
    if more.len() == 0 {
        before
    } else {
        let all = wanted(before, more.drop_last());
        if all.contains(more.last()) {
            all
        } else {
            all.push(more.last())
        }
    }
}

impl LogView {
    /// The log before the first rule.
    pub open spec fn start() -> LogView {
        LogView { at: 0, expected: Seq::empty(), emitted: Seq::empty() }
    }

    /// A rule wanted one of `expected` at `at` and did not find it. Only what
    /// happens at the furthest place counts, and nothing is wanted there twice.
    #[verifier::opaque]
    pub open spec fn note(self, at: int, expected: Seq<Option<TokenView>>) -> LogView {
        if at > self.at {
            LogView { at, expected: wanted(Seq::empty(), expected), emitted: self.emitted }
        } else if at == self.at {
            LogView { at, expected: wanted(self.expected, expected), emitted: self.emitted }
        } else {
            self
        }
    }

    /// What was taken is wrong all the same.
    #[verifier::opaque]
    pub open spec fn emit(self, e: PErrorView) -> LogView {
        LogView { at: self.at, expected: self.expected, emitted: self.emitted.push(e) }
    }

    /// What was taken since there were `n` errors is given back.
    #[verifier::opaque]
    pub open spec fn rollback(self, n: nat) -> LogView {
        LogView {
            at: self.at,
            expected: self.expected,
            emitted: if n < self.emitted.len() {
                self.emitted.take(n as int)
            } else {
                self.emitted
            },
        }
    }

    /// The errors of a parse that failed: the furthest failure comes last.
    pub open spec fn failure(self, s: StreamView) -> Seq<PErrorView> {
        self.emitted.push(s.unexpected(self.at, self.expected))
    }
}

fn same_token(a: &Option<Token>, b: &Option<Token>) -> (r: bool)
    ensures
        r == (opt_token_view(*a) == opt_token_view(*b)),
{
    match (a, b) {
        (Some(a), Some(b)) => a.same(b),
        (None, None) => true,
        _ => false,
    }
}

fn is_wanted(all: &Vec<Option<Token>>, t: &Option<Token>) -> (r: bool)
    ensures
        r == opt_tokens_view(all@).contains(opt_token_view(*t)),
{
    let mut i: usize = 0;
    while i < all.len()
        invariant
            i <= all.len(),
            forall|j: int| 0 <= j < i ==> opt_tokens_view(all@)[j] != opt_token_view(*t),
        decreases all.len() - i,
    {
        if same_token(&all[i], t) {
            assert(opt_tokens_view(all@)[i as int] == opt_token_view(*t));
            return true;
        }
        i = i + 1;
    }
    false
}

/// Adds what was not wanted before.
fn want(all: &mut Vec<Option<Token>>, more: Vec<Option<Token>>)
    ensures
        opt_tokens_view(final(all)@) == wanted(
            opt_tokens_view(old(all)@),
            opt_tokens_view(more@),
        ),
{
    let ghost before = opt_tokens_view(all@);
    let ghost given = opt_tokens_view(more@);
    for t in it: more
        invariant
            given == opt_tokens_view(it.seq()),
            opt_tokens_view(all@) == wanted(before, given.take(it.index())),
    {
        assert(given.take(it.index() + 1).drop_last() =~= given.take(it.index()));
        let ghost so_far = all@;
        if !is_wanted(all, &t) {
            all.push(t);
            assert(opt_tokens_view(all@) =~= opt_tokens_view(so_far).push(opt_token_view(t)));
        }
    }
    assert(given.take(given.len() as int) =~= given);
}

impl Log {
    #[verifier::opaque]
    pub open spec fn view(&self) -> LogView {
        LogView {
            at: self.at as int,
            expected: opt_tokens_view(self.expected@),
            emitted: perrors_view(self.emitted@),
        }
    }

    pub fn start() -> (log: Log)
        ensures
            log.view() == LogView::start(),
    {
        proof {
            reveal(Log::view);
        }
        let log = Log { at: 0, expected: Vec::new(), emitted: Vec::new() };
        assert(opt_tokens_view(log.expected@) =~= Seq::empty());
        assert(perrors_view(log.emitted@) =~= Seq::empty());
        log
    }

    pub fn note(&mut self, at: usize, expected: Vec<Option<Token>>)
        ensures
            final(self).view() == old(self).view().note(
                at as int,
                opt_tokens_view(expected@),
            ),
    {
        proof {
            reveal(Log::view);
            reveal(LogView::note);
        }
        if at > self.at {
            self.at = at;
            self.expected = Vec::new();
            assert(opt_tokens_view(self.expected@) =~= Seq::empty());
            want(&mut self.expected, expected);
        } else if at == self.at {
            want(&mut self.expected, expected);
        }
    }

    pub fn emit(&mut self, e: PError)
        ensures
            final(self).view() == old(self).view().emit(e.view()),
    {
        proof {
            reveal(Log::view);
            reveal(LogView::emit);
        }
        let ghost before = self.emitted@;
        self.emitted.push(e);
        assert(perrors_view(self.emitted@) =~= perrors_view(before).push(e.view()));
    }

    pub fn emitted_len(&self) -> (n: usize)
        ensures
            n == self.view().emitted.len(),
    {
        proof {
            reveal(Log::view);
        }
        self.emitted.len()
    }

    pub fn rollback(&mut self, n: usize)
        ensures
            final(self).view() == old(self).view().rollback(n as nat),
    {
        proof {
            reveal(Log::view);
            reveal(LogView::rollback);
        }
        let ghost before = self.emitted@;
        self.emitted.truncate(n);
        proof {
            if n < before.len() {
                assert(perrors_view(self.emitted@) =~= perrors_view(before).take(n as int));
            } else {
                assert(perrors_view(self.emitted@) =~= perrors_view(before));
            }
        }
    }

    /// The errors of what was taken.
    pub fn into_emitted(self) -> (errors: Vec<PError>)
        ensures
            perrors_view(errors@) == self.view().emitted,
    {
        proof {
            reveal(Log::view);
        }
        self.emitted
    }

    /// The errors of a parse that failed.
    pub fn failure(self, stream: &TokenStream) -> (errors: Vec<PError>)
        ensures
            perrors_view(errors@) == self.view().failure(stream.view()),
    {
        proof {
            reveal(Log::view);
        }
        let ghost log = self;
        let mut errors = self.emitted;
        errors.push(stream.unexpected(self.at, self.expected));
        assert(perrors_view(errors@) =~= log.view().failure(stream.view()));
        errors
    }
}

} // verus!
