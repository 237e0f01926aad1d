//! What is written into an s-string or an f-string is read out of it.
use vstd::prelude::*;

use crate::ast::{ExprKindView, ExprView, InterpolateItemView, Text};
use crate::interpolation::{format_end, interpolated, items_from, path, path_rest, plain, variable};
use crate::lexer::chars::{char_at, class_at, run_end, CharClass};
use crate::lexer::token::name;
use crate::span::Span;

verus! {

/// A name, and whether it is written between backticks.
pub struct WrittenName {
    pub text: Text,
    pub quoted: bool,
}

/// A piece of an interpolated string.
pub enum Piece {
    Plain(Text),
    Variable(Seq<WrittenName>, Option<Text>),
}

impl WrittenName {
    pub open spec fn valid(self) -> bool {
        if self.quoted {
            forall|k: int| 0 <= k < self.text.len() ==> #[trigger] self.text[k] != '`'
        } else {
            &&& self.text.len() > 0
            &&& CharClass::NameStart.has(self.text[0])
            &&& forall|k: int|
                0 < k < self.text.len() ==> CharClass::NameRest.has(#[trigger] self.text[k])
        }
    }

    pub open spec fn written(self) -> Text {
        if self.quoted {
            seq!['`'] + self.text + seq!['`']
        } else {
            self.text
        }
    }
}

/// Names, each behind a dot.
pub open spec fn dotted_names(names: Seq<WrittenName>) -> Text
    decreases names.len(),
{
    if names.len() == 0 {
        Seq::empty()
    } else {
        seq!['.'] + names[0].written() + dotted_names(names.skip(1))
    }
}

/// Names with a dot between any two.
pub open spec fn path_text(names: Seq<WrittenName>) -> Text {
    names[0].written() + dotted_names(names.skip(1))
}

/// Text with each brace written twice.
pub open spec fn doubled(text: Text) -> Text
    decreases text.len(),
{
    if text.len() == 0 {
        Seq::empty()
    } else if text[0] == '{' || text[0] == '}' {
        seq![text[0], text[0]] + doubled(text.skip(1))
    } else {
        seq![text[0]] + doubled(text.skip(1))
    }
}

/// What follows the names of a variable: its format, behind a colon, and the brace.
pub open spec fn variable_end(format: Option<Text>) -> Text {
    match format {
        Some(format) => seq![':'] + format + seq!['}'],
        None => seq!['}'],
    }
}

impl Piece {
    pub open spec fn valid(self) -> bool {
        match self {
            Piece::Plain(text) => text.len() > 0,
            Piece::Variable(names, format) => {
                &&& names.len() > 0
                &&& forall|k: int| 0 <= k < names.len() ==> (#[trigger] names[k]).valid()
                &&& format matches Some(f) ==> forall|k: int|
                    0 <= k < f.len() ==> #[trigger] f[k] != '}'
            },
        }
    }

    pub open spec fn written(self) -> Text {
        match self {
            Piece::Plain(text) => doubled(text),
            Piece::Variable(names, format) => seq!['{'] + path_text(names) + variable_end(format),
        }
    }

    /// The piece in the tree, if it is written from character `at` of the source on.
    pub open spec fn read(self, at: int, source_id: u16) -> InterpolateItemView {
        match self {
            Piece::Plain(text) => InterpolateItemView::String(text),
            Piece::Variable(names, format) => InterpolateItemView::Expr(
                Box::new(
                    ExprView {
                        kind: ExprKindView::Ident(names.map_values(|n: WrittenName| n.text)),
                        span: Some(
                            Span {
                                start: (at + 1) as usize,
                                end: (at + 1 + path_text(names).len()) as usize,
                                source_id,
                            },
                        ),
                        alias: None,
                    },
                ),
                format,
            ),
        }
    }
}

/// Pieces of which no two with plain text stand side by side: these would be one.
pub open spec fn valid(pieces: Seq<Piece>) -> bool {
    &&& forall|k: int| 0 <= k < pieces.len() ==> (#[trigger] pieces[k]).valid()
    &&& forall|k: int|
        0 < k < pieces.len() ==> !((#[trigger] pieces[k]) is Plain && pieces[k - 1] is Plain)
}

pub open spec fn written(pieces: Seq<Piece>) -> Text
    decreases pieces.len(),
{
    if pieces.len() == 0 {
        Seq::empty()
    } else {
        pieces[0].written() + written(pieces.skip(1))
    }
}

pub open spec fn read(pieces: Seq<Piece>, at: int, source_id: u16) -> Seq<InterpolateItemView>
    decreases pieces.len(),
{
    if pieces.len() == 0 {
        Seq::empty()
    } else {
        seq![pieces[0].read(at, source_id)] + read(
            pieces.skip(1),
            at + pieces[0].written().len(),
            source_id,
        )
    }
}

/// `w` stands at `i`.
pub open spec fn at(t: Text, i: int, w: Text) -> bool {
    0 <= i && i + w.len() <= t.len() && t.subrange(i, i + w.len()) == w
}

pub(crate) proof fn lemma_at(t: Text, i: int, a: Text, b: Text)
    requires
        at(t, i, a + b),
    ensures
        at(t, i, a),
        at(t, i + a.len(), b),
{
    let w = a + b;
    assert forall|k: int| 0 <= k < w.len() implies t[i + k] == #[trigger] w[k] by {
        assert(t.subrange(i, i + w.len())[k] == w[k]);
    }
    assert forall|k: int| 0 <= k < a.len() implies t[i + k] == #[trigger] a[k] by {
        assert(w[k] == a[k]);
    }
    assert forall|k: int| 0 <= k < b.len() implies t[i + a.len() + k] == #[trigger] b[k] by {
        assert(w[a.len() + k] == b[k]);
    }
    assert(t.subrange(i, i + a.len()) =~= a);
    assert(t.subrange(i + a.len(), i + a.len() + b.len()) =~= b);
}

pub(crate) proof fn lemma_at_char(t: Text, i: int, w: Text, k: int)
    requires
        at(t, i, w),
        0 <= k < w.len(),
    ensures
        t[i + k] == w[k],
{
    assert(t.subrange(i, i + w.len())[k] == w[k]);
}

pub(crate) proof fn lemma_run(t: Text, i: int, j: int, class: CharClass)
    requires
        0 <= i <= j <= t.len(),
        forall|k: int| i <= k < j ==> class.has(#[trigger] t[k]),
        !class_at(t, j, class),
    ensures
        run_end(t, i, class) == j,
    decreases j - i,
{
    if i < j {
        lemma_run(t, i + 1, j, class);
    }
}

proof fn lemma_name(t: Text, i: int, n: WrittenName)
    requires
        n.valid(),
        at(t, i, n.written()),
        !class_at(t, i + n.written().len(), CharClass::NameRest),
    ensures
        name(t, i) == Some((i + n.written().len(), n.text)),
        n.written().len() > 0,
        t[i] != '{',
        t[i] != '}',
{
    let w = n.written();
    let end = i + w.len();
    assert forall|k: int| 0 <= k < w.len() implies t[i + k] == #[trigger] w[k] by {
        lemma_at_char(t, i, w, k);
    }
    if n.quoted {
        assert(w[0] == '`');
        assert(t[i + 0] == w[0]);
        assert(w[w.len() - 1] == '`');
        assert(t[i + (w.len() - 1)] == w[w.len() - 1]);
        assert forall|k: int| i + 1 <= k < end - 1 implies CharClass::Backticked.has(
            #[trigger] t[k],
        ) by {
            assert(t[i + (k - i)] == w[k - i]);
            assert(w[k - i] == n.text[k - i - 1]);
        }
        lemma_run(t, i + 1, end - 1, CharClass::Backticked);
        assert(t.subrange(i + 1, end - 1) =~= n.text) by {
            assert forall|k: int| 0 <= k < n.text.len() implies t[i + 1 + k]
                == #[trigger] n.text[k] by {
                assert(t[i + (k + 1)] == w[k + 1]);
            }
        }
    } else {
        assert(t[i + 0] == w[0]);
        assert forall|k: int| i + 1 <= k < end implies CharClass::NameRest.has(
            #[trigger] t[k],
        ) by {
            assert(t[i + (k - i)] == w[k - i]);
        }
        lemma_run(t, i + 1, end, CharClass::NameRest);
    }
}

proof fn lemma_path_rest(t: Text, i: int, names: Seq<WrittenName>)
    requires
        forall|k: int| 0 <= k < names.len() ==> (#[trigger] names[k]).valid(),
        at(t, i, dotted_names(names)),
        !class_at(t, i + dotted_names(names).len(), CharClass::NameRest),
        !char_at(t, i + dotted_names(names).len(), '.'),
    ensures
        path_rest(t, i) == (
            i + dotted_names(names).len(),
            names.map_values(|n: WrittenName| n.text),
        ),
        names.len() > 0 ==> char_at(t, i, '.'),
    decreases names.len(),
{
    if names.len() == 0 {
        assert(names.map_values(|n: WrittenName| n.text) =~= Seq::empty());
    } else {
        let first = names[0];
        let rest = names.skip(1);
        assert(dotted_names(names) =~= seq!['.'] + (first.written() + dotted_names(rest)));
        lemma_at(t, i, seq!['.'], first.written() + dotted_names(rest));
        lemma_at_char(t, i, seq!['.'], 0);
        lemma_at(t, i + 1, first.written(), dotted_names(rest));
        let next = i + 1 + first.written().len();
        assert forall|k: int| 0 <= k < rest.len() implies (#[trigger] rest[k]).valid() by {
            assert(rest[k] == names[k + 1]);
        }
        lemma_path_rest(t, next, rest);
        lemma_name(t, i + 1, first);
        assert(names.map_values(|n: WrittenName| n.text) =~= seq![first.text]
            + rest.map_values(|n: WrittenName| n.text));
    }
}

proof fn lemma_format_end(t: Text, i: int, j: int)
    requires
        0 <= i <= j < t.len(),
        forall|k: int| i <= k < j ==> #[trigger] t[k] != '}',
        t[j] == '}',
    ensures
        format_end(t, i) == j,
    decreases j - i,
{
    if i < j {
        lemma_format_end(t, i + 1, j);
    }
}

pub(crate) proof fn lemma_variable(
    t: Text,
    i: int,
    names: Seq<WrittenName>,
    format: Option<Text>,
    base: int,
    source_id: u16,
)
    requires
        Piece::Variable(names, format).valid(),
        at(t, i, Piece::Variable(names, format).written()),
    ensures
        variable(t, i, base, source_id) == Some(
            (
                i + Piece::Variable(names, format).written().len(),
                Piece::Variable(names, format).read(base + i, source_id),
            ),
        ),
        t[i] == '{',
        !char_at(t, i + 1, '{'),
{
    let p = path_text(names);
    let tail = variable_end(format);
    let first = names[0];
    let rest = names.skip(1);
    assert(seq!['{'] + p + tail =~= seq!['{'] + (p + tail));
    lemma_at(t, i, seq!['{'], p + tail);
    lemma_at_char(t, i, seq!['{'], 0);
    lemma_at(t, i + 1, p, tail);
    let end = i + 1 + p.len();
    lemma_at(t, i + 1, first.written(), dotted_names(rest));
    lemma_at_char(t, end, tail, 0);
    assert forall|k: int| 0 <= k < rest.len() implies (#[trigger] rest[k]).valid() by {
        assert(rest[k] == names[k + 1]);
    }
    lemma_path_rest(t, i + 1 + first.written().len(), rest);
    lemma_name(t, i + 1, first);
    let texts = names.map_values(|n: WrittenName| n.text);
    assert(texts =~= seq![first.text] + rest.map_values(|n: WrittenName| n.text));
    assert(path(t, i + 1) == Some((end, texts)));
    if let Some(f) = format {
        let close = end + 1 + f.len();
        assert forall|k: int| end + 1 <= k < close implies #[trigger] t[k] != '}' by {
            lemma_at_char(t, end, tail, k - end);
            assert(tail[k - end] == f[k - end - 1]);
        }
        lemma_at_char(t, end, tail, tail.len() - 1);
        lemma_format_end(t, end + 1, close);
        assert(t.subrange(end + 1, close) =~= f) by {
            assert forall|k: int| 0 <= k < f.len() implies t[end + 1 + k] == #[trigger] f[k] by {
                lemma_at_char(t, end, tail, k + 1);
            }
        }
    }
}

pub(crate) proof fn lemma_plain_up_to(t: Text, i: int, text: Text)
    requires
        at(t, i, doubled(text)),
        ({
            let end = i + doubled(text).len();
            end < t.len() ==> (t[end] == '{' || t[end] == '}') && !char_at(t, end + 1, t[end])
        }),
    ensures
        plain(t, i) == (i + doubled(text).len(), text),
        text.len() > 0 ==> doubled(text).len() > 0 && (char_at(t, i, '{') ==> char_at(
            t,
            i + 1,
            '{',
        )),
    decreases text.len(),
{
    if text.len() == 0 {
        assert(text =~= Seq::empty());
    } else {
        let c = text[0];
        let rest = text.skip(1);
        let head = if c == '{' || c == '}' {
            seq![c, c]
        } else {
            seq![c]
        };
        assert(doubled(text) == head + doubled(rest));
        lemma_at(t, i, head, doubled(rest));
        lemma_at_char(t, i, head, 0);
        lemma_at_char(t, i, head, head.len() - 1);
        lemma_plain_up_to(t, i + head.len(), rest);
        assert(text =~= seq![c] + rest);
    }
}

proof fn lemma_pieces(t: Text, i: int, pieces: Seq<Piece>, base: int, source_id: u16)
    requires
        valid(pieces),
        0 <= i,
        at(t, i, written(pieces)),
        i + written(pieces).len() == t.len(),
    ensures
        items_from(t, i, base, source_id) == Ok::<_, int>(read(pieces, base + i, source_id)),
    decreases pieces.len(),
{
    if pieces.len() > 0 {
        let first = pieces[0];
        let rest = pieces.skip(1);
        let next = i + first.written().len();
        lemma_at(t, i, first.written(), written(rest));
        assert forall|k: int| 0 <= k < rest.len() implies (#[trigger] rest[k]).valid() by {
            assert(rest[k] == pieces[k + 1]);
        }
        assert forall|k: int| 0 < k < rest.len() implies !((#[trigger] rest[k]) is Plain
            && rest[k - 1] is Plain) by {
            assert(rest[k] == pieces[k + 1]);
            assert(rest[k - 1] == pieces[k]);
        }
        lemma_pieces(t, next, rest, base, source_id);
        match first {
            Piece::Plain(text) => {
                if rest.len() > 0 {
                    assert(rest[0] == pieces[1]);
                    assert(!(pieces[1] is Plain && pieces[0] is Plain));
                    if let Piece::Variable(names, format) = rest[0] {
                        lemma_at(t, next, rest[0].written(), written(rest.skip(1)));
                        lemma_variable(t, next, names, format, base, source_id);
                    }
                } else {
                    assert(written(rest) =~= Seq::empty());
                }
                lemma_plain_up_to(t, i, text);
                if char_at(t, i, '{') {
                    assert(name(t, i + 1) is None);
                }
                assert(variable(t, i, base, source_id) is None);
            },
            Piece::Variable(names, format) => {
                lemma_variable(t, i, names, format, base, source_id);
            },
        }
    }
}

/// Whatever is written into an interpolated string is read out of it: plain text, in
/// which each brace is written twice, and names between braces, wherever they stand.
pub proof fn law_an_interpolated_string_gives_its_pieces_back(
    pieces: Seq<Piece>,
    base: int,
    source_id: u16,
)
    requires
        valid(pieces),
    ensures
        interpolated(written(pieces), base, source_id) == Ok::<_, int>(
            read(pieces, base, source_id),
        ),
{
    let t = written(pieces);
    assert(t.subrange(0, t.len() as int) =~= t);
    lemma_pieces(t, 0, pieces, base, source_id);
}

} // verus!
