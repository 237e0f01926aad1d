//! What stands between the quotes of an s-string or an f-string.
use vstd::prelude::*;

use crate::ast::{
    items_view, texts, Expr, ExprKind, ExprKindView, Ident, InterpolateItem, InterpolateItemView,
    Text,
};
use crate::common::{expr_at, into_expr};
use crate::lexer::chars::{char_at, chars_of, is_char_at, text_between};
use crate::lexer::token::{name, read_name};
use crate::span::{ParserSpan, Span};

verus! {

/// The names that follow at `i`, each behind a dot, and where they end.
pub open spec fn path_rest(t: Text, i: int) -> (int, Seq<Text>)
    decreases t.len() - i,
{
    if char_at(t, i, '.') {
        match name(t, i + 1) {
            Some((end, part)) => if i < end <= t.len() {
                let (path_end, rest) = path_rest(t, end);
                (path_end, seq![part] + rest)
            } else {
                (i, Seq::empty())
            },
            None => (i, Seq::empty()),
        }
    } else {
        (i, Seq::empty())
    }
}

/// The names, parted by dots, that begin at `i`.
pub open spec fn path(t: Text, i: int) -> Option<(int, Seq<Text>)> {
    match name(t, i) {
        Some((end, part)) => {
            let (path_end, rest) = path_rest(t, end);
            Some((path_end, seq![part] + rest))
        },
        None => None,
    }
}

/// Where the format that begins at `i` ends.
pub open spec fn format_end(t: Text, i: int) -> int
    decreases t.len() - i,
{
    if 0 <= i < t.len() && t[i] != '}' {
        format_end(t, i + 1)
    } else {
        i
    }
}

/// The place of the characters from `i` up to `j` of a string that begins at `base`.
pub open spec fn inner_span(base: int, source_id: u16, i: int, j: int) -> Span {
    Span { start: (base + i) as usize, end: (base + j) as usize, source_id }
}

/// The variable that begins at `i`: names between braces, and a format behind a
/// colon, if there is one.
pub open spec fn variable(t: Text, i: int, base: int, source_id: u16) -> Option<
    (int, InterpolateItemView),
> {
    if char_at(t, i, '{') {
        match path(t, i + 1) {
            Some((end, names)) => {
                let expr = expr_at(
                    ExprKindView::Ident(names),
                    inner_span(base, source_id, i + 1, end),
                );
                let close = if char_at(t, end, ':') {
                    format_end(t, end + 1)
                } else {
                    end
                };
                let format = if char_at(t, end, ':') {
                    Some(t.subrange(end + 1, close))
                } else {
                    None
                };
                if char_at(t, close, '}') {
                    Some((close + 1, InterpolateItemView::Expr(Box::new(expr), format)))
                } else {
                    None
                }
            },
            None => None,
        }
    } else {
        None
    }
}

/// The plain text that begins at `i`, and where it ends. Two braces stand for one.
pub open spec fn plain(t: Text, i: int) -> (int, Text)
    decreases t.len() - i,
{
    if i < 0 || i >= t.len() {
        (i, Seq::empty())
    } else if (t[i] == '{' || t[i] == '}') && char_at(t, i + 1, t[i]) {
        let (end, rest) = plain(t, i + 2);
        (end, seq![t[i]] + rest)
    } else if t[i] == '{' || t[i] == '}' {
        (i, Seq::empty())
    } else {
        let (end, rest) = plain(t, i + 1);
        (end, seq![t[i]] + rest)
    }
}

/// The variable at `i`, or else the plain text there.
pub open spec fn item(t: Text, i: int, base: int, source_id: u16) -> (int, InterpolateItemView) {
    match variable(t, i, base, source_id) {
        Some(found) => found,
        None => (plain(t, i).0, InterpolateItemView::String(plain(t, i).1)),
    }
}

/// The pieces of the string from `i` on, or the place of a brace that opens no
/// variable and closes none.
pub open spec fn items_from(t: Text, i: int, base: int, source_id: u16) -> Result<
    Seq<InterpolateItemView>,
    int,
>
    decreases t.len() - i,
{
    if i >= t.len() {
        Ok(Seq::empty())
    } else {
        let (end, first) = item(t, i, base, source_id);
        if i < end <= t.len() {
            match items_from(t, end, base, source_id) {
                Ok(rest) => Ok(seq![first] + rest),
                Err(at) => Err(at),
            }
        } else {
            Err(i)
        }
    }
}

/// The pieces of a string whose first character is character `base` of the source.
pub open spec fn interpolated(t: Text, base: int, source_id: u16) -> Result<
    Seq<InterpolateItemView>,
    int,
> {
    items_from(t, 0, base, source_id)
}

fn read_path(t: &Vec<char>, i: usize) -> (r: Option<(usize, Vec<String>)>)
    requires
        i <= t.len(),
    ensures
        match r {
            Some((end, names)) => path(t@, i as int) == Some((end as int, texts(names@))) && i < end
                <= t.len(),
            None => path(t@, i as int) is None,
        },
{
    match read_name(t, i) {
        Some((first_end, first)) => {
            let mut names: Vec<String> = Vec::new();
            names.push(first);
            let mut end: usize = first_end;
            let ghost whole = path(t@, i as int);
            assert(texts(names@) =~= seq![first@]);
            loop
                invariant
                    i < end <= t.len(),
                    whole == Some(
                        (path_rest(t@, end as int).0, texts(names@) + path_rest(t@, end as int).1),
                    ),
                ensures
                    i < end <= t.len(),
                    whole == Some((end as int, texts(names@))),
                decreases t.len() - end,
            {
                let ghost before = names@;
                if is_char_at(t, end, '.') {
                    if let Some((next, part)) = read_name(t, end + 1) {
                        names.push(part);
                        proof {
                            let rest = path_rest(t@, next as int).1;
                            assert(texts(before) + (seq![part@] + rest) =~= texts(names@) + rest);
                        }
                        end = next;
                        continue ;
                    }
                }
                assert(texts(names@) + Seq::<Text>::empty() =~= texts(names@));
                break ;
            }
            Some((end, names))
        },
        None => None,
    }
}

fn find_format_end(t: &Vec<char>, i: usize) -> (end: usize)
    requires
        i <= t.len(),
    ensures
        end == format_end(t@, i as int),
        i <= end <= t.len(),
{
    let mut end: usize = i;
    while end < t.len() && t[end] != '}'
        invariant
            i <= end <= t.len(),
            format_end(t@, end as int) == format_end(t@, i as int),
        decreases t.len() - end,
    {
        end = end + 1;
    }
    end
}

fn read_variable(t: &Vec<char>, i: usize, base: usize, source_id: u16) -> (r: Option<
    (usize, InterpolateItem),
>)
    requires
        i <= t.len(),
        base + t.len() <= usize::MAX,
    ensures
        match r {
            Some((end, found)) => variable(t@, i as int, base as int, source_id) == Some(
                (end as int, found.view()),
            ) && i < end <= t.len(),
            None => variable(t@, i as int, base as int, source_id) is None,
        },
{
    if !is_char_at(t, i, '{') {
        return None;
    }
    match read_path(t, i + 1) {
        Some((end, names)) => {
            let span = ParserSpan(Span { start: base + (i + 1), end: base + end, source_id });
            let expr = into_expr(ExprKind::Ident(Ident { path: names }), span);
            if is_char_at(t, end, ':') {
                let close: usize = find_format_end(t, end + 1);
                if is_char_at(t, close, '}') {
                    let format = text_between(t, end + 1, close);
                    Some(
                        (
                            close + 1,
                            InterpolateItem::Expr { expr: Box::new(expr), format: Some(format) },
                        ),
                    )
                } else {
                    None
                }
            } else if is_char_at(t, end, '}') {
                Some((end + 1, InterpolateItem::Expr { expr: Box::new(expr), format: None }))
            } else {
                None
            }
        },
        None => None,
    }
}

fn read_plain(t: &Vec<char>, i: usize) -> (r: (usize, String))
    requires
        i <= t.len(),
    ensures
        plain(t@, i as int) == (r.0 as int, r.1@),
        i <= r.0 <= t.len(),
{
    let mut text = String::new();
    let mut end: usize = i;
    assert(text@ + plain(t@, i as int).1 =~= plain(t@, i as int).1);
    while end < t.len()
        invariant
            i <= end <= t.len(),
            plain(t@, i as int) == (
                plain(t@, end as int).0,
                text@ + plain(t@, end as int).1,
            ),
        decreases t.len() - end,
    {
        let c = t[end];
        let brace = c == '{' || c == '}';
        let ghost before = text@;
        let next: usize = if brace {
            if is_char_at(t, end + 1, c) {
                end + 2
            } else {
                assert(text@ + Seq::<char>::empty() =~= text@);
                return (end, text);
            }
        } else {
            end + 1
        };
        text.push(c);
        proof {
            let rest = plain(t@, next as int).1;
            assert(before + (seq![c] + rest) =~= text@ + rest);
        }
        end = next;
    }
    assert(text@ + Seq::<char>::empty() =~= text@);
    (end, text)
}

fn read_item(t: &Vec<char>, i: usize, base: usize, source_id: u16) -> (r: (usize, InterpolateItem))
    requires
        i <= t.len(),
        base + t.len() <= usize::MAX,
    ensures
        item(t@, i as int, base as int, source_id) == (r.0 as int, r.1.view()),
        i <= r.0 <= t.len(),
{
    match read_variable(t, i, base, source_id) {
        Some(found) => found,
        None => {
            let (end, text) = read_plain(t, i);
            (end, InterpolateItem::String(text))
        },
    }
}

/// Splits a string into plain text and variables.
pub fn parse(text: &str, base: usize, source_id: u16) -> (r: Result<Vec<InterpolateItem>, usize>)
    requires
        base + text@.len() <= usize::MAX,
    ensures
        match r {
            Ok(items) => interpolated(text@, base as int, source_id) == Ok::<_, int>(
                items_view(items@),
            ),
            Err(at) => {
                &&& interpolated(text@, base as int, source_id) == Err::<
                    Seq<InterpolateItemView>,
                    _,
                >(at as int)
                &&& at < text@.len()
            },
        },
{
    let t = chars_of(text);
    let mut items: Vec<InterpolateItem> = Vec::new();
    let mut i: usize = 0;
    let ghost whole = interpolated(text@, base as int, source_id);
    proof {
        if let Ok(all) = whole {
            assert(items_view(items@) + all =~= all);
        }
    }
    while i < t.len()
        invariant
            t@ == text@,
            i <= t.len(),
            base + t.len() <= usize::MAX,
            whole == interpolated(text@, base as int, source_id),
            match items_from(t@, i as int, base as int, source_id) {
                Ok(rest) => whole == Ok::<_, int>(items_view(items@) + rest),
                Err(at) => whole == Err::<Seq<InterpolateItemView>, _>(at),
            },
        decreases t.len() - i,
    {
        let (end, found) = read_item(&t, i, base, source_id);
        if end == i {
            return Err(i);
        }
        let ghost before = items@;
        items.push(found);
        proof {
            if let Ok(rest) = items_from(t@, end as int, base as int, source_id) {
                assert(items_view(before) + (seq![found.view()] + rest) =~= items_view(items@)
                    + rest);
            }
        }
        i = end;
    }
    assert(items_view(items@) + Seq::<InterpolateItemView>::empty() =~= items_view(items@));
    Ok(items)
}

} // verus!
