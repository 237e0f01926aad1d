//! What the lexer makes of each piece of text, wherever it stands.
use vstd::prelude::*;

use crate::ast::{LiteralView, Text};
use crate::laws::interpolate::{at, lemma_at, lemma_at_char, lemma_run};
use crate::lexer::chars::{
    char_at, class_at, is_digit, is_line_end, run_end, word_at, word_ends, CharClass,
};
use crate::lexer::datetime::{date_end, datetime, fraction_end, sixtieths_end, time, zone};
use crate::lexer::number::{
    decimal_value, exp_end, frac_end, int_end, number, ungrouped, unit_at, value_and_unit,
};
use crate::lexer::quoted::{
    hex_digit_value, hex_value, quoted_by, quoted_char, quoted_rest, quoted_string, quotes_at,
};
use crate::lexer::token::{
    interpolation, keyword_at, literal, name, range, raw_string, symbol, token, TokenView,
};
use crate::lexer::{ignored_end, lexed_from, next_token_start, LexemeView};

verus! {

/// A space or a tab counts for nothing, unless it stands before the dots of a range.
pub proof fn law_space_counts_for_nothing(s: Text, i: int)
    requires
        0 <= i,
        class_at(s, i, CharClass::Blank),
        range(s, i) is None,
    ensures
        lexed_from(s, i) == lexed_from(s, i + 1),
{
    assert(run_end(s, i, CharClass::Blank) == run_end(s, i + 1, CharClass::Blank));
    assert(range(s, i + 1) is None);
    assert(ignored_end(s, i) == ignored_end(s, i + 1));
}

/// A comment counts for nothing: whatever stands from a hash up to the end of the line.
pub proof fn law_a_comment_counts_for_nothing(s: Text, i: int, j: int)
    requires
        0 <= i < j <= s.len(),
        s[i] == '#',
        forall|k: int| i < k < j ==> !is_line_end(#[trigger] s[k]),
        j < s.len() ==> is_line_end(s[j]),
    ensures
        lexed_from(s, i) == lexed_from(s, j),
{
    lemma_run(s, i + 1, j, CharClass::Comment);
    assert(run_end(s, i, CharClass::Blank) == i);
    assert(run_end(s, j, CharClass::Blank) == j);
    assert(range(s, i) is None);
    assert(range(s, j) is None);
    assert(ignored_end(s, i) == ignored_end(s, j));
}

/// Where the text ends, nothing is left.
pub proof fn law_nothing_is_left_at_the_end(s: Text)
    ensures
        lexed_from(s, s.len() as int).tokens == Some(Seq::<LexemeView>::empty()),
        lexed_from(s, s.len() as int).errors.len() == 0,
{
    let end = s.len() as int;
    assert(run_end(s, end, CharClass::Blank) == end);
    assert(ignored_end(s, end) == end);
}

/// A token stands in the list with its place, before those behind it.
pub proof fn law_a_token_comes_before_those_behind_it(s: Text, i: int, end: int, t: TokenView)
    requires
        0 <= i < end <= s.len(),
        token(s, i) == Some((end, t)),
        !(s[i] == '.' && char_at(s, i + 1, '.')),
        !class_at(s, i, CharClass::Blank),
        s[i] != '#',
    ensures
        lexed_from(s, i).errors == lexed_from(s, end).errors,
        match lexed_from(s, end).tokens {
            Some(rest) => lexed_from(s, i).tokens == Some(
                seq![LexemeView { token: t, start: i, end }] + rest,
            ),
            None => lexed_from(s, i).tokens is None,
        },
{
    assert(run_end(s, i, CharClass::Blank) == i);
    assert(ignored_end(s, i) == i);
}

/// Two dots are a range, which the space around them belongs to. It is bound to the side
/// on which there is none.
pub proof fn law_dots_take_the_space_around_them(s: Text, i: int, j: int, end: int)
    requires
        0 <= i <= j,
        j + 2 <= end <= s.len(),
        forall|k: int| i <= k < j ==> CharClass::Blank.has(#[trigger] s[k]),
        s[j] == '.',
        s[j + 1] == '.',
        forall|k: int| j + 2 <= k < end ==> CharClass::Blank.has(#[trigger] s[k]),
        !class_at(s, end, CharClass::Blank),
    ensures
        ({
            let t = TokenView::Range { bind_left: i == j, bind_right: end == j + 2 };
            &&& lexed_from(s, i).errors == lexed_from(s, end).errors
            &&& match lexed_from(s, end).tokens {
                Some(rest) => lexed_from(s, i).tokens == Some(
                    seq![LexemeView { token: t, start: i, end }] + rest,
                ),
                None => lexed_from(s, i).tokens is None,
            }
        }),
{
    lemma_run(s, i, j, CharClass::Blank);
    lemma_run(s, j + 2, end, CharClass::Blank);
}

/// A character that no token begins with is an error, and the lexer goes on with the next
/// token behind it.
pub proof fn law_what_begins_no_token_is_an_error(s: Text, i: int, next: int)
    requires
        0 <= i < next < s.len(),
        !class_at(s, i, CharClass::Blank),
        s[i] != '#',
        s[i] != '.',
        forall|k: int| i <= k < next ==> #[trigger] token(s, k) is None,
        token(s, next) is Some,
    ensures
        lexed_from(s, i).errors == seq![i] + lexed_from(s, next).errors,
        lexed_from(s, i).tokens == lexed_from(s, next).tokens,
{
    assert(run_end(s, i, CharClass::Blank) == i);
    assert(ignored_end(s, i) == i);
    lemma_next(s, i + 1, next);
}

proof fn lemma_next(s: Text, i: int, next: int)
    requires
        0 <= i <= next < s.len(),
        forall|k: int| i <= k < next ==> #[trigger] token(s, k) is None,
        token(s, next) is Some,
    ensures
        next_token_start(s, i) == Some(next),
    decreases next - i,
{
    if i < next {
        assert(token(s, i) is None);
        lemma_next(s, i + 1, next);
    }
}

/// How the tokens of two characters are written.
pub open spec fn symbol_text(t: TokenView) -> Option<(char, char)> {
    match t {
        TokenView::ArrowThin => Some(('-', '>')),
        TokenView::ArrowFat => Some(('=', '>')),
        TokenView::Eq => Some(('=', '=')),
        TokenView::Ne => Some(('!', '=')),
        TokenView::Gte => Some(('>', '=')),
        TokenView::Lte => Some(('<', '=')),
        TokenView::RegexSearch => Some(('~', '=')),
        TokenView::And => Some(('&', '&')),
        TokenView::Or => Some(('|', '|')),
        TokenView::Coalesce => Some(('?', '?')),
        TokenView::DivInt => Some(('/', '/')),
        _ => None,
    }
}

/// The two characters of a token are that token.
pub proof fn law_two_characters_make_a_token(s: Text, i: int, t: TokenView)
    requires
        0 <= i,
        symbol_text(t) matches Some((a, b)) && char_at(s, i, a) && char_at(s, i + 1, b),
    ensures
        token(s, i) == Some((i + 2, t)),
{
}

/// Each of these characters is a token of its own, where it begins no longer one.
pub proof fn law_one_character_makes_a_token(s: Text, i: int, c: char)
    requires
        char_at(s, i, c),
        c == '>' || c == '<' || c == '%' || c == '=' || c == '+' || c == '-' || c == '*' || c
            == '[' || c == ']' || c == '(' || c == ')' || c == '.' || c == ',' || c == ':' || c
            == '{' || c == '}' || c == '|' || c == '!' || c == '/',
        !char_at(s, i + 1, '='),
        !char_at(s, i + 1, '>'),
        !char_at(s, i + 1, c),
    ensures
        token(s, i) == Some((i + 1, TokenView::Control(c))),
{
}

/// A character that ends a line is a line break, and so is a carriage return together
/// with the line feed behind it.
pub proof fn law_the_end_of_a_line_is_a_token(s: Text, i: int)
    requires
        0 <= i < s.len(),
    ensures
        s[i] == '\n' ==> token(s, i) == Some((i + 1, TokenView::NewLine)),
        s[i] == '\r' && char_at(s, i + 1, '\n') ==> token(s, i) == Some(
            (i + 2, TokenView::NewLine),
        ),
        s[i] == '\r' && !char_at(s, i + 1, '\n') ==> token(s, i) == Some(
            (i + 1, TokenView::NewLine),
        ),
{
}

/// A character of a string, and how it is written.
pub enum Mark {
    /// As it is.
    Plain(char),
    /// As a backslash and a letter.
    Escaped(char),
    /// As `\x` and two hexadecimal digits.
    Byte(Text),
    /// As `\u` and hexadecimal digits between braces.
    Code(Text),
}

/// The character that a letter behind a backslash stands for.
pub open spec fn escaped(letter: char) -> Option<char> {
    if letter == '\\' || letter == '/' || letter == '"' || letter == '\'' {
        Some(letter)
    } else if letter == 'b' {
        Some('\x08')
    } else if letter == 'f' {
        Some('\x0C')
    } else if letter == 'n' {
        Some('\n')
    } else if letter == 'r' {
        Some('\r')
    } else if letter == 't' {
        Some('\t')
    } else {
        None
    }
}

/// The value of a digit, decimal or hexadecimal.
pub open spec fn digit_value(c: char) -> int {
    if 'a' <= c <= 'f' {
        10 + (c as int - 'a' as int)
    } else if 'A' <= c <= 'F' {
        10 + (c as int - 'A' as int)
    } else {
        c as int - '0' as int
    }
}

/// The number that digits write behind `n`, in that base; underscores do not count.
pub open spec fn written_number(digits: Text, base: int, n: int) -> int
    decreases digits.len(),
{
    if digits.len() == 0 {
        n
    } else if digits[0] == '_' {
        written_number(digits.skip(1), base, n)
    } else {
        written_number(digits.skip(1), base, n * base + digit_value(digits[0]))
    }
}

proof fn lemma_written_number(digits: Text, last: char, base: int, n: int)
    ensures
        written_number(digits.push(last), base, n) == if last == '_' {
            written_number(digits, base, n)
        } else {
            written_number(digits, base, n) * base + digit_value(last)
        },
    decreases digits.len(),
{
    let all = digits.push(last);
    if digits.len() == 0 {
        let one = n * base + digit_value(last);
        assert(all.skip(1) =~= Seq::empty());
        assert(all[0] == last);
        assert(written_number(all.skip(1), base, n) == n);
        assert(written_number(all.skip(1), base, one) == one);
    } else {
        assert(all.skip(1) =~= digits.skip(1).push(last));
        let next = if digits[0] == '_' {
            n
        } else {
            n * base + digit_value(digits[0])
        };
        lemma_written_number(digits.skip(1), last, base, next);
    }
}

proof fn lemma_decimal(text: Text)
    requires
        forall|k: int| 0 <= k < text.len() ==> CharClass::GroupedDigit.has(#[trigger] text[k]),
    ensures
        decimal_value(text) == written_number(text, 10, 0),
    decreases text.len(),
{
    if text.len() > 0 {
        let before = text.drop_last();
        assert(CharClass::GroupedDigit.has(text[text.len() - 1]));
        lemma_decimal(before);
        lemma_written_number(before, text.last(), 10, 0);
        assert(before.push(text.last()) =~= text);
    }
}

proof fn lemma_hex(text: Text)
    requires
        forall|k: int| 0 <= k < text.len() ==> CharClass::HexDigit.has(#[trigger] text[k]),
    ensures
        hex_value(text) == written_number(text, 16, 0),
        0 <= hex_value(text),
    decreases text.len(),
{
    if text.len() > 0 {
        let before = text.drop_last();
        assert(CharClass::HexDigit.has(text[text.len() - 1]));
        lemma_hex(before);
        lemma_written_number(before, text.last(), 16, 0);
        assert(before.push(text.last()) =~= text);
    }
}

/// The number that digits write, with or without underscores between them, and in any of
/// the two bases.
pub proof fn law_digits_write_a_number(text: Text)
    ensures
        (forall|k: int|
            0 <= k < text.len() ==> CharClass::GroupedDigit.has(#[trigger] text[k]))
            ==> decimal_value(text) == written_number(text, 10, 0),
        (forall|k: int| 0 <= k < text.len() ==> CharClass::HexDigit.has(#[trigger] text[k]))
            ==> hex_value(text) == written_number(text, 16, 0),
{
    if forall|k: int| 0 <= k < text.len() ==> CharClass::GroupedDigit.has(#[trigger] text[k]) {
        lemma_decimal(text);
    }
    if forall|k: int| 0 <= k < text.len() ==> CharClass::HexDigit.has(#[trigger] text[k]) {
        lemma_hex(text);
    }
}

/// Whether there is a character of that number: none has that of a surrogate.
pub open spec fn is_code(n: int) -> bool {
    0 <= n < 0xD800 || 0xE000 <= n < 0x110000
}

impl Mark {
    /// Whether the mark can stand between quotes `q`.
    pub open spec fn valid(self, q: char) -> bool {
        match self {
            Mark::Plain(c) => c != '\\' && c != q,
            Mark::Escaped(letter) => escaped(letter) is Some,
            Mark::Byte(digits) => {
                &&& digits.len() == 2
                &&& forall|k: int| 0 <= k < 2 ==> CharClass::HexDigit.has(#[trigger] digits[k])
            },
            Mark::Code(digits) => {
                &&& 1 <= digits.len() <= 6
                &&& forall|k: int|
                    0 <= k < digits.len() ==> CharClass::HexDigit.has(#[trigger] digits[k])
                &&& is_code(written_number(digits, 16, 0))
            },
        }
    }

    pub open spec fn written(self) -> Text {
        match self {
            Mark::Plain(c) => seq![c],
            Mark::Escaped(letter) => seq!['\\', letter],
            Mark::Byte(digits) => seq!['\\', 'x'] + digits,
            Mark::Code(digits) => seq!['\\', 'u', '{'] + digits + seq!['}'],
        }
    }

    pub open spec fn read(self) -> char {
        match self {
            Mark::Plain(c) => c,
            Mark::Escaped(letter) => escaped(letter)->0,
            Mark::Byte(digits) => written_number(digits, 16, 0) as char,
            Mark::Code(digits) => written_number(digits, 16, 0) as char,
        }
    }
}

pub open spec fn marks_written(marks: Seq<Mark>) -> Text
    decreases marks.len(),
{
    if marks.len() == 0 {
        Seq::empty()
    } else {
        marks[0].written() + marks_written(marks.skip(1))
    }
}

pub open spec fn marks_read(marks: Seq<Mark>) -> Text {
    marks.map_values(|m: Mark| m.read())
}

proof fn lemma_small_hex(digits: Text)
    requires
        digits.len() == 2,
        forall|k: int| 0 <= k < 2 ==> CharClass::HexDigit.has(#[trigger] digits[k]),
    ensures
        0 <= hex_value(digits) < 256,
{
    assert(CharClass::HexDigit.has(digits[0]) && CharClass::HexDigit.has(digits[1]));
    let one = digits.drop_last();
    assert(one.drop_last() =~= Seq::empty());
    assert(hex_value(one.drop_last()) == 0);
    assert(hex_value(one) == hex_digit_value(digits[0]));
}

proof fn lemma_mark(s: Text, i: int, q: char, m: Mark)
    requires
        q == '"' || q == '\'',
        m.valid(q),
        at(s, i, m.written()),
    ensures
        !char_at(s, i, q),
        quoted_char(s, i, true) == Some((i + m.written().len(), m.read())),
        m.written().len() > 0,
{
    let w = m.written();
    assert forall|k: int| 0 <= k < w.len() implies s[i + k] == #[trigger] w[k] by {
        lemma_at_char(s, i, w, k);
    }
    assert(s[i + 0] == w[0]);
    match m {
        Mark::Plain(c) => {},
        Mark::Escaped(letter) => {
            assert(s[i + 1] == w[1]);
        },
        Mark::Byte(digits) => {
            assert(s[i + 1] == w[1]);
            assert(s[i + 2] == w[2] && w[2] == digits[0]);
            assert(s[i + 3] == w[3] && w[3] == digits[1]);
            assert(CharClass::HexDigit.has(digits[0]) && CharClass::HexDigit.has(digits[1]));
            assert(s.subrange(i + 2, i + 4) =~= digits);
            lemma_hex(digits);
            lemma_small_hex(digits);
        },
        Mark::Code(digits) => {
            let end = i + 3 + digits.len();
            assert(s[i + 1] == w[1]);
            assert(s[i + 2] == w[2]);
            assert(s[i + (w.len() - 1)] == w[w.len() - 1]);
            assert forall|k: int| i + 3 <= k < end implies CharClass::HexDigit.has(
                #[trigger] s[k],
            ) by {
                assert(s[i + (k - i)] == w[k - i]);
                assert(w[k - i] == digits[k - i - 3]);
            }
            lemma_run(s, i + 3, end, CharClass::HexDigit);
            assert(s.subrange(i + 3, end) =~= digits) by {
                assert forall|k: int| 0 <= k < digits.len() implies s[i + 3 + k]
                    == #[trigger] digits[k] by {
                    assert(s[i + (k + 3)] == w[k + 3]);
                }
            }
            lemma_hex(digits);
        },
    }
}

proof fn lemma_marks(s: Text, i: int, q: char, marks: Seq<Mark>)
    requires
        q == '"' || q == '\'',
        forall|k: int| 0 <= k < marks.len() ==> (#[trigger] marks[k]).valid(q),
        at(s, i, marks_written(marks)),
        char_at(s, i + marks_written(marks).len(), q),
    ensures
        quoted_rest(s, i, q, 1, true) == Some(
            (i + marks_written(marks).len() + 1, marks_read(marks)),
        ),
        marks.len() > 0 ==> !char_at(s, i, q),
    decreases marks.len(),
{
    if marks.len() == 0 {
        assert(marks_read(marks) =~= Seq::empty());
    } else {
        let first = marks[0];
        let rest = marks.skip(1);
        lemma_at(s, i, first.written(), marks_written(rest));
        assert forall|k: int| 0 <= k < rest.len() implies (#[trigger] rest[k]).valid(q) by {
            assert(rest[k] == marks[k + 1]);
        }
        lemma_mark(s, i, q, first);
        lemma_marks(s, i + first.written().len(), q, rest);
        assert(marks_read(marks) =~= seq![first.read()] + marks_read(rest));
    }
}

proof fn lemma_quoted(s: Text, i: int, q: char, marks: Seq<Mark>)
    requires
        q == '"' || q == '\'',
        forall|k: int| 0 <= k < marks.len() ==> (#[trigger] marks[k]).valid(q),
        at(s, i, seq![q] + marks_written(marks) + seq![q]),
        marks.len() == 0 ==> !char_at(s, i + 2, q),
    ensures
        quoted_string(s, i, true) == Some(
            (i + marks_written(marks).len() + 2, marks_read(marks)),
        ),
        s[i] == q,
{
    let w = marks_written(marks);
    assert(seq![q] + w + seq![q] =~= seq![q] + (w + seq![q]));
    lemma_at(s, i, seq![q], w + seq![q]);
    lemma_at_char(s, i, seq![q], 0);
    lemma_at(s, i + 1, w, seq![q]);
    lemma_at_char(s, i + 1 + w.len(), seq![q], 0);
    lemma_marks(s, i + 1, q, marks);
    assert(!quotes_at(s, i, q, 3));
    assert(quoted_by(s, i, q, 1, true) == Some((i + w.len() + 2, marks_read(marks))));
}

/// What is written between quotes is read as a string, wherever it stands: each character
/// as it is, or behind a backslash. Behind an `s` or an `f` it is an interpolated string.
pub proof fn law_a_string_gives_its_characters_back(s: Text, i: int, q: char, marks: Seq<Mark>)
    requires
        q == '"' || q == '\'',
        forall|k: int| 0 <= k < marks.len() ==> (#[trigger] marks[k]).valid(q),
        at(s, i, seq![q] + marks_written(marks) + seq![q]),
        marks.len() == 0 ==> !char_at(s, i + 2, q),
    ensures
        token(s, i) == Some(
            (
                i + marks_written(marks).len() + 2,
                TokenView::Literal(LiteralView::String(marks_read(marks))),
            ),
        ),
        char_at(s, i - 1, 's') ==> token(s, i - 1) == Some(
            (
                i + marks_written(marks).len() + 2,
                TokenView::Interpolation('s', marks_read(marks)),
            ),
        ),
        char_at(s, i - 1, 'f') ==> token(s, i - 1) == Some(
            (
                i + marks_written(marks).len() + 2,
                TokenView::Interpolation('f', marks_read(marks)),
            ),
        ),
{
    lemma_quoted(s, i, q, marks);
}

proof fn lemma_raw_rest(s: Text, i: int, q: char, text: Text)
    requires
        forall|k: int| 0 <= k < text.len() ==> #[trigger] text[k] != q,
        at(s, i, text),
        char_at(s, i + text.len(), q),
    ensures
        quoted_rest(s, i, q, 1, false) == Some((i + text.len() + 1, text)),
    decreases text.len(),
{
    if text.len() == 0 {
        assert(text =~= Seq::empty());
    } else {
        assert(text =~= seq![text[0]] + text.skip(1));
        lemma_at(s, i, seq![text[0]], text.skip(1));
        lemma_at_char(s, i, text, 0);
        lemma_raw_rest(s, i + 1, q, text.skip(1));
    }
}

/// Behind an `r` all characters are read as they are, backslashes too.
pub proof fn law_a_raw_string_has_no_escapes(s: Text, i: int, q: char, text: Text)
    requires
        q == '"' || q == '\'',
        text.len() > 0,
        forall|k: int| 0 <= k < text.len() ==> #[trigger] text[k] != q,
        at(s, i, seq!['r', q] + text + seq![q]),
    ensures
        token(s, i) == Some(
            (i + text.len() + 3, TokenView::Literal(LiteralView::String(text))),
        ),
{
    assert(seq!['r', q] + text + seq![q] =~= seq!['r', q] + (text + seq![q]));
    lemma_at(s, i, seq!['r', q], text + seq![q]);
    lemma_at_char(s, i, seq!['r', q], 0);
    lemma_at_char(s, i, seq!['r', q], 1);
    lemma_at(s, i + 2, text, seq![q]);
    lemma_at_char(s, i + 2 + text.len(), seq![q], 0);
    lemma_at_char(s, i + 2, text, 0);
    lemma_raw_rest(s, i + 2, q, text);
    assert(!quotes_at(s, i + 1, q, 3));
    assert(quoted_by(s, i + 1, q, 1, false) == Some((i + text.len() + 3, text)));
    assert(quoted_string(s, i, true) is None);
    assert(raw_string(s, i) == Some((i + text.len() + 3, text)));
}

/// Behind three quotes a string goes on up to the next three, whatever fewer quotes stand
/// in it, as long as it does not begin or end with one and holds no backslash.
pub proof fn law_three_quotes_may_hold_quotes(s: Text, i: int, q: char, text: Text)
    requires
        q == '"' || q == '\'',
        text.len() > 0,
        forall|k: int| 0 <= k < text.len() ==> #[trigger] text[k] != '\\',
        forall|k: int|
            0 <= k < text.len() - 2 ==> !(#[trigger] text[k] == q && text[k + 1] == q && text[k
                + 2] == q),
        text[text.len() - 1] != q,
        at(s, i, seq![q, q, q] + text + seq![q, q, q]),
    ensures
        token(s, i) == Some(
            (i + text.len() + 6, TokenView::Literal(LiteralView::String(text))),
        ),
{
    let end = seq![q, q, q];
    assert(end + text + end =~= end + (text + end));
    lemma_at(s, i, end, text + end);
    lemma_at_char(s, i, end, 0);
    lemma_at_char(s, i, end, 1);
    lemma_at_char(s, i, end, 2);
    lemma_at(s, i + 3, text, end);
    lemma_at_char(s, i + 3 + text.len(), end, 0);
    lemma_at_char(s, i + 3 + text.len(), end, 1);
    lemma_at_char(s, i + 3 + text.len(), end, 2);
    assert forall|k: int| 0 <= k < text.len() implies s[i + 3 + k] == #[trigger] text[k] by {
        lemma_at_char(s, i + 3, text, k);
    }
    lemma_three(s, i + 3, q, text, 0);
    assert(text.skip(0) =~= text);
    assert(quoted_by(s, i, q, 3, true) == Some((i + text.len() + 6, text)));
}

proof fn lemma_three(s: Text, i: int, q: char, text: Text, n: int)
    requires
        q == '"' || q == '\'',
        0 <= n <= text.len(),
        0 <= i,
        i + text.len() + 3 <= s.len(),
        forall|k: int| 0 <= k < text.len() ==> s[i + k] == #[trigger] text[k],
        forall|k: int| 0 <= k < text.len() ==> #[trigger] text[k] != '\\',
        forall|k: int|
            0 <= k < text.len() - 2 ==> !(#[trigger] text[k] == q && text[k + 1] == q && text[k
                + 2] == q),
        text.len() > 0,
        text[text.len() - 1] != q,
        quotes_at(s, i + text.len(), q, 3),
    ensures
        quoted_rest(s, i + n, q, 3, true) == Some((i + text.len() + 3, text.skip(n))),
    decreases text.len() - n,
{
    if n < text.len() {
        assert(s[i + n] == text[n]);
        assert(!quotes_at(s, i + n, q, 3)) by {
            if n + 2 < text.len() {
                assert(s[i + (n + 1)] == text[n + 1]);
                assert(s[i + (n + 2)] == text[n + 2]);
            } else if n + 1 < text.len() {
                assert(s[i + (n + 1)] == text[n + 1]);
            }
        }
        lemma_three(s, i, q, text, n + 1);
        assert(text.skip(n) =~= seq![text[n]] + text.skip(n + 1));
    } else {
        assert(text.skip(n) =~= Seq::empty());
    }
}

/// What can follow a word: nothing, a space, a comma, a closing bracket or a line break.
pub open spec fn word_stops(s: Text, j: int) -> bool {
    j == s.len() || char_at(s, j, ' ') || char_at(s, j, ',') || char_at(s, j, ')') || char_at(
        s,
        j,
        ']',
    ) || char_at(s, j, '}') || char_at(s, j, '\n')
}

/// Digits, the first of which is no needless zero, are the integer that they write,
/// underscores aside; one that is too large is a float.
pub proof fn law_digits_are_a_number(s: Text, i: int, w: Text)
    requires
        w.len() > 0,
        at(s, i, w),
        CharClass::Digit.has(w[0]),
        w[0] != '0' || w.len() == 1,
        forall|k: int| 0 < k < w.len() ==> CharClass::GroupedDigit.has(#[trigger] w[k]),
        word_stops(s, i + w.len()),
    ensures
        written_number(w, 10, 0) <= i64::MAX ==> token(s, i) == Some(
            (
                i + w.len(),
                TokenView::Literal(LiteralView::Integer(written_number(w, 10, 0))),
            ),
        ),
        written_number(w, 10, 0) > i64::MAX ==> token(s, i) == Some(
            (
                i + w.len(),
                TokenView::Literal(LiteralView::Float(w.filter(|c: char| c != '_'))),
            ),
        ),
{
    let end = i + w.len();
    lemma_number_chars(s, i, w);
    assert(int_end(s, i) == Some(end));
    lemma_no_unit(s, end);
    lemma_decimal(w);
    lemma_ungrouped(w);
    assert(s.subrange(i, end) == w);
    assert(frac_end(s, end) == end);
    assert(exp_end(s, end) == end);
    assert(number(s, i) is Some);
    assert(value_and_unit(s, i) is None);
    assert(literal(s, i) == number(s, i));
}

proof fn lemma_number_chars(s: Text, i: int, w: Text)
    requires
        w.len() > 0,
        at(s, i, w),
        CharClass::Digit.has(w[0]),
        w[0] != '0' || w.len() == 1,
        forall|k: int| 0 < k < w.len() ==> CharClass::GroupedDigit.has(#[trigger] w[k]),
        !class_at(s, i + w.len(), CharClass::GroupedDigit),
    ensures
        int_end(s, i) == Some(i + w.len()),
        CharClass::Digit.has(s[i]),
        forall|k: int| 0 <= k < w.len() ==> CharClass::GroupedDigit.has(#[trigger] w[k]),
{
    lemma_at_char(s, i, w, 0);
    assert forall|k: int| i + 1 <= k < i + w.len() implies CharClass::GroupedDigit.has(
        #[trigger] s[k],
    ) by {
        lemma_at_char(s, i, w, k - i);
    }
    lemma_run(s, i + 1, i + w.len(), CharClass::GroupedDigit);
}

proof fn lemma_no_unit(s: Text, j: int)
    requires
        0 <= j <= s.len(),
        j < s.len() ==> !('a' <= s[j] <= 'z'),
    ensures
        unit_at(s, j) is None,
{
    reveal_strlit("microseconds");
    reveal_strlit("milliseconds");
    reveal_strlit("seconds");
    reveal_strlit("minutes");
    reveal_strlit("hours");
    reveal_strlit("days");
    reveal_strlit("weeks");
    reveal_strlit("months");
    reveal_strlit("years");
    assert forall|word: Text| word.len() > 0 && 'a' <= word[0] <= 'z' implies !#[trigger] word_at(
        s,
        j,
        word,
    ) by {
        if word_at(s, j, word) {
            assert(s.subrange(j, j + word.len())[0] == s[j]);
        }
    }
}

proof fn lemma_ungrouped(text: Text)
    ensures
        ungrouped(text) == text.filter(|c: char| c != '_'),
    decreases text.len(),
{
    reveal(Seq::filter);
    if text.len() > 0 {
        lemma_ungrouped(text.drop_last());
    } else {
        assert(ungrouped(text) =~= text.filter(|c: char| c != '_'));
    }
}

/// A number with more than an integer in it is a float.
proof fn lemma_float(s: Text, i: int, j: int, end: int)
    requires
        0 <= i < j < end <= s.len(),
        CharClass::Digit.has(s[i]),
        int_end(s, i) == Some(j),
        exp_end(s, frac_end(s, j)) == end,
        unit_at(s, j) is None,
    ensures
        token(s, i) == Some(
            (
                end,
                TokenView::Literal(
                    LiteralView::Float(s.subrange(i, end).filter(|c: char| c != '_')),
                ),
            ),
        ),
{
    lemma_ungrouped(s.subrange(i, end));
    assert(value_and_unit(s, i) is None);
    assert(literal(s, i) == number(s, i));
}

/// Digits with a dot and digits behind it are a float, which keeps what was written but
/// for the underscores.
#[verifier::spinoff_prover]
pub proof fn law_a_fraction_makes_a_float(s: Text, i: int, w: Text, f: Text)
    requires
        w.len() > 0,
        f.len() > 0,
        at(s, i, w + seq!['.'] + f),
        CharClass::Digit.has(w[0]),
        w[0] != '0' || w.len() == 1,
        forall|k: int| 0 < k < w.len() ==> CharClass::GroupedDigit.has(#[trigger] w[k]),
        CharClass::Digit.has(f[0]),
        forall|k: int| 0 < k < f.len() ==> CharClass::GroupedDigit.has(#[trigger] f[k]),
        word_stops(s, i + w.len() + 1 + f.len()),
    ensures
        token(s, i) == Some(
            (
                i + w.len() + 1 + f.len(),
                TokenView::Literal(
                    LiteralView::Float((w + seq!['.'] + f).filter(|c: char| c != '_')),
                ),
            ),
        ),
{
    let all = w + seq!['.'] + f;
    let dot = i + w.len();
    let end = dot + 1 + f.len();
    assert(all =~= w + (seq!['.'] + f));
    lemma_at(s, i, w, seq!['.'] + f);
    lemma_at(s, dot, seq!['.'], f);
    lemma_at_char(s, dot, seq!['.'], 0);
    lemma_number_chars(s, i, w);
    lemma_at_char(s, dot + 1, f, 0);
    assert forall|k: int| dot + 2 <= k < end implies CharClass::GroupedDigit.has(
        #[trigger] s[k],
    ) by {
        lemma_at_char(s, dot + 1, f, k - dot - 1);
    }
    lemma_run(s, dot + 2, end, CharClass::GroupedDigit);
    assert(frac_end(s, dot) == end);
    assert(exp_end(s, end) == end);
    lemma_no_unit(s, dot);
    assert(s.subrange(i, end) =~= all) by {
        assert(all.len() == end - i);
    }
    lemma_float(s, i, dot, end);
}

/// Whether the text is a unit of time.
pub open spec fn is_unit(unit: Text) -> bool {
    ||| unit == "microseconds"@
    ||| unit == "milliseconds"@
    ||| unit == "seconds"@
    ||| unit == "minutes"@
    ||| unit == "hours"@
    ||| unit == "days"@
    ||| unit == "weeks"@
    ||| unit == "months"@
    ||| unit == "years"@
}

/// An integer with a unit of time right behind it is a duration.
pub proof fn law_a_unit_makes_a_duration(s: Text, i: int, w: Text, unit: Text)
    requires
        w.len() > 0,
        at(s, i, w + unit),
        CharClass::Digit.has(w[0]),
        w[0] != '0' || w.len() == 1,
        forall|k: int| 0 < k < w.len() ==> CharClass::GroupedDigit.has(#[trigger] w[k]),
        is_unit(unit),
        word_stops(s, i + w.len() + unit.len()),
        written_number(w, 10, 0) <= i64::MAX,
    ensures
        token(s, i) == Some(
            (
                i + w.len() + unit.len(),
                TokenView::Literal(
                    LiteralView::ValueAndUnit(written_number(w, 10, 0), unit),
                ),
            ),
        ),
{
    let j = i + w.len();
    lemma_at(s, i, w, unit);
    reveal_strlit("microseconds");
    reveal_strlit("milliseconds");
    reveal_strlit("seconds");
    reveal_strlit("minutes");
    reveal_strlit("hours");
    reveal_strlit("days");
    reveal_strlit("weeks");
    reveal_strlit("months");
    reveal_strlit("years");
    lemma_at_char(s, j, unit, 0);
    lemma_at_char(s, j, unit, 1);
    lemma_at_char(s, j, unit, 2);
    lemma_number_chars(s, i, w);
    lemma_decimal(w);
    assert(word_at(s, j, unit));
    lemma_other_words(s, j, unit);
    assert(unit_at(s, j) == Some(unit));
    assert(value_and_unit(s, i) is Some);
    assert(literal(s, i) == value_and_unit(s, i));
}

/// Of the units only one can stand at a place.
proof fn lemma_other_words(s: Text, j: int, unit: Text)
    requires
        at(s, j, unit),
        unit.len() >= 3,
    ensures
        forall|word: Text|
            #[trigger] word_at(s, j, word) && word.len() >= 3 ==> word[0] == unit[0] && word[1]
                == unit[1] && word[2] == unit[2],
{
    lemma_at_char(s, j, unit, 0);
    lemma_at_char(s, j, unit, 1);
    lemma_at_char(s, j, unit, 2);
    assert forall|word: Text| #[trigger]
        word_at(s, j, word) && word.len() >= 3 implies word[0] == unit[0] && word[1] == unit[1]
        && word[2] == unit[2] by {
        let sub = s.subrange(j, j + word.len());
        assert(sub[0] == s[j] && sub[1] == s[j + 1] && sub[2] == s[j + 2]);
    }
}

/// Whether the word means something other than a name.
pub open spec fn is_reserved(w: Text) -> bool {
    w == "true"@ || w == "false"@ || w == "null"@ || is_keyword(w)
}

pub open spec fn is_keyword(w: Text) -> bool {
    w == "let"@ || w == "into"@ || w == "case"@ || w == "prql"@ || w == "func"@
}

/// What a plain word is made of.
pub open spec fn is_word_char(c: char) -> bool {
    'a' <= c <= 'z' || 'A' <= c <= 'Z' || '0' <= c <= '9' || c == '_'
}

proof fn lemma_whole_word(s: Text, i: int, w: Text, word: Text)
    requires
        at(s, i, w),
        forall|k: int| 0 <= k < w.len() ==> is_word_char(#[trigger] w[k]),
        forall|k: int| 0 <= k < word.len() ==> is_word_char(#[trigger] word[k]),
        word_stops(s, i + w.len()),
    ensures
        word_at(s, i, word) && word_ends(s, i + word.len()) <==> word == w,
{
    if word_at(s, i, word) && word_ends(s, i + word.len()) {
        if word.len() < w.len() {
            lemma_at_char(s, i, w, word.len() as int);
            assert(is_word_char(w[word.len() as int]));
        } else if word.len() > w.len() {
            assert(s.subrange(i, i + word.len())[w.len() as int] == s[i + w.len()]);
            assert(is_word_char(word[w.len() as int]));
        } else {
            assert(word =~= w);
        }
    }
}

/// A word of letters, digits and underscores is a keyword, a constant or a name: it is
/// taken as a whole.
pub proof fn law_a_word_is_taken_as_a_whole(s: Text, i: int, w: Text)
    requires
        w.len() > 0,
        at(s, i, w),
        forall|k: int| 0 <= k < w.len() ==> is_word_char(#[trigger] w[k]),
        !CharClass::Digit.has(w[0]),
        word_stops(s, i + w.len()),
    ensures
        is_keyword(w) ==> token(s, i) == Some((i + w.len(), TokenView::Keyword(w))),
        w == "true"@ ==> token(s, i) == Some(
            (i + w.len(), TokenView::Literal(LiteralView::Boolean(true))),
        ),
        w == "false"@ ==> token(s, i) == Some(
            (i + w.len(), TokenView::Literal(LiteralView::Boolean(false))),
        ),
        w == "null"@ ==> token(s, i) == Some(
            (i + w.len(), TokenView::Literal(LiteralView::Null)),
        ),
        !is_reserved(w) ==> token(s, i) == Some((i + w.len(), TokenView::Ident(w))),
{
    let end = i + w.len();
    reveal_strlit("true");
    reveal_strlit("false");
    reveal_strlit("null");
    reveal_strlit("let");
    reveal_strlit("into");
    reveal_strlit("case");
    reveal_strlit("prql");
    reveal_strlit("func");
    lemma_at_char(s, i, w, 0);
    assert(is_word_char(w[0]));
    if w.len() > 1 {
        lemma_at_char(s, i, w, 1);
        assert(is_word_char(w[1]));
    }
    lemma_whole_word(s, i, w, "true"@);
    lemma_whole_word(s, i, w, "false"@);
    lemma_whole_word(s, i, w, "null"@);
    lemma_whole_word(s, i, w, "let"@);
    lemma_whole_word(s, i, w, "into"@);
    lemma_whole_word(s, i, w, "case"@);
    lemma_whole_word(s, i, w, "prql"@);
    lemma_whole_word(s, i, w, "func"@);
    assert forall|k: int| i + 1 <= k < end implies CharClass::NameRest.has(#[trigger] s[k]) by {
        lemma_at_char(s, i, w, k - i);
        assert(is_word_char(w[k - i]));
    }
    lemma_run(s, i + 1, end, CharClass::NameRest);
    assert(quoted_string(s, i, true) is None);
    assert(quoted_string(s, i + 1, true) is None);
    assert(quoted_string(s, i + 1, false) is None);
    assert(interpolation(s, i) is None);
    assert(number(s, i) is None);
    assert(value_and_unit(s, i) is None);
    assert(datetime(s, i) is None);
    assert(s.subrange(i, end) == w);
    assert(name(s, i) == Some((end, w)));
    assert(w == "true"@ ==> w.len() == 4 && w[0] == 't');
    assert(w == "false"@ ==> w.len() == 5 && w[0] == 'f' && w[1] == 'a');
    assert(w == "null"@ ==> w[0] == 'n');
    assert(is_keyword(w) ==> w[0] == 'l' || w[0] == 'i' || w[0] == 'c' || w[0] == 'p' || (w[0]
        == 'f' && w[1] == 'u'));
}

/// Any text between backticks is a name, wherever it stands.
pub proof fn law_backticks_quote_a_name(s: Text, i: int, text: Text)
    requires
        forall|k: int| 0 <= k < text.len() ==> #[trigger] text[k] != '`',
        at(s, i, seq!['`'] + text + seq!['`']),
    ensures
        token(s, i) == Some((i + text.len() + 2, TokenView::Ident(text))),
{
    let w = seq!['`'] + text + seq!['`'];
    let close = i + 1 + text.len();
    lemma_at_char(s, i, w, 0);
    lemma_at_char(s, i, w, w.len() - 1);
    assert forall|k: int| i + 1 <= k < close implies CharClass::Backticked.has(
        #[trigger] s[k],
    ) by {
        lemma_at_char(s, i, w, k - i);
        assert(w[k - i] == text[k - i - 1]);
    }
    lemma_run(s, i + 1, close, CharClass::Backticked);
    assert(s.subrange(i + 1, close) =~= text) by {
        assert forall|k: int| 0 <= k < text.len() implies s[i + 1 + k] == #[trigger] text[k] by {
            lemma_at_char(s, i, w, k + 1);
        }
    }
    assert(name(s, i) == Some((close + 1, text)));
    crate::laws::tokens::lemma_no_word_at(s, i);
    assert(literal(s, i) is None);
    assert(symbol(s, i) is None);
}

/// A dollar sign and the word behind it are a parameter of that name.
pub proof fn law_a_dollar_sign_makes_a_parameter(s: Text, i: int, w: Text)
    requires
        at(s, i, seq!['$'] + w),
        forall|k: int| 0 <= k < w.len() ==> is_word_char_or_dot(#[trigger] w[k]),
        word_stops(s, i + 1 + w.len()),
    ensures
        token(s, i) == Some((i + 1 + w.len(), TokenView::Param(w))),
{
    let all = seq!['$'] + w;
    let end = i + 1 + w.len();
    lemma_at(s, i, seq!['$'], w);
    lemma_at_char(s, i, seq!['$'], 0);
    assert forall|k: int| i + 1 <= k < end implies CharClass::ParamName.has(#[trigger] s[k]) by {
        lemma_at_char(s, i + 1, w, k - i - 1);
        assert(is_word_char_or_dot(w[k - i - 1]));
    }
    lemma_run(s, i + 1, end, CharClass::ParamName);
}

/// What the name of a parameter is made of.
pub open spec fn is_word_char_or_dot(c: char) -> bool {
    'a' <= c <= 'z' || 'A' <= c <= 'Z' || '0' <= c <= '9' || c == '_' || c == '.'
}

/// Digits in the shape of a date.
pub open spec fn is_date(w: Text) -> bool {
    &&& w.len() == 10
    &&& w[4] == '-'
    &&& w[7] == '-'
    &&& forall|k: int| 0 <= k < 10 && k != 4 && k != 7 ==> is_digit(#[trigger] w[k])
}

/// Digits in the shape of a time: hours and minutes, and seconds if there is more.
pub open spec fn is_time(w: Text) -> bool {
    &&& w.len() == 5 || w.len() == 8
    &&& w[2] == ':'
    &&& w.len() == 8 ==> w[5] == ':'
    &&& forall|k: int| 0 <= k < w.len() && k != 2 && k != 5 ==> is_digit(#[trigger] w[k])
}

proof fn lemma_date(s: Text, i: int, w: Text)
    requires
        is_date(w),
        at(s, i, w),
    ensures
        date_end(s, i) == Some(i + 10),
{
    assert forall|k: int| 0 <= k < 10 implies s[i + k] == #[trigger] w[k] by {
        lemma_at_char(s, i, w, k);
    }
    assert(s[i + 4] == w[4] && s[i + 7] == w[7]);
    assert forall|k: int| i <= k < i + 10 && k != i + 4 && k != i + 7 implies is_digit(
        #[trigger] s[k],
    ) by {
        assert(s[i + (k - i)] == w[k - i]);
    }
}

proof fn lemma_time(s: Text, i: int, w: Text)
    requires
        is_time(w),
        at(s, i, w),
        word_stops(s, i + w.len()),
    ensures
        time(s, i) == Some((i + w.len(), w)),
{
    assert forall|k: int| 0 <= k < w.len() implies s[i + k] == #[trigger] w[k] by {
        lemma_at_char(s, i, w, k);
    }
    assert(s[i + 2] == w[2]);
    assert forall|k: int| i <= k < i + w.len() && k != i + 2 && k != i + 5 implies is_digit(
        #[trigger] s[k],
    ) by {
        assert(s[i + (k - i)] == w[k - i]);
    }
    let end = i + w.len();
    assert(sixtieths_end(s, i + 2) == i + 5);
    if w.len() == 8 {
        assert(s[i + 5] == w[5]);
    }
    assert(sixtieths_end(s, i + 5) == end);
    assert(fraction_end(s, end) == end);
    assert(zone(s, end).0 == end);
    assert(s.subrange(i, end) + zone(s, end).1 =~= w);
}

/// Behind an `@` digits in the shape of a date, of a time or of both are just that.
pub proof fn law_an_at_sign_makes_a_date(s: Text, i: int, d: Text, c: Text)
    requires
        is_date(d),
        is_time(c),
    ensures
        at(s, i, seq!['@'] + d) && word_stops(s, i + 11) ==> token(s, i) == Some(
            (i + 11, TokenView::Literal(LiteralView::Date(d))),
        ),
        at(s, i, seq!['@'] + c) && word_stops(s, i + 1 + c.len()) ==> token(s, i) == Some(
            (i + 1 + c.len(), TokenView::Literal(LiteralView::Time(c))),
        ),
        at(s, i, seq!['@'] + (d + (seq!['T'] + c))) && word_stops(s, i + 12 + c.len()) ==> token(
            s,
            i,
        ) == Some(
            (
                i + 12 + c.len(),
                TokenView::Literal(LiteralView::Timestamp(d + (seq!['T'] + c))),
            ),
        ),
{
    assert(is_digit(d[0]));
    assert(is_digit(c[0]));
    assert(is_digit(c[1]));
    if at(s, i, seq!['@'] + d) && word_stops(s, i + 11) {
        lemma_at(s, i, seq!['@'], d);
        lemma_at_char(s, i, seq!['@'], 0);
        lemma_at_char(s, i + 1, d, 0);
        lemma_date(s, i + 1, d);
        lemma_not_a_word(s, i);
        assert(s.subrange(i + 1, i + 11) == d);
        assert(datetime(s, i) is Some);
    }
    if at(s, i, seq!['@'] + c) && word_stops(s, i + 1 + c.len()) {
        lemma_at(s, i, seq!['@'], c);
        lemma_at_char(s, i, seq!['@'], 0);
        lemma_at_char(s, i + 1, c, 0);
        lemma_at_char(s, i + 1, c, 2);
        lemma_time(s, i + 1, c);
        lemma_not_a_word(s, i);
        assert(date_end(s, i + 1) is None) by {
            assert(!is_digit(s[i + 1 + 2]));
        }
        assert(datetime(s, i) is Some);
    }
    let all = d + (seq!['T'] + c);
    if at(s, i, seq!['@'] + all) && word_stops(s, i + 12 + c.len()) {
        lemma_at(s, i, seq!['@'], all);
        lemma_at_char(s, i, seq!['@'], 0);
        lemma_at(s, i + 1, d, seq!['T'] + c);
        lemma_at(s, i + 11, seq!['T'], c);
        lemma_at_char(s, i + 11, seq!['T'], 0);
        lemma_at_char(s, i + 1, d, 0);
        lemma_date(s, i + 1, d);
        lemma_time(s, i + 12, c);
        lemma_not_a_word(s, i);
        assert(s.subrange(i + 1, i + 12) + c =~= all) by {
            assert forall|k: int| 0 <= k < 11 implies s[i + 1 + k] == #[trigger] all[k] by {
                lemma_at_char(s, i + 1, all, k);
            }
        }
        assert(datetime(s, i) is Some);
    }
}

/// Only a date or a time begins with an `@` and a digit.
proof fn lemma_not_a_word(s: Text, i: int)
    requires
        char_at(s, i, '@'),
        class_at(s, i + 1, CharClass::Digit),
    ensures
        literal(s, i) == datetime(s, i),
        symbol(s, i) is None,
        interpolation(s, i) is None,
        datetime(s, i) matches Some((end, l)) ==> token(s, i) == Some(
            (end, TokenView::Literal(l)),
        ),
{
    crate::laws::tokens::lemma_no_word_at(s, i);
}

/// Digits with an exponent behind them are a float, which keeps what was written but for
/// the underscores.
#[verifier::spinoff_prover]
pub proof fn law_an_exponent_makes_a_float(s: Text, i: int, w: Text, e: Text, d: Text)
    requires
        w.len() > 0,
        d.len() > 0,
        e == seq!['e'] || e == seq!['E'] || e == seq!['e', '-'] || e == seq!['e', '+'] || e
            == seq!['E', '-'] || e == seq!['E', '+'],
        at(s, i, w + e + d),
        CharClass::Digit.has(w[0]),
        w[0] != '0' || w.len() == 1,
        forall|k: int| 0 < k < w.len() ==> CharClass::GroupedDigit.has(#[trigger] w[k]),
        forall|k: int| 0 <= k < d.len() ==> CharClass::Digit.has(#[trigger] d[k]),
        word_stops(s, i + w.len() + e.len() + d.len()),
    ensures
        token(s, i) == Some(
            (
                i + w.len() + e.len() + d.len(),
                TokenView::Literal(
                    LiteralView::Float((w + e + d).filter(|c: char| c != '_')),
                ),
            ),
        ),
{
    let all = w + e + d;
    let j = i + w.len();
    let k = j + e.len();
    let end = k + d.len();
    assert(all =~= w + (e + d));
    lemma_at(s, i, w, e + d);
    lemma_at(s, j, e, d);
    lemma_at_char(s, j, e, 0);
    lemma_at_char(s, j, e, e.len() - 1);
    lemma_at_char(s, k, d, 0);
    assert(CharClass::Digit.has(d[0]));
    lemma_number_chars(s, i, w);
    assert forall|m: int| k <= m < end implies CharClass::Digit.has(#[trigger] s[m]) by {
        lemma_at_char(s, k, d, m - k);
    }
    lemma_run(s, k, end, CharClass::Digit);
    assert(frac_end(s, j) == j);
    assert(exp_end(s, j) == end);
    lemma_no_unit_with(s, j);
    assert(s.subrange(i, end) =~= all) by {
        assert(all.len() == end - i);
    }
    lemma_float(s, i, j, end);
}

/// No unit of time begins with an `e`.
proof fn lemma_no_unit_with(s: Text, j: int)
    requires
        0 <= j < s.len(),
        s[j] == 'e' || s[j] == 'E',
    ensures
        unit_at(s, j) is None,
{
    reveal_strlit("microseconds");
    reveal_strlit("milliseconds");
    reveal_strlit("seconds");
    reveal_strlit("minutes");
    reveal_strlit("hours");
    reveal_strlit("days");
    reveal_strlit("weeks");
    reveal_strlit("months");
    reveal_strlit("years");
    assert forall|word: Text| word.len() > 0 && word[0] != s[j] implies !#[trigger] word_at(
        s,
        j,
        word,
    ) by {
        if word_at(s, j, word) {
            assert(s.subrange(j, j + word.len())[0] == s[j]);
        }
    }
}

/// Whether the word begins with one that means something.
pub open spec fn begins_with(w: Text, word: Text) -> bool {
    word.len() <= w.len() && w.take(word.len() as int) == word
}

/// A name may hold letters of any script. As long as it does not begin with a word that
/// means something, it is taken as a whole.
pub proof fn law_a_name_may_hold_any_letters(s: Text, i: int, w: Text)
    requires
        w.len() > 0,
        at(s, i, w),
        CharClass::NameStart.has(w[0]),
        !is_line_end(w[0]),
        forall|k: int| 0 < k < w.len() ==> CharClass::NameRest.has(#[trigger] w[k]),
        !class_at(s, i + w.len(), CharClass::NameRest),
        w.len() == 1 ==> !char_at(s, i + 1, '"') && !char_at(s, i + 1, '\''),
        !begins_with(w, "true"@),
        !begins_with(w, "false"@),
        !begins_with(w, "null"@),
        !begins_with(w, "let"@),
        !begins_with(w, "into"@),
        !begins_with(w, "case"@),
        !begins_with(w, "prql"@),
        !begins_with(w, "func"@),
    ensures
        token(s, i) == Some((i + w.len(), TokenView::Ident(w))),
{
    let end = i + w.len();
    reveal_strlit("true");
    reveal_strlit("false");
    reveal_strlit("null");
    reveal_strlit("let");
    reveal_strlit("into");
    reveal_strlit("case");
    reveal_strlit("prql");
    reveal_strlit("func");
    lemma_at_char(s, i, w, 0);
    if w.len() > 1 {
        lemma_at_char(s, i, w, 1);
        assert(CharClass::NameRest.has(w[1]));
    }
    assert forall|k: int| i + 1 <= k < end implies CharClass::NameRest.has(#[trigger] s[k]) by {
        lemma_at_char(s, i, w, k - i);
    }
    lemma_run(s, i + 1, end, CharClass::NameRest);
    lemma_no_prefix(s, i, w, "true"@);
    lemma_no_prefix(s, i, w, "false"@);
    lemma_no_prefix(s, i, w, "null"@);
    lemma_no_prefix(s, i, w, "let"@);
    lemma_no_prefix(s, i, w, "into"@);
    lemma_no_prefix(s, i, w, "case"@);
    lemma_no_prefix(s, i, w, "prql"@);
    lemma_no_prefix(s, i, w, "func"@);
    assert(quoted_string(s, i, true) is None);
    assert(quoted_string(s, i + 1, true) is None);
    assert(quoted_string(s, i + 1, false) is None);
    assert(interpolation(s, i) is None);
    assert(number(s, i) is None);
    assert(value_and_unit(s, i) is None);
    assert(datetime(s, i) is None);
    assert(literal(s, i) is None);
    assert(keyword_at(s, i) is None);
    assert(s.subrange(i, end) == w);
    assert(name(s, i) == Some((end, w)));
    assert(symbol(s, i) is None);
}

proof fn lemma_no_prefix(s: Text, i: int, w: Text, word: Text)
    requires
        at(s, i, w),
        !begins_with(w, word),
        !class_at(s, i + w.len(), CharClass::NameRest),
        forall|k: int| 0 <= k < word.len() ==> CharClass::NameRest.has(#[trigger] word[k]),
    ensures
        !word_at(s, i, word),
{
    if word_at(s, i, word) {
        if word.len() <= w.len() {
            assert(w.take(word.len() as int) =~= word) by {
                assert forall|k: int| 0 <= k < word.len() implies w[k] == #[trigger] word[k] by {
                    lemma_at_char(s, i, w, k);
                    assert(s.subrange(i, i + word.len())[k] == s[i + k]);
                }
            }
        } else {
            let k = w.len() as int;
            assert(s.subrange(i, i + word.len())[k] == s[i + k]);
            assert(CharClass::NameRest.has(word[k]));
        }
    }
}

/// The place of a clock in a zone: `Z`, or an offset with or without a colon.
pub open spec fn is_zone(z: Text) -> bool {
    ||| z == seq!['Z']
    ||| (z.len() == 5 || (z.len() == 6 && z[3] == ':')) && (z[0] == '+' || z[0] == '-') && (forall|
        k: int,
    |
        0 < k < z.len() && !(z.len() == 6 && k == 3) ==> is_digit(#[trigger] z[k]))
}

/// A zone without the colon in its offset.
pub open spec fn zone_read(z: Text) -> Text {
    if z.len() == 6 {
        seq![z[0], z[1], z[2], z[4], z[5]]
    } else {
        z
    }
}

proof fn lemma_zone(s: Text, i: int, z: Text)
    requires
        is_zone(z),
        at(s, i, z),
    ensures
        zone(s, i) == (i + z.len(), zone_read(z)),
{
    assert forall|k: int| 0 <= k < z.len() implies s[i + k] == #[trigger] z[k] by {
        lemma_at_char(s, i, z, k);
    }
    assert(s[i + 0] == z[0]);
    if z != seq!['Z'] {
        assert(s[i + 1] == z[1] && s[i + 2] == z[2] && s[i + 3] == z[3] && s[i + 4] == z[4]);
        assert(is_digit(z[1]) && is_digit(z[2]) && is_digit(z[4]));
        if z.len() == 6 {
            assert(s[i + 5] == z[5]);
            assert(is_digit(z[5]));
        } else {
            assert(is_digit(z[3]));
        }
        assert(zone(s, i).1 =~= zone_read(z));
    } else {
        assert(z.len() == 1);
    }
}

/// The end of a time: up to six digits of a second behind a dot.
pub open spec fn is_fraction(f: Text) -> bool {
    &&& 2 <= f.len() <= 7
    &&& f[0] == '.'
    &&& forall|k: int| 0 < k < f.len() ==> is_digit(#[trigger] f[k])
}

proof fn lemma_clock(s: Text, j: int, c: Text, f: Text, z: Text)
    requires
        is_time(c),
        f.len() == 0 || (is_fraction(f) && c.len() == 8),
        z.len() == 0 || is_zone(z),
        at(s, j, c + (f + z)),
        word_stops(s, j + c.len() + f.len() + z.len()),
    ensures
        time(s, j) == Some((j + c.len() + f.len() + z.len(), c + f + zone_read(z))),
        is_digit(s[j]),
        s[j + 2] == ':',
{
    let k = j + c.len();
    let m = k + f.len();
    let end = m + z.len();
    lemma_at(s, j, c, f + z);
    lemma_at(s, k, f, z);
    if z.len() > 0 {
        lemma_zone(s, m, z);
        lemma_at_char(s, m, z, 0);
    } else {
        assert(zone(s, m).1 =~= zone_read(z));
    }
    assert forall|n: int| 0 <= n < c.len() implies s[j + n] == #[trigger] c[n] by {
        lemma_at_char(s, j, c, n);
    }
    assert(s[j + 2] == c[2]);
    assert forall|n: int| j <= n < k && n != j + 2 && n != j + 5 implies is_digit(
        #[trigger] s[n],
    ) by {
        assert(s[j + (n - j)] == c[n - j]);
    }
    assert(is_digit(c[0]));
    assert(s[j + 0] == c[0]);
    assert(sixtieths_end(s, j + 2) == j + 5);
    if c.len() == 8 {
        assert(s[j + 5] == c[5]);
    } else {
        assert(!char_at(s, j + 5, ':'));
    }
    assert(sixtieths_end(s, j + 5) == k);
    if f.len() > 0 {
        lemma_at_char(s, k, f, 0);
        assert forall|n: int| k + 1 <= n < m implies CharClass::Digit.has(#[trigger] s[n]) by {
            lemma_at_char(s, k, f, n - k);
        }
        lemma_run(s, k + 1, m, CharClass::Digit);
    }
    assert(fraction_end(s, k) == m);
    assert(s.subrange(j, m) =~= c + f) by {
        assert forall|n: int| 0 <= n < f.len() implies s[k + n] == #[trigger] f[n] by {
            lemma_at_char(s, k, f, n);
        }
    }
    assert(zone(s, m) == (end, zone_read(z)));
    assert(time(s, j) == Some((end, c + f + zone_read(z))));
}

/// Behind hours, minutes and seconds a time may have a fraction of a second and a zone, and
/// so may the time behind a date. It keeps all of that, but for the colon of the offset.
pub proof fn law_a_time_may_have_a_fraction_and_a_zone(
    s: Text,
    i: int,
    d: Text,
    c: Text,
    f: Text,
    z: Text,
)
    requires
        is_date(d),
        is_time(c),
        f.len() == 0 || (is_fraction(f) && c.len() == 8),
        z.len() == 0 || is_zone(z),
    ensures
        at(s, i, seq!['@'] + (c + (f + z))) && word_stops(
            s,
            i + 1 + c.len() + f.len() + z.len(),
        ) ==> token(s, i) == Some(
            (
                i + 1 + c.len() + f.len() + z.len(),
                TokenView::Literal(LiteralView::Time(c + f + zone_read(z))),
            ),
        ),
        at(s, i, seq!['@'] + (d + (seq!['T'] + (c + (f + z))))) && word_stops(
            s,
            i + 12 + c.len() + f.len() + z.len(),
        ) ==> token(s, i) == Some(
            (
                i + 12 + c.len() + f.len() + z.len(),
                TokenView::Literal(
                    LiteralView::Timestamp(d + seq!['T'] + (c + f + zone_read(z))),
                ),
            ),
        ),
{
    let clock = c + (f + z);
    if at(s, i, seq!['@'] + clock) && word_stops(s, i + 1 + c.len() + f.len() + z.len()) {
        lemma_at(s, i, seq!['@'], clock);
        lemma_at_char(s, i, seq!['@'], 0);
        lemma_clock(s, i + 1, c, f, z);
        lemma_not_a_word(s, i);
        assert(date_end(s, i + 1) is None) by {
            assert(!is_digit(s[i + 1 + 2]));
        }
    }
    let all = d + (seq!['T'] + clock);
    if at(s, i, seq!['@'] + all) && word_stops(s, i + 12 + c.len() + f.len() + z.len()) {
        lemma_at(s, i, seq!['@'], all);
        lemma_at_char(s, i, seq!['@'], 0);
        lemma_at(s, i + 1, d, seq!['T'] + clock);
        lemma_at(s, i + 11, seq!['T'], clock);
        lemma_at_char(s, i + 11, seq!['T'], 0);
        lemma_at_char(s, i + 1, d, 0);
        assert(is_digit(d[0]));
        lemma_date(s, i + 1, d);
        lemma_clock(s, i + 12, c, f, z);
        lemma_not_a_word(s, i);
        assert(s.subrange(i + 1, i + 12) =~= d + seq!['T']) by {
            assert forall|k: int| 0 <= k < 10 implies s[i + 1 + k] == #[trigger] d[k] by {
                lemma_at_char(s, i + 1, d, k);
            }
        }
    }
}

/// Digits with both a fraction and an exponent behind them are a float too.
#[verifier::spinoff_prover]
pub proof fn law_a_fraction_may_have_an_exponent(
    s: Text,
    i: int,
    w: Text,
    f: Text,
    e: Text,
    d: Text,
)
    requires
        w.len() > 0,
        f.len() > 0,
        d.len() > 0,
        e == seq!['e'] || e == seq!['E'] || e == seq!['e', '-'] || e == seq!['e', '+'] || e
            == seq!['E', '-'] || e == seq!['E', '+'],
        at(s, i, w + (seq!['.'] + (f + (e + d)))),
        CharClass::Digit.has(w[0]),
        w[0] != '0' || w.len() == 1,
        forall|k: int| 0 < k < w.len() ==> CharClass::GroupedDigit.has(#[trigger] w[k]),
        CharClass::Digit.has(f[0]),
        forall|k: int| 0 < k < f.len() ==> CharClass::GroupedDigit.has(#[trigger] f[k]),
        forall|k: int| 0 <= k < d.len() ==> CharClass::Digit.has(#[trigger] d[k]),
        word_stops(s, i + w.len() + 1 + f.len() + e.len() + d.len()),
    ensures
        ({
            let all = w + (seq!['.'] + (f + (e + d)));
            token(s, i) == Some(
                (
                    i + all.len(),
                    TokenView::Literal(LiteralView::Float(all.filter(|c: char| c != '_'))),
                ),
            )
        }),
{
    let all = w + (seq!['.'] + (f + (e + d)));
    let dot = i + w.len();
    let j = dot + 1 + f.len();
    let k = j + e.len();
    let end = k + d.len();
    lemma_at(s, i, w, seq!['.'] + (f + (e + d)));
    lemma_at(s, dot, seq!['.'], f + (e + d));
    lemma_at_char(s, dot, seq!['.'], 0);
    lemma_at(s, dot + 1, f, e + d);
    lemma_at(s, j, e, d);
    lemma_number_chars(s, i, w);
    lemma_at_char(s, dot + 1, f, 0);
    lemma_at_char(s, j, e, 0);
    lemma_at_char(s, j, e, e.len() - 1);
    lemma_at_char(s, k, d, 0);
    assert(CharClass::Digit.has(d[0]));
    assert forall|m: int| dot + 2 <= m < j implies CharClass::GroupedDigit.has(#[trigger] s[m]) by {
        lemma_at_char(s, dot + 1, f, m - dot - 1);
    }
    lemma_run(s, dot + 2, j, CharClass::GroupedDigit);
    assert forall|m: int| k <= m < end implies CharClass::Digit.has(#[trigger] s[m]) by {
        lemma_at_char(s, k, d, m - k);
    }
    lemma_run(s, k, end, CharClass::Digit);
    assert(frac_end(s, dot) == j);
    assert(exp_end(s, j) == end);
    lemma_no_unit(s, dot);
    assert(all.len() == end - i);
    assert(s.subrange(i, end) == all);
    lemma_float(s, i, dot, end);
}

/// Where no token begins any more, the lexer gives up, with one error for where it stands.
pub proof fn law_the_lexer_gives_up_where_nothing_begins(s: Text, i: int)
    requires
        0 <= i < s.len(),
        !class_at(s, i, CharClass::Blank),
        s[i] != '#',
        s[i] != '.',
        forall|k: int| i <= k < s.len() ==> #[trigger] token(s, k) is None,
    ensures
        lexed_from(s, i).tokens is None,
        lexed_from(s, i).errors == seq![i],
{
    assert(run_end(s, i, CharClass::Blank) == i);
    assert(ignored_end(s, i) == i);
    assert(token(s, i) is None);
    lemma_no_next(s, i + 1);
}

proof fn lemma_no_next(s: Text, i: int)
    requires
        forall|k: int| i <= k < s.len() ==> #[trigger] token(s, k) is None,
    ensures
        next_token_start(s, i) is None,
    decreases s.len() - i,
{
    if i < s.len() {
        assert(token(s, i) is None);
        lemma_no_next(s, i + 1);
    }
}

} // verus!
