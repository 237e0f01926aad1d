//! Quoted strings: `"…"`, `'…'` and the same with three quotes on each side.
use vstd::prelude::*;

use crate::ast::Text;
use super::chars::{
    char_at, class_at, find_run_end, is_char_at, is_class_at, lemma_run_end, run_end, CharClass,
};

verus! {

/// The value of a hexadecimal digit.
pub open spec fn hex_digit_value(c: char) -> int {
    if '0' <= c <= '9' {
        c as int - '0' as int
    } else if 'a' <= c <= 'f' {
        c as int - 'a' as int + 10
    } else {
        c as int - 'A' as int + 10
    }
}

/// The number that hexadecimal digits write.
pub open spec fn hex_value(digits: Text) -> int
    decreases digits.len(),
{
    if digits.len() == 0 {
        0
    } else {
        16 * hex_value(digits.drop_last()) + hex_digit_value(digits.last())
    }
}

/// The character with the code point that the hexadecimal digits write.
pub open spec fn code_point(digits: Text) -> Option<char> {
    let n = hex_value(digits);
    if n <= 0xD7FF || 0xE000 <= n <= 0x10FFFF {
        Some(n as char)
    } else {
        None
    }
}

/// What the escape sequence that begins with the backslash at `i` stands for, and
/// where it ends.
pub open spec fn escape(s: Text, i: int) -> Option<(int, char)> {
    if i + 1 >= s.len() {
        None
    } else if s[i + 1] == '\\' || s[i + 1] == '/' || s[i + 1] == '"' || s[i + 1] == '\'' {
        Some((i + 2, s[i + 1]))
    } else if s[i + 1] == 'b' {
        Some((i + 2, '\x08'))
    } else if s[i + 1] == 'f' {
        Some((i + 2, '\x0C'))
    } else if s[i + 1] == 'n' {
        Some((i + 2, '\n'))
    } else if s[i + 1] == 'r' {
        Some((i + 2, '\r'))
    } else if s[i + 1] == 't' {
        Some((i + 2, '\t'))
    } else if s[i + 1] == 'x' && class_at(s, i + 2, CharClass::HexDigit) && class_at(
        s,
        i + 3,
        CharClass::HexDigit,
    ) {
        match code_point(s.subrange(i + 2, i + 4)) {
            Some(c) => Some((i + 4, c)),
            None => None,
        }
    } else if s[i + 1] == 'u' && char_at(s, i + 2, '{') {
        let end = run_end(s, i + 3, CharClass::HexDigit);
        if i + 4 <= end <= i + 9 && char_at(s, end, '}') {
            match code_point(s.subrange(i + 3, end)) {
                Some(c) => Some((end + 1, c)),
                None => None,
            }
        } else {
            None
        }
    } else {
        None
    }
}

/// Whether `n` times the quote `q` stand at `i`.
pub open spec fn quotes_at(s: Text, i: int, q: char, n: int) -> bool {
    &&& char_at(s, i, q)
    &&& n == 3 ==> char_at(s, i + 1, q) && char_at(s, i + 2, q)
}

/// The character that a string goes on with at `i`, and where the next begins.
pub open spec fn quoted_char(s: Text, i: int, escaped: bool) -> Option<(int, char)> {
    if i >= s.len() {
        None
    } else if escaped && s[i] == '\\' {
        escape(s, i)
    } else {
        Some((i + 1, s[i]))
    }
}

/// What stands from `i` up to the closing quotes, and where those end.
pub open spec fn quoted_rest(s: Text, i: int, q: char, n: int, escaped: bool) -> Option<
    (int, Text),
>
    decreases s.len() - i,
{
    if quotes_at(s, i, q, n) {
        Some((i + n, Seq::empty()))
    } else {
        match quoted_char(s, i, escaped) {
            Some((next, c)) => if i < next <= s.len() {
                match quoted_rest(s, next, q, n, escaped) {
                    Some((end, rest)) => Some((end, seq![c] + rest)),
                    None => None,
                }
            } else {
                None
            },
            None => None,
        }
    }
}

/// The string between `n` quotes `q` that begins at `i`.
pub open spec fn quoted_by(s: Text, i: int, q: char, n: int, escaped: bool) -> Option<(int, Text)> {
    if quotes_at(s, i, q, n) {
        quoted_rest(s, i + n, q, n, escaped)
    } else {
        None
    }
}

/// The quoted string that begins at `i`: what it holds, and where it ends. Three
/// quotes count as such before one does.
pub open spec fn quoted_string(s: Text, i: int, escaped: bool) -> Option<(int, Text)> {
    if quoted_by(s, i, '"', 3, escaped) is Some {
        quoted_by(s, i, '"', 3, escaped)
    } else if quoted_by(s, i, '"', 1, escaped) is Some {
        quoted_by(s, i, '"', 1, escaped)
    } else if quoted_by(s, i, '\'', 3, escaped) is Some {
        quoted_by(s, i, '\'', 3, escaped)
    } else {
        quoted_by(s, i, '\'', 1, escaped)
    }
}

fn read_hex_digit(c: char) -> (n: u32)
    requires
        CharClass::HexDigit.has(c),
    ensures
        n == hex_digit_value(c),
        n < 16,
{
    if '0' <= c && c <= '9' {
        c as u32 - '0' as u32
    } else if 'a' <= c && c <= 'f' {
        c as u32 - 'a' as u32 + 10
    } else {
        c as u32 - 'A' as u32 + 10
    }
}

/// The character that the hexadecimal digits from `i` up to `j` stand for.
fn read_code_point(s: &Vec<char>, i: usize, j: usize) -> (c: Option<char>)
    requires
        i <= j <= s.len(),
        j - i <= 6,
        forall|k: int| i <= k < j ==> CharClass::HexDigit.has(#[trigger] s@[k]),
    ensures
        c == code_point(s@.subrange(i as int, j as int)),
{
    let mut n: u32 = 0;
    let mut k: usize = i;
    while k < j
        invariant
            i <= k <= j <= s.len(),
            j - i <= 6,
            forall|m: int| i <= m < j ==> CharClass::HexDigit.has(#[trigger] s@[m]),
            n == hex_value(s@.subrange(i as int, k as int)),
            k - i <= 0 ==> n < 1,
            k - i <= 1 ==> n < 0x10,
            k - i <= 2 ==> n < 0x100,
            k - i <= 3 ==> n < 0x1000,
            k - i <= 4 ==> n < 0x10000,
            k - i <= 5 ==> n < 0x100000,
            n < 0x1000000,
        decreases j - k,
    {
        assert(s@.subrange(i as int, k + 1).drop_last() =~= s@.subrange(i as int, k as int));
        n = 16 * n + read_hex_digit(s[k]);
        k = k + 1;
    }
    char::from_u32(n)
}

fn read_escape(s: &Vec<char>, i: usize) -> (r: Option<(usize, char)>)
    requires
        i < s.len(),
    ensures
        match r {
            Some((end, c)) => escape(s@, i as int) == Some((end as int, c)) && i + 2 <= end
                <= s.len(),
            None => escape(s@, i as int) is None,
        },
{
    if s.len() - i < 2 {
        return None;
    }
    let c = s[i + 1];
    if c == '\\' || c == '/' || c == '"' || c == '\'' {
        Some((i + 2, c))
    } else if c == 'b' {
        Some((i + 2, '\x08'))
    } else if c == 'f' {
        Some((i + 2, '\x0C'))
    } else if c == 'n' {
        Some((i + 2, '\n'))
    } else if c == 'r' {
        Some((i + 2, '\r'))
    } else if c == 't' {
        Some((i + 2, '\t'))
    } else if c == 'x' && is_class_at(s, i + 2, CharClass::HexDigit) && is_class_at(
        s,
        i + 3,
        CharClass::HexDigit,
    ) {
        match read_code_point(s, i + 2, i + 4) {
            Some(c) => Some((i + 4, c)),
            None => None,
        }
    } else if c == 'u' && is_char_at(s, i + 2, '{') {
        let end: usize = find_run_end(s, i + 3, CharClass::HexDigit);
        proof {
            lemma_run_end(s@, i + 3, CharClass::HexDigit);
        }
        if end - i >= 4 && end - i <= 9 && is_char_at(s, end, '}') {
            match read_code_point(s, i + 3, end) {
                Some(c) => Some((end + 1, c)),
                None => None,
            }
        } else {
            None
        }
    } else {
        None
    }
}

fn are_quotes_at(s: &Vec<char>, i: usize, q: char, n: usize) -> (b: bool)
    requires
        i <= s.len(),
        n == 1 || n == 3,
    ensures
        b == quotes_at(s@, i as int, q, n as int),
        b ==> i + n <= s.len(),
{
    is_char_at(s, i, q) && (n == 1 || (is_char_at(s, i + 1, q) && is_char_at(s, i + 2, q)))
}

fn read_quoted_char(s: &Vec<char>, i: usize, escaped: bool) -> (r: Option<(usize, char)>)
    requires
        i <= s.len(),
    ensures
        match r {
            Some((next, c)) => quoted_char(s@, i as int, escaped) == Some((next as int, c)) && i
                < next <= s.len(),
            None => quoted_char(s@, i as int, escaped) is None,
        },
{
    if i >= s.len() {
        None
    } else if escaped && s[i] == '\\' {
        read_escape(s, i)
    } else {
        Some((i + 1, s[i]))
    }
}

/// The content of the string is never longer than the text that writes it.
fn read_quoted_by(s: &Vec<char>, i: usize, q: char, n: usize, escaped: bool) -> (r: Option<
    (usize, String),
>)
    requires
        i <= s.len(),
        n == 1 || n == 3,
    ensures
        match r {
            Some((end, text)) => {
                &&& quoted_by(s@, i as int, q, n as int, escaped) == Some((end as int, text@))
                &&& i + 2 + text@.len() <= end <= s.len()
            },
            None => quoted_by(s@, i as int, q, n as int, escaped) is None,
        },
{
    if !are_quotes_at(s, i, q, n) {
        return None;
    }
    let mut text = String::new();
    let mut k: usize = i + n;
    let ghost whole = quoted_rest(s@, i + n, q, n as int, escaped);
    assert(text@ =~= Seq::empty());
    proof {
        if let Some((end, rest)) = whole {
            assert(text@ + rest =~= rest);
        }
    }
    while !are_quotes_at(s, k, q, n)
        invariant
            n == 1 || n == 3,
            i + n + text@.len() <= k <= s.len(),
            quoted_by(s@, i as int, q, n as int, escaped) == whole,
            match quoted_rest(s@, k as int, q, n as int, escaped) {
                Some((end, rest)) => whole == Some((end, text@ + rest)),
                None => whole is None,
            },
        decreases s@.len() - k,
    {
        let ghost before = text@;
        match read_quoted_char(s, k, escaped) {
            Some((next, c)) => {
                text.push(c);
                proof {
                    if let Some((end, rest)) = quoted_rest(s@, next as int, q, n as int, escaped) {
                        assert(before + (seq![c] + rest) =~= text@ + rest);
                    }
                }
                k = next;
            },
            None => {
                return None;
            },
        }
    }
    assert(text@ + Seq::<char>::empty() =~= text@);
    Some((k + n, text))
}

/// Reads the quoted string that begins at `i`.
pub fn read_quoted_string(s: &Vec<char>, i: usize, escaped: bool) -> (r: Option<(usize, String)>)
    requires
        i <= s.len(),
    ensures
        match r {
            Some((end, text)) => {
                &&& quoted_string(s@, i as int, escaped) == Some((end as int, text@))
                &&& i + 2 + text@.len() <= end <= s.len()
            },
            None => quoted_string(s@, i as int, escaped) is None,
        },
{
    let triple = read_quoted_by(s, i, '"', 3, escaped);
    if triple.is_some() {
        return triple;
    }
    let single = read_quoted_by(s, i, '"', 1, escaped);
    if single.is_some() {
        return single;
    }
    let triple = read_quoted_by(s, i, '\'', 3, escaped);
    if triple.is_some() {
        return triple;
    }
    read_quoted_by(s, i, '\'', 1, escaped)
}

} // verus!
