//! Classes of characters, runs of them, and the pieces of text between them.
use vstd::prelude::*;

use crate::ast::Text;

verus! {

/// Whether the Unicode standard counts the character as alphabetic.
pub uninterp spec fn unicode_alphabetic(c: char) -> bool;

/// Whether the Unicode standard counts the character as alphabetic or numeric.
pub uninterp spec fn unicode_alphanumeric(c: char) -> bool;

/// `char::is_alphabetic` depends on nothing but the character. Which characters
/// it accepts is for Unicode's tables to say, and stays unstated here.
pub assume_specification[ char::is_alphabetic ](c: char) -> (b: bool)
    ensures
        b == unicode_alphabetic(c),
;

/// `char::is_alphanumeric` depends on nothing but the character. Which characters
/// it accepts is for Unicode's tables to say, and stays unstated here.
pub assume_specification[ char::is_alphanumeric ](c: char) -> (b: bool)
    ensures
        b == unicode_alphanumeric(c),
;

/// `String::push` appends one character.
pub assume_specification[ std::string::String::push ](s: &mut std::string::String, c: char)
    ensures
        final(s)@ == old(s)@.push(c),
;

/// `char::from_u32` gives the character with that code point: there is one for
/// every number up to 0x10FFFF that is not a surrogate.
pub assume_specification[ char::from_u32 ](n: u32) -> (c: Option<char>)
    ensures
        c == (if n <= 0xD7FF || 0xE000 <= n <= 0x10FFFF {
            Some(n as char)
        } else {
            None
        }),
;

/// A set of characters of which the lexer reads runs.
#[derive(Clone, Copy, Debug, PartialEq, Eq, Structural)]
pub enum CharClass {
    /// A space or a tab.
    Blank,
    Digit,
    /// A digit, or the underscore that groups digits.
    GroupedDigit,
    HexDigit,
    /// What a plain name begins with.
    NameStart,
    /// What a plain name goes on with.
    NameRest,
    /// What the name of a query parameter is made of.
    ParamName,
    /// What a name between backticks is made of.
    Backticked,
    /// What a comment is made of.
    Comment,
}

pub open spec fn is_digit(c: char) -> bool {
    '0' <= c <= '9'
}

pub open spec fn is_ascii_letter(c: char) -> bool {
    'a' <= c <= 'z' || 'A' <= c <= 'Z'
}

/// Whether the character is a letter, in any script.
pub open spec fn is_letter(c: char) -> bool {
    if (c as u32) < 128 {
        is_ascii_letter(c)
    } else {
        unicode_alphabetic(c)
    }
}

/// Whether the character is a letter or a number, in any script.
pub open spec fn is_letter_or_number(c: char) -> bool {
    if (c as u32) < 128 {
        is_ascii_letter(c) || is_digit(c)
    } else {
        unicode_alphanumeric(c)
    }
}

/// The characters that end a line on their own.
pub open spec fn is_line_end(c: char) -> bool {
    c == '\n' || c == '\r' || c == '\x0B' || c == '\x0C' || c == '\u{0085}' || c == '\u{2028}' || c
        == '\u{2029}'
}

impl CharClass {
    /// Whether the class holds the character.
    pub open spec fn has(self, c: char) -> bool {
        match self {
            CharClass::Blank => c == ' ' || c == '\t',
            CharClass::Digit => is_digit(c),
            CharClass::GroupedDigit => is_digit(c) || c == '_',
            CharClass::HexDigit => is_digit(c) || 'a' <= c <= 'f' || 'A' <= c <= 'F',
            CharClass::NameStart => is_letter(c) || c == '_',
            CharClass::NameRest => is_letter_or_number(c) || c == '_',
            CharClass::ParamName => is_letter_or_number(c) || c == '_' || c == '.',
            CharClass::Backticked => c != '`',
            CharClass::Comment => !is_line_end(c),
        }
    }

    pub fn contains(self, c: char) -> (b: bool)
        ensures
            b == self.has(c),
    {
        match self {
            CharClass::Blank => c == ' ' || c == '\t',
            CharClass::Digit => digit(c),
            CharClass::GroupedDigit => digit(c) || c == '_',
            CharClass::HexDigit => {
                digit(c) || ('a' <= c && c <= 'f') || ('A' <= c && c <= 'F')
            },
            CharClass::NameStart => letter(c) || c == '_',
            CharClass::NameRest => letter_or_number(c) || c == '_',
            CharClass::ParamName => letter_or_number(c) || c == '_' || c == '.',
            CharClass::Backticked => c != '`',
            CharClass::Comment => !line_end(c),
        }
    }
}

fn digit(c: char) -> (b: bool)
    ensures
        b == is_digit(c),
{
    '0' <= c && c <= '9'
}

fn ascii_letter(c: char) -> (b: bool)
    ensures
        b == is_ascii_letter(c),
{
    ('a' <= c && c <= 'z') || ('A' <= c && c <= 'Z')
}

fn letter(c: char) -> (b: bool)
    ensures
        b == is_letter(c),
{
    if (c as u32) < 128 {
        ascii_letter(c)
    } else {
        c.is_alphabetic()
    }
}

fn letter_or_number(c: char) -> (b: bool)
    ensures
        b == is_letter_or_number(c),
{
    if (c as u32) < 128 {
        ascii_letter(c) || digit(c)
    } else {
        c.is_alphanumeric()
    }
}

fn line_end(c: char) -> (b: bool)
    ensures
        b == is_line_end(c),
{
    c == '\n' || c == '\r' || c == '\x0B' || c == '\x0C' || c == '\u{0085}' || c == '\u{2028}' || c
        == '\u{2029}'
}

/// Whether there is a character of the class at `i`.
pub open spec fn class_at(s: Text, i: int, class: CharClass) -> bool {
    0 <= i < s.len() && class.has(s[i])
}

/// Whether the character at `i` is `c`.
pub open spec fn char_at(s: Text, i: int, c: char) -> bool {
    0 <= i < s.len() && s[i] == c
}

/// Where the run of characters of the class that begins at `i` ends.
pub open spec fn run_end(s: Text, i: int, class: CharClass) -> int
    decreases s.len() - i,
{
    if class_at(s, i, class) {
        run_end(s, i + 1, class)
    } else {
        i
    }
}

/// A run holds nothing but its class, and goes on for as long as it can.
pub proof fn lemma_run_end(s: Text, i: int, class: CharClass)
    requires
        0 <= i <= s.len(),
    ensures
        i <= run_end(s, i, class) <= s.len(),
        forall|k: int| i <= k < run_end(s, i, class) ==> class.has(#[trigger] s[k]),
        !class_at(s, run_end(s, i, class), class),
    decreases s.len() - i,
{
    if class_at(s, i, class) {
        lemma_run_end(s, i + 1, class);
    }
}

/// Whether the text goes on with `word` at `i`.
pub open spec fn word_at(s: Text, i: int, word: Text) -> bool {
    0 <= i && i + word.len() <= s.len() && s.subrange(i, i + word.len()) == word
}

/// Where the line break at `i` ends, if there is one. A carriage return and the
/// line feed after it are one break.
pub open spec fn line_break_end(s: Text, i: int) -> Option<int> {
    if char_at(s, i, '\r') && char_at(s, i + 1, '\n') {
        Some(i + 2)
    } else if 0 <= i < s.len() && is_line_end(s[i]) {
        Some(i + 1)
    } else {
        None
    }
}

/// Whether a word can end before `i`: a delimiter, a space, a line break, a range
/// or nothing at all follows.
pub open spec fn word_ends(s: Text, i: int) -> bool {
    ||| i >= s.len()
    ||| char_at(s, i, ',')
    ||| char_at(s, i, ')')
    ||| char_at(s, i, ']')
    ||| char_at(s, i, '}')
    ||| char_at(s, i, '\t')
    ||| char_at(s, i, ' ')
    ||| char_at(s, i, '>')
    ||| line_break_end(s, i) is Some
    ||| char_at(s, i, '.') && char_at(s, i + 1, '.')
}

/// Whether `n` digits stand at `i`.
pub open spec fn digits_at(s: Text, i: int, n: int) -> bool {
    0 <= i && i + n <= s.len() && forall|k: int| i <= k < i + n ==> is_digit(#[trigger] s[k])
}

pub fn is_class_at(s: &Vec<char>, i: usize, class: CharClass) -> (b: bool)
    ensures
        b == class_at(s@, i as int, class),
{
    i < s.len() && class.contains(s[i])
}

pub fn is_char_at(s: &Vec<char>, i: usize, c: char) -> (b: bool)
    ensures
        b == char_at(s@, i as int, c),
{
    i < s.len() && s[i] == c
}

pub fn find_run_end(s: &Vec<char>, i: usize, class: CharClass) -> (end: usize)
    requires
        i <= s.len(),
    ensures
        end == run_end(s@, i as int, class),
        i <= end <= s.len(),
{
    let mut end: usize = i;
    while end < s.len() && class.contains(s[end])
        invariant
            i <= end <= s.len(),
            run_end(s@, end as int, class) == run_end(s@, i as int, class),
        decreases s@.len() - end,
    {
        end = end + 1;
    }
    end
}

/// The characters of a string.
pub fn chars_of(s: &str) -> (chars: Vec<char>)
    ensures
        chars@ == s@,
{
    let mut chars: Vec<char> = Vec::new();
    for c in iter: s.chars()
        invariant
            iter.seq() == s@,
            chars@ == s@.take(iter.index() as int),
    {
        chars.push(c);
    }
    assert(s@.take(s@.len() as int) =~= s@);
    chars
}

pub fn is_word_at(s: &Vec<char>, i: usize, word: &str) -> (b: bool)
    requires
        i <= s.len(),
    ensures
        b == word_at(s@, i as int, word@),
        b ==> i + word@.len() <= s.len(),
{
    let word_chars = chars_of(word);
    if s.len() - i < word_chars.len() {
        return false;
    }
    let mut k: usize = 0;
    while k < word_chars.len()
        invariant
            word_chars@ == word@,
            k <= word_chars@.len(),
            i + word_chars@.len() <= s.len(),
            forall|m: int| 0 <= m < k ==> s@[i + m] == word@[m],
        decreases word_chars@.len() - k,
    {
        if s[i + k] != word_chars[k] {
            assert(s@.subrange(i as int, i + word@.len())[k as int] != word@[k as int]);
            return false;
        }
        k = k + 1;
    }
    assert(s@.subrange(i as int, i + word@.len()) =~= word@);
    true
}

pub fn find_line_break_end(s: &Vec<char>, i: usize) -> (end: Option<usize>)
    ensures
        match end {
            Some(end) => line_break_end(s@, i as int) == Some(end as int) && i < end <= s.len(),
            None => line_break_end(s@, i as int) is None,
        },
{
    if i >= s.len() {
        None
    } else if s[i] == '\r' && i + 1 < s.len() && s[i + 1] == '\n' {
        Some(i + 2)
    } else if line_end(s[i]) {
        Some(i + 1)
    } else {
        None
    }
}

pub fn is_word_end(s: &Vec<char>, i: usize) -> (b: bool)
    ensures
        b == word_ends(s@, i as int),
{
    if i >= s.len() {
        return true;
    }
    let c = s[i];
    c == ',' || c == ')' || c == ']' || c == '}' || c == '\t' || c == ' ' || c == '>'
        || find_line_break_end(s, i).is_some() || (c == '.' && i + 1 < s.len() && s[i + 1] == '.')
}

pub fn are_digits_at(s: &Vec<char>, i: usize, n: usize) -> (b: bool)
    requires
        i <= s.len(),
    ensures
        b == digits_at(s@, i as int, n as int),
        b ==> i + n <= s.len(),
{
    if s.len() - i < n {
        return false;
    }
    let mut k: usize = 0;
    while k < n
        invariant
            k <= n,
            i + n <= s.len(),
            forall|m: int| i <= m < i + k ==> is_digit(#[trigger] s@[m]),
        decreases n - k,
    {
        if !digit(s[i + k]) {
            return false;
        }
        k = k + 1;
    }
    true
}

/// The text from `i` up to `j`.
pub fn text_between(s: &Vec<char>, i: usize, j: usize) -> (text: String)
    requires
        i <= j <= s.len(),
    ensures
        text@ == s@.subrange(i as int, j as int),
{
    let mut text = String::new();
    let mut k: usize = i;
    while k < j
        invariant
            i <= k <= j <= s.len(),
            text@ == s@.subrange(i as int, k as int),
        decreases j - k,
    {
        text.push(s[k]);
        k = k + 1;
        assert(s@.subrange(i as int, k as int) =~= s@.subrange(i as int, k - 1).push(s@[k - 1]));
    }
    text
}

} // verus!
