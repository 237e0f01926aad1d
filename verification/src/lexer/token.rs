//! Tokens, and the reading of one of them.
use vstd::prelude::*;

use crate::ast::{Literal, LiteralView, Text};
use super::chars::{
    char_at, class_at, find_line_break_end, find_run_end, is_char_at, is_class_at, is_word_at,
    is_word_end, line_break_end, run_end, text_between, word_at, word_ends, CharClass,
};
use super::datetime::{datetime, read_datetime};
use super::number::{number, read_number, read_value_and_unit, value_and_unit};
use super::quoted::{quoted_string, read_quoted_string};

verus! {

#[derive(Debug, PartialEq, Eq, Hash)]
pub enum Token {
    NewLine,
    Ident(String),
    Keyword(String),
    Literal(Literal),
    Param(String),
    /// A range is bound to the token on either side from which no space parts it.
    Range { bind_left: bool, bind_right: bool },
    /// The letter before the quotes, and what stands between them.
    Interpolation(char, String),
    /// A character that means something on its own.
    Control(char),
    /// `->`
    ArrowThin,
    /// `=>`
    ArrowFat,
    /// `==`
    Eq,
    /// `!=`
    Ne,
    /// `>=`
    Gte,
    /// `<=`
    Lte,
    /// `~=`
    RegexSearch,
    /// `&&`
    And,
    /// `||`
    Or,
    /// `??`
    Coalesce,
    /// `//`
    DivInt,
    /// `@`
    Annotate,
}

pub enum TokenView {
    NewLine,
    Ident(Text),
    Keyword(Text),
    Literal(LiteralView),
    Param(Text),
    Range { bind_left: bool, bind_right: bool },
    Interpolation(char, Text),
    Control(char),
    ArrowThin,
    ArrowFat,
    Eq,
    Ne,
    Gte,
    Lte,
    RegexSearch,
    And,
    Or,
    Coalesce,
    DivInt,
    Annotate,
}

impl Token {
    pub open spec fn view(&self) -> TokenView {
        match self {
            Token::NewLine => TokenView::NewLine,
            Token::Ident(s) => TokenView::Ident(s@),
            Token::Keyword(s) => TokenView::Keyword(s@),
            Token::Literal(l) => TokenView::Literal(l.view()),
            Token::Param(s) => TokenView::Param(s@),
            Token::Range { bind_left, bind_right } => TokenView::Range {
                bind_left: *bind_left,
                bind_right: *bind_right,
            },
            Token::Interpolation(c, s) => TokenView::Interpolation(*c, s@),
            Token::Control(c) => TokenView::Control(*c),
            Token::ArrowThin => TokenView::ArrowThin,
            Token::ArrowFat => TokenView::ArrowFat,
            Token::Eq => TokenView::Eq,
            Token::Ne => TokenView::Ne,
            Token::Gte => TokenView::Gte,
            Token::Lte => TokenView::Lte,
            Token::RegexSearch => TokenView::RegexSearch,
            Token::And => TokenView::And,
            Token::Or => TokenView::Or,
            Token::Coalesce => TokenView::Coalesce,
            Token::DivInt => TokenView::DivInt,
            Token::Annotate => TokenView::Annotate,
        }
    }
}

impl Token {
    /// Whether the two are the same token.
    pub fn same(&self, other: &Token) -> (r: bool)
        ensures
            r == (self.view() == other.view()),
    {
        match (self, other) {
            (Token::Ident(a), Token::Ident(b)) => *a == *b,
            (Token::Keyword(a), Token::Keyword(b)) => *a == *b,
            (Token::Literal(a), Token::Literal(b)) => a.same(b),
            (Token::Param(a), Token::Param(b)) => *a == *b,
            (
                Token::Range { bind_left: a, bind_right: b },
                Token::Range { bind_left: c, bind_right: d },
            ) => *a == *c && *b == *d,
            (Token::Interpolation(a, b), Token::Interpolation(c, d)) => *a == *c && *b == *d,
            (Token::Control(a), Token::Control(b)) => *a == *b,
            (Token::NewLine, Token::NewLine) => true,
            (Token::ArrowThin, Token::ArrowThin) => true,
            (Token::ArrowFat, Token::ArrowFat) => true,
            (Token::Eq, Token::Eq) => true,
            (Token::Ne, Token::Ne) => true,
            (Token::Gte, Token::Gte) => true,
            (Token::Lte, Token::Lte) => true,
            (Token::RegexSearch, Token::RegexSearch) => true,
            (Token::And, Token::And) => true,
            (Token::Or, Token::Or) => true,
            (Token::Coalesce, Token::Coalesce) => true,
            (Token::DivInt, Token::DivInt) => true,
            (Token::Annotate, Token::Annotate) => true,
            _ => false,
        }
    }
}

impl Clone for Token {
    fn clone(&self) -> (token: Token)
        ensures
            token == *self,
    {
        match self {
            Token::NewLine => Token::NewLine,
            Token::Ident(s) => Token::Ident(s.clone()),
            Token::Keyword(s) => Token::Keyword(s.clone()),
            Token::Literal(l) => Token::Literal(l.clone()),
            Token::Param(s) => Token::Param(s.clone()),
            Token::Range { bind_left, bind_right } => Token::Range {
                bind_left: *bind_left,
                bind_right: *bind_right,
            },
            Token::Interpolation(c, s) => Token::Interpolation(*c, s.clone()),
            Token::Control(c) => Token::Control(*c),
            Token::ArrowThin => Token::ArrowThin,
            Token::ArrowFat => Token::ArrowFat,
            Token::Eq => Token::Eq,
            Token::Ne => Token::Ne,
            Token::Gte => Token::Gte,
            Token::Lte => Token::Lte,
            Token::RegexSearch => Token::RegexSearch,
            Token::And => Token::And,
            Token::Or => Token::Or,
            Token::Coalesce => Token::Coalesce,
            Token::DivInt => Token::DivInt,
            Token::Annotate => Token::Annotate,
        }
    }
}

/// The token of two characters at `i`.
pub open spec fn symbol(s: Text, i: int) -> Option<TokenView> {
    if char_at(s, i, '-') && char_at(s, i + 1, '>') {
        Some(TokenView::ArrowThin)
    } else if char_at(s, i, '=') && char_at(s, i + 1, '>') {
        Some(TokenView::ArrowFat)
    } else if char_at(s, i, '=') && char_at(s, i + 1, '=') {
        Some(TokenView::Eq)
    } else if char_at(s, i, '!') && char_at(s, i + 1, '=') {
        Some(TokenView::Ne)
    } else if char_at(s, i, '>') && char_at(s, i + 1, '=') {
        Some(TokenView::Gte)
    } else if char_at(s, i, '<') && char_at(s, i + 1, '=') {
        Some(TokenView::Lte)
    } else if char_at(s, i, '~') && char_at(s, i + 1, '=') {
        Some(TokenView::RegexSearch)
    } else if char_at(s, i, '&') && char_at(s, i + 1, '&') {
        Some(TokenView::And)
    } else if char_at(s, i, '|') && char_at(s, i + 1, '|') {
        Some(TokenView::Or)
    } else if char_at(s, i, '?') && char_at(s, i + 1, '?') {
        Some(TokenView::Coalesce)
    } else if char_at(s, i, '/') && char_at(s, i + 1, '/') {
        Some(TokenView::DivInt)
    } else {
        None
    }
}

/// Whether the character is a token on its own.
pub open spec fn is_control(c: char) -> bool {
    c == '>' || c == '<' || c == '/' || c == '%' || c == '=' || c == '+' || c == '-' || c == '*'
        || c == '[' || c == ']' || c == '(' || c == ')' || c == '.' || c == ',' || c == ':' || c
        == '|' || c == '!' || c == '{' || c == '}'
}

/// The literal that begins at `i`.
pub open spec fn literal(s: Text, i: int) -> Option<(int, LiteralView)> {
    if let Some((end, text)) = quoted_string(s, i, true) {
        Some((end, LiteralView::String(text)))
    } else if let Some((end, text)) = raw_string(s, i) {
        Some((end, LiteralView::String(text)))
    } else if value_and_unit(s, i) is Some {
        value_and_unit(s, i)
    } else if number(s, i) is Some {
        number(s, i)
    } else if word_at(s, i, "true"@) && word_ends(s, i + "true"@.len()) {
        Some((i + "true"@.len(), LiteralView::Boolean(true)))
    } else if word_at(s, i, "false"@) && word_ends(s, i + "false"@.len()) {
        Some((i + "false"@.len(), LiteralView::Boolean(false)))
    } else if word_at(s, i, "null"@) && word_ends(s, i + "null"@.len()) {
        Some((i + "null"@.len(), LiteralView::Null))
    } else {
        datetime(s, i)
    }
}

/// The string without escapes that begins at `i`: an `r`, then quotes.
pub open spec fn raw_string(s: Text, i: int) -> Option<(int, Text)> {
    if char_at(s, i, 'r') {
        quoted_string(s, i + 1, false)
    } else {
        None
    }
}

/// The keyword that begins at `i`: one of the reserved words, as a word of its own.
pub open spec fn keyword_at(s: Text, i: int) -> Option<Text> {
    if word_at(s, i, "let"@) && word_ends(s, i + "let"@.len()) {
        Some("let"@)
    } else if word_at(s, i, "into"@) && word_ends(s, i + "into"@.len()) {
        Some("into"@)
    } else if word_at(s, i, "case"@) && word_ends(s, i + "case"@.len()) {
        Some("case"@)
    } else if word_at(s, i, "prql"@) && word_ends(s, i + "prql"@.len()) {
        Some("prql"@)
    } else if word_at(s, i, "func"@) && word_ends(s, i + "func"@.len()) {
        Some("func"@)
    } else {
        None
    }
}

/// The name that begins at `i`: letters, digits and underscores, or anything
/// between backticks.
pub open spec fn name(s: Text, i: int) -> Option<(int, Text)> {
    if class_at(s, i, CharClass::NameStart) {
        let end = run_end(s, i + 1, CharClass::NameRest);
        Some((end, s.subrange(i, end)))
    } else if char_at(s, i, '`') {
        let end = run_end(s, i + 1, CharClass::Backticked);
        if char_at(s, end, '`') {
            Some((end + 1, s.subrange(i + 1, end)))
        } else {
            None
        }
    } else {
        None
    }
}

/// The interpolated string that begins at `i`: an `s` or an `f`, then quotes.
pub open spec fn interpolation(s: Text, i: int) -> Option<(int, TokenView)> {
    if char_at(s, i, 's') || char_at(s, i, 'f') {
        match quoted_string(s, i + 1, true) {
            Some((end, text)) => Some((end, TokenView::Interpolation(s[i], text))),
            None => None,
        }
    } else {
        None
    }
}

/// The token that begins at `i`, and where it ends.
pub open spec fn token(s: Text, i: int) -> Option<(int, TokenView)> {
    if let Some(end) = line_break_end(s, i) {
        Some((end, TokenView::NewLine))
    } else if let Some(symbol) = symbol(s, i) {
        Some((i + 2, symbol))
    } else if char_at(s, i, '@') && !class_at(s, i + 1, CharClass::Digit) {
        Some((i + 1, TokenView::Annotate))
    } else if interpolation(s, i) is Some {
        interpolation(s, i)
    } else if char_at(s, i, '$') {
        let end = run_end(s, i + 1, CharClass::ParamName);
        Some((end, TokenView::Param(s.subrange(i + 1, end))))
    } else if 0 <= i < s.len() && is_control(s[i]) {
        Some((i + 1, TokenView::Control(s[i])))
    } else if let Some((end, literal)) = literal(s, i) {
        Some((end, TokenView::Literal(literal)))
    } else if let Some(word) = keyword_at(s, i) {
        Some((i + word.len(), TokenView::Keyword(word)))
    } else if let Some((end, text)) = name(s, i) {
        Some((end, TokenView::Ident(text)))
    } else {
        None
    }
}

/// The range that begins at `i`, with the space around its dots.
pub open spec fn range(s: Text, i: int) -> Option<(int, TokenView)> {
    let dots = run_end(s, i, CharClass::Blank);
    if char_at(s, dots, '.') && char_at(s, dots + 1, '.') {
        let end = run_end(s, dots + 2, CharClass::Blank);
        Some((end, TokenView::Range { bind_left: dots == i, bind_right: end == dots + 2 }))
    } else {
        None
    }
}

/// A token that stands for an interpolated string is longer than what the string
/// holds, by the letter and the opening quote at least.
pub open spec fn token_fits(t: TokenView, start: int, end: int) -> bool {
    t matches TokenView::Interpolation(_, text) ==> start + 2 + text.len() <= end
}

fn is_symbol(s: &Vec<char>, i: usize, a: char, b: char) -> (r: bool)
    ensures
        r == (char_at(s@, i as int, a) && char_at(s@, i + 1, b)),
{
    i < s.len() && s[i] == a && is_char_at(s, i + 1, b)
}

fn read_symbol(s: &Vec<char>, i: usize) -> (r: Option<Token>)
    ensures
        match r {
            Some(t) => symbol(s@, i as int) == Some(t.view()) && i + 2 <= s.len()
                && !(t is Interpolation),
            None => symbol(s@, i as int) is None,
        },
{
    if is_symbol(s, i, '-', '>') {
        Some(Token::ArrowThin)
    } else if is_symbol(s, i, '=', '>') {
        Some(Token::ArrowFat)
    } else if is_symbol(s, i, '=', '=') {
        Some(Token::Eq)
    } else if is_symbol(s, i, '!', '=') {
        Some(Token::Ne)
    } else if is_symbol(s, i, '>', '=') {
        Some(Token::Gte)
    } else if is_symbol(s, i, '<', '=') {
        Some(Token::Lte)
    } else if is_symbol(s, i, '~', '=') {
        Some(Token::RegexSearch)
    } else if is_symbol(s, i, '&', '&') {
        Some(Token::And)
    } else if is_symbol(s, i, '|', '|') {
        Some(Token::Or)
    } else if is_symbol(s, i, '?', '?') {
        Some(Token::Coalesce)
    } else if is_symbol(s, i, '/', '/') {
        Some(Token::DivInt)
    } else {
        None
    }
}

fn control(c: char) -> (b: bool)
    ensures
        b == is_control(c),
{
    c == '>' || c == '<' || c == '/' || c == '%' || c == '=' || c == '+' || c == '-' || c == '*'
        || c == '[' || c == ']' || c == '(' || c == ')' || c == '.' || c == ',' || c == ':' || c
        == '|' || c == '!' || c == '{' || c == '}'
}

/// Whether `word` stands at `i` as a word of its own, and where it ends.
fn read_word(s: &Vec<char>, i: usize, word: &str) -> (r: Option<usize>)
    requires
        i <= s.len(),
    ensures
        match r {
            Some(end) => {
                &&& word_at(s@, i as int, word@)
                &&& word_ends(s@, i + word@.len())
                &&& end == i + word@.len()
                &&& end <= s.len()
            },
            None => !(word_at(s@, i as int, word@) && word_ends(s@, i + word@.len())),
        },
{
    if is_word_at(s, i, word) {
        let end: usize = i + word.unicode_len();
        if is_word_end(s, end) {
            return Some(end);
        }
    }
    None
}

fn read_raw_string(s: &Vec<char>, i: usize) -> (r: Option<(usize, String)>)
    requires
        i <= s.len(),
    ensures
        match r {
            Some((end, text)) => raw_string(s@, i as int) == Some((end as int, text@)) && i < end
                <= s.len(),
            None => raw_string(s@, i as int) is None,
        },
{
    if is_char_at(s, i, 'r') {
        read_quoted_string(s, i + 1, false)
    } else {
        None
    }
}

/// Reads the literal that begins at `i`.
pub fn read_literal(s: &Vec<char>, i: usize) -> (r: Option<(usize, Literal)>)
    requires
        i <= s.len(),
    ensures
        match r {
            Some((end, l)) => literal(s@, i as int) == Some((end as int, l.view())) && i < end
                <= s.len(),
            None => literal(s@, i as int) is None,
        },
{
    if let Some((end, text)) = read_quoted_string(s, i, true) {
        return Some((end, Literal::String(text)));
    }
    if let Some((end, text)) = read_raw_string(s, i) {
        return Some((end, Literal::String(text)));
    }
    let duration = read_value_and_unit(s, i);
    if duration.is_some() {
        return duration;
    }
    let number = read_number(s, i);
    if number.is_some() {
        return number;
    }
    proof {
        reveal_strlit("true");
        reveal_strlit("false");
        reveal_strlit("null");
    }
    if let Some(end) = read_word(s, i, "true") {
        return Some((end, Literal::Boolean(true)));
    }
    if let Some(end) = read_word(s, i, "false") {
        return Some((end, Literal::Boolean(false)));
    }
    if let Some(end) = read_word(s, i, "null") {
        return Some((end, Literal::Null));
    }
    read_datetime(s, i)
}

fn read_keyword(s: &Vec<char>, i: usize) -> (r: Option<(usize, String)>)
    requires
        i <= s.len(),
    ensures
        match r {
            Some((end, word)) => {
                &&& keyword_at(s@, i as int) == Some(word@)
                &&& end == i + word@.len()
                &&& i < end <= s.len()
            },
            None => keyword_at(s@, i as int) is None,
        },
{
    proof {
        reveal_strlit("let");
        reveal_strlit("into");
        reveal_strlit("case");
        reveal_strlit("prql");
        reveal_strlit("func");
    }
    if let Some(end) = read_word(s, i, "let") {
        Some((end, "let".to_owned()))
    } else if let Some(end) = read_word(s, i, "into") {
        Some((end, "into".to_owned()))
    } else if let Some(end) = read_word(s, i, "case") {
        Some((end, "case".to_owned()))
    } else if let Some(end) = read_word(s, i, "prql") {
        Some((end, "prql".to_owned()))
    } else if let Some(end) = read_word(s, i, "func") {
        Some((end, "func".to_owned()))
    } else {
        None
    }
}

/// Reads the name that begins at `i`.
pub fn read_name(s: &Vec<char>, i: usize) -> (r: Option<(usize, String)>)
    requires
        i <= s.len(),
    ensures
        match r {
            Some((end, text)) => name(s@, i as int) == Some((end as int, text@)) && i < end
                <= s.len(),
            None => name(s@, i as int) is None,
        },
{
    if is_class_at(s, i, CharClass::NameStart) {
        let end: usize = find_run_end(s, i + 1, CharClass::NameRest);
        Some((end, text_between(s, i, end)))
    } else if is_char_at(s, i, '`') {
        let end: usize = find_run_end(s, i + 1, CharClass::Backticked);
        if is_char_at(s, end, '`') {
            Some((end + 1, text_between(s, i + 1, end)))
        } else {
            None
        }
    } else {
        None
    }
}

fn read_interpolation(s: &Vec<char>, i: usize) -> (r: Option<(usize, Token)>)
    requires
        i <= s.len(),
    ensures
        match r {
            Some((end, t)) => {
                &&& interpolation(s@, i as int) == Some((end as int, t.view()))
                &&& i < end <= s.len()
                &&& token_fits(t.view(), i as int, end as int)
            },
            None => interpolation(s@, i as int) is None,
        },
{
    if is_char_at(s, i, 's') || is_char_at(s, i, 'f') {
        match read_quoted_string(s, i + 1, true) {
            Some((end, text)) => Some((end, Token::Interpolation(s[i], text))),
            None => None,
        }
    } else {
        None
    }
}

/// Reads the token that begins at `i`.
pub fn read_token(s: &Vec<char>, i: usize) -> (r: Option<(usize, Token)>)
    requires
        i <= s.len(),
    ensures
        match r {
            Some((end, t)) => {
                &&& token(s@, i as int) == Some((end as int, t.view()))
                &&& i < end <= s.len()
                &&& token_fits(t.view(), i as int, end as int)
            },
            None => token(s@, i as int) is None,
        },
{
    if let Some(end) = find_line_break_end(s, i) {
        return Some((end, Token::NewLine));
    }
    if let Some(symbol) = read_symbol(s, i) {
        return Some((i + 2, symbol));
    }
    if is_char_at(s, i, '@') && !is_class_at(s, i + 1, CharClass::Digit) {
        return Some((i + 1, Token::Annotate));
    }
    let interpolation = read_interpolation(s, i);
    if interpolation.is_some() {
        return interpolation;
    }
    if is_char_at(s, i, '$') {
        let end: usize = find_run_end(s, i + 1, CharClass::ParamName);
        return Some((end, Token::Param(text_between(s, i + 1, end))));
    }
    if i < s.len() && control(s[i]) {
        return Some((i + 1, Token::Control(s[i])));
    }
    if let Some((end, literal)) = read_literal(s, i) {
        return Some((end, Token::Literal(literal)));
    }
    if let Some((end, word)) = read_keyword(s, i) {
        return Some((end, Token::Keyword(word)));
    }
    if let Some((end, text)) = read_name(s, i) {
        return Some((end, Token::Ident(text)));
    }
    None
}

/// Reads the range that begins at `i`.
pub fn read_range(s: &Vec<char>, i: usize) -> (r: Option<(usize, Token)>)
    requires
        i <= s.len(),
    ensures
        match r {
            Some((end, t)) => {
                &&& range(s@, i as int) == Some((end as int, t.view()))
                &&& i < end <= s.len()
                &&& token_fits(t.view(), i as int, end as int)
            },
            None => range(s@, i as int) is None,
        },
{
    let dots: usize = find_run_end(s, i, CharClass::Blank);
    if is_symbol(s, dots, '.', '.') {
        let end: usize = find_run_end(s, dots + 2, CharClass::Blank);
        Some((end, Token::Range { bind_left: dots == i, bind_right: end == dots + 2 }))
    } else {
        None
    }
}

} // verus!
