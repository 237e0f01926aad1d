//! Numbers and durations.
use vstd::prelude::*;

use crate::ast::{Literal, LiteralView, Text, ValueAndUnit};
use super::chars::{
    char_at, class_at, find_run_end, is_char_at, is_class_at, is_digit, is_word_at, is_word_end,
    lemma_run_end, run_end, word_at, word_ends, CharClass,
};

verus! {

/// Where the integer that begins at `i` ends. It is `0`, or begins with another
/// digit; underscores may group its digits.
pub open spec fn int_end(s: Text, i: int) -> Option<int> {
    if char_at(s, i, '0') {
        Some(i + 1)
    } else if class_at(s, i, CharClass::Digit) {
        Some(run_end(s, i + 1, CharClass::GroupedDigit))
    } else {
        None
    }
}

/// Where the fraction at `i` ends: `i` itself, where there is none.
pub open spec fn frac_end(s: Text, i: int) -> int {
    if char_at(s, i, '.') && class_at(s, i + 1, CharClass::Digit) {
        run_end(s, i + 2, CharClass::GroupedDigit)
    } else {
        i
    }
}

/// Where the exponent at `i` ends: `i` itself, where there is none.
pub open spec fn exp_end(s: Text, i: int) -> int {
    if char_at(s, i, 'e') || char_at(s, i, 'E') {
        let digits = if char_at(s, i + 1, '+') || char_at(s, i + 1, '-') {
            i + 2
        } else {
            i + 1
        };
        if class_at(s, digits, CharClass::Digit) {
            run_end(s, digits, CharClass::Digit)
        } else {
            i
        }
    } else {
        i
    }
}

/// The text without its underscores.
pub open spec fn ungrouped(text: Text) -> Text
    decreases text.len(),
{
    if text.len() == 0 {
        text
    } else if text.last() == '_' {
        ungrouped(text.drop_last())
    } else {
        ungrouped(text.drop_last()).push(text.last())
    }
}

/// The number that decimal digits write; underscores do not count.
pub open spec fn decimal_value(text: Text) -> int
    decreases text.len(),
{
    if text.len() == 0 {
        0
    } else if text.last() == '_' {
        decimal_value(text.drop_last())
    } else {
        10 * decimal_value(text.drop_last()) + (text.last() as int - '0' as int)
    }
}

/// The number that begins at `i`, and where it ends. One with a fraction or an
/// exponent, or too large for an integer, is a float.
pub open spec fn number(s: Text, i: int) -> Option<(int, LiteralView)> {
    match int_end(s, i) {
        Some(int_end) => {
            let end = exp_end(s, frac_end(s, int_end));
            let text = s.subrange(i, end);
            if end == int_end && decimal_value(text) <= i64::MAX {
                Some((end, LiteralView::Integer(decimal_value(text))))
            } else {
                Some((end, LiteralView::Float(ungrouped(text))))
            }
        },
        None => None,
    }
}

/// The unit of time at `i`.
pub open spec fn unit_at(s: Text, i: int) -> Option<Text> {
    if word_at(s, i, "microseconds"@) {
        Some("microseconds"@)
    } else if word_at(s, i, "milliseconds"@) {
        Some("milliseconds"@)
    } else if word_at(s, i, "seconds"@) {
        Some("seconds"@)
    } else if word_at(s, i, "minutes"@) {
        Some("minutes"@)
    } else if word_at(s, i, "hours"@) {
        Some("hours"@)
    } else if word_at(s, i, "days"@) {
        Some("days"@)
    } else if word_at(s, i, "weeks"@) {
        Some("weeks"@)
    } else if word_at(s, i, "months"@) {
        Some("months"@)
    } else if word_at(s, i, "years"@) {
        Some("years"@)
    } else {
        None
    }
}

/// The duration that begins at `i`: an integer and a unit of time, with nothing
/// between them.
pub open spec fn value_and_unit(s: Text, i: int) -> Option<(int, LiteralView)> {
    match int_end(s, i) {
        Some(int_end) => match unit_at(s, int_end) {
            Some(unit) => {
                let n = decimal_value(s.subrange(i, int_end));
                if word_ends(s, int_end + unit.len()) && n <= i64::MAX {
                    Some((int_end + unit.len(), LiteralView::ValueAndUnit(n, unit)))
                } else {
                    None
                }
            },
            None => None,
        },
        None => None,
    }
}

/// More digits never write a smaller number.
proof fn lemma_decimal_value_grows(text: Text, n: int)
    requires
        0 <= n <= text.len(),
        forall|k: int| 0 <= k < text.len() ==> CharClass::GroupedDigit.has(#[trigger] text[k]),
    ensures
        0 <= decimal_value(text.take(n)) <= decimal_value(text),
    decreases text.len(), text.len() - n,
{
    if text.len() == 0 {
        assert(text.take(n) =~= text);
    } else if n == text.len() {
        assert(text.take(n) =~= text);
        lemma_decimal_value_grows(text.drop_last(), text.len() - 1);
        assert(text.drop_last().take(text.len() - 1) =~= text.drop_last());
    } else {
        lemma_decimal_value_grows(text.drop_last(), n);
        assert(text.drop_last().take(n) =~= text.take(n));
    }
}

proof fn lemma_int_end(s: Text, i: int)
    requires
        0 <= i <= s.len(),
    ensures
        int_end(s, i) matches Some(end) ==> {
            &&& i < end <= s.len()
            &&& forall|k: int| i <= k < end ==> CharClass::GroupedDigit.has(#[trigger] s[k])
        },
{
    if i < s.len() {
        lemma_run_end(s, i + 1, CharClass::GroupedDigit);
    }
}

fn find_int_end(s: &Vec<char>, i: usize) -> (r: Option<usize>)
    requires
        i <= s.len(),
    ensures
        match r {
            Some(end) => {
                &&& int_end(s@, i as int) == Some(end as int)
                &&& i < end <= s.len()
                &&& forall|k: int| i <= k < end ==> CharClass::GroupedDigit.has(#[trigger] s@[k])
            },
            None => int_end(s@, i as int) is None,
        },
{
    proof {
        lemma_int_end(s@, i as int);
    }
    if is_char_at(s, i, '0') {
        Some(i + 1)
    } else if is_class_at(s, i, CharClass::Digit) {
        Some(find_run_end(s, i + 1, CharClass::GroupedDigit))
    } else {
        None
    }
}

fn find_frac_end(s: &Vec<char>, i: usize) -> (end: usize)
    requires
        i <= s.len(),
    ensures
        end == frac_end(s@, i as int),
        i <= end <= s.len(),
{
    if is_char_at(s, i, '.') && is_class_at(s, i + 1, CharClass::Digit) {
        find_run_end(s, i + 2, CharClass::GroupedDigit)
    } else {
        i
    }
}

fn find_exp_end(s: &Vec<char>, i: usize) -> (end: usize)
    requires
        i <= s.len(),
    ensures
        end == exp_end(s@, i as int),
        i <= end <= s.len(),
{
    if is_char_at(s, i, 'e') || is_char_at(s, i, 'E') {
        let digits: usize = if is_char_at(s, i + 1, '+') || is_char_at(s, i + 1, '-') {
            i + 2
        } else {
            i + 1
        };
        if is_class_at(s, digits, CharClass::Digit) {
            find_run_end(s, digits, CharClass::Digit)
        } else {
            i
        }
    } else {
        i
    }
}

/// The value of the digits from `i` up to `j`, where an `i64` can hold it.
fn read_decimal(s: &Vec<char>, i: usize, j: usize) -> (r: Option<i64>)
    requires
        i <= j <= s.len(),
        forall|k: int| i <= k < j ==> CharClass::GroupedDigit.has(#[trigger] s@[k]),
    ensures
        match r {
            Some(n) => n == decimal_value(s@.subrange(i as int, j as int)),
            None => decimal_value(s@.subrange(i as int, j as int)) > i64::MAX,
        },
{
    let ghost text = s@.subrange(i as int, j as int);
    let mut n: i64 = 0;
    let mut k: usize = i;
    assert(text.take(0) =~= Seq::<char>::empty());
    while k < j
        invariant
            i <= k <= j <= s.len(),
            text == s@.subrange(i as int, j as int),
            forall|m: int| i <= m < j ==> CharClass::GroupedDigit.has(#[trigger] s@[m]),
            0 <= n,
            n == decimal_value(text.take(k - i)),
        decreases j - k,
    {
        let c = s[k];
        assert(CharClass::GroupedDigit.has(s@[k as int]));
        proof {
            assert(text.take(k + 1 - i).drop_last() =~= text.take(k - i));
            assert(text.take(k + 1 - i).last() == c);
        }
        if c != '_' {
            assert(is_digit(c));
            let d: i64 = (c as u32 - '0' as u32) as i64;
            if n > (i64::MAX - d) / 10 {
                proof {
                    assert forall|m: int| 0 <= m < text.len() implies CharClass::GroupedDigit.has(
                        #[trigger] text[m],
                    ) by {
                        assert(text[m] == s@[i + m]);
                    }
                    lemma_decimal_value_grows(text, k + 1 - i);
                }
                return None;
            }
            n = 10 * n + d;
        }
        k = k + 1;
    }
    assert(text.take(j - i) =~= text);
    Some(n)
}

/// The text from `i` up to `j` without its underscores.
fn read_ungrouped(s: &Vec<char>, i: usize, j: usize) -> (text: String)
    requires
        i <= j <= s.len(),
    ensures
        text@ == ungrouped(s@.subrange(i as int, j as int)),
{
    let mut text = String::new();
    let mut k: usize = i;
    assert(s@.subrange(i as int, i as int) =~= Seq::<char>::empty());
    assert(text@ =~= ungrouped(s@.subrange(i as int, i as int)));
    while k < j
        invariant
            i <= k <= j <= s.len(),
            text@ == ungrouped(s@.subrange(i as int, k as int)),
        decreases j - k,
    {
        assert(s@.subrange(i as int, k + 1).drop_last() =~= s@.subrange(i as int, k as int));
        if s[k] != '_' {
            text.push(s[k]);
        }
        k = k + 1;
    }
    text
}

/// Reads the number that begins at `i`.
pub fn read_number(s: &Vec<char>, i: usize) -> (r: Option<(usize, Literal)>)
    requires
        i <= s.len(),
    ensures
        match r {
            Some((end, literal)) => number(s@, i as int) == Some((end as int, literal.view())) && i
                < end <= s.len(),
            None => number(s@, i as int) is None,
        },
{
    match find_int_end(s, i) {
        Some(int_end) => {
            let frac_end: usize = find_frac_end(s, int_end);
            let end: usize = find_exp_end(s, frac_end);
            if end == int_end {
                match read_decimal(s, i, end) {
                    Some(n) => {
                        return Some((end, Literal::Integer(n)));
                    },
                    None => {},
                }
            }
            Some((end, Literal::Float(read_ungrouped(s, i, end))))
        },
        None => None,
    }
}

fn read_unit(s: &Vec<char>, i: usize) -> (r: Option<(usize, String)>)
    requires
        i <= s.len(),
    ensures
        match r {
            Some((end, unit)) => {
                &&& unit_at(s@, i as int) == Some(unit@)
                &&& end == i + unit@.len()
                &&& end <= s.len()
            },
            None => unit_at(s@, i as int) is None,
        },
{
    let unit = if is_word_at(s, i, "microseconds") {
        "microseconds"
    } else if is_word_at(s, i, "milliseconds") {
        "milliseconds"
    } else if is_word_at(s, i, "seconds") {
        "seconds"
    } else if is_word_at(s, i, "minutes") {
        "minutes"
    } else if is_word_at(s, i, "hours") {
        "hours"
    } else if is_word_at(s, i, "days") {
        "days"
    } else if is_word_at(s, i, "weeks") {
        "weeks"
    } else if is_word_at(s, i, "months") {
        "months"
    } else if is_word_at(s, i, "years") {
        "years"
    } else {
        return None;
    };
    Some((i + unit.unicode_len(), unit.to_owned()))
}

/// Reads the duration that begins at `i`.
pub fn read_value_and_unit(s: &Vec<char>, i: usize) -> (r: Option<(usize, Literal)>)
    requires
        i <= s.len(),
    ensures
        match r {
            Some((end, literal)) => value_and_unit(s@, i as int) == Some(
                (end as int, literal.view()),
            ) && i < end <= s.len(),
            None => value_and_unit(s@, i as int) is None,
        },
{
    match find_int_end(s, i) {
        Some(int_end) => match read_unit(s, int_end) {
            Some((end, unit)) => {
                if is_word_end(s, end) {
                    match read_decimal(s, i, int_end) {
                        Some(n) => Some((end, Literal::ValueAndUnit(ValueAndUnit { n, unit }))),
                        None => None,
                    }
                } else {
                    None
                }
            },
            None => None,
        },
        None => None,
    }
}

} // verus!
