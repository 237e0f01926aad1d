//! Dates, times and timestamps: what follows an `@`.
use vstd::prelude::*;

use crate::ast::{Literal, LiteralView, Text};
use super::chars::{
    are_digits_at, char_at, class_at, digits_at, find_run_end, is_char_at, is_class_at, is_word_end,
    run_end, text_between, word_ends, CharClass,
};

verus! {

/// Where the date that begins at `i` ends: `YYYY-MM-DD`.
pub open spec fn date_end(s: Text, i: int) -> Option<int> {
    if digits_at(s, i, 4) && char_at(s, i + 4, '-') && digits_at(s, i + 5, 2) && char_at(
        s,
        i + 7,
        '-',
    ) && digits_at(s, i + 8, 2) {
        Some(i + 10)
    } else {
        None
    }
}

/// Where the minutes or seconds at `i` end, as in `:30`: `i` itself, where there
/// are none.
pub open spec fn sixtieths_end(s: Text, i: int) -> int {
    if char_at(s, i, ':') && digits_at(s, i + 1, 2) {
        i + 3
    } else {
        i
    }
}

/// Where the fraction of a second at `i` ends: a dot and up to six digits.
pub open spec fn fraction_end(s: Text, i: int) -> int {
    if char_at(s, i, '.') && class_at(s, i + 1, CharClass::Digit) {
        let end = run_end(s, i + 1, CharClass::Digit);
        if end <= i + 7 {
            end
        } else {
            i + 7
        }
    } else {
        i
    }
}

/// The time zone at `i` and where it ends: `Z`, or an offset such as `-05:00`,
/// whose colon is left out. The empty text, where there is none.
pub open spec fn zone(s: Text, i: int) -> (int, Text) {
    if char_at(s, i, 'Z') {
        (i + 1, seq!['Z'])
    } else if (char_at(s, i, '+') || char_at(s, i, '-')) && digits_at(s, i + 1, 2) {
        let minutes = if char_at(s, i + 3, ':') {
            i + 4
        } else {
            i + 3
        };
        if digits_at(s, minutes, 2) {
            (minutes + 2, s.subrange(i, i + 3) + s.subrange(minutes, minutes + 2))
        } else {
            (i, Seq::empty())
        }
    } else {
        (i, Seq::empty())
    }
}

/// The time that begins at `i`, and where it ends: hours, then minutes, seconds,
/// a fraction and a time zone, each of which may be missing.
pub open spec fn time(s: Text, i: int) -> Option<(int, Text)> {
    if digits_at(s, i, 2) {
        let clock_end = fraction_end(s, sixtieths_end(s, sixtieths_end(s, i + 2)));
        let (end, zone) = zone(s, clock_end);
        Some((end, s.subrange(i, clock_end) + zone))
    } else {
        None
    }
}

/// The literal after the `@` at `i`: a timestamp, else a date, else a time, and
/// nothing more in the same word.
pub open spec fn datetime(s: Text, i: int) -> Option<(int, LiteralView)> {
    if !char_at(s, i, '@') {
        None
    } else if date_end(s, i + 1) is Some && char_at(s, i + 11, 'T') && time(s, i + 12) is Some
        && word_ends(s, time(s, i + 12).unwrap().0) {
        let (end, text) = time(s, i + 12).unwrap();
        Some((end, LiteralView::Timestamp(s.subrange(i + 1, i + 12) + text)))
    } else if date_end(s, i + 1) is Some && word_ends(s, i + 11) {
        Some((i + 11, LiteralView::Date(s.subrange(i + 1, i + 11))))
    } else if time(s, i + 1) is Some && word_ends(s, time(s, i + 1).unwrap().0) {
        let (end, text) = time(s, i + 1).unwrap();
        Some((end, LiteralView::Time(text)))
    } else {
        None
    }
}

fn find_date_end(s: &Vec<char>, i: usize) -> (r: Option<usize>)
    requires
        i <= s.len(),
    ensures
        match r {
            Some(end) => date_end(s@, i as int) == Some(end as int) && end == i + 10 && end
                <= s.len(),
            None => date_end(s@, i as int) is None,
        },
{
    if are_digits_at(s, i, 4) && is_char_at(s, i + 4, '-') && are_digits_at(s, i + 5, 2)
        && is_char_at(s, i + 7, '-') && are_digits_at(s, i + 8, 2) {
        Some(i + 10)
    } else {
        None
    }
}

fn find_sixtieths_end(s: &Vec<char>, i: usize) -> (end: usize)
    requires
        i <= s.len(),
    ensures
        end == sixtieths_end(s@, i as int),
        i <= end <= s.len(),
{
    if is_char_at(s, i, ':') && are_digits_at(s, i + 1, 2) {
        i + 3
    } else {
        i
    }
}

fn find_fraction_end(s: &Vec<char>, i: usize) -> (end: usize)
    requires
        i <= s.len(),
    ensures
        end == fraction_end(s@, i as int),
        i <= end <= s.len(),
{
    if is_char_at(s, i, '.') && is_class_at(s, i + 1, CharClass::Digit) {
        let end: usize = find_run_end(s, i + 1, CharClass::Digit);
        if end - i <= 7 {
            end
        } else {
            i + 7
        }
    } else {
        i
    }
}

fn read_zone(s: &Vec<char>, i: usize) -> (r: (usize, String))
    requires
        i <= s.len(),
    ensures
        zone(s@, i as int) == (r.0 as int, r.1@),
        i <= r.0 <= s.len(),
{
    if is_char_at(s, i, 'Z') {
        let mut text = String::new();
        text.push('Z');
        assert(text@ =~= seq!['Z']);
        (i + 1, text)
    } else if (is_char_at(s, i, '+') || is_char_at(s, i, '-')) && are_digits_at(s, i + 1, 2) {
        let minutes: usize = if is_char_at(s, i + 3, ':') {
            i + 4
        } else {
            i + 3
        };
        if are_digits_at(s, minutes, 2) {
            let mut text = text_between(s, i, i + 3);
            let rest = text_between(s, minutes, minutes + 2);
            text.append(rest.as_str());
            (minutes + 2, text)
        } else {
            (i, String::new())
        }
    } else {
        (i, String::new())
    }
}

fn read_time(s: &Vec<char>, i: usize) -> (r: Option<(usize, String)>)
    requires
        i <= s.len(),
    ensures
        match r {
            Some((end, text)) => time(s@, i as int) == Some((end as int, text@)) && i < end
                <= s.len(),
            None => time(s@, i as int) is None,
        },
{
    if are_digits_at(s, i, 2) {
        let minutes_end: usize = find_sixtieths_end(s, i + 2);
        let seconds_end: usize = find_sixtieths_end(s, minutes_end);
        let clock_end: usize = find_fraction_end(s, seconds_end);
        let (end, zone) = read_zone(s, clock_end);
        let mut text = text_between(s, i, clock_end);
        text.append(zone.as_str());
        Some((end, text))
    } else {
        None
    }
}

/// Reads the literal after the `@` at `i`.
pub fn read_datetime(s: &Vec<char>, i: usize) -> (r: Option<(usize, Literal)>)
    requires
        i <= s.len(),
    ensures
        match r {
            Some((end, literal)) => datetime(s@, i as int) == Some((end as int, literal.view()))
                && i < end <= s.len(),
            None => datetime(s@, i as int) is None,
        },
{
    if !is_char_at(s, i, '@') {
        return None;
    }
    let date_end = find_date_end(s, i + 1);
    if let Some(end) = date_end {
        if is_char_at(s, end, 'T') {
            if let Some((time_end, time)) = read_time(s, end + 1) {
                if is_word_end(s, time_end) {
                    let mut text = text_between(s, i + 1, end + 1);
                    text.append(time.as_str());
                    return Some((time_end, Literal::Timestamp(text)));
                }
            }
        }
        if is_word_end(s, end) {
            return Some((end, Literal::Date(text_between(s, i + 1, end))));
        }
    }
    if let Some((end, text)) = read_time(s, i + 1) {
        if is_word_end(s, end) {
            return Some((end, Literal::Time(text)));
        }
    }
    None
}

} // verus!
