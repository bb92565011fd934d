//! Texts that come from outside: characters, and dates written as year,
//! month and day with hyphens between them.

use crate::decimal::{
    all_digits, digits_end, digits_value, is_digit, lemma_digits_value_bounds, number_of_digits,
};
use vstd::prelude::*;
use vstd::string::*;

verus! {

/// The place of the first hyphen from `from` on, or the length where
/// there is none.
pub open spec fn field_end(s: Seq<char>, from: int) -> int
    decreases s.len() - from,
{
    if 0 <= from < s.len() && s[from] != '-' {
        field_end(s, from + 1)
    } else {
        from
    }
}

/// The number that a field denotes: digits, with or without a plus sign
/// before them, where the number is at most `max`.
pub open spec fn plain_number(s: Seq<char>, max: int) -> Option<int> {
    let digits = if s.len() > 0 && s[0] == '+' {
        s.skip(1)
    } else {
        s
    };
    if digits.len() > 0 && all_digits(digits) && digits_value(digits) <= max {
        Some(digits_value(digits))
    } else {
        None
    }
}

/// The year, month and day that a text names: three fields with a hyphen
/// after the first and after the second, each a number that fits its
/// type. Whether the calendar has such a day is not asked here.
pub open spec fn date_of_text(s: Seq<char>) -> Option<(i32, u32, u32)> {
    let a = field_end(s, 0);
    let b = field_end(s, a + 1);
    let c = field_end(s, b + 1);
    if a < s.len() && b < s.len() && c == s.len() {
        match (
            plain_number(s.subrange(0, a), i32::MAX as int),
            plain_number(s.subrange(a + 1, b), u32::MAX as int),
            plain_number(s.subrange(b + 1, s.len() as int), u32::MAX as int),
        ) {
            (Some(year), Some(month), Some(day)) => Some((year as i32, month as u32, day as u32)),
            _ => None,
        }
    } else {
        None
    }
}

/// Characters without a hyphen up to a hyphen or the end are one field.
pub proof fn lemma_field_end(s: Seq<char>, from: int, end: int)
    requires
        0 <= from <= end <= s.len(),
        forall|i: int| from <= i < end ==> s[i] != '-',
        end < s.len() ==> s[end] == '-',
    ensures
        field_end(s, from) == end,
    decreases end - from,
{
    if from < end {
        lemma_field_end(s, from + 1, end);
    }
}

/// The characters of a text, in order.
pub fn chars_of(text: &str) -> (chars: Vec<char>)
    ensures
        chars@ == text@,
{
    let mut chars: Vec<char> = Vec::new();
    for c in iter: text.chars()
        invariant
            iter.seq() == text@,
            chars@ == iter.seq().take(iter.index() as int),
    {
        chars.push(c);
        assert(chars@ =~= iter.seq().take(iter.index() + 1));
    }
    assert(chars@ =~= text@);
    chars
}

/// The place of the first hyphen from `from` on, or the length.
pub(crate) fn find_field_end(chars: &Vec<char>, from: usize) -> (end: usize)
    requires
        from <= chars@.len(),
    ensures
        from <= end <= chars@.len(),
        end == field_end(chars@, from as int),
{
    let mut end = from;
    while end < chars.len() && chars[end] != '-'
        invariant
            from <= end <= chars@.len(),
            forall|i: int| from <= i < end ==> chars@[i] != '-',
        decreases chars@.len() - end,
    {
        end += 1;
    }
    proof {
        lemma_field_end(chars@, from as int, end as int);
    }
    end
}

/// The number that the field from `from` to `to` denotes.
pub(crate) fn read_field(
    chars: &Vec<char>,
    from: usize,
    to: usize,
    max: u64,
) -> (number: Option<u64>)
    requires
        from <= to <= chars@.len(),
    ensures
        number == match plain_number(chars@.subrange(from as int, to as int), max as int) {
            Some(value) => Some(value as u64),
            None => None,
        },
        plain_number(chars@.subrange(from as int, to as int), max as int) matches Some(value)
            ==> 0 <= value <= max,
{
    let ghost field = chars@.subrange(from as int, to as int);
    let start = if from < to && chars[from] == '+' {
        from + 1
    } else {
        from
    };
    proof {
        if from < to {
            assert(field[0] == chars@[from as int]);
        }
        if start == from + 1 {
            assert(field.skip(1) =~= chars@.subrange(start as int, to as int));
        }
    }
    let ghost digits = chars@.subrange(start as int, to as int);
    let end = digits_end(chars, start);
    if start == to || end < to {
        proof {
            if end < to {
                assert(digits[end - start] == chars@[end as int]);
            }
        }
        return None;
    }
    proof {
        assert forall|i: int| 0 <= i < digits.len() implies is_digit(#[trigger] digits[i]) by {
            assert(digits[i] == chars@.subrange(start as int, end as int)[i]);
        }
        lemma_digits_value_bounds(digits);
    }
    number_of_digits(chars, start, to, max)
}

/// Reads a date written as year, month and day with hyphens between
/// them. Fails where there are not three fields, and where one of them is
/// no number or too great a number.
pub fn parse_date(text: &str) -> (date: Option<(i32, u32, u32)>)
    ensures
        date == date_of_text(text@),
{
    let chars = chars_of(text);
    let a = find_field_end(&chars, 0);
    if a >= chars.len() {
        return None;
    }
    let b = find_field_end(&chars, a + 1);
    if b >= chars.len() {
        return None;
    }
    let c = find_field_end(&chars, b + 1);
    if c != chars.len() {
        return None;
    }
    let year = match read_field(&chars, 0, a, 0x7fff_ffff) {
        Some(value) => value,
        None => {
            return None;
        },
    };
    let month = match read_field(&chars, a + 1, b, 0xffff_ffff) {
        Some(value) => value,
        None => {
            return None;
        },
    };
    let day = match read_field(&chars, b + 1, c, 0xffff_ffff) {
        Some(value) => value,
        None => {
            return None;
        },
    };
    Some((year as i32, month as u32, day as u32))
}

} // verus!
