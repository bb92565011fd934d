//! Decimal notation for integers: the text of operands and answers.

use vstd::prelude::*;
use vstd::string::*;

verus! {

/// The character that stands for the digit `d`, for `d` from 0 to 9.
pub open spec fn digit_char(d: int) -> char {
    seq!['0', '1', '2', '3', '4', '5', '6', '7', '8', '9'][d]
}

/// The decimal notation of `n`, without leading zeros.
pub open spec fn decimal_digits(n: nat) -> Seq<char>
    decreases n,
{
    if n < 10 {
        seq![digit_char(n as int)]
    } else {
        decimal_digits(n / 10).push(digit_char((n % 10) as int))
    }
}

/// The decimal notation of `v`, with a leading minus sign where `v` is negative.
pub open spec fn signed_decimal(v: int) -> Seq<char> {
    if v < 0 {
        seq!['-'] + decimal_digits((-v) as nat)
    } else {
        decimal_digits(v as nat)
    }
}

/// Whether `c` is one of the ten digits.
pub open spec fn is_digit(c: char) -> bool {
    '0' <= c <= '9'
}

/// The number that the digit `c` stands for.
pub open spec fn digit_value(c: char) -> int {
    c as int - '0' as int
}

/// Whether every character of `s` is a digit.
pub open spec fn all_digits(s: Seq<char>) -> bool {
    forall|i: int| 0 <= i < s.len() ==> is_digit(#[trigger] s[i])
}

/// The number that a run of digits denotes; zero for the empty run.
pub open spec fn digits_value(s: Seq<char>) -> int
    decreases s.len(),
{
    if s.len() == 0 {
        0
    } else {
        digits_value(s.drop_last()) * 10 + digit_value(s.last())
    }
}

/// Whether `s` is the decimal notation of a number: one digit or more,
/// and no leading zero before another digit.
pub open spec fn canonical(s: Seq<char>) -> bool {
    &&& s.len() >= 1
    &&& all_digits(s)
    &&& s.len() > 1 ==> s[0] != '0'
}

/// The decimal notation of a number is canonical and denotes the number.
pub proof fn lemma_decimal_canonical(n: nat)
    ensures
        canonical(decimal_digits(n)),
        digits_value(decimal_digits(n)) == n,
        n == 0 <==> decimal_digits(n)[0] == '0',
    decreases n,
{
    if n < 10 {
        let s = decimal_digits(n);
        assert(s.drop_last() =~= Seq::<char>::empty());
        assert(digits_value(s.drop_last()) == 0);
    } else {
        lemma_decimal_canonical(n / 10);
        let shorter = decimal_digits(n / 10);
        let s = decimal_digits(n);
        assert(s.drop_last() =~= shorter);
        assert(s[0] == shorter[0]);
    }
}

/// A run of digits denotes a number that is not negative, and a positive
/// one where its first digit is not zero.
pub proof fn lemma_digits_value_bounds(s: Seq<char>)
    requires
        all_digits(s),
    ensures
        0 <= digits_value(s),
        s.len() >= 1 && s[0] != '0' ==> 1 <= digits_value(s),
    decreases s.len(),
{
    if s.len() > 0 {
        lemma_digits_value_bounds(s.drop_last());
        assert(is_digit(s.last()));
        if s.len() > 1 {
            assert(s.drop_last()[0] == s[0]);
        }
    }
}

/// A canonical run of digits is the decimal notation of the number that
/// it denotes.
pub proof fn lemma_canonical_decimal(s: Seq<char>)
    requires
        canonical(s),
    ensures
        0 <= digits_value(s),
        decimal_digits(digits_value(s) as nat) == s,
    decreases s.len(),
{
    lemma_digits_value_bounds(s);
    let shorter = s.drop_last();
    assert(is_digit(s.last()));
    let d = digit_value(s.last());
    assert(digit_char(d) == s.last());
    if s.len() == 1 {
        assert(shorter =~= Seq::<char>::empty());
        assert(digits_value(shorter) == 0);
        assert(decimal_digits(d as nat) =~= s);
    } else {
        assert(shorter[0] == s[0]);
        assert(canonical(shorter));
        lemma_canonical_decimal(shorter);
        lemma_digits_value_bounds(shorter);
        let v = digits_value(s);
        assert(v / 10 == digits_value(shorter) && v % 10 == d);
        assert(decimal_digits(v as nat) =~= shorter.push(s.last()));
        assert(shorter.push(s.last()) =~= s);
    }
}

/// A longer run of digits denotes no less than its beginning.
pub proof fn lemma_digits_value_grows(s: Seq<char>, k: int)
    requires
        all_digits(s),
        0 <= k <= s.len(),
    ensures
        digits_value(s.take(k)) <= digits_value(s),
    decreases s.len() - k,
{
    if k == s.len() {
        assert(s.take(k) =~= s);
    } else {
        lemma_digits_value_grows(s, k + 1);
        let longer = s.take(k + 1);
        assert(longer.drop_last() =~= s.take(k));
        assert(is_digit(longer.last()));
        lemma_digits_value_bounds(s.take(k));
    }
}

/// The place of the first character from `from` on that is no digit, or
/// the length where every one is a digit.
pub open spec fn run_end(s: Seq<char>, from: int) -> int
    decreases s.len() - from,
{
    if 0 <= from < s.len() && is_digit(s[from]) {
        run_end(s, from + 1)
    } else {
        from
    }
}

/// A run of digits that no digit follows ends where it ends.
pub proof fn lemma_run_end(s: Seq<char>, from: int, end: int)
    requires
        0 <= from <= end <= s.len(),
        all_digits(s.subrange(from, end)),
        end < s.len() ==> !is_digit(s[end]),
    ensures
        run_end(s, from) == end,
    decreases end - from,
{
    if from < end {
        assert(s.subrange(from, end)[0] == s[from]);
        assert forall|i: int| 0 <= i < end - (from + 1) implies is_digit(
            #[trigger] s.subrange(from + 1, end)[i],
        ) by {
            assert(s.subrange(from + 1, end)[i] == s.subrange(from, end)[i + 1]);
        }
        lemma_run_end(s, from + 1, end);
    }
}

/// The number that the characters from `from` to `to` denote, where they
/// are its decimal notation and it fits a signed number of 64 bits.
pub open spec fn number_at(s: Seq<char>, from: int, to: int) -> Option<i64> {
    let run = s.subrange(from, to);
    if canonical(run) && digits_value(run) <= i64::MAX {
        Some(digits_value(run) as i64)
    } else {
        None
    }
}

/// Whether `c` is a digit.
pub(crate) fn digit(c: char) -> (yes: bool)
    ensures
        yes == is_digit(c),
{
    '0' <= c && c <= '9'
}

/// The place of the first character from `from` on that is no digit, or
/// the length where every one is a digit.
pub(crate) fn digits_end(chars: &Vec<char>, from: usize) -> (end: usize)
    requires
        from <= chars@.len(),
    ensures
        from <= end <= chars@.len(),
        all_digits(chars@.subrange(from as int, end as int)),
        end < chars@.len() ==> !is_digit(chars@[end as int]),
        end == run_end(chars@, from as int),
{
    let mut end = from;
    while end < chars.len() && digit(chars[end])
        invariant
            from <= end <= chars@.len(),
            all_digits(chars@.subrange(from as int, end as int)),
        decreases chars@.len() - end,
    {
        end += 1;
    }
    proof {
        lemma_run_end(chars@, from as int, end as int);
    }
    end
}

/// The number that the characters from `from` to `to` denote, where they
/// are all digits.
pub(crate) fn read_number(chars: &Vec<char>, from: usize, to: usize) -> (number: Option<i64>)
    requires
        from <= to <= chars@.len(),
        all_digits(chars@.subrange(from as int, to as int)),
    ensures
        number == number_at(chars@, from as int, to as int),
{
    if from == to {
        return None;
    }
    if to - from > 1 && chars[from] == '0' {
        assert(chars@.subrange(from as int, to as int)[0] == chars@[from as int]);
        return None;
    }
    assert(to - from > 1 ==> chars@.subrange(from as int, to as int)[0] == chars@[from as int]);
    let max: u64 = 0x7fff_ffff_ffff_ffff;
    assert(max == i64::MAX);
    proof {
        lemma_digits_value_bounds(chars@.subrange(from as int, to as int));
    }
    match number_of_digits(chars, from, to, max) {
        Some(number) => Some(number as i64),
        None => None,
    }
}

/// The number that the digits from `from` to `to` denote, where it is at
/// most `max`.
pub(crate) fn number_of_digits(
    chars: &Vec<char>,
    from: usize,
    to: usize,
    max: u64,
) -> (number: Option<u64>)
    requires
        from <= to <= chars@.len(),
        all_digits(chars@.subrange(from as int, to as int)),
    ensures
        number == if digits_value(chars@.subrange(from as int, to as int)) <= max {
            Some(digits_value(chars@.subrange(from as int, to as int)) as u64)
        } else {
            None
        },
{
    let ghost run = chars@.subrange(from as int, to as int);
    let mut sum: u128 = 0;
    let mut i = from;
    proof {
        assert(run.take(0) =~= Seq::<char>::empty());
    }
    while i < to
        invariant
            from <= i <= to <= chars@.len(),
            run == chars@.subrange(from as int, to as int),
            all_digits(run),
            sum == digits_value(run.take(i - from)),
            sum <= max,
        decreases to - i,
    {
        let c = chars[i];
        proof {
            assert(run.take(i - from + 1).drop_last() =~= run.take(i - from));
            assert(run.take(i - from + 1).last() == c);
            assert(is_digit(run[i - from]));
        }
        let d: u128 = (c as u32 - '0' as u32) as u128;
        sum = sum * 10 + d;
        if sum > max as u128 {
            proof {
                lemma_digits_value_grows(run, i - from + 1);
            }
            return None;
        }
        i += 1;
    }
    proof {
        assert(run.take(to - from) =~= run);
    }
    Some(sum as u64)
}

/// The digit `d` as a text of one character.
fn digit_text(d: u64) -> (s: &'static str)
    requires
        d < 10,
    ensures
        s@ == seq![digit_char(d as int)],
{
    proof {
        reveal_strlit("0");
        reveal_strlit("1");
        reveal_strlit("2");
        reveal_strlit("3");
        reveal_strlit("4");
        reveal_strlit("5");
        reveal_strlit("6");
        reveal_strlit("7");
        reveal_strlit("8");
        reveal_strlit("9");
    }
    let s = if d == 0 {
        "0"
    } else if d == 1 {
        "1"
    } else if d == 2 {
        "2"
    } else if d == 3 {
        "3"
    } else if d == 4 {
        "4"
    } else if d == 5 {
        "5"
    } else if d == 6 {
        "6"
    } else if d == 7 {
        "7"
    } else if d == 8 {
        "8"
    } else {
        "9"
    };
    assert(s@ =~= seq![digit_char(d as int)]);
    s
}

/// Appends the decimal notation of `n` to `out`.
pub fn push_decimal(out: &mut String, n: u64)
    ensures
        final(out)@ == old(out)@ + decimal_digits(n as nat),
    decreases n,
{
    if n >= 10 {
        push_decimal(out, n / 10);
    }
    out.append(digit_text(n % 10));
    assert(out@ =~= old(out)@ + decimal_digits(n as nat));
}

/// The magnitude of `v` as an unsigned number.
pub(crate) fn magnitude(v: i64) -> (m: u64)
    ensures
        m == if v < 0 { -(v as int) } else { v as int },
{
    if v >= 0 {
        v as u64
    } else {
        ((-(v + 1)) as u64) + 1
    }
}

/// The decimal notation of `v`.
pub fn render_decimal(v: i64) -> (s: String)
    ensures
        s@ == signed_decimal(v as int),
{
    let mut s = String::new();
    if v < 0 {
        proof {
            reveal_strlit("-");
        }
        s.append("-");
        assert(s@ =~= seq!['-']);
    }
    push_decimal(&mut s, magnitude(v));
    s
}

} // verus!
