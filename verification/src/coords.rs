//! Reading a pair of coordinates such as `[3,4]` from text.

use vstd::prelude::*;
use vstd::string::StrSliceExecFns;

verus! {

/// The character is one of the digits `0` to `9`.
pub open spec fn is_digit(c: char) -> bool {
    48 <= c as u32 <= 57
}

/// Every character is a digit.
pub open spec fn all_digits(s: Seq<char>) -> bool {
    forall|i: int| 0 <= i < s.len() ==> is_digit(#[trigger] s[i])
}

/// The number that a sequence of digits writes in base ten.
pub open spec fn decimal(s: Seq<char>) -> int
    decreases s.len(),
{
    if s.len() == 0 {
        0
    } else {
        decimal(s.drop_last()) * 10 + (s.last() as u32 - 48)
    }
}

/// The 16-bit number that the text writes: an optional sign, then one or
/// more digits, the whole within the range of the type.
pub open spec fn number(s: Seq<char>) -> Option<i16> {
    if s.len() == 0 {
        None
    } else {
        let signed = s[0] == '-' || s[0] == '+';
        let digits = if signed {
            s.skip(1)
        } else {
            s
        };
        let value = if s[0] == '-' {
            -decimal(digits)
        } else {
            decimal(digits)
        };
        if digits.len() == 0 || !all_digits(digits) || value < -32768 || value > 32767 {
            None
        } else {
            Some(value as i16)
        }
    }
}

/// The place of the first comma at or after `from`, or the length of the
/// text where there is none.
pub open spec fn comma_from(s: Seq<char>, from: int) -> int
    decreases s.len() - from,
{
    if from >= s.len() {
        s.len() as int
    } else if s[from] == ',' {
        from
    } else {
        comma_from(s, from + 1)
    }
}

/// The coordinates that the text writes. The first and the last character,
/// which must be ASCII, enclose two numbers separated by a comma; what
/// follows a second comma is ignored.
pub open spec fn coords(s: Seq<char>) -> Option<(i16, i16)> {
    if s.len() < 2 || s[0] as u32 >= 128 || s.last() as u32 >= 128 {
        None
    } else {
        let end = s.len() - 1;
        let inner = s.take(end);
        let first = comma_from(inner, 1);
        let second = comma_from(inner, first + 1);
        if first == end {
            None
        } else {
            match (number(inner.subrange(1, first)), number(inner.subrange(first + 1, second))) {
                (Some(x), Some(y)) => Some((x, y)),
                _ => None,
            }
        }
    }
}

/// Digits written after others make the number no smaller.
proof fn lemma_decimal_grows(s: Seq<char>, k: int)
    requires
        all_digits(s),
        0 <= k <= s.len(),
    ensures
        0 <= decimal(s.take(k)) <= decimal(s),
    decreases s.len() - k,
{
    if k == s.len() {
        assert(s.take(k) =~= s);
        lemma_decimal_positive(s);
    } else {
        lemma_decimal_grows(s, k + 1);
        assert(s.take(k + 1).drop_last() =~= s.take(k));
        assert(is_digit(s[k]));
        assert(s.take(k + 1).last() == s[k]);
        lemma_decimal_positive(s.take(k));
    }
}

proof fn lemma_decimal_positive(s: Seq<char>)
    requires
        all_digits(s),
    ensures
        0 <= decimal(s),
    decreases s.len(),
{
    if s.len() > 0 {
        assert(is_digit(s.last()));
        lemma_decimal_positive(s.drop_last());
    }
}

/// Reads the number that the characters from `from` up to `to` write.
fn read_number(s: &str, from: usize, to: usize) -> (r: Option<i16>)
    requires
        from <= to <= s@.len(),
    ensures
        r == number(s@.subrange(from as int, to as int)),
{
    let ghost text = s@.subrange(from as int, to as int);
    if from == to {
        return None;
    }
    let first = s.get_char(from);
    assert(text[0] == first);
    let negative = first == '-';
    let start = if first == '-' || first == '+' {
        from + 1
    } else {
        from
    };
    let ghost digits = s@.subrange(start as int, to as int);
    assert(digits =~= if first == '-' || first == '+' {
        text.skip(1)
    } else {
        text
    });
    if start == to {
        return None;
    }
    let mut value: i32 = 0;
    let mut i = start;
    while i < to
        invariant
            start <= i <= to,
            to <= s@.len(),
            text == s@.subrange(from as int, to as int),
            text.len() > 0,
            negative == (text[0] == '-'),
            digits == s@.subrange(start as int, to as int),
            digits == (if text[0] == '-' || text[0] == '+' {
                text.skip(1)
            } else {
                text
            }),
            all_digits(digits.take(i - start)),
            value == decimal(digits.take(i - start)),
            0 <= value <= 32768,
        decreases to - i,
    {
        let c = s.get_char(i);
        let d = c as u32;
        assert(digits[i - start] == c);
        if d < 48 || d > 57 {
            assert(!is_digit(digits[i - start]));
            return None;
        }
        proof {
            assert(digits.take(i + 1 - start).drop_last() =~= digits.take(i - start));
            assert(digits.take(i + 1 - start).last() == c);
        }
        value = value * 10 + (d - 48) as i32;
        if value > 32768 {
            proof {
                if all_digits(digits) {
                    lemma_decimal_grows(digits, i + 1 - start);
                    assert(decimal(digits) > 32768);
                }
            }
            return None;
        }
        i += 1;
    }
    assert(digits.take(to - start) =~= digits);
    if negative {
        Some((-value) as i16)
    } else if value == 32768 {
        None
    } else {
        Some(value as i16)
    }
}

/// Finds the first comma at or after `from` and before `end`.
fn find_comma(s: &str, from: usize, end: usize) -> (at: usize)
    requires
        from <= end <= s@.len(),
    ensures
        at == comma_from(s@.take(end as int), from as int),
        from <= at <= end,
{
    let ghost inner = s@.take(end as int);
    let mut i = from;
    while i < end
        invariant
            from <= i <= end,
            end <= s@.len(),
            inner == s@.take(end as int),
            comma_from(inner, from as int) == comma_from(inner, i as int),
        decreases end - i,
    {
        if s.get_char(i) == ',' {
            return i;
        }
        i += 1;
    }
    i
}

/// Reads a pair of coordinates such as `[3,4]`.
pub fn get_coords(s: &str) -> (r: Option<(i16, i16)>)
    ensures
        r == coords(s@),
{
    let len = s.unicode_len();
    if len < 2 {
        return None;
    }
    if s.get_char(0) as u32 >= 128 || s.get_char(len - 1) as u32 >= 128 {
        return None;
    }
    let end = len - 1;
    let ghost inner = s@.take(end as int);
    let first = find_comma(s, 1, end);
    if first == end {
        return None;
    }
    let second = find_comma(s, first + 1, end);
    assert(inner.subrange(1, first as int) =~= s@.subrange(1, first as int));
    assert(inner.subrange(first + 1, second as int) =~= s@.subrange(first + 1, second as int));
    let x = read_number(s, 1, first);
    let y = read_number(s, first + 1, second);
    match (x, y) {
        (Some(x), Some(y)) => Some((x, y)),
        _ => None,
    }
}

} // verus!
