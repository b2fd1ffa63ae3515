//! Reading numbers from text.

use vstd::prelude::*;
use crate::common::text::{decimal, digit_char, integer_decimal};

verus! {

/// The value of a decimal digit.
pub open spec fn digit_value(c: char) -> Option<nat> {
    if '0' <= c && c <= '9' {
        Some((c as nat - 48) as nat)
    } else {
        None
    }
}

/// The number that a text of digits stands for; none where a character is no digit.
pub open spec fn digits_value(text: Seq<char>) -> Option<nat>
    decreases text.len(),
{
    if text.len() == 0 {
        Some(0)
    } else {
        match (digits_value(text.drop_last()), digit_value(text.last())) {
            (Some(n), Some(d)) => Some(n * 10 + d),
            _ => None,
        }
    }
}

/// The text without the plus sign that may stand before the digits of an unsigned number.
pub open spec fn unsigned_digits(text: Seq<char>) -> Seq<char> {
    if text.len() > 0 && text[0] == '+' {
        text.subrange(1, text.len() as int)
    } else {
        text
    }
}

/// The number up to `max` that a text stands for: digits, at least one, behind an optional plus
/// sign.
pub open spec fn unsigned_value(text: Seq<char>, max: nat) -> Option<nat> {
    let digits = unsigned_digits(text);
    if digits.len() == 0 {
        None
    } else {
        match digits_value(digits) {
            Some(n) if n <= max => Some(n),
            _ => None,
        }
    }
}

/// The integer that a text stands for: digits, at least one, behind an optional sign.
pub open spec fn integer_value(text: Seq<char>, min: int, max: int) -> Option<int> {
    let negative = text.len() > 0 && text[0] == '-';
    let digits = if text.len() > 0 && (text[0] == '+' || text[0] == '-') {
        text.subrange(1, text.len() as int)
    } else {
        text
    };
    if digits.len() == 0 {
        None
    } else {
        match digits_value(digits) {
            Some(n) => {
                let value = if negative {
                    -(n as int)
                } else {
                    n as int
                };
                if min <= value <= max {
                    Some(value)
                } else {
                    None
                }
            },
            None => None,
        }
    }
}

/// A longer text of digits does not stand for a smaller number.
proof fn lemma_digits_grow(text: Seq<char>, i: int)
    requires
        0 <= i <= text.len(),
        digits_value(text) is Some,
    ensures
        digits_value(text.take(i)) is Some,
        digits_value(text.take(i))->0 <= digits_value(text)->0,
    decreases text.len() - i,
{
    if i < text.len() {
        lemma_digits_grow(text, i + 1);
        assert(text.take(i + 1).drop_last() =~= text.take(i));
    } else {
        assert(text.take(i) =~= text);
    }
}

/// A text that holds a character which is no digit stands for no number.
proof fn lemma_no_digit(text: Seq<char>, i: int)
    requires
        0 <= i < text.len(),
        digit_value(text[i]) is None,
    ensures
        digits_value(text) is None,
{
    if digits_value(text) is Some {
        lemma_digits_grow(text, i + 1);
        assert(text.take(i + 1).last() == text[i]);
    }
}

/// The value of the characters of a text from `from` on, where they are digits and stand for a
/// number up to `max`.
fn read_digits(text: &str, from: usize, max: u64) -> (r: Option<u64>)
    requires
        from <= text@.len(),
    ensures
        match digits_value(text@.subrange(from as int, text@.len() as int)) {
            Some(n) if n <= max => r == Some(n as u64),
            _ => r is None,
        },
{
    let n: usize = text.unicode_len();
    let ghost digits = text@.subrange(from as int, text@.len() as int);
    let mut value: u64 = 0;
    let mut i: usize = from;
    while i < n
        invariant
            n == text@.len(),
            from <= i <= n,
            digits == text@.subrange(from as int, text@.len() as int),
            digits_value(digits.take(i - from)) == Some(value as nat),
            value <= max,
        decreases n - i,
    {
        let c = text.get_char(i);
        let ghost before = digits.take(i - from);
        let ghost next = digits.take(i - from + 1);
        proof {
            assert(next.drop_last() =~= before);
            assert(next.last() == c);
            assert(digits[i - from] == c);
        }
        if !('0' <= c && c <= '9') {
            proof {
                lemma_no_digit(digits, i - from);
            }
            return None;
        }
        let d: u64 = (c as u32 - 48) as u64;
        if d > max || value > (max - d) / 10 {
            proof {
                assert(digits_value(next) == Some((value as nat) * 10 + d as nat));
                assert((value as nat) * 10 + d > max);
                if digits_value(digits) is Some {
                    lemma_digits_grow(digits, i - from + 1);
                }
            }
            return None;
        }
        value = value * 10 + d;
        i = i + 1;
    }
    assert(digits.take(i - from) =~= digits);
    Some(value)
}

/// Reads an unsigned number up to `max`.
pub fn parse_unsigned(text: &str, max: u64) -> (r: Option<u64>)
    ensures
        match unsigned_value(text@, max as nat) {
            Some(n) => r == Some(n as u64) && n <= max,
            None => r is None,
        },
{
    let n: usize = text.unicode_len();
    let from: usize = if n > 0 && text.get_char(0) == '+' {
        1
    } else {
        0
    };
    assert(text@.subrange(from as int, text@.len() as int) =~= unsigned_digits(text@));
    if from == n {
        return None;
    }
    read_digits(text, from, max)
}

/// Reads an integer between `min` and `max`.
pub fn parse_integer(text: &str, min: i64, max: i64) -> (r: Option<i64>)
    requires
        min <= 0 <= max,
    ensures
        match integer_value(text@, min as int, max as int) {
            Some(n) => r == Some(n as i64) && min <= n <= max,
            None => r is None,
        },
{
    let n: usize = text.unicode_len();
    let signed: bool = n > 0 && (text.get_char(0) == '+' || text.get_char(0) == '-');
    let negative: bool = n > 0 && text.get_char(0) == '-';
    let from: usize = if signed {
        1
    } else {
        0
    };
    let ghost digits = if text@.len() > 0 && (text@[0] == '+' || text@[0] == '-') {
        text@.subrange(1, text@.len() as int)
    } else {
        text@
    };
    assert(text@.subrange(from as int, text@.len() as int) =~= digits);
    if from == n {
        return None;
    }
    if negative {
        let limit: u64 = (-(min as i128)) as u64;
        match read_digits(text, from, limit) {
            Some(m) => Some((-(m as i128)) as i64),
            None => None,
        }
    } else {
        match read_digits(text, from, max as u64) {
            Some(m) => Some(m as i64),
            None => None,
        }
    }
}

/// The decimal text of a number is read as that number.
pub proof fn lemma_decimal_is_read(n: nat)
    ensures
        digits_value(decimal(n)) == Some(n),
        decimal(n).len() > 0,
        '0' <= decimal(n)[0] <= '9',
    decreases n,
{
    if n < 10 {
        let text = seq![digit_char(n)];
        assert(decimal(n) == text);
        assert(text.drop_last() =~= Seq::<char>::empty());
        assert(digits_value(Seq::<char>::empty()) == Some(0nat));
        assert(digit_value(digit_char(n)) == Some(n));
    } else {
        lemma_decimal_is_read(n / 10);
        let head = decimal(n / 10);
        let text = head.push(digit_char(n % 10));
        assert(decimal(n) == text);
        assert(text.drop_last() =~= head);
        assert(digit_value(digit_char(n % 10)) == Some(n % 10));
        assert(text[0] == head[0]);
    }
}

/// A number written in decimal is read back.
pub proof fn unsigned_text_is_read_back(n: nat, max: nat)
    requires
        n <= max,
    ensures
        unsigned_value(decimal(n), max) == Some(n),
{
    lemma_decimal_is_read(n);
}

/// An integer written in decimal is read back.
pub proof fn integer_text_is_read_back(n: int, min: int, max: int)
    requires
        min <= n <= max,
    ensures
        integer_value(integer_decimal(n), min, max) == Some(n),
{
    if n < 0 {
        lemma_decimal_is_read((-n) as nat);
        let text = integer_decimal(n);
        assert(text.subrange(1, text.len() as int) =~= decimal((-n) as nat));
    } else {
        lemma_decimal_is_read(n as nat);
    }
}

} // verus!
