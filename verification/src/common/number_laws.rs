//! Numbers as text: laws.

use vstd::prelude::*;
use crate::common::parse::{
    digits_value, integer_value, lemma_decimal_is_read, unsigned_value,
};
use crate::common::text::{decimal, integer_decimal};

verus! {

/// One more digit makes ten times the number and the digit.
pub proof fn digits_count_by_tens(text: Seq<char>, c: char)
    ensures
        digits_value(Seq::empty()) == Some(0nat),
        digits_value(text) matches Some(n) ==> '0' <= c <= '9' ==> digits_value(text.push(c))
            == Some((n * 10 + (c as nat - '0' as nat)) as nat),
        !('0' <= c <= '9') ==> digits_value(text.push(c)) is None,
        digits_value(text) is None ==> digits_value(text.push(c)) is None,
{
    assert(text.push(c).drop_last() =~= text);
}

/// A text stands for a number exactly where all its characters are digits.
pub proof fn digits_alone_stand_for_numbers(text: Seq<char>)
    ensures
        digits_value(text) is Some <==> forall|i: int|
            0 <= i < text.len() ==> '0' <= #[trigger] text[i] <= '9',
    decreases text.len(),
{
    if text.len() > 0 {
        let head = text.drop_last();
        digits_alone_stand_for_numbers(head);
        assert(text[text.len() - 1] == text.last());
        assert forall|i: int| 0 <= i < head.len() implies #[trigger] head[i] == text[i] by {}
        if forall|i: int| 0 <= i < text.len() ==> '0' <= #[trigger] text[i] <= '9' {
            assert forall|i: int| 0 <= i < head.len() implies '0' <= #[trigger] head[i] <= '9' by {
                assert('0' <= text[i] <= '9');
            }
        }
        if digits_value(text) is Some {
            assert forall|i: int| 0 <= i < text.len() implies '0' <= #[trigger] text[i] <= '9' by {
                if i < text.len() - 1 {
                    assert('0' <= head[i] <= '9');
                }
            }
        }
    }
}

/// An unsigned number is read from digits, at least one, with or without a plus sign before them;
/// one that is too great, and a text with anything else in it, is not read.
pub proof fn unsigned_numbers_are_digits(text: Seq<char>, max: nat)
    ensures
        text.len() == 0 ==> unsigned_value(text, max) is None,
        text.len() == 1 && text[0] == '+' ==> unsigned_value(text, max) is None,
        text.len() > 0 && text[0] == '-' ==> unsigned_value(text, max) is None,
        text.len() > 1 && text[0] == '+' ==> unsigned_value(text, max) == (match digits_value(
            text.skip(1),
        ) {
            Some(n) => if n <= max {
                Some(n)
            } else {
                None
            },
            None => None,
        }),
        text.len() > 0 && text[0] != '+' ==> unsigned_value(text, max) == (match digits_value(
            text,
        ) {
            Some(n) => if n <= max {
                Some(n)
            } else {
                None
            },
            None => None,
        }),
{
    if text.len() > 0 && text[0] == '+' {
        assert(text.subrange(1, text.len() as int) =~= text.skip(1));
    }
    if text.len() > 0 && text[0] == '-' {
        digits_alone_stand_for_numbers(text);
    }
}

/// An integer is read from digits, at least one, with or without a sign before them; a minus sign
/// makes it negative. One out of range is not read.
pub proof fn integers_are_signed_digits(digits: Seq<char>, min: int, max: int, n: nat)
    requires
        digits.len() > 0,
        digits_value(digits) == Some(n),
    ensures
        integer_value(digits, min, max) == (if min <= n <= max {
            Some(n as int)
        } else {
            None
        }),
        integer_value(seq!['+'] + digits, min, max) == (if min <= n <= max {
            Some(n as int)
        } else {
            None
        }),
        integer_value(seq!['-'] + digits, min, max) == (if min <= -n <= max {
            Some(-n)
        } else {
            None
        }),
        integer_value(Seq::empty(), min, max) is None,
        integer_value(seq!['-'], min, max) is None,
        integer_value(seq!['+'], min, max) is None,
{
    digits_alone_stand_for_numbers(digits);
    assert('0' <= digits[0] <= '9');
    let plus = seq!['+'] + digits;
    let minus = seq!['-'] + digits;
    assert(plus.subrange(1, plus.len() as int) =~= digits);
    assert(minus.subrange(1, minus.len() as int) =~= digits);
}

/// The text of a number has digits only, none of them a zero before the others, and no other number
/// has it.
pub proof fn decimal_text_stands_for_one_number(n: nat, m: nat, i: int)
    ensures
        decimal(n).len() > 0,
        0 <= i < decimal(n).len() ==> '0' <= decimal(n)[i] <= '9',
        n > 0 ==> decimal(n)[0] != '0',
        n < 10 ==> decimal(n).len() == 1,
        decimal(n) == decimal(m) ==> n == m,
{
    lemma_decimal_is_read(n);
    lemma_decimal_is_read(m);
    digits_alone_stand_for_numbers(decimal(n));
    lemma_first_digit(n);
}

proof fn lemma_first_digit(n: nat)
    ensures
        decimal(n).len() > 0,
        n > 0 ==> decimal(n)[0] != '0',
    decreases n,
{
    if n >= 10 {
        lemma_first_digit(n / 10);
    }
}

/// The text of an integer starts with a minus sign exactly where the integer is negative, and the
/// digits are those of the number without its sign.
pub proof fn negative_integers_have_a_sign(n: int)
    ensures
        integer_decimal(n).len() > 0,
        n < 0 <==> integer_decimal(n)[0] == '-',
        n >= 0 ==> integer_decimal(n) == decimal(n as nat),
        n < 0 ==> integer_decimal(n).skip(1) == decimal((-n) as nat),
{
    if n >= 0 {
        lemma_decimal_is_read(n as nat);
    } else {
        assert(integer_decimal(n).skip(1) =~= decimal((-n) as nat));
    }
}

} // verus!
