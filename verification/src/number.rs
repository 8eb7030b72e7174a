//! Reading a number: decimal digits with an optional sign, as a 32-bit
//! signed integer.

use crate::lexer::is_digit;
use vstd::prelude::*;

verus! {

/// The value of a decimal digit.
pub open spec fn digit_value(b: u8) -> nat {
    if is_digit(b) {
        (b - 0x30) as nat
    } else {
        0
    }
}

/// The number that decimal digits spell.
pub open spec fn digits_value(digits: Seq<u8>) -> nat
    decreases digits.len(),
{
    if digits.len() == 0 {
        0
    } else {
        digits_value(digits.drop_last()) * 10 + digit_value(digits.last())
    }
}

/// Whether all the bytes are decimal digits.
pub open spec fn all_digits(digits: Seq<u8>) -> bool {
    forall|k: int| 0 <= k < digits.len() ==> is_digit(#[trigger] digits[k])
}

/// Whether the text starts with a sign.
pub open spec fn is_signed(text: Seq<u8>) -> bool {
    text.len() > 0 && (text[0] == 0x2d || text[0] == 0x2b)
}

/// The number that a text spells: an optional `+` or `-` and then one or
/// more decimal digits, whose value fits in 32 bits with its sign. Nothing
/// for any other text.
pub open spec fn parse_i32_spec(text: Seq<u8>) -> Option<i32> {
    let digits = if is_signed(text) {
        text.skip(1)
    } else {
        text
    };
    if digits.len() == 0 || !all_digits(digits) {
        None
    } else if text[0] == 0x2d {
        if digits_value(digits) <= 0x8000_0000 {
            Some((-digits_value(digits)) as i32)
        } else {
            None
        }
    } else {
        if digits_value(digits) <= 0x7fff_ffff {
            Some(digits_value(digits) as i32)
        } else {
            None
        }
    }
}

/// More digits do not spell a smaller number.
pub proof fn lemma_value_grows(digits: Seq<u8>, k: int)
    requires
        0 <= k <= digits.len(),
    ensures
        digits_value(digits.take(k)) <= digits_value(digits),
    decreases digits.len(),
{
    if k < digits.len() {
        lemma_value_grows(digits.drop_last(), k);
        assert(digits.drop_last().take(k) =~= digits.take(k));
    } else {
        assert(digits.take(k) =~= digits);
    }
}

/// Reads the bytes from `start` up to `end` as a number.
pub fn parse_i32(input: &[u8], start: usize, end: usize) -> (r: Option<i32>)
    requires
        start <= end <= input@.len(),
    ensures
        r == parse_i32_spec(input@.subrange(start as int, end as int)),
{
    let ghost text = input@.subrange(start as int, end as int);
    let signed = start < end && (input[start] == 0x2d || input[start] == 0x2b);
    let negative = start < end && input[start] == 0x2d;
    let first: usize = if signed {
        start + 1
    } else {
        start
    };
    let ghost digits = input@.subrange(first as int, end as int);
    assert(digits =~= if is_signed(text) {
        text.skip(1)
    } else {
        text
    });
    if first == end {
        return None;
    }
    let mut value: u64 = 0;
    let mut k: usize = first;
    assert(digits.take(0) =~= Seq::<u8>::empty());
    while k < end
        invariant
            first <= k <= end <= input@.len(),
            text == input@.subrange(start as int, end as int),
            digits == input@.subrange(first as int, end as int),
            digits == (if is_signed(text) {
                text.skip(1)
            } else {
                text
            }),
            value == digits_value(digits.take(k - first)),
            value <= 0x8000_0000,
            forall|i: int| 0 <= i < k - first ==> is_digit(#[trigger] digits[i]),
        decreases end - k,
    {
        let b = input[k];
        assert(digits[k - first] == b);
        if !(0x30 <= b && b <= 0x39) {
            assert(!all_digits(digits));
            return None;
        }
        proof {
            assert(digits.take(k - first + 1).drop_last() =~= digits.take(k - first));
            assert(digits.take(k - first + 1).last() == b);
            lemma_value_grows(digits, k - first + 1);
        }
        value = value * 10 + (b - 0x30) as u64;
        assert(value == digits_value(digits.take(k - first + 1)));
        if value > 0x8000_0000 {
            assert(all_digits(digits) ==> parse_i32_spec(text) is None);
            return None;
        }
        k += 1;
    }
    assert(digits.take(end - first) =~= digits);
    assert(text[0] == input@[start as int]);
    if negative {
        if value == 0x8000_0000 {
            Some(i32::MIN)
        } else {
            Some(-(value as i32))
        }
    } else if value <= 0x7fff_ffff {
        Some(value as i32)
    } else {
        None
    }
}

} // verus!
