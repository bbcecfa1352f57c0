//! The values of numbers written in decimal.

use vstd::prelude::*;
use crate::grammar::{is_digit, is_float_text, scan_float};
use crate::text::chars_of;

verus! {

/// The number that a sequence of digits writes; the most significant digit comes first.
pub open spec fn digits_value(digits: Seq<char>) -> nat
    decreases digits.len(),
{
    if digits.len() == 0 {
        0
    } else {
        (10 * digits_value(digits.drop_last()) + (digits.last() as int - '0' as int)) as nat
    }
}

/// Whether every character of `s` is a digit.
pub open spec fn all_digits(s: Seq<char>) -> bool {
    forall|i: int| 0 <= i < s.len() ==> is_digit(#[trigger] s[i])
}

/// The sign that `text` opens with, as the number of characters it takes.
pub open spec fn sign_width(text: Seq<char>) -> int {
    if text.len() > 0 && (text[0] == '-' || text[0] == '+') {
        1
    } else {
        0
    }
}

/// The integer that `text` writes: an optional `+` or `-`, then one digit or more. `None` where
/// `text` is not of that form.
pub open spec fn integer_value(text: Seq<char>) -> Option<int> {
    let digits = text.subrange(sign_width(text), text.len() as int);
    if digits.len() > 0 && all_digits(digits) {
        if text[0] == '-' {
            Some(-(digits_value(digits) as int))
        } else {
            Some(digits_value(digits) as int)
        }
    } else {
        None
    }
}

/// The value of `text` as a 64-bit integer: that of `integer_value`, where it is in range.
pub open spec fn i64_value(text: Seq<char>) -> Option<i64> {
    match integer_value(text) {
        Some(v) => if i64::MIN <= v <= i64::MAX {
            Some(v as i64)
        } else {
            None
        },
        None => None,
    }
}

/// The value of `text` as a 64-bit integer.
pub fn parse_i64(text: &str) -> (value: Option<i64>)
    ensures
        value == i64_value(text@),
{
    let chars = chars_of(text);
    let n = chars.len();
    let negative = n > 0 && chars[0] == '-';
    let first: usize = if n > 0 && (chars[0] == '-' || chars[0] == '+') {
        1
    } else {
        0
    };
    if first == n {
        return None;
    }
    let ghost digits = text@.subrange(first as int, n as int);
    let mut magnitude: u128 = 0;
    let mut too_large = false;
    let mut i: usize = first;
    while i < n
        invariant
            first <= i <= n,
            n == chars.len(),
            chars@ == text@,
            digits == text@.subrange(first as int, n as int),
            first == sign_width(text@),
            all_digits(digits.take(i - first)),
            !too_large ==> magnitude == digits_value(digits.take(i - first)),
            !too_large ==> magnitude <= 0x8000_0000_0000_0000,
            too_large ==> digits_value(digits.take(i - first)) > 0x8000_0000_0000_0000,
        decreases n - i,
    {
        let c = chars[i];
        proof {
            let next = digits.take(i + 1 - first);
            assert(next.drop_last() =~= digits.take(i - first));
        }
        if !('0' <= c && c <= '9') {
            proof {
                let k = i - first;
                assert(!is_digit(digits[k]));
            }
            return None;
        }
        proof {
            let next = digits.take(i + 1 - first);
            assert forall|j: int| 0 <= j < next.len() implies is_digit(#[trigger] next[j]) by {
                if j < i - first {
                }
            }
        }
        if !too_large {
            let d: u128 = (c as u32 - '0' as u32) as u128;
            magnitude = magnitude * 10 + d;
            if magnitude > 0x8000_0000_0000_0000 {
                too_large = true;
            }
        }
        i += 1;
    }
    proof {
        assert(digits.take(n - first) =~= digits);
    }
    if too_large {
        None
    } else if negative {
        if magnitude == 0x8000_0000_0000_0000 {
            Some(i64::MIN)
        } else {
            Some(-(magnitude as i64))
        }
    } else if magnitude == 0x8000_0000_0000_0000 {
        None
    } else {
        Some(magnitude as i64)
    }
}

/// Whether the whole of `text` is a float as the grammar writes it.
pub fn is_float(text: &str) -> (b: bool)
    ensures
        b == is_float_text(text@),
{
    let chars = chars_of(text);
    match scan_float(&chars, 0) {
        Some(end) => end == chars.len(),
        None => false,
    }
}

} // verus!
