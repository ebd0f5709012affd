//! Decimal numerals read from text.
//!
//! A numeral is a run of one or more of the digits `0` to `9`. An unsigned
//! number is a numeral that a `+` may precede; a signed number is a numeral
//! that a `+` or a `-` may precede. Nothing else is accepted: no blanks, no
//! separators, no other digits than the ten of ASCII.

use vstd::prelude::*;

verus! {

/// Whether `c` is one of the digits `0` to `9`.
pub open spec fn is_digit(c: char) -> bool {
    '0' <= c <= '9'
}

/// The value of the digit `c`.
pub open spec fn digit_value(c: char) -> nat {
    (c as u32 - 48) as nat
}

/// Whether `text` holds digits only.
pub open spec fn all_digits(text: Seq<char>) -> bool {
    forall|i: int| 0 <= i < text.len() ==> is_digit(#[trigger] text[i])
}

/// The value of a run of digits, read as a decimal numeral.
pub open spec fn digits_value(digits: Seq<char>) -> nat
    decreases digits.len(),
{
    if digits.len() == 0 {
        0
    } else {
        10 * digits_value(digits.drop_last()) + digit_value(digits.last())
    }
}

/// The value of `text` read as an unsigned number, or `None` if it is none.
pub open spec fn unsigned_value(text: Seq<char>) -> Option<nat> {
    let digits = if text.len() > 0 && text[0] == '+' {
        text.drop_first()
    } else {
        text
    };
    if digits.len() > 0 && all_digits(digits) {
        Some(digits_value(digits))
    } else {
        None
    }
}

/// The value of `text` read as a signed number, or `None` if it is none.
pub open spec fn signed_value(text: Seq<char>) -> Option<int> {
    if text.len() > 0 && text[0] == '-' {
        let digits = text.drop_first();
        if digits.len() > 0 && all_digits(digits) {
            Some(-(digits_value(digits) as int))
        } else {
            None
        }
    } else {
        match unsigned_value(text) {
            Some(v) => Some(v as int),
            None => None,
        }
    }
}

/// The value of `text` as an unsigned number no greater than `max`.
pub open spec fn unsigned_within(text: Seq<char>, max: nat) -> Option<nat> {
    match unsigned_value(text) {
        Some(v) => if v <= max {
            Some(v)
        } else {
            None
        },
        None => None,
    }
}

/// The value of `text` as a signed number between `min` and `max`.
pub open spec fn signed_within(text: Seq<char>, min: int, max: int) -> Option<int> {
    match signed_value(text) {
        Some(v) => if min <= v <= max {
            Some(v)
        } else {
            None
        },
        None => None,
    }
}

/// A numeral is worth at least as much as any of its prefixes.
proof fn lemma_prefix_value(digits: Seq<char>, k: int)
    requires
        0 <= k <= digits.len(),
    ensures
        digits_value(digits.take(k)) <= digits_value(digits),
    decreases digits.len(),
{
    if k == digits.len() {
        assert(digits.take(k) =~= digits);
    } else {
        assert(digits.drop_last().take(k) =~= digits.take(k));
        lemma_prefix_value(digits.drop_last(), k);
    }
}

/// Reads the digits `chars[from..to]` as a numeral no greater than `max`.
/// Returns `None` if there is no digit, if a character is no digit, or if
/// the value exceeds `max`.
pub fn parse_digits(chars: &[char], from: usize, to: usize, max: u64) -> (r: Option<u64>)
    requires
        from <= to <= chars.len(),
    ensures
        ({
            let digits = chars@.subrange(from as int, to as int);
            if digits.len() > 0 && all_digits(digits) && digits_value(digits) <= max {
                r == Some(digits_value(digits) as u64)
            } else {
                r is None
            }
        }),
{
    let ghost digits = chars@.subrange(from as int, to as int);
    if from == to {
        return None;
    }
    let mut value: u64 = 0;
    let mut i: usize = from;
    assert(digits.take(0) =~= Seq::<char>::empty());
    while i < to
        invariant
            from <= i <= to,
            to <= chars.len(),
            digits == chars@.subrange(from as int, to as int),
            all_digits(digits.take(i - from)),
            value == digits_value(digits.take(i - from)),
            value <= max,
        decreases to - i,
    {
        let c = chars[i];
        assert(c == digits[i - from]);
        if c < '0' || c > '9' {
            return None;
        }
        let d: u64 = (c as u32 - 48) as u64;
        let next: u128 = 10 * (value as u128) + (d as u128);
        proof {
            let longer = digits.take(i - from + 1);
            assert(longer.drop_last() =~= digits.take(i - from));
            assert(longer.last() == c);
            assert(digits_value(longer) == next);
            assert forall|k: int| 0 <= k < longer.len() implies is_digit(#[trigger] longer[k]) by {
                if k < i - from {
                    assert(digits.take(i - from)[k] == longer[k]);
                }
            }
            lemma_prefix_value(digits, i - from + 1);
        }
        if next > max as u128 {
            return None;
        }
        value = next as u64;
        i += 1;
    }
    assert(digits.take(i - from) =~= digits);
    Some(value)
}

/// Reads `chars[from..to]` as an unsigned number no greater than `max`.
pub fn parse_unsigned_in(chars: &[char], from: usize, to: usize, max: u64) -> (r: Option<u64>)
    requires
        from <= to <= chars.len(),
    ensures
        match unsigned_within(chars@.subrange(from as int, to as int), max as nat) {
            Some(v) => r == Some(v as u64),
            None => r is None,
        },
{
    let ghost text = chars@.subrange(from as int, to as int);
    let start: usize = if from < to && chars[from] == '+' {
        from + 1
    } else {
        from
    };
    proof {
        if start == from + 1 {
            assert(text[0] == '+');
            assert(chars@.subrange(start as int, to as int) =~= text.drop_first());
        } else if from < to {
            assert(text[0] == chars@[from as int]);
        }
    }
    parse_digits(chars, start, to, max)
}

/// Reads `chars` as an unsigned number no greater than `max`.
pub fn parse_unsigned(chars: &[char], max: u64) -> (r: Option<u64>)
    ensures
        match unsigned_within(chars@, max as nat) {
            Some(v) => r == Some(v as u64),
            None => r is None,
        },
{
    assert(chars@.subrange(0, chars.len() as int) =~= chars@);
    parse_unsigned_in(chars, 0, chars.len(), max)
}

/// Reads `chars` as a signed number between `min` and `max`.
pub fn parse_signed(chars: &[char], min: i64, max: i64) -> (r: Option<i64>)
    requires
        min <= 0 <= max,
    ensures
        match signed_within(chars@, min as int, max as int) {
            Some(v) => r == Some(v as i64),
            None => r is None,
        },
{
    if chars.len() > 0 && chars[0] == '-' {
        proof {
            assert(chars@.subrange(1, chars.len() as int) =~= chars@.drop_first());
        }
        let limit: u64 = if min == i64::MIN {
            9223372036854775808u64
        } else {
            (-min) as u64
        };
        match parse_digits(chars, 1, chars.len(), limit) {
            Some(v) => {
                if v == 9223372036854775808u64 {
                    Some(i64::MIN)
                } else {
                    Some(-(v as i64))
                }
            },
            None => None,
        }
    } else {
        match parse_unsigned(chars, max as u64) {
            Some(v) => Some(v as i64),
            None => None,
        }
    }
}

} // verus!
