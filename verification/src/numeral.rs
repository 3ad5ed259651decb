//! Unsigned decimal numerals.
//!
//! Block heights and timestamps arrive as text. A numeral is an optional
//! leading `+` followed by one or more ASCII digits; anything else, and any
//! value above `u64::MAX`, is not a number.

use vstd::prelude::*;
use vstd::string::*;

verus! {

/// Whether `c` is one of the ten ASCII digits.
pub open spec fn is_digit(c: char) -> bool {
    '0' <= c <= '9'
}

/// The number a digit stands for.
pub open spec fn digit_value(c: char) -> nat {
    (c as int - '0' as int) as nat
}

/// Whether every character of `s` is a digit.
pub open spec fn all_digits(s: Seq<char>) -> bool {
    forall|i: int| 0 <= i < s.len() ==> is_digit(#[trigger] s[i])
}

/// The number written by the digits of `s`, most significant first.
pub open spec fn decimal_value(s: Seq<char>) -> nat
    decreases s.len(),
{
    if s.len() == 0 {
        0
    } else {
        decimal_value(s.drop_last()) * 10 + digit_value(s.last())
    }
}

/// The text that is left once a leading `+` is taken off. A lone `+` is kept:
/// it has no digits behind it and is not a number.
pub open spec fn unsigned_part(s: Seq<char>) -> Seq<char> {
    if s.len() > 1 && s[0] == '+' {
        s.skip(1)
    } else {
        s
    }
}

/// The number that `s` denotes, if it is a numeral that fits in 64 bits.
pub open spec fn parse_u64_spec(s: Seq<char>) -> Option<u64> {
    let digits = unsigned_part(s);
    if digits.len() > 0 && all_digits(digits) && decimal_value(digits) <= u64::MAX {
        Some(decimal_value(digits) as u64)
    } else {
        None
    }
}

/// Writing more digits behind a numeral never makes it smaller.
pub proof fn lemma_decimal_value_grows(s: Seq<char>, k: int)
    requires
        0 <= k <= s.len(),
    ensures
        decimal_value(s.take(k)) <= decimal_value(s),
    decreases s.len(),
{
    if k == s.len() {
        assert(s.take(k) =~= s);
    } else {
        lemma_decimal_value_grows(s.drop_last(), k);
        assert(s.drop_last().take(k) =~= s.take(k));
    }
}

/// Reads an unsigned decimal numeral: the value of text that is an optional
/// `+` and then one or more ASCII digits making a value up to `u64::MAX`, and
/// nothing for any other text.
pub fn parse_u64(s: &str) -> (r: Option<u64>)
    ensures
        r == parse_u64_spec(s@),
{
    if !s.is_ascii() {
        proof {
            let digits = unsigned_part(s@);
            let i = choose|i: int| 0 <= i < s@.len() && !('\0' <= #[trigger] s@[i] <= '\u{7f}');
            if s@.len() > 1 && s@[0] == '+' {
                assert(digits[i - 1] == s@[i]);
            }
        }
        return None;
    }
    proof {
        is_ascii_spec_bytes(s);
    }
    let bytes = s.as_bytes();
    let n = bytes.len();
    let start: usize = if n > 1 && bytes[0] == 43u8 {
        1
    } else {
        0
    };
    let ghost digits = unsigned_part(s@);
    assert(digits =~= s@.skip(start as int));
    if start == n {
        return None;
    }
    let mut acc: u64 = 0;
    let mut i: usize = start;
    while i < n
        invariant
            n == s@.len(),
            n == bytes@.len(),
            forall|j: int| 0 <= j < n ==> '\0' <= #[trigger] s@[j] <= '\u{7f}',
            forall|j: int| 0 <= j < n ==> bytes@[j] == #[trigger] s@[j] as u8,
            start <= i <= n,
            digits == s@.skip(start as int),
            digits == unsigned_part(s@),
            all_digits(digits.take(i - start)),
            acc == decimal_value(digits.take(i - start)),
        decreases n - i,
    {
        let b = bytes[i];
        let ghost c = s@[i as int];
        assert(c == digits[i - start]);
        if b < 48u8 || b > 57u8 {
            return None;
        }
        let d: u64 = (b - 48u8) as u64;
        let ghost longer = digits.take(i - start + 1);
        assert(longer.drop_last() =~= digits.take(i - start));
        if acc > (u64::MAX - d) / 10 {
            proof {
                lemma_decimal_value_grows(digits, i - start + 1);
            }
            return None;
        }
        acc = acc * 10 + d;
        i = i + 1;
    }
    assert(digits.take(i - start) =~= digits);
    Some(acc)
}

} // verus!
