//! Which strings are stored as integers, and in how many bytes.
//!
//! A string is stored as an integer only if it is the decimal form that the
//! integer would be printed in: no sign but a minus, no leading zero, no
//! blank. So the string can be given back from the integer alone.

use crate::consts::{
    DIGIT_NINE, DIGIT_ONE, DIGIT_ZERO, INT_24_MAX, INT_24_MIN, LONG_STR_SIZE, MINUS_SIGN,
    ZIP_INT_16B, ZIP_INT_24B, ZIP_INT_32B, ZIP_INT_64B, ZIP_INT_8B, ZIP_INT_IMM_MAX,
    ZIP_INT_IMM_MIN,
};
use crate::error::ZipListError;
use vstd::prelude::*;
use vstd::string::StringSliceAdditionalSpecFns;

verus! {

/// The tag is one of the immediate tags, whose integer is in the tag itself.
pub open spec fn is_immediate_tag(encoding: u8) -> bool {
    ZIP_INT_IMM_MIN <= encoding <= ZIP_INT_IMM_MAX
}

/// The tag is one of the five integer tags that are followed by a payload.
pub open spec fn is_fixed_int_tag(encoding: u8) -> bool {
    ||| encoding == ZIP_INT_8B
    ||| encoding == ZIP_INT_16B
    ||| encoding == ZIP_INT_24B
    ||| encoding == ZIP_INT_32B
    ||| encoding == ZIP_INT_64B
}

/// The number of payload bytes that follow an integer tag: none after an
/// immediate tag, and none after a tag that is no integer tag.
pub open spec fn int_payload_size(encoding: u8) -> u32 {
    if encoding == ZIP_INT_8B {
        1
    } else if encoding == ZIP_INT_16B {
        2
    } else if encoding == ZIP_INT_24B {
        3
    } else if encoding == ZIP_INT_32B {
        4
    } else if encoding == ZIP_INT_64B {
        8
    } else {
        0
    }
}

/// The integer that an immediate tag stands for.
pub open spec fn immediate_value(encoding: u8) -> int {
    encoding - ZIP_INT_IMM_MIN
}

/// The tag under which `value` is stored: an immediate tag for 0 to 11, else
/// the tag of the smallest payload that holds `value`.
pub open spec fn int_encoding(value: i64) -> u8 {
    if 0 <= value < 12 {
        (ZIP_INT_IMM_MIN + value) as u8
    } else if i8::MIN <= value <= i8::MAX {
        ZIP_INT_8B
    } else if i16::MIN <= value <= i16::MAX {
        ZIP_INT_16B
    } else if INT_24_MIN <= value <= INT_24_MAX {
        ZIP_INT_24B
    } else if i32::MIN <= value <= i32::MAX {
        ZIP_INT_32B
    } else {
        ZIP_INT_64B
    }
}

/// `value` can be stored under the integer tag `encoding` and read back.
pub open spec fn fits_encoding(value: int, encoding: u8) -> bool {
    if is_immediate_tag(encoding) {
        value == immediate_value(encoding)
    } else if encoding == ZIP_INT_8B {
        i8::MIN <= value <= i8::MAX
    } else if encoding == ZIP_INT_16B {
        i16::MIN <= value <= i16::MAX
    } else if encoding == ZIP_INT_24B {
        INT_24_MIN <= value <= INT_24_MAX
    } else if encoding == ZIP_INT_32B {
        i32::MIN <= value <= i32::MAX
    } else {
        encoding == ZIP_INT_64B && i64::MIN <= value <= i64::MAX
    }
}

/// The byte is one of the decimal digits `0` to `9`.
pub open spec fn is_digit(b: u8) -> bool {
    DIGIT_ZERO <= b <= DIGIT_NINE
}

/// Every byte of `s` is a decimal digit.
pub open spec fn all_digits(s: Seq<u8>) -> bool {
    forall|i: int| 0 <= i < s.len() ==> is_digit(#[trigger] s[i])
}

/// The number that the digits `s` spell in decimal, most significant first.
pub open spec fn decimal_value(s: Seq<u8>) -> nat
    decreases s.len(),
{
    if s.len() == 0 {
        0
    } else {
        10 * decimal_value(s.drop_last()) + (s.last() - DIGIT_ZERO) as nat
    }
}

/// The digits of `n` in decimal, most significant first, with no leading
/// zero; the one digit `0` for zero.
pub open spec fn decimal_digits(n: nat) -> Seq<u8>
    decreases n,
{
    if n < 10 {
        seq![(DIGIT_ZERO + n) as u8]
    } else {
        decimal_digits(n / 10).push((DIGIT_ZERO + n % 10) as u8)
    }
}

/// The decimal form of `v`: its digits, after a minus sign if `v` is
/// negative.
pub open spec fn decimal_string(v: int) -> Seq<u8> {
    if v < 0 {
        seq![MINUS_SIGN] + decimal_digits((-v) as nat)
    } else {
        decimal_digits(v as nat)
    }
}

/// 10 to the power `n`.
pub open spec fn pow10(n: nat) -> nat
    decreases n,
{
    if n == 0 {
        1
    } else {
        10 * pow10((n - 1) as nat)
    }
}

/// What reading the bytes `s` as a number gives: the number, or the first
/// reason that stands against it.
pub open spec fn parse_number(s: Seq<u8>) -> Result<i64, ZipListError> {
    if s.len() == 0 || s.len() >= LONG_STR_SIZE {
        Err(ZipListError::InvalidString)
    } else if s.len() == 1 && s[0] == DIGIT_ZERO {
        Ok(0)
    } else {
        let negative = s[0] == MINUS_SIGN;
        let digits = if negative {
            s.skip(1)
        } else {
            s
        };
        if digits.len() == 0 || !(DIGIT_ONE <= digits[0] <= DIGIT_NINE) {
            Err(ZipListError::InvalidFirstDigit)
        } else if !all_digits(digits) {
            Err(ZipListError::InvalidChar)
        } else if 10 * decimal_value(digits.drop_last()) > u64::MAX {
            Err(ZipListError::OverFlowMul)
        } else if decimal_value(digits) > u64::MAX {
            Err(ZipListError::OverFlowAdd)
        } else if negative {
            if decimal_value(digits) > -i64::MIN {
                Err(ZipListError::OverFlowNegative)
            } else {
                Ok((-decimal_value(digits)) as i64)
            }
        } else {
            if decimal_value(digits) > i64::MAX {
                Err(ZipListError::OverFlowPositive)
            } else {
                Ok(decimal_value(digits) as i64)
            }
        }
    }
}

/// What [`try_encoding`] gives for the bytes `s`: the number they spell and
/// its tag, or nothing where they spell none.
pub open spec fn encoding_choice(s: Seq<u8>) -> Option<(i64, u8)> {
    match parse_number(s) {
        Ok(value) => Some((value, int_encoding(value))),
        Err(_) => None,
    }
}

/// Reads `s` as a 64-bit integer in decimal. The string is accepted only in
/// the form in which the integer is printed: an optional minus sign, then
/// digits that start with no zero, or the single digit `0`.
pub fn string_to_number(s: &str) -> (parsed: Result<i64, ZipListError>)
    ensures
        parsed == parse_number(s.spec_bytes()),
{
    let b = s.as_bytes();
    let s_len: usize = b.len();
    if s_len == 0 || s_len >= LONG_STR_SIZE {
        return Err(ZipListError::InvalidString);
    }
    if s_len == 1 && b[0] == DIGIT_ZERO {
        return Ok(0);
    }
    let mut negative = false;
    let mut p_len: usize = 0;
    if b[p_len] == MINUS_SIGN {
        negative = true;
        p_len += 1;
    }
    let ghost start = p_len as int;
    let ghost digits = if negative {
        b@.skip(1)
    } else {
        b@
    };
    if p_len >= s_len || !(b[p_len] >= DIGIT_ONE && b[p_len] <= DIGIT_NINE) {
        return Err(ZipListError::InvalidFirstDigit);
    }
    let mut v: u64 = (b[p_len] - DIGIT_ZERO) as u64;
    p_len += 1;
    proof {
        assert(digits.take(1).drop_last() =~= Seq::<u8>::empty());
        reveal_with_fuel(decimal_value, 2);
        reveal_with_fuel(pow10, 2);
    }
    while p_len < s_len
        invariant
            b@ == s.spec_bytes(),
            negative == (b@[0] == MINUS_SIGN),
            start == if negative { 1int } else { 0int },
            start < p_len <= s_len < LONG_STR_SIZE,
            s_len == b@.len(),
            !(s_len == 1 && b@[0] == DIGIT_ZERO),
            digits == if negative { b@.skip(1) } else { b@ },
            DIGIT_ONE <= digits[0] <= DIGIT_NINE,
            v >= 1,
            all_digits(digits.take(p_len - start)),
            v == decimal_value(digits.take(p_len - start)),
            v < pow10((p_len - start) as nat),
        decreases s_len - p_len,
    {
        let ghost k = p_len - start;
        let ch: u8 = b[p_len];
        if ch < DIGIT_ZERO || ch > DIGIT_NINE {
            assert(!is_digit(digits[k]));
            return Err(ZipListError::InvalidChar);
        }
        proof {
            assert(digits.take(k + 1).drop_last() =~= digits.take(k));
            assert(all_digits(digits.take(k + 1))) by {
                assert forall|i: int| 0 <= i < k + 1 implies is_digit(
                    #[trigger] digits.take(k + 1)[i],
                ) by {
                    if i < k {
                        assert(digits.take(k + 1)[i] == digits.take(k)[i]);
                    }
                }
            }
            lemma_pow10_values();
            if k <= 18 {
                lemma_pow10_monotonic(k as nat, 18);
            } else {
                assert(digits.take(k + 1) =~= digits);
                assert(digits.take(k) =~= digits.drop_last());
            }
        }
        let digit: u64 = (ch - DIGIT_ZERO) as u64;
        if v > u64::MAX / 10 {
            return Err(ZipListError::OverFlowMul);
        }
        v *= 10;
        if v > u64::MAX - digit {
            return Err(ZipListError::OverFlowAdd);
        }
        v += digit;
        p_len += 1;
    }
    proof {
        assert(digits.take(p_len - start) =~= digits);
        assert(is_digit(digits.last()));
    }
    if negative {
        if v > (-(i64::MIN + 1)) as u64 + 1 {
            return Err(ZipListError::OverFlowNegative);
        }
        Ok(-((v - 1) as i64) - 1)
    } else {
        if v > i64::MAX as u64 {
            return Err(ZipListError::OverFlowPositive);
        }
        Ok(v as i64)
    }
}

/// The integer that `entry` spells and the tag under which it is stored, or
/// nothing where `entry` has to be stored as a string.
pub fn try_encoding(entry: &str) -> (choice: Option<(i64, u8)>)
    ensures
        choice == encoding_choice(entry.spec_bytes()),
{
    let len: usize = entry.len();
    if len == 0 || len >= 32 {
        return None;
    }
    match string_to_number(entry) {
        Ok(value) => {
            let encoding: u8 = if value >= 0 && value < 12 {
                ZIP_INT_IMM_MIN + value as u8
            } else if value >= i8::MIN as i64 && value <= i8::MAX as i64 {
                ZIP_INT_8B
            } else if value >= i16::MIN as i64 && value <= i16::MAX as i64 {
                ZIP_INT_16B
            } else if value >= INT_24_MIN && value <= INT_24_MAX {
                ZIP_INT_24B
            } else if value >= i32::MIN as i64 && value <= i32::MAX as i64 {
                ZIP_INT_32B
            } else {
                ZIP_INT_64B
            };
            Some((value, encoding))
        },
        Err(_) => None,
    }
}

/// Number of payload bytes of an integer stored under `encoding`: 1, 2, 3, 4
/// or 8 for the tags with a payload, 0 for every other tag.
#[inline]
pub fn int_size(encoding: u8) -> (size: u32)
    ensures
        size == int_payload_size(encoding),
{
    if encoding == ZIP_INT_8B {
        1
    } else if encoding == ZIP_INT_16B {
        2
    } else if encoding == ZIP_INT_24B {
        3
    } else if encoding == ZIP_INT_32B {
        4
    } else if encoding == ZIP_INT_64B {
        8
    } else {
        0
    }
}

/// The tag chosen for a value holds it: an immediate tag exactly for 0 to
/// 11, else a tag with a payload, and no tag with a smaller payload holds
/// the value.
pub proof fn lemma_int_encoding_minimal(value: i64, other: u8)
    ensures
        fits_encoding(value as int, int_encoding(value)),
        is_immediate_tag(int_encoding(value)) <==> 0 <= value < 12,
        !is_immediate_tag(int_encoding(value)) ==> is_fixed_int_tag(int_encoding(value)),
        is_fixed_int_tag(other) && fits_encoding(value as int, other) ==> int_payload_size(
            int_encoding(value),
        ) <= int_payload_size(other),
{
}

/// The powers of 10 that bound the 64-bit numbers.
pub proof fn lemma_pow10_values()
    ensures
        pow10(0) == 1,
        pow10(1) == 10,
        pow10(18) == 1_000_000_000_000_000_000,
        pow10(19) == 10_000_000_000_000_000_000,
{
    reveal_with_fuel(pow10, 20);
}

/// A larger exponent gives a power of 10 that is no smaller.
pub proof fn lemma_pow10_monotonic(a: nat, b: nat)
    requires
        a <= b,
    ensures
        pow10(a) <= pow10(b),
    decreases b,
{
    if a < b {
        lemma_pow10_monotonic(a, (b - 1) as nat);
    }
}

/// The digits of `n` are digits, spell `n`, and start with a zero only
/// where `n` is zero.
pub proof fn lemma_decimal_digits(n: nat)
    ensures
        decimal_digits(n).len() >= 1,
        all_digits(decimal_digits(n)),
        decimal_value(decimal_digits(n)) == n,
        n > 0 ==> DIGIT_ONE <= decimal_digits(n)[0] <= DIGIT_NINE,
        n == 0 ==> decimal_digits(n) == seq![DIGIT_ZERO],
    decreases n,
{
    let d = decimal_digits(n);
    if n < 10 {
        assert(d.drop_last() =~= Seq::<u8>::empty());
        reveal_with_fuel(decimal_value, 2);
    } else {
        lemma_decimal_digits(n / 10);
        assert(d.drop_last() =~= decimal_digits(n / 10));
    }
}

/// A number below 10 to the `k` has at most `k` digits.
pub proof fn lemma_decimal_digits_len(n: nat, k: nat)
    requires
        k >= 1,
        n < pow10(k),
    ensures
        decimal_digits(n).len() <= k,
    decreases k,
{
    reveal_with_fuel(pow10, 2);
    if n >= 10 {
        lemma_decimal_digits_len(n / 10, (k - 1) as nat);
    }
}

/// Digits that start with no zero are the digits of the number they spell.
pub proof fn lemma_digits_of_decimal_value(d: Seq<u8>)
    requires
        d.len() >= 1,
        all_digits(d),
        d[0] != DIGIT_ZERO,
    ensures
        decimal_value(d) >= 1,
        decimal_digits(decimal_value(d)) == d,
    decreases d.len(),
{
    let p = d.drop_last();
    assert(is_digit(d[0]) && is_digit(d.last()));
    if d.len() == 1 {
        reveal_with_fuel(decimal_value, 2);
        assert(decimal_digits(decimal_value(d)) =~= d);
    } else {
        assert(all_digits(p)) by {
            assert forall|i: int| 0 <= i < p.len() implies is_digit(#[trigger] p[i]) by {
                assert(p[i] == d[i]);
            }
        }
        lemma_digits_of_decimal_value(p);
        assert(decimal_digits(decimal_value(d)) =~= d);
    }
}

/// Every 64-bit integer is read back from its decimal form.
pub proof fn lemma_parse_decimal_string(v: i64)
    ensures
        parse_number(decimal_string(v as int)) == Ok::<i64, ZipListError>(v),
{
    let s = decimal_string(v as int);
    let n = (if v < 0 {
        -v
    } else {
        v as int
    }) as nat;
    let d = decimal_digits(n);
    lemma_decimal_digits(n);
    lemma_pow10_values();
    lemma_decimal_digits_len(n, 19);
    if v != 0 {
        if v < 0 {
            assert(s.skip(1) =~= d);
        }
        if n >= 10 {
            lemma_decimal_digits(n / 10);
            assert(d.drop_last() =~= decimal_digits(n / 10));
        } else {
            assert(d.drop_last() =~= Seq::<u8>::empty());
        }
    }
}

/// A string that is read as the integer `v` is the decimal form of `v`: no
/// other spelling of a number is accepted.
pub proof fn lemma_parse_accepts_decimal_string_only(s: Seq<u8>, v: i64)
    requires
        parse_number(s) == Ok::<i64, ZipListError>(v),
    ensures
        s == decimal_string(v as int),
{
    if s.len() == 1 && s[0] == DIGIT_ZERO {
        assert(s =~= decimal_string(0));
    } else {
        let digits = if s[0] == MINUS_SIGN {
            s.skip(1)
        } else {
            s
        };
        lemma_digits_of_decimal_value(digits);
        assert(s =~= decimal_string(v as int));
    }
}

/// The decimal form of every 64-bit integer is stored as that integer,
/// under the tag of the smallest form that holds it.
pub proof fn lemma_try_encoding_decimal_string(v: i64)
    ensures
        encoding_choice(decimal_string(v as int)) == Some((v, int_encoding(v))),
{
    lemma_parse_decimal_string(v);
}

} // verus!
