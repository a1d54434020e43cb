//! Decimal-to-binary64 conversion on integers alone.
//!
//! A float literal's digits and exponent are folded into a 64-bit bit
//! pattern by 128-bit fixed-point scaling with round-to-nearest-even at the
//! end.  The conversion is total over decimal digits and never yields a
//! negative pattern; which pattern a lexeme denotes is deliberately left
//! unstated, as no compact statement of it exists.

use vstd::prelude::*;
use crate::grammar::all_dec_digits;
use crate::lexer::spec_dec_digit;
use crate::token::FLOAT_SIGN_BIT;

verus! {

/// Bit pattern of positive infinity.
pub const FLOAT_INF_BITS: u64 = 0x7FF0_0000_0000_0000;

/// Digit budget: at most eighteen significant digits feed the fixed-point
/// value; later digits only shift the exponent.
const SIG_DIGIT_CAP: u64 = 999_999_999_999_999_999;

/// The topmost bit of the 128-bit fixed-point significand.
const FIX_TOP: u128 = 0x8000_0000_0000_0000_0000_0000_0000_0000;

/// Two to the 75: the fixed-point weight of the 53rd significand bit.
const FIX_ROUND: u128 = 0x800_0000_0000_0000_0000;

/// Two to the 74: the fixed-point weight of the guard bit.
const FIX_GUARD: u128 = 0x400_0000_0000_0000_0000;

/// Two to the 52.
const MANTISSA_ONE: u64 = 0x10_0000_0000_0000;

/// Value of a decimal digit character.
fn dec_digit_val(c: char) -> (r: u32)
    requires
        spec_dec_digit(c),
    ensures
        r == c as int - '0' as int,
        r <= 9,
{
    (c as u32) - ('0' as u32)
}

/// Tells whether every character is a decimal digit.
fn check_dec_digits(v: &Vec<char>) -> (r: bool)
    ensures
        r == all_dec_digits(v@),
{
    let n = v.len();
    for i in 0..n
        invariant
            n == v@.len(),
            forall|k: int| 0 <= k < i ==> spec_dec_digit(v@[k]),
    {
        let c = v[i];
        if !('0' <= c && c <= '9') {
            proof {
                assert(!spec_dec_digit(v@[i as int]));
            }
            return false;
        }
    }
    true
}

/// Folds one digit into the significand under the digit budget: leading
/// zeros are free, further digits extend the significand while it stays
/// small, and digits past the budget only raise the exponent correction.
fn push_digit(m: u64, dropped: u64, d: u32) -> (r: (u64, u64))
    requires
        m <= SIG_DIGIT_CAP,
        d <= 9,
    ensures
        r.0 <= SIG_DIGIT_CAP,
{
    if m == 0 && d == 0 {
        (m, dropped)
    } else if m <= (SIG_DIGIT_CAP - 9) / 10 {
        (m * 10 + d as u64, dropped)
    } else {
        (m, if dropped == u64::MAX { dropped } else { dropped + 1 })
    }
}

/// Value of the exponent digits, capped well past the range where the
/// result saturates to infinity or zero.
fn exp_value(digits: &Vec<char>) -> (r: u64)
    requires
        all_dec_digits(digits@),
    ensures
        r <= 9_999_999_999,
{
    let mut acc: u64 = 0;
    let n = digits.len();
    for i in 0..n
        invariant
            acc <= 9_999_999_999,
            n == digits@.len(),
            all_dec_digits(digits@),
    {
        let d = dec_digit_val(digits[i]);
        if acc >= 1_000_000_000 {
            acc = 1_000_000_000;
        } else {
            acc = acc * 10 + d as u64;
        }
    }
    acc
}

/// Two to the `k`.
fn pow2_u64(k: u32) -> (r: u64)
    requires
        k <= 63,
    ensures
        r >= 2 || k == 0,
        r >= 1,
{
    let mut r: u64 = 1;
    proof {
        vstd::arithmetic::power2::lemma2_to64();
        vstd::arithmetic::power2::lemma2_to64_rest();
    }
    for i in 0..k
        invariant
            k <= 63,
            1 <= r <= 0x8000_0000_0000_0000u64,
            i > 0 ==> r >= 2,
            r == vstd::arithmetic::power2::pow2(i as nat),
    {
        proof {
            vstd::arithmetic::power2::lemma_pow2_unfold((i + 1) as nat);
            vstd::arithmetic::power2::lemma2_to64();
            vstd::arithmetic::power2::lemma2_to64_rest();
            if i < 62 {
                vstd::arithmetic::power2::lemma_pow2_strictly_increases(i as nat, 62);
            }
            if i + 1 < 63 {
                vstd::arithmetic::power2::lemma_pow2_strictly_increases((i + 1) as nat, 63);
            }
        }
        r = r * 2;
    }
    r
}

/// Doubles the significand until its top bit is set, lowering the binary
/// exponent in step; at most 128 doublings are ever needed.
fn normalize(frac: &mut u128, e2: &mut i64)
    requires
        -60_000 <= *old(e2) <= 60_000,
    ensures
        *old(e2) - 128 <= *final(e2) <= *old(e2),
{
    let mut shifts: u32 = 0;
    while *frac < FIX_TOP && shifts < 128
        invariant
            shifts <= 128,
            -60_000 <= *old(e2) <= 60_000,
            *e2 == *old(e2) - shifts,
        decreases 128 - shifts,
    {
        *frac = *frac * 2;
        *e2 = *e2 - 1;
        shifts = shifts + 1;
    }
}

/// The bit pattern, sign clear, of the binary64 value nearest to
/// `(int_digits).(frac_digits) e (sign)(exp_digits)` read as a decimal
/// literal, ties to even; values beyond the range saturate to infinity or
/// zero.  `None` exactly when a significand digit is not decimal.
pub fn float_bits(
    int_digits: &Vec<char>,
    frac_digits: &Vec<char>,
    exp_neg: bool,
    exp_digits: &Vec<char>,
) -> (r: Option<u64>)
    requires
        all_dec_digits(exp_digits@),
    ensures
        r is Some <==> (all_dec_digits(int_digits@) && all_dec_digits(frac_digits@)),
        r matches Some(b) ==> b & FLOAT_SIGN_BIT == 0,
{
    if !check_dec_digits(int_digits) || !check_dec_digits(frac_digits) {
        return None;
    }
    let bits = float_bits_checked(int_digits, frac_digits, exp_neg, exp_digits);
    proof {
        assert(bits < 0x8000_0000_0000_0000u64 ==> bits & 0x8000_0000_0000_0000u64 == 0)
            by (bit_vector);
    }
    Some(bits)
}

/// As `float_bits`, once the significand digits are known decimal.
fn float_bits_checked(
    int_digits: &Vec<char>,
    frac_digits: &Vec<char>,
    exp_neg: bool,
    exp_digits: &Vec<char>,
) -> (bits: u64)
    requires
        all_dec_digits(int_digits@),
        all_dec_digits(frac_digits@),
        all_dec_digits(exp_digits@),
    ensures
        bits < FLOAT_SIGN_BIT,
{
    let mut m: u64 = 0;
    let mut dropped: u64 = 0;
    let ni = int_digits.len();
    for i in 0..ni
        invariant
            m <= SIG_DIGIT_CAP,
            ni == int_digits@.len(),
            all_dec_digits(int_digits@),
    {
        let d = dec_digit_val(int_digits[i]);
        let step = push_digit(m, dropped, d);
        m = step.0;
        dropped = step.1;
    }
    let nf = frac_digits.len();
    for i in 0..nf
        invariant
            m <= SIG_DIGIT_CAP,
            nf == frac_digits@.len(),
            all_dec_digits(frac_digits@),
    {
        let d = dec_digit_val(frac_digits[i]);
        let step = push_digit(m, dropped, d);
        m = step.0;
        dropped = step.1;
    }
    if m == 0 {
        return 0;
    }
    // value == m * 10^exp, all corrections folded into exp.
    let ev = exp_value(exp_digits);
    let signed_ev: i128 = if exp_neg {
        -(ev as i128)
    } else {
        ev as i128
    };
    let capped_dropped: i128 = if dropped > 2_000_000_000 {
        2_000_000_000
    } else {
        dropped as i128
    };
    let capped_frac: i128 = if nf > 2_000_000_000 {
        2_000_000_000
    } else {
        nf as i128
    };
    let exp: i128 = signed_ev + capped_dropped - capped_frac;
    // m < 10^18, so the decimal magnitude of the value is within 18 of exp.
    if exp > 330 {
        return FLOAT_INF_BITS;
    }
    if exp < -360 {
        return 0;
    }
    let exp_steps: u32 = if exp >= 0 {
        exp as u32
    } else {
        (-exp) as u32
    };
    // value == frac * 2^(e2 - 127), the significand kept near its top bit.
    let mut frac: u128 = m as u128;
    let mut e2: i64 = 127;
    normalize(&mut frac, &mut e2);
    let mut step: u32 = 0;
    while step < exp_steps
        invariant
            exp_steps <= 360,
            step <= exp_steps,
            -10 - 132 * (step as int) <= e2 <= 127 + 4 * (step as int),
        decreases exp_steps - step,
    {
        if exp >= 0 {
            frac = (frac / 16) * 10;
            e2 = e2 + 4;
        } else {
            frac = frac / 10;
        }
        normalize(&mut frac, &mut e2);
        step = step + 1;
    }
    // Round the top 53 bits to nearest, ties to even.
    let mut m53: u64 = (frac / FIX_ROUND) as u64;
    let guard = (frac / FIX_GUARD) % 2 == 1;
    let sticky = frac % FIX_GUARD != 0;
    if guard && (sticky || m53 % 2 == 1) {
        m53 = m53 + 1;
    }
    if m53 == 2 * MANTISSA_ONE {
        m53 = MANTISSA_ONE;
        e2 = e2 + 1;
    }
    let biased: i64 = e2 + 1023;
    if biased >= 2047 {
        return FLOAT_INF_BITS;
    }
    if biased >= 1 {
        if m53 < MANTISSA_ONE {
            // Unreachable: the significand was normalized above.
            return 0;
        }
        let mantissa = m53 - MANTISSA_ONE;
        return (biased as u64) * MANTISSA_ONE + mantissa;
    }
    // Subnormal range: shift the significand further right.
    let shift: i64 = 1 - biased;
    if shift >= 54 {
        return 0;
    }
    let div = pow2_u64(shift as u32);
    let half = div / 2;
    let mut sub = m53 / div;
    let rem = m53 % div;
    if rem > half || (rem == half && (sticky || sub % 2 == 1)) {
        sub = sub + 1;
    }
    if sub > MANTISSA_ONE {
        sub = MANTISSA_ONE;
    }
    sub
}

} // verus!
