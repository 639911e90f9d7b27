//! A contrast ratio is a single-precision number, and is held here as the 32
//! bits of its IEEE 754 encoding: one sign bit, eight exponent bits and 23
//! fraction bits. This module says what number such a pattern stands for.

use crate::text::{decimal, decimal_digit_char, decimal_text, digit_text};
use vstd::arithmetic::div_mod::lemma_fundamental_div_mod_converse;
use vstd::arithmetic::power2::{
    lemma2_to64, lemma_pow2_adds, lemma_pow2_pos, lemma_pow2_strictly_increases,
    lemma_pow2_unfold, pow2,
};
use vstd::prelude::*;

verus! {

/// The bit pattern of 1.0.
pub const ONE: u32 = 0x3F80_0000;

/// The bit pattern of 4.5.
pub const FOUR_AND_A_HALF: u32 = 0x4090_0000;

/// The bit pattern of 7.0.
pub const SEVEN: u32 = 0x40E0_0000;

/// The bit pattern of positive infinity, the largest pattern that is neither
/// negative nor a NaN.
pub const INFINITY: u32 = 0x7F80_0000;

/// The sign bit.
pub open spec fn is_negative(bits: u32) -> bool {
    bits >= 0x8000_0000
}

/// The eight exponent bits, as a number.
pub open spec fn exponent(bits: u32) -> nat {
    ((bits / 0x80_0000) % 0x100) as nat
}

/// The 23 fraction bits, as a number.
pub open spec fn fraction(bits: u32) -> nat {
    (bits % 0x80_0000) as nat
}

/// Holds where the pattern stands for no number.
pub open spec fn is_nan(bits: u32) -> bool {
    exponent(bits) == 255 && fraction(bits) != 0
}

/// Holds where the pattern stands for an infinity.
pub open spec fn is_infinite(bits: u32) -> bool {
    exponent(bits) == 255 && fraction(bits) == 0
}

/// Holds where the pattern stands for a number that is not an infinity.
pub open spec fn is_finite(bits: u32) -> bool {
    exponent(bits) < 255
}

/// The absolute value of a finite number, counted in units of 2^-149, the
/// smallest step that the encoding can make.
pub open spec fn magnitude(bits: u32) -> nat
    recommends
        is_finite(bits),
{
    if exponent(bits) == 0 {
        fraction(bits)
    } else {
        (0x80_0000 + fraction(bits)) * pow2((exponent(bits) - 1) as nat)
    }
}

/// Holds where the pattern stands for a number, and that number is at least
/// `halves / 2`.
pub open spec fn at_least_halves(bits: u32, halves: nat) -> bool
    recommends
        halves > 0,
{
    &&& !is_nan(bits)
    &&& !is_negative(bits)
    &&& (is_infinite(bits) || 2 * magnitude(bits) >= halves * pow2(149))
}

/// Among the finite numbers that are not negative, the larger number has the
/// larger bit pattern.
pub proof fn lemma_magnitude_increases(a: u32, b: u32)
    requires
        a < b < INFINITY,
    ensures
        magnitude(a) < magnitude(b),
{
    let ea = exponent(a);
    let eb = exponent(b);
    let fa = fraction(a);
    let fb = fraction(b);
    if ea == eb {
        if ea > 0 {
            let p = pow2((ea - 1) as nat);
            lemma_pow2_pos((ea - 1) as nat);
            assert((0x80_0000 + fa) * p < (0x80_0000 + fb) * p) by (nonlinear_arith)
                requires
                    fa < fb,
                    p > 0,
            ;
        }
    } else {
        let q = pow2((eb - 1) as nat);
        lemma_pow2_pos((eb - 1) as nat);
        assert(0x80_0000 * q <= (0x80_0000 + fb) * q) by (nonlinear_arith)
            requires
                fb >= 0,
                q > 0,
        ;
        if ea == 0 {
            assert(0x80_0000 * 1 <= 0x80_0000 * q) by (nonlinear_arith)
                requires
                    q >= 1,
            ;
        } else {
            let p = pow2((ea - 1) as nat);
            lemma_pow2_pos((ea - 1) as nat);
            lemma_pow2_unfold(ea);
            if ea < eb - 1 {
                lemma_pow2_strictly_increases(ea, (eb - 1) as nat);
            }
            assert((0x80_0000 + fa) * p < 0x80_0000 * q) by (nonlinear_arith)
                requires
                    fa < 0x80_0000,
                    p > 0,
                    2 * p <= q,
            ;
        }
    }
}

/// A pattern stands for a number of at least `halves / 2` exactly where it
/// lies between the pattern of `halves / 2` and that of positive infinity.
pub proof fn lemma_at_least_halves(bits: u32, halves: nat, threshold: u32)
    requires
        threshold < INFINITY,
        2 * magnitude(threshold) == halves * pow2(149),
    ensures
        at_least_halves(bits, halves) <==> threshold <= bits <= INFINITY,
{
    if bits < INFINITY {
        if bits < threshold {
            lemma_magnitude_increases(bits, threshold);
        } else if threshold < bits {
            lemma_magnitude_increases(threshold, bits);
        }
    }
}

/// The numbers that `SEVEN`, `FOUR_AND_A_HALF` and `ONE` stand for.
pub proof fn lemma_thresholds()
    ensures
        2 * magnitude(SEVEN) == 14 * pow2(149),
        2 * magnitude(FOUR_AND_A_HALF) == 9 * pow2(149),
        2 * magnitude(ONE) == 2 * pow2(149),
{
    lemma2_to64();
    lemma_pow2_adds(21, 128);
    lemma_pow2_adds(23, 126);
    let p = pow2(128);
    assert(2 * (0xE0_0000 * p) == 14 * (0x20_0000 * p)) by (nonlinear_arith);
    assert(2 * (0x90_0000 * p) == 9 * (0x20_0000 * p)) by (nonlinear_arith);
}

/// The whole number nearest to `numerator / denominator`, and of two that
/// are equally near, the even one.
pub open spec fn round_half_even(numerator: nat, denominator: nat) -> nat
    recommends
        denominator > 0,
{
    let quotient = numerator / denominator;
    let rest = numerator % denominator;
    if 2 * rest < denominator || (2 * rest == denominator && quotient % 2 == 0) {
        quotient
    } else {
        quotient + 1
    }
}

/// The rounded number is nearest: it is at most half a unit away from the
/// fraction.
pub proof fn lemma_round_half_even_is_nearest(numerator: nat, denominator: nat)
    requires
        denominator > 0,
    ensures
        -denominator <= 2 * (numerator - round_half_even(numerator, denominator) * denominator)
            <= denominator,
{
    let q = numerator / denominator;
    let r = numerator % denominator;
    vstd::arithmetic::div_mod::lemma_fundamental_div_mod(numerator as int, denominator as int);
    assert(denominator * q == q * denominator) by (nonlinear_arith);
    assert((q + 1) * denominator == q * denominator + denominator) by (nonlinear_arith);
}

/// Rounding a fraction does not depend on how the fraction is written.
pub proof fn lemma_round_half_even_scales(a: nat, b: nat, c: nat)
    requires
        b > 0,
        c > 0,
    ensures
        round_half_even(a * c, b * c) == round_half_even(a, b),
{
    let q = a / b;
    let r = a % b;
    assert(a == q * b + r && 0 <= r < b) by {
        vstd::arithmetic::div_mod::lemma_fundamental_div_mod(a as int, b as int);
        assert(b * q == q * b) by (nonlinear_arith);
    }
    assert(a * c == q * (b * c) + r * c) by (nonlinear_arith)
        requires
            a == q * b + r,
    ;
    assert(0 <= r * c < b * c) by (nonlinear_arith)
        requires
            0 <= r < b,
            c > 0,
    ;
    lemma_fundamental_div_mod_converse((a * c) as int, (b * c) as int, q as int, (r * c) as int);
    assert(2 * (r * c) < b * c <==> 2 * r < b) by (nonlinear_arith)
        requires
            c > 0,
    ;
    assert(2 * (r * c) == b * c <==> 2 * r == b) by (nonlinear_arith)
        requires
            c > 0,
    ;
}

/// The absolute value of a finite number in hundredths, rounded to the
/// nearest whole number of them, and to the even one of two equally near.
pub open spec fn hundredths(bits: u32) -> nat
    recommends
        is_finite(bits),
{
    round_half_even(100 * magnitude(bits), pow2(149))
}

/// A number written with two decimals: the sign where the sign bit is set,
/// the whole part without leading zeros, a point and two digits. An infinity
/// is written `inf`, and a pattern that stands for no number `NaN`.
pub open spec fn two_decimals(bits: u32) -> Seq<char> {
    if is_nan(bits) {
        seq!['N', 'a', 'N']
    } else {
        let sign = if is_negative(bits) {
            seq!['-']
        } else {
            Seq::<char>::empty()
        };
        if is_infinite(bits) {
            sign + seq!['i', 'n', 'f']
        } else {
            let h = hundredths(bits);
            sign + decimal(h / 100) + seq![
                '.',
                decimal_digit_char(h / 10 % 10),
                decimal_digit_char(h % 10),
            ]
        }
    }
}

/// Two to the power of `e`.
fn power_of_two(e: u32) -> (p: u128)
    requires
        e < 128,
    ensures
        p == pow2(e as nat),
{
    let mut p: u128 = 1;
    let mut i: u32 = 0;
    proof {
        lemma2_to64();
    }
    while i < e
        invariant
            i <= e < 128,
            p == pow2(i as nat),
        decreases e - i,
    {
        proof {
            lemma_pow2_unfold((i + 1) as nat);
            lemma_pow2_upper((i + 1) as nat);
        }
        p = p * 2;
        i += 1;
    }
    p
}

/// A power of two with an exponent of at most 127 fits in 128 bits, and one
/// with an exponent of at most 104 leaves 24 bits free.
proof fn lemma_pow2_upper(e: nat)
    ensures
        e <= 127 ==> pow2(e) <= 0x8000_0000_0000_0000_0000_0000_0000_0000,
        e <= 104 ==> pow2(e) <= 0x1_0000_0000_0000_0000_0000_0000_00,
        e >= 64 ==> pow2(e) >= 0x1_0000_0000_0000_0000,
{
    lemma2_to64();
    lemma_pow2_adds(64, 40);
    lemma_pow2_adds(32, 8);
    lemma_pow2_adds(64, 63);
    lemma_pow2_adds(32, 31);
    if e < 127 {
        lemma_pow2_strictly_increases(e, 127);
    }
    if e < 104 {
        lemma_pow2_strictly_increases(e, 104);
    }
    if e > 64 {
        lemma_pow2_strictly_increases(64, e);
    }
}

/// Rounds `significand * 2^exponent`, counted in units of 2^-149, to
/// hundredths, and gives the whole part and the two decimals apart.
fn round_to_hundredths(significand: u32, exponent: u32) -> (parts: (u128, u8))
    requires
        significand < 0x100_0000,
        exponent <= 253,
    ensures
        parts.1 < 100,
        parts.0 * 100 + parts.1 == round_half_even(
            100 * (significand as nat * pow2(exponent as nat)),
            pow2(149),
        ),
{
    let ghost m = significand as nat;
    let ghost k = exponent as nat;
    if exponent >= 149 {
        let p = power_of_two(exponent - 149);
        proof {
            lemma_pow2_upper((k - 149) as nat);
            lemma_pow2_adds((k - 149) as nat, 149);
            lemma_pow2_pos(149);
            let up = pow2((k - 149) as nat);
            let unit = pow2(149);
            assert(m * up <= 0xFF_FFFF * 0x1_0000_0000_0000_0000_0000_0000_00) by (nonlinear_arith)
                requires
                    m <= 0xFF_FFFF,
                    up <= 0x1_0000_0000_0000_0000_0000_0000_00,
            ;
            assert(100 * (m * (up * unit)) == (100 * (m * up)) * unit + 0) by (nonlinear_arith);
            lemma_fundamental_div_mod_converse(
                (100 * (m * pow2(k))) as int,
                unit as int,
                (100 * (m * up)) as int,
                0,
            );
        }
        (significand as u128 * p, 0)
    } else if 149 - exponent >= 64 {
        proof {
            let down = pow2((149 - k) as nat);
            lemma_pow2_upper((149 - k) as nat);
            lemma_pow2_adds((149 - k) as nat, k);
            lemma_pow2_pos(k);
            lemma_round_half_even_scales(100 * m, down, pow2(k));
            assert(100 * (m * pow2(k)) == (100 * m) * pow2(k)) by (nonlinear_arith);
            lemma_fundamental_div_mod_converse((100 * m) as int, down as int, 0, (100 * m) as int);
        }
        (0, 0)
    } else {
        let d: u128 = power_of_two(149 - exponent);
        let n: u128 = 100 * (significand as u128);
        proof {
            lemma_pow2_pos((149 - k) as nat);
        }
        let quotient: u128 = n / d;
        let rest: u128 = n % d;
        proof {
            let down = pow2((149 - k) as nat);
            lemma_pow2_upper((149 - k) as nat);
            lemma_pow2_adds((149 - k) as nat, k);
            lemma_pow2_pos(k);
            lemma_round_half_even_scales(100 * m, down, pow2(k));
            assert(100 * (m * pow2(k)) == (100 * m) * pow2(k)) by (nonlinear_arith);
        }
        let h: u128 = if 2 * rest < d || (2 * rest == d && quotient % 2 == 0) {
            quotient
        } else {
            quotient + 1
        };
        (h / 100, (h % 100) as u8)
    }
}

/// Writes a ratio with two decimals.
pub fn two_decimals_text(bits: u32) -> (text: String)
    ensures
        text@ == two_decimals(bits),
{
    let e: u32 = (bits / 0x80_0000) % 0x100;
    let f: u32 = bits % 0x80_0000;
    proof {
        reveal_strlit("NaN");
        reveal_strlit("-");
        reveal_strlit("inf");
        reveal_strlit(".");
        reveal_strlit("");
    }
    if e == 255 && f != 0 {
        return String::from_str("NaN");
    }
    let mut text = String::from_str(
        if bits >= 0x8000_0000 {
            "-"
        } else {
            ""
        },
    );
    if e == 255 {
        text.append("inf");
        return text;
    }
    let significand: u32 = if e == 0 {
        f
    } else {
        0x80_0000 + f
    };
    let exponent: u32 = if e == 0 {
        0
    } else {
        e - 1
    };
    proof {
        lemma2_to64();
        assert(magnitude(bits) == significand as nat * pow2(exponent as nat));
    }
    let (whole, cents) = round_to_hundredths(significand, exponent);
    assert(hundredths(bits) == whole * 100 + cents);
    text.append(decimal_text(whole).as_str());
    text.append(".");
    text.append(digit_text(cents / 10));
    text.append(digit_text(cents % 10));
    text
}

} // verus!
