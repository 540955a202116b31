//! Readings as sensors send them: fixed-point tenths or IEEE 754 binary32
//! bit patterns, with their exact rational values and their fixed-point text.

use crate::decimal::{
    fixed_digits, fixed_text, pow10, push_decimal, push_fixed_digits, push_padded,
    round_half_even, round_half_even_exec, pow10_exec,
};
use vstd::arithmetic::power2::{
    lemma2_to64, lemma2_to64_rest, lemma_pow2_adds, lemma_pow2_pos, lemma_pow2_strictly_increases,
    lemma_pow2_unfold, pow2,
};
use vstd::prelude::*;

verus! {

/// A decoded reading, kept in the exact form in which the sensor sent it.
#[derive(Debug, Clone, Copy, PartialEq, Eq)]
pub enum Reading {
    /// A fixed-point value counted in tenths of its unit.
    Tenths(i32),
    /// An IEEE 754 binary32 value, given by its bit pattern.
    Binary32(u32),
}

/// The sign bit of a binary32 bit pattern.
pub open spec fn b32_negative(bits: u32) -> bool {
    bits >= 0x8000_0000
}

/// The biased exponent field of a binary32 bit pattern.
pub open spec fn b32_exponent(bits: u32) -> nat {
    ((bits as nat) / 0x80_0000) % 256
}

/// The fraction field of a binary32 bit pattern.
pub open spec fn b32_fraction(bits: u32) -> nat {
    (bits as nat) % 0x80_0000
}

/// A binary32 bit pattern that stands for a finite number.
pub open spec fn b32_is_finite(bits: u32) -> bool {
    b32_exponent(bits) != 255
}

/// A binary32 bit pattern that stands for NaN.
pub open spec fn b32_is_nan(bits: u32) -> bool {
    b32_exponent(bits) == 255 && b32_fraction(bits) != 0
}

/// The integer significand of a finite binary32 value.
pub open spec fn b32_significand(bits: u32) -> nat {
    if b32_exponent(bits) == 0 {
        b32_fraction(bits)
    } else {
        b32_fraction(bits) + 0x80_0000
    }
}

/// The power of two by which the significand of a finite binary32 value is
/// scaled.
pub open spec fn b32_scale(bits: u32) -> int {
    if b32_exponent(bits) == 0 {
        -149
    } else {
        b32_exponent(bits) - 150
    }
}

/// Numerator of the magnitude of a finite binary32 value.
pub open spec fn b32_numerator(bits: u32) -> nat {
    if b32_scale(bits) >= 0 {
        b32_significand(bits) * pow2(b32_scale(bits) as nat)
    } else {
        b32_significand(bits)
    }
}

/// Denominator of the magnitude of a finite binary32 value.
pub open spec fn b32_denominator(bits: u32) -> nat {
    if b32_scale(bits) >= 0 {
        1
    } else {
        pow2((-b32_scale(bits)) as nat)
    }
}

impl Reading {
    /// The reading stands for a finite number.
    pub open spec fn is_finite(self) -> bool {
        match self {
            Reading::Tenths(_) => true,
            Reading::Binary32(bits) => b32_is_finite(bits),
        }
    }

    /// The sign of the reading.
    pub open spec fn is_negative(self) -> bool {
        match self {
            Reading::Tenths(n) => n < 0,
            Reading::Binary32(bits) => b32_negative(bits),
        }
    }

    /// Numerator of the magnitude of a finite reading.
    pub open spec fn numerator(self) -> nat {
        match self {
            Reading::Tenths(n) => (if n < 0 { -(n as int) } else { n as int }) as nat,
            Reading::Binary32(bits) => b32_numerator(bits),
        }
    }

    /// Denominator of the magnitude of a finite reading.
    pub open spec fn denominator(self) -> nat {
        match self {
            Reading::Tenths(_) => 10,
            Reading::Binary32(bits) => b32_denominator(bits),
        }
    }

    /// The text of the reading with `places` digits after the point; a
    /// binary32 NaN or infinity is written `NaN`, `inf` or `-inf`.
    pub open spec fn fixed_text(self, places: nat) -> Seq<char> {
        match self {
            Reading::Binary32(bits) if b32_is_nan(bits) => seq!['N', 'a', 'N'],
            Reading::Binary32(bits) if !b32_is_finite(bits) => if b32_negative(bits) {
                seq!['-', 'i', 'n', 'f']
            } else {
                seq!['i', 'n', 'f']
            },
            _ => fixed_text(self.is_negative(), self.numerator(), self.denominator(), places),
        }
    }
}

/// `x / d` rounded to the nearest integer, a tie going up.
pub open spec fn round_half_up(x: nat, d: nat) -> nat
    recommends
        d > 0,
{
    (2 * x + d) / (2 * d)
}

/// The whole number of millivolts of a voltage given in volts as a binary32
/// value: rounded to the nearest integer, a tie going up, and held to the
/// range of `u16` (NaN and negative voltages give `0`).
pub open spec fn millivolts_of(bits: u32) -> u16 {
    if b32_is_nan(bits) || b32_negative(bits) {
        0
    } else if !b32_is_finite(bits) {
        u16::MAX
    } else {
        let mv = round_half_up(b32_numerator(bits) * 1000, b32_denominator(bits));
        if mv > u16::MAX {
            u16::MAX
        } else {
            mv as u16
        }
    }
}

/// `2^k`, for the scales of a binary32 value with a fraction part.
fn small_pow2(k: u32) -> (r: u64)
    requires
        k <= 40,
    ensures
        r == pow2(k as nat),
        1 <= r <= 0x100_0000_0000,
{
    let mut r: u64 = 1;
    let mut i: u32 = 0;
    proof {
        lemma2_to64();
        lemma2_to64_rest();
        lemma_pow2_pos(k as nat);
    }
    while i < k
        invariant
            i <= k <= 40,
            r == pow2(i as nat),
            pow2(i as nat) <= pow2(40),
            pow2(40) == 0x100_0000_0000,
        decreases k - i,
    {
        proof {
            lemma_pow2_unfold((i + 1) as nat);
            if i + 1 < 40 {
                lemma_pow2_strictly_increases((i + 1) as nat, 40);
            }
        }
        r = r * 2;
        i = i + 1;
    }
    r
}

/// `sig * 2^k` for the significand and scale of a whole binary32 value.
fn scale_up(sig: u32, k: u32) -> (r: u128)
    requires
        sig < 0x100_0000,
        k <= 104,
    ensures
        r == sig * pow2(k as nat),
{
    let mut r: u128 = sig as u128;
    let mut i: u32 = 0;
    proof {
        lemma2_to64();
        lemma2_to64_rest();
        lemma_pow2_adds(64, 64);
        lemma_pow2_pos(0);
    }
    while i < k
        invariant
            i <= k <= 104,
            sig < 0x100_0000,
            r == sig * pow2(i as nat),
            r < pow2((24 + i) as nat),
            pow2(128) == 0x1_0000_0000_0000_0000_0000_0000_0000_0000,
        decreases k - i,
    {
        proof {
            lemma_pow2_unfold((i + 1) as nat);
            lemma_pow2_unfold((i + 25) as nat);
            if i + 25 < 128 {
                lemma_pow2_strictly_increases((i + 25) as nat, 128);
            }
            assert(sig * pow2((i + 1) as nat) == 2 * (sig * pow2(i as nat))) by (nonlinear_arith)
                requires
                    pow2((i + 1) as nat) == 2 * pow2(i as nat),
            ;
        }
        r = r * 2;
        i = i + 1;
    }
    r
}

/// The sign, the biased exponent and the fraction of a binary32 bit pattern.
fn b32_fields(bits: u32) -> (r: (bool, u32, u32))
    ensures
        r.0 == b32_negative(bits),
        r.1 == b32_exponent(bits),
        r.2 == b32_fraction(bits),
{
    (bits >= 0x8000_0000, (bits / 0x80_0000) % 256, bits % 0x80_0000)
}

/// Appends the text of a binary32 value with `places` digits after the
/// point.
fn push_binary32_fixed(s: &mut String, bits: u32, places: u32)
    requires
        places <= 3,
    ensures
        final(s)@ == old(s)@ + Reading::Binary32(bits).fixed_text(places as nat),
{
    let (negative, exponent, fraction) = b32_fields(bits);
    proof {
        reveal_strlit("NaN");
        reveal_strlit("inf");
        reveal_strlit("-inf");
    }
    if exponent == 255 {
        if fraction != 0 {
            s.append("NaN");
        } else if negative {
            s.append("-inf");
        } else {
            s.append("inf");
        }
        return;
    }
    let sig: u32 = if exponent == 0 {
        fraction
    } else {
        fraction + 0x80_0000
    };
    let scale = pow10_exec(places);
    if exponent >= 150 {
        let whole = scale_up(sig, exponent - 150);
        if negative {
            s.append("-");
        }
        push_decimal(s, whole);
        if places > 0 {
            s.append(".");
            push_padded(s, 0, places);
        }
        proof {
            reveal_strlit("-");
            reveal_strlit(".");
            let q = (whole * pow10(places as nat)) as nat;
            vstd::arithmetic::div_mod::lemma_div_by_multiple(whole as int, scale as int);
            vstd::arithmetic::div_mod::lemma_mod_multiples_basic(whole as int, scale as int);
            assert(round_half_even(q, 1) == q);
            assert(s@ =~= old(s)@ + fixed_digits(negative, q, places as nat));
        }
    } else {
        let shift: u32 = if exponent == 0 {
            149
        } else {
            150 - exponent
        };
        assert(sig as u64 * scale as u64 <= 0x100_0000 * 1000) by (nonlinear_arith)
            requires
                sig < 0x100_0000,
                scale <= 1000,
        ;
        let scaled: u64 = sig as u64 * scale as u64;
        let q: u64;
        if shift >= 40 {
            q = 0;
            proof {
                lemma2_to64();
                lemma2_to64_rest();
                if shift > 40 {
                    lemma_pow2_strictly_increases(40, shift as nat);
                }
                let d = pow2(shift as nat);
                lemma_pow2_pos(shift as nat);
                assert(pow2(40) <= d);
                assert(scaled < 0x8_0000_0000);
                vstd::arithmetic::div_mod::lemma_small_mod(scaled as nat, d);
                vstd::arithmetic::div_mod::lemma_fundamental_div_mod_converse(
                    scaled as int,
                    d as int,
                    0,
                    scaled as int,
                );
                assert(round_half_even(scaled as nat, d) == 0);
            }
        } else {
            let d = small_pow2(shift);
            q = round_half_even_exec(scaled, d);
        }
        push_fixed_digits(s, negative, q as u128, places);
    }
}

/// Appends the text of a reading with `places` digits after the point.
pub fn push_reading_fixed(s: &mut String, reading: Reading, places: u32)
    requires
        places <= 3,
    ensures
        final(s)@ == old(s)@ + reading.fixed_text(places as nat),
{
    match reading {
        Reading::Binary32(bits) => push_binary32_fixed(s, bits, places),
        Reading::Tenths(n) => {
            let negative = n < 0;
            let magnitude: u64 = if n < 0 {
                (-(n as i64)) as u64
            } else {
                n as u64
            };
            let scale = pow10_exec(places) as u64;
            assert(magnitude * scale <= 0x8000_0000 * 1000) by (nonlinear_arith)
                requires
                    magnitude <= 0x8000_0000,
                    scale <= 1000,
            ;
            let scaled = magnitude * scale;
            let q = round_half_even_exec(scaled, 10);
            push_fixed_digits(s, negative, q as u128, places);
        },
    }
}

/// The whole number of millivolts of a voltage given in volts as a binary32
/// value.
pub fn millivolts_from_volts(bits: u32) -> (r: u16)
    ensures
        r == millivolts_of(bits),
{
    let (negative, exponent, fraction) = b32_fields(bits);
    if exponent == 255 {
        if fraction != 0 || negative {
            0
        } else {
            u16::MAX
        }
    } else if negative {
        0
    } else if exponent >= 150 {
        proof {
            let k = (exponent - 150) as nat;
            lemma_pow2_pos(k);
            assert(b32_numerator(bits) * 1000 >= 0x80_0000 * 1000) by (nonlinear_arith)
                requires
                    b32_numerator(bits) == b32_significand(bits) * pow2(k),
                    b32_significand(bits) >= 0x80_0000,
                    pow2(k) >= 1,
            ;
            let x = b32_numerator(bits) * 1000;
            assert((2 * x + 1) / 2 >= x) by (nonlinear_arith);
        }
        u16::MAX
    } else {
        let sig: u64 = if exponent == 0 {
            fraction as u64
        } else {
            fraction as u64 + 0x80_0000
        };
        let shift: u32 = if exponent == 0 {
            149
        } else {
            150 - exponent
        };
        assert(sig * 1000 < 0x100_0000 * 1000) by (nonlinear_arith)
            requires
                sig < 0x100_0000,
        ;
        let x: u64 = sig * 1000;
        let mv: u64;
        if shift >= 40 {
            mv = 0;
            proof {
                lemma2_to64();
                lemma2_to64_rest();
                if shift > 40 {
                    lemma_pow2_strictly_increases(40, shift as nat);
                }
                let d = pow2(shift as nat) as int;
                lemma_pow2_pos(shift as nat);
                assert(pow2(40) <= d);
                assert(x < 0x10_0000_0000);
                assert((2 * x + d) / (2 * d) == 0) by (nonlinear_arith)
                    requires
                        2 * x < d,
                        d > 0,
                ;
            }
        } else {
            let d = small_pow2(shift);
            mv = (2 * x + d) / (2 * d);
        }
        if mv > 65535 {
            u16::MAX
        } else {
            mv as u16
        }
    }
}

} // verus!
