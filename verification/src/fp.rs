//! Cray-1 64-bit floating point words (signed magnitude, biased exponent).
//!
//! ```text
//!   bit 63     : sign (0 = positive, 1 = negative)
//!   bits 62-48 : biased exponent (15 bits, bias 0x4000)
//!   bits 47-0  : coefficient (48 bits, binary point left of bit 47)
//! ```
//!
//! A word is normalized when bit 47 of its coefficient is set; zero is all bits clear.
//! A normalized non-zero word stands for (-1)^sign * (coeff / 2^48) * 2^(exp - 0x4000).
//! Arithmetic on these words goes through the host's floating point and is supplied
//! to `crate::cpu::Cpu::step` as a function.
use vstd::prelude::*;
use vstd::arithmetic::power2::{pow2, lemma2_to64, lemma_pow2_adds};

verus! {

pub open spec fn sign_of(fp: u64) -> int {
    fp as int / 0x8000_0000_0000_0000
}

pub open spec fn exponent_of(fp: u64) -> int {
    (fp as int / 0x1_0000_0000_0000) % 0x8000
}

pub open spec fn coefficient_of(fp: u64) -> int {
    fp as int % 0x1_0000_0000_0000
}

/// The word with the given sign, exponent and coefficient fields.
pub open spec fn fp_word(sign: int, exp: int, coeff: int) -> int {
    sign * 0x8000_0000_0000_0000 + exp * 0x1_0000_0000_0000 + coeff
}

/// How far a non-zero 48-bit coefficient must be shifted left to set bit 47.
pub open spec fn lead_shift(coeff: int) -> nat
    decreases 0x1_0000_0000_0000 - coeff,
{
    if coeff <= 0 || coeff >= 0x8000_0000_0000 {
        0
    } else {
        1 + lead_shift(2 * coeff)
    }
}

/// The normalized form of a word: the coefficient is shifted left until bit 47 is set,
/// lowering the exponent by one per place; a zero coefficient, or an exponent that would
/// drop to zero or below while shifting, gives the zero word.
pub open spec fn normalize_spec(fp: u64) -> int {
    let coeff = coefficient_of(fp);
    let exp = exponent_of(fp);
    let s = lead_shift(coeff);
    if coeff == 0 || (s > 0 && exp - s <= 0) {
        0
    } else {
        fp_word(sign_of(fp), exp - s, coeff * pow2(s) as int)
    }
}

/// A word is normalized when it is zero or bit 47 of its coefficient is set.
pub open spec fn is_normalized(fp: u64) -> bool {
    fp == 0 || coefficient_of(fp) >= 0x8000_0000_0000
}

proof fn lemma_fields(fp: u64)
    by (bit_vector)
    ensures
        1u64 << 63u64 == 0x8000_0000_0000_0000,
        fp & 0x8000_0000_0000_0000 == 0 || fp & 0x8000_0000_0000_0000 == 0x8000_0000_0000_0000,
        fp & 0x8000_0000_0000_0000 == (fp / 0x8000_0000_0000_0000) * 0x8000_0000_0000_0000,
        (fp >> 48u64) & 0x7FFF == (fp / 0x1_0000_0000_0000) % 0x8000,
        fp & 0x0000_FFFF_FFFF_FFFF == fp % 0x1_0000_0000_0000,
        fp ^ 0x8000_0000_0000_0000 == if fp >= 0x8000_0000_0000_0000 {
            (fp - 0x8000_0000_0000_0000) as u64
        } else {
            (fp + 0x8000_0000_0000_0000) as u64
        },
{
}

proof fn lemma_shift_step(c: u64)
    by (bit_vector)
    ensures
        (c >> 47u64 == 0) == (c < 0x8000_0000_0000),
        c < 0x8000_0000_0000 ==> c << 1u64 == c * 2,
{
}

proof fn lemma_assemble(sign: u64, e: u64, c: u64)
    by (bit_vector)
    requires
        sign == 0 || sign == 0x8000_0000_0000_0000,
        e < 0x8000,
        c < 0x1_0000_0000_0000,
    ensures
        sign | (e << 48u64) | c == sign + e * 0x1_0000_0000_0000 + c,
{
}

/// Normalize a Cray-1 floating point word: shift the coefficient left until bit 47 is set.
pub fn normalize(fp: u64) -> (r: u64)
    ensures
        r as int == normalize_spec(fp),
{
    proof {
        lemma_fields(fp);
    }
    let sign = fp & (1 << 63);
    let mut exp = ((fp >> 48) & 0x7FFF) as i64;
    let mut coeff = fp & 0x0000_FFFF_FFFF_FFFF;

    if coeff == 0 {
        return 0;
    }
    let ghost c0 = coeff as int;
    let ghost e0 = exp as int;
    let ghost s = lead_shift(c0);
    let ghost mut t: nat = 0;
    proof {
        lemma2_to64();
        lemma_shift_step(coeff);
    }
    while (coeff >> 47) == 0
        invariant
            0 < coeff < 0x1_0000_0000_0000,
            c0 > 0,
            c0 == coefficient_of(fp),
            e0 == exponent_of(fp),
            t <= s,
            s == lead_shift(c0),
            coeff as int == c0 * pow2(t) as int,
            lead_shift(coeff as int) + t == s,
            exp as int == e0 - t,
            0 <= e0 < 0x8000,
            t > 0 ==> exp > 0,
            (coeff >> 47 == 0) == (coeff < 0x8000_0000_0000),
        decreases 0x1_0000_0000_0000 - coeff,
    {
        let ghost old_coeff = coeff as int;
        proof {
            lemma_shift_step(coeff);
            lemma_pow2_adds(t, 1);
            lemma2_to64();
        }
        coeff <<= 1;
        exp -= 1;
        proof {
            assert(lead_shift(old_coeff) == 1 + lead_shift(2 * old_coeff));
            t = t + 1;
            lemma_shift_step(coeff);
            assert(coeff as int == c0 * pow2(t) as int) by (nonlinear_arith)
                requires
                    coeff as int == 2 * (c0 * pow2((t - 1) as nat) as int),
                    pow2(t) == pow2((t - 1) as nat) * 2;
        }
        if exp <= 0 {
            return 0; // underflow -> zero
        }
    }
    proof {
        lemma_assemble(sign, exp as u64, coeff);
        assert(sign as int == sign_of(fp) * 0x8000_0000_0000_0000);
    }
    sign | ((exp as u64) << 48) | coeff
}

/// The word with the sign bit flipped and the other bits kept.
pub open spec fn flip_sign(fp: u64) -> int {
    if fp >= 0x8000_0000_0000_0000 {
        fp - 0x8000_0000_0000_0000
    } else {
        fp + 0x8000_0000_0000_0000
    }
}

/// Flip the sign bit.
pub fn negate(fp: u64) -> (r: u64)
    ensures
        r as int == flip_sign(fp),
{
    proof {
        lemma_fields(fp);
    }
    fp ^ (1 << 63)
}

/// The IEEE 754 double-precision bits of the value that a Cray-1 word stands for: the word
/// is normalized first (a zero coefficient, or underflow, gives the all-zero word); a zero
/// word, and an exponent outside what a normal double can hold, give zero with the
/// normalized word's sign; otherwise the coefficient's 47 bits below its
/// leading one become the top of the 52-bit fraction.
pub open spec fn ieee_bits_spec(fp: u64) -> int {
    let w = normalize_spec(fp) as u64;
    let sign = sign_of(w) * 0x8000_0000_0000_0000;
    let e = exponent_of(w);
    let c = coefficient_of(w);
    if e == 0 || c == 0 || e <= 15362 || e >= 15362 + 0x7FF {
        sign
    } else {
        sign + (e - 15362) * 0x10_0000_0000_0000 + (c % 0x8000_0000_0000) * 32
    }
}

/// The Cray-1 word for the double whose IEEE 754 bits are `bits`: zero for zeros,
/// subnormals and NaNs; the largest word of the value's sign for infinities; otherwise a
/// normalized word whose coefficient holds the top 47 bits of the fraction below its
/// leading one, the exponent rebased from bias 1023 to bias 0x4000 (with the binary
/// point moved by one).
pub open spec fn from_ieee_spec(bits: u64) -> int {
    let sign = bits as int / 0x8000_0000_0000_0000;
    let e = (bits as int / 0x10_0000_0000_0000) % 0x800;
    let frac = bits as int % 0x10_0000_0000_0000;
    if e == 0 || (e == 0x7FF && frac != 0) {
        0
    } else if e == 0x7FF {
        sign * 0x8000_0000_0000_0000 + 0x7FFF * 0x1_0000_0000_0000 + 0xFFFF_FFFF_FFFF
    } else {
        sign * 0x8000_0000_0000_0000 + (e + 15362) * 0x1_0000_0000_0000 + 0x8000_0000_0000 + frac / 32
    }
}

proof fn lemma_ieee_fields(bits: u64)
    by (bit_vector)
    ensures
        bits >> 63u64 == bits / 0x8000_0000_0000_0000,
        (bits >> 52u64) & 0x7FF == (bits / 0x10_0000_0000_0000) % 0x800,
        bits & 0x000F_FFFF_FFFF_FFFF == bits % 0x10_0000_0000_0000,
        (bits & 0x000F_FFFF_FFFF_FFFF) >> 5u64 == (bits % 0x10_0000_0000_0000) / 32,
{
}

proof fn lemma_ieee_assemble(s: u64, e: u64, f: u64)
    by (bit_vector)
    requires
        s < 2,
        e < 0x800,
        f < 0x10_0000_0000_0000,
    ensures
        (s << 63u64) | (e << 52u64) | f == s * 0x8000_0000_0000_0000 + e * 0x10_0000_0000_0000 + f,
        s << 63u64 == s * 0x8000_0000_0000_0000,
{
}

proof fn lemma_cray_assemble(s: u64, e: u64, f: u64)
    by (bit_vector)
    requires
        s < 2,
        e < 0x8000,
        f < 0x8000_0000_0000,
    ensures
        (s << 63u64) | (e << 48u64) | (1u64 << 47u64) | f == s * 0x8000_0000_0000_0000 + e
            * 0x1_0000_0000_0000 + 0x8000_0000_0000 + f,
        (s << 63u64) | (0x7FFFu64 << 48u64) | 0xFFFF_FFFF_FFFFu64 == s * 0x8000_0000_0000_0000
            + 0x7FFF * 0x1_0000_0000_0000 + 0xFFFF_FFFF_FFFF,
{
}

proof fn lemma_fraction_bits(c: u64)
    by (bit_vector)
    ensures
        (c & 0x7FFF_FFFF_FFFF) << 5u64 == (c % 0x8000_0000_0000) * 32,
        (c & 0x7FFF_FFFF_FFFF) << 5u64 < 0x10_0000_0000_0000,
{
}

/// The IEEE 754 double bits for a Cray-1 word (see `ieee_bits_spec`).
pub fn to_ieee_bits(fp: u64) -> (r: u64)
    ensures
        r as int == ieee_bits_spec(fp),
{
    let w = normalize(fp);
    proof {
        lemma_fields(w);
        lemma_ieee_fields(w);
    }
    let sign = w >> 63;
    let cray_exp = (w >> 48) & 0x7FFF;
    let coeff = w & 0x0000_FFFF_FFFF_FFFF;
    proof {
        lemma_ieee_assemble(sign, 0, 0);
    }
    if cray_exp == 0 || coeff == 0 || cray_exp <= 15362 || cray_exp >= 15362 + 0x7FF {
        return sign << 63;
    }
    let f64_exp = cray_exp - 15362;
    let frac = (coeff & 0x7FFF_FFFF_FFFF) << 5;
    proof {
        lemma_fraction_bits(coeff);
        lemma_ieee_assemble(sign, f64_exp, frac);
    }
    (sign << 63) | (f64_exp << 52) | frac
}

/// The Cray-1 word for the double with IEEE 754 bits `bits` (see `from_ieee_spec`).
pub fn from_ieee_bits(bits: u64) -> (r: u64)
    ensures
        r as int == from_ieee_spec(bits),
{
    proof {
        lemma_ieee_fields(bits);
    }
    let sign = bits >> 63;
    let e = (bits >> 52) & 0x7FF;
    let frac = bits & 0x000F_FFFF_FFFF_FFFF;
    if e == 0 || (e == 0x7FF && frac != 0) {
        return 0;
    }
    proof {
        lemma_cray_assemble(sign, (e + 15362) as u64, frac >> 5);
    }
    if e == 0x7FF {
        return (sign << 63) | (0x7FFF << 48) | 0xFFFF_FFFF_FFFF;
    }
    let cray_exp = e + 15362;
    (sign << 63) | (cray_exp << 48) | (1u64 << 47) | (frac >> 5)
}

} // verus!
