//! Shifts of 64-bit words as arithmetic on their values.
use vstd::prelude::*;
use vstd::arithmetic::power2::{pow2, lemma2_to64, lemma_pow2_adds, lemma_pow2_pos, lemma_pow2_strictly_increases};
use vstd::arithmetic::div_mod::{lemma_fundamental_div_mod_converse, lemma_div_denominator, lemma_fundamental_div_mod};
use vstd::bits::{lemma_u64_shl_is_mul, lemma_u64_low_bits_mask_is_mod, low_bits_mask};

verus! {

/// 2^64: one more than the largest word.
pub open spec fn word_modulus() -> int {
    0x1_0000_0000_0000_0000
}

/// x shifted left by c places, keeping 64 bits.
pub open spec fn shl64(x: int, c: int) -> int {
    (x * (pow2(c as nat) as int)) % word_modulus()
}

/// The high 64 bits of the 128-bit value hi:lo shifted left by c places.
pub open spec fn double_shl(hi: int, lo: int, c: int) -> int {
    ((hi * word_modulus() + lo) * (pow2(c as nat) as int) / word_modulus()) % word_modulus()
}

/// The low 64 bits of the 128-bit value hi:lo shifted right by c places.
pub open spec fn double_shr(hi: int, lo: int, c: int) -> int {
    ((hi * word_modulus() + lo) / (pow2(c as nat) as int)) % word_modulus()
}

proof fn lemma_shl_low(x: u64, c: u64)
    by (bit_vector)
    requires
        0 < c < 64,
    ensures
        x << c == (x & (((1u64 << ((64 - c) as u64)) - 1u64) as u64)) << c,
{
}

/// Shifting left and right by complementary amounts leaves disjoint bits, so OR is sum.
pub proof fn lemma_or_disjoint(x: u64, y: u64, c: u64)
    by (bit_vector)
    requires
        0 < c < 64,
    ensures
        (x << c) | (y >> ((64 - c) as u64)) == (x << c) + (y >> ((64 - c) as u64)),
{
}

/// pow2(c) * pow2(64 - c) is 2^64, and both factors are positive.
pub proof fn lemma_split_word(c: nat)
    requires
        c <= 64,
    ensures
        pow2(c) * pow2((64 - c) as nat) == word_modulus(),
        pow2(c) > 0,
        pow2((64 - c) as nat) > 0,
{
    lemma_pow2_adds(c, (64 - c) as nat);
    lemma2_to64();
    lemma_pow2_pos(c);
    lemma_pow2_pos((64 - c) as nat);
}

/// A left shift by fewer than 64 places multiplies modulo 2^64.
pub proof fn lemma_shl(x: u64, c: u64)
    requires
        c < 64,
    ensures
        (x << c) as int == shl64(x as int, c as int),
        0 <= shl64(x as int, c as int) < word_modulus(),
{
    lemma2_to64();
    if c == 0 {
        lemma_u64_shl_is_mul(x, 0);
        lemma_fundamental_div_mod_converse(x as int, word_modulus(), 0, x as int);
    } else {
        let s = (64 - c) as u64;
        let pc = pow2(c as nat) as int;
        let ps = pow2(s as nat) as int;
        lemma_split_word(c as nat);
        lemma_pow2_strictly_increases(s as nat, 64);
        lemma_u64_shl_is_mul(1, s);
        lemma_shl_low(x, c);
        lemma_u64_low_bits_mask_is_mod(x, s as nat);
        assert(((1u64 << s) - 1u64) as u64 == low_bits_mask(s as nat) as u64);
        let r = x % (ps as u64);
        let q = x as int / ps;
        lemma_fundamental_div_mod(x as int, ps);
        assert(r * pc < word_modulus()) by (nonlinear_arith)
            requires
                0 <= r < ps,
                pc > 0,
                pc * ps == word_modulus();
        lemma_u64_shl_is_mul(r, c);
        assert((x as int) * pc == q * word_modulus() + r * pc) by (nonlinear_arith)
            requires
                x as int == ps * q + r,
                pc * ps == word_modulus();
        lemma_fundamental_div_mod_converse(x * pc, word_modulus(), q, r * pc);
    }
}

/// The double-length left shift, case by case.
pub proof fn lemma_double_shl(hi: u64, lo: u64, c: int)
    requires
        0 <= c < 128,
    ensures
        double_shl(hi as int, lo as int, c) == if c == 0 {
            hi as int
        } else if c >= 64 {
            shl64(lo as int, c - 64)
        } else {
            shl64(hi as int, c) + lo as int / (pow2((64 - c) as nat) as int)
        },
{
    let w = word_modulus();
    let x = hi * w + lo;
    lemma2_to64();
    if c == 0 {
        lemma_fundamental_div_mod_converse(x * 1, w, hi as int, lo as int);
        lemma_fundamental_div_mod_converse(hi as int, w, 0, hi as int);
    } else if c >= 64 {
        let pc2 = pow2((c - 64) as nat) as int;
        lemma_pow2_adds((c - 64) as nat, 64);
        lemma_pow2_pos((c - 64) as nat);
        assert(x * (pow2(c as nat) as int) == (x * pc2) * w) by (nonlinear_arith)
            requires pow2(c as nat) == pc2 * w;
        lemma_fundamental_div_mod_converse((x * pc2) * w, w, x * pc2, 0);
        let lp = lo * pc2;
        assert(x * pc2 == (hi * pc2) * w + lp) by (nonlinear_arith)
            requires x == hi * w + lo, lp == lo * pc2;
        assert(lp >= 0) by (nonlinear_arith) requires lo >= 0, pc2 > 0, lp == lo * pc2;
        let r = lp % w;
        lemma_fundamental_div_mod(lp, w);
        assert(x * pc2 == (hi * pc2 + lp / w) * w + r) by (nonlinear_arith)
            requires x * pc2 == (hi * pc2) * w + lp, lp == w * (lp / w) + r;
        lemma_fundamental_div_mod_converse(x * pc2, w, hi * pc2 + lp / w, r);
    } else {
        let pc = pow2(c as nat) as int;
        let ps = pow2((64 - c) as nat) as int;
        lemma_split_word(c as nat);
        let ql = lo as int / ps;
        let rl = lo as int % ps;
        lemma_fundamental_div_mod(lo as int, ps);
        let qh = hi as int / ps;
        let rh = hi as int % ps;
        lemma_fundamental_div_mod(hi as int, ps);
        assert(rl * pc < w) by (nonlinear_arith)
            requires 0 <= rl < ps, pc > 0, pc * ps == w;
        assert(x * pc == (hi * pc + ql) * w + rl * pc) by (nonlinear_arith)
            requires x == hi * w + lo, lo == ps * ql + rl, pc * ps == w;
        assert(rl * pc >= 0) by (nonlinear_arith) requires rl >= 0, pc > 0;
        lemma_fundamental_div_mod_converse(x * pc, w, hi * pc + ql, rl * pc);
        // shl64(hi, c) is rh * pc.
        assert(hi * pc == qh * w + rh * pc) by (nonlinear_arith)
            requires hi == ps * qh + rh, pc * ps == w;
        assert(rh * pc <= w - pc) by (nonlinear_arith)
            requires 0 <= rh < ps, pc > 0, pc * ps == w;
        assert(rh * pc >= 0) by (nonlinear_arith) requires rh >= 0, pc > 0;
        lemma_fundamental_div_mod_converse(hi * pc, w, qh, rh * pc);
        assert(ql < pc) by (nonlinear_arith)
            requires lo == ps * ql + rl, 0 <= rl, lo < w, pc * ps == w, ps > 0;
        assert(ql >= 0) by (nonlinear_arith) requires lo == ps * ql + rl, 0 <= lo, rl < ps, ps > 0;
        assert(hi * pc + ql == qh * w + (rh * pc + ql));
        lemma_fundamental_div_mod_converse(hi * pc + ql, w, qh, rh * pc + ql);
    }
}

/// The double-length right shift, case by case.
pub proof fn lemma_double_shr(hi: u64, lo: u64, c: int)
    requires
        0 <= c < 128,
    ensures
        double_shr(hi as int, lo as int, c) == if c == 0 {
            lo as int
        } else if c >= 64 {
            hi as int / (pow2((c - 64) as nat) as int)
        } else {
            shl64(hi as int, 64 - c) + lo as int / (pow2(c as nat) as int)
        },
{
    let w = word_modulus();
    let x = hi * w + lo;
    lemma2_to64();
    if c == 0 {
        lemma_fundamental_div_mod_converse(x, 1, x, 0);
        lemma_fundamental_div_mod_converse(x, w, hi as int, lo as int);
    } else if c >= 64 {
        let pc2 = pow2((c - 64) as nat) as int;
        lemma_pow2_adds(64, (c - 64) as nat);
        lemma_pow2_pos((c - 64) as nat);
        lemma_div_denominator(x, w, pc2);
        lemma_fundamental_div_mod_converse(x, w, hi as int, lo as int);
        let q = hi as int / pc2;
        assert(q <= hi) by (nonlinear_arith)
            requires q == hi as int / pc2, pc2 > 0, hi >= 0;
        assert(q >= 0) by (nonlinear_arith)
            requires q == hi as int / pc2, pc2 > 0, hi >= 0;
        lemma_fundamental_div_mod_converse(q, w, 0, q);
    } else {
        let pc = pow2(c as nat) as int;
        let ps = pow2((64 - c) as nat) as int;
        lemma_split_word(c as nat);
        let ql = lo as int / pc;
        let rl = lo as int % pc;
        lemma_fundamental_div_mod(lo as int, pc);
        let qh = hi as int / pc;
        let rh = hi as int % pc;
        lemma_fundamental_div_mod(hi as int, pc);
        assert(x == (hi * ps + ql) * pc + rl) by (nonlinear_arith)
            requires x == hi * w + lo, lo == pc * ql + rl, pc * ps == w;
        lemma_fundamental_div_mod_converse(x, pc, hi * ps + ql, rl);
        // shl64(hi, 64 - c) is rh * ps.
        assert(hi * ps == qh * w + rh * ps) by (nonlinear_arith)
            requires hi == pc * qh + rh, pc * ps == w;
        assert(rh * ps <= w - ps) by (nonlinear_arith)
            requires 0 <= rh < pc, ps > 0, pc * ps == w;
        assert(rh * ps >= 0) by (nonlinear_arith) requires rh >= 0, ps > 0;
        lemma_fundamental_div_mod_converse(hi * ps, w, qh, rh * ps);
        assert(ql < ps) by (nonlinear_arith)
            requires lo == pc * ql + rl, 0 <= rl, lo < w, pc * ps == w, pc > 0;
        assert(ql >= 0) by (nonlinear_arith) requires lo == pc * ql + rl, 0 <= lo, rl < pc, pc > 0;
        assert(hi * ps + ql == qh * w + (rh * ps + ql));
        lemma_fundamental_div_mod_converse(hi * ps + ql, w, qh, rh * ps + ql);
    }
}

} // verus!
