//! What individual instructions do, each written out directly in terms of the registers,
//! memory and instruction fields it reads: jumps and branches, memory transfers, the
//! lengths of instructions, the work handed to the floating point unit, and the
//! elementwise vector instructions.
use vstd::prelude::*;
use crate::cpu::{
    RegsView, FpOp, effect, fields_in_range, fp_request_spec, fp_results_of, lemma_mask24,
};
use crate::instr::{Decoded, decode_spec};
use crate::cpu::{MachineView, execute_spec, timing_fits, sources};
use crate::memory::MEMORY_WORDS;

verus! {

proof fn lemma_a0_sign(a0: u32)
    by (bit_vector)
    ensures
        (a0 & 0x0080_0000u32 == 0) == ((a0 / 0x80_0000) % 2 == 0),
{
}

proof fn lemma_s0_sign(s0: u64)
    by (bit_vector)
    ensures
        ((s0 as i64) > 0i64) == (0 < s0 && s0 < 0x8000_0000_0000_0000),
        ((s0 as i64) < 0i64) == (s0 >= 0x8000_0000_0000_0000),
{
}

/// Jumps and branches (005-017) change P and nothing else, and never trap: `J Bjk` (005
/// with i = 0) goes to the parcel address in Bjk; `J exp` (005 with i != 0, and 006) goes
/// to the instruction's 25-bit parcel address; `R exp` (007) also saves P, which already
/// points past it, in B00. The conditional branches go to exp exactly when: JAZ (010) A0 is
/// zero, JAN (011) A0 is not, JAP (012) A0 is non-zero with bit 23 clear, JAM (013) bit 23
/// of A0 is set, JSZ (014) S0 is zero, JSN (015) S0 is not, JSP (016) S0 is positive as a
/// signed word, JSM (017) S0 is negative; otherwise P stays. Targets keep P's 24 bits.
pub proof fn law_branches(r: RegsView, mem: Seq<u64>, d: Decoded, fp: Seq<u64>)
    requires
        r.well_sized(),
        fields_in_range(d),
        0o005 <= d.opcode <= 0o017,
    ensures
        ({
            let after = effect(r, mem, d, fp);
            let op = d.opcode;
            let a0 = r.a[0];
            let s0 = r.s[0];
            let target = d.addr25 & 0x00FF_FFFF;
            let taken = if op == 0o010 {
                a0 == 0
            } else if op == 0o011 {
                a0 != 0
            } else if op == 0o012 {
                a0 != 0 && a0 & 0x0080_0000 == 0
            } else if op == 0o013 {
                a0 & 0x0080_0000 != 0
            } else if op == 0o014 {
                s0 == 0
            } else if op == 0o015 {
                s0 != 0
            } else if op == 0o016 {
                (s0 as i64) > 0
            } else {
                (s0 as i64) < 0
            };
            &&& after.1 == mem
            &&& after.2 == Ok::<(), crate::cpu::Trap>(())
            &&& (op == 0o005 && d.i == 0) ==> after.0 == RegsView {
                p: r.b[d.j * 8 + d.k] & 0x00FF_FFFF,
                ..r
            }
            &&& ((op == 0o005 && d.i != 0) || op == 0o006) ==> after.0 == RegsView { p: target, ..r }
            &&& op == 0o007 ==> after.0 == RegsView {
                p: target,
                b: r.b.update(0, r.p & 0x00FF_FFFF),
                ..r
            }
            &&& 0o010 <= op ==> after.0 == RegsView { p: if taken { target } else { r.p }, ..r }
        }),
{
    lemma_mask24(d.addr25);
    lemma_mask24(r.b[d.j * 8 + d.k]);
    lemma_mask24(r.p);
    lemma_a0_sign(r.a[0]);
    lemma_s0_sign(r.s[0]);
}

/// Exits trap and change nothing: 000 with an error exit, 004 with a normal exit.
pub proof fn law_exits(r: RegsView, mem: Seq<u64>, d: Decoded, fp: Seq<u64>)
    requires
        d.opcode == 0o000 || d.opcode == 0o004,
    ensures
        effect(r, mem, d, fp).0 == r,
        effect(r, mem, d, fp).1 == mem,
        effect(r, mem, d, fp).2 == if d.opcode == 0o000 {
            Err::<(), crate::cpu::Trap>(crate::cpu::Trap::ErrorExit)
        } else {
            Err::<(), crate::cpu::Trap>(crate::cpu::Trap::NormalExit)
        },
{
}

/// Memory transfers (100-137) move one word between memory and a register, at the word
/// address Ah + exp (h the low three bits of the opcode, exp the 22-bit address), kept to
/// 24 bits and then wrapped to the memory size: 100-107 load Ai with the word's low 24 bits,
/// 110-117 store Ai, 120-127 load Si, 130-137 store Si. Nothing else changes.
pub proof fn law_memory_transfers(r: RegsView, mem: Seq<u64>, d: Decoded, fp: Seq<u64>)
    requires
        r.well_sized(),
        mem.len() == MEMORY_WORDS,
        fields_in_range(d),
        0o100 <= d.opcode <= 0o137,
    ensures
        ({
            let after = effect(r, mem, d, fp);
            let op = d.opcode;
            let i = d.i as int;
            let w = ((r.a[(op & 7) as int] + d.addr22) % 0x100_0000) % 0x10_0000;
            &&& after.2 == Ok::<(), crate::cpu::Trap>(())
            &&& op <= 0o107 ==> after.1 == mem && after.0 == RegsView {
                a: r.a.update(i, (mem[w] % 0x100_0000) as u32),
                ..r
            }
            &&& 0o110 <= op <= 0o117 ==> after.1 == mem.update(w, r.a[i] as u64) && after.0 == r
            &&& 0o120 <= op <= 0o127 ==> after.1 == mem && after.0 == RegsView {
                s: r.s.update(i, mem[w]),
                ..r
            }
            &&& 0o130 <= op ==> after.1 == mem.update(w, r.s[i]) && after.0 == r
        }),
{
    crate::cpu::lemma_low_bits_u8(d.opcode);
}

proof fn lemma_parcel_fields(p0: u16)
    by (bit_vector)
    ensures
        p0 >> 9u16 == p0 / 512,
        (p0 >> 6u16) & 7 == (p0 / 64) % 8,
{
}

/// Which instructions take two parcels: jumps and returns to an explicit parcel address
/// (006, 007, and 005 with i != 0), every conditional branch (010-017), the 22-bit constant
/// transmits 021, 040 and 041, and every memory transfer (100-137). All others take one,
/// the vector length transmit 020 among them. The opcode is the parcel's top seven bits, i
/// the three below them.
pub proof fn law_instruction_length(p0: u16, p1: u16)
    ensures
        ({
            let op = p0 >> 9u16;
            let i = (p0 >> 6u16) & 7;
            let long = decode_spec(p0, p1).long;
            &&& (0o010 <= op <= 0o017) ==> long
            &&& (op == 0o006 || op == 0o007) ==> long
            &&& op == 0o005 ==> (long <==> i != 0)
            &&& (op == 0o021 || op == 0o040 || op == 0o041) ==> long
            &&& (0o100 <= op <= 0o137) ==> long
            &&& (op <= 0o004 || op == 0o020 || (0o022 <= op <= 0o037) || (0o042 <= op <= 0o077)
                || 0o140 <= op) ==> !long
        }),
{
    lemma_parcel_fields(p0);
}

/// The floating point work of each floating point instruction: the operation and the
/// operand pairs it hands to the floating point unit, first operand first. Scalar ones
/// take one pair from Sj and Sk: 062 adds, 063 subtracts Sk from Sj, 064-066 multiply, 067
/// doubles the product; 070 takes the reciprocal of Sj; 071 with j = 2 converts the integer
/// Ak. Vector ones take one pair per element n below VL: even opcodes 160-172 pair Sj with
/// Vk[n], odd ones 161-173 pair Vj[n] with Vk[n]; 160-165 multiply, 166 and 167 double
/// the product, 170 and 171 add, 172 and 173 subtract; 174 takes reciprocals of Vj[n].
pub proof fn law_fp_requests(r: RegsView, d: Decoded)
    requires
        r.well_sized(),
        fields_in_range(d),
    ensures
        ({
            let op = d.opcode;
            let sj = r.s[d.j as int];
            let sk = r.s[d.k as int];
            let vj = r.v[d.j as int];
            let vk = r.v[d.k as int];
            let vl = r.vl as int;
            let req = fp_request_spec(r, d);
            let scalar = |o: FpOp, x: u64, y: u64| req == Some((o, seq![(x, y)]));
            let vector = |o: FpOp, scalar_x: bool, unary: bool| req matches Some((o2, pairs)) && o2 == o
                && pairs.len() == vl && forall|n: int|
                0 <= n < vl ==> #[trigger] pairs[n] == (
                    if scalar_x { sj } else { vj[n] },
                    if unary { 0u64 } else { vk[n] },
                );
            &&& op == 0o062 ==> scalar(FpOp::Add, sj, sk)
            &&& op == 0o063 ==> scalar(FpOp::Sub, sj, sk)
            &&& 0o064 <= op <= 0o066 ==> scalar(FpOp::Mul, sj, sk)
            &&& op == 0o067 ==> scalar(FpOp::DoubleMul, sj, sk)
            &&& op == 0o070 ==> scalar(FpOp::Reciprocal, sj, 0)
            &&& (op == 0o071 && d.j == 2) ==> scalar(FpOp::FromInteger, r.a[d.k as int] as u64, 0)
            &&& (op == 0o160 || op == 0o162 || op == 0o164) ==> vector(FpOp::Mul, true, false)
            &&& (op == 0o161 || op == 0o163 || op == 0o165) ==> vector(FpOp::Mul, false, false)
            &&& op == 0o166 ==> vector(FpOp::DoubleMul, true, false)
            &&& op == 0o167 ==> vector(FpOp::DoubleMul, false, false)
            &&& op == 0o170 ==> vector(FpOp::Add, true, false)
            &&& op == 0o171 ==> vector(FpOp::Add, false, false)
            &&& op == 0o172 ==> vector(FpOp::Sub, true, false)
            &&& op == 0o173 ==> vector(FpOp::Sub, false, false)
            &&& op == 0o174 ==> vector(FpOp::Reciprocal, false, true)
            &&& (op < 0o062 || (0o071 < op < 0o160) || 0o174 < op || (op == 0o071 && d.j != 2))
                ==> req is None
        }),
{
}

/// A scalar floating point instruction (062-070) puts into Si what the floating point unit
/// returned for its operation on Sj and Sk (on Sj alone for the reciprocal 070); a vector
/// one (160-174) puts into each element n of Vi below VL what the unit returned for that
/// element's pair. Nothing else changes.
pub proof fn law_fp_results<F: Fn(FpOp, u64, u64) -> u64>(
    fpu: &F,
    r: RegsView,
    mem: Seq<u64>,
    d: Decoded,
    fp: Seq<u64>,
)
    requires
        r.well_sized(),
        fields_in_range(d),
        r.vl <= 64,
        fp_results_of(fpu, r, d, fp),
    ensures
        ({
            let op = d.opcode;
            let i = d.i as int;
            let sj = r.s[d.j as int];
            let sk = r.s[d.k as int];
            let after = effect(r, mem, d, fp).0;
            &&& op == 0o062 ==> call_ensures(*fpu, (FpOp::Add, sj, sk), after.s[i])
            &&& op == 0o063 ==> call_ensures(*fpu, (FpOp::Sub, sj, sk), after.s[i])
            &&& 0o064 <= op <= 0o066 ==> call_ensures(*fpu, (FpOp::Mul, sj, sk), after.s[i])
            &&& op == 0o067 ==> call_ensures(*fpu, (FpOp::DoubleMul, sj, sk), after.s[i])
            &&& op == 0o070 ==> call_ensures(*fpu, (FpOp::Reciprocal, sj, 0u64), after.s[i])
            &&& 0o062 <= op <= 0o070 ==> after == RegsView { s: r.s.update(i, after.s[i]), ..r }
            &&& 0o160 <= op <= 0o174 ==> forall|n: int|
                0 <= n < r.vl ==> #[trigger] after.v[i][n] == fp[n]
            &&& 0o160 <= op <= 0o174 ==> forall|n: int|
                r.vl <= n < 64 ==> #[trigger] after.v[i][n] == r.v[i][n]
        }),
{
    let after = effect(r, mem, d, fp).0;
    if 0o062 <= d.opcode <= 0o070 {
        assert(after.s =~= r.s.update(d.i as int, after.s[d.i as int]));
    }
}

/// Vector logical instructions (140-147) write Vi's elements below VL and nothing else.
/// Element n combines Sj (even opcodes) or Vj[n] (odd opcodes) with Vk[n]: AND for 140 and
/// 141, OR for 142 and 143, XOR for 144 and 145; 146 and 147 take Sj or Vj[n] where bit
/// 63 - n of VM is set, and Vk[n] where it is clear.
pub proof fn law_vector_logical(r: RegsView, mem: Seq<u64>, d: Decoded, fp: Seq<u64>)
    requires
        r.well_sized(),
        mem.len() == MEMORY_WORDS,
        fields_in_range(d),
        r.vl <= 64,
        0o140 <= d.opcode <= 0o147,
    ensures
        ({
            let after = effect(r, mem, d, fp);
            let op = d.opcode;
            let i = d.i as int;
            let vl = r.vl as int;
            let sj = r.s[d.j as int];
            let vj = r.v[d.j as int];
            let vk = r.v[d.k as int];
            let ak = r.a[d.k as int];
            let element = |n: int| {
                let x = if op % 2 == 0 { sj } else { vj[n] };
                if op <= 0o141 {
                    x & vk[n]
                } else if op <= 0o143 {
                    x | vk[n]
                } else if op <= 0o145 {
                    x ^ vk[n]
                } else if (r.vm >> ((63 - n) as u64)) & 1 == 1 {
                    x
                } else {
                    vk[n]
                }
            };
            &&& after.1 == mem
            &&& after.2 == Ok::<(), crate::cpu::Trap>(())
            &&& after.0 == RegsView { v: r.v.update(i, after.0.v[i]), ..r }
            &&& after.0.v[i].len() == 64
            &&& forall|n: int| 0 <= n < vl ==> #[trigger] after.0.v[i][n] == element(n)
            &&& forall|n: int| vl <= n < 64 ==> #[trigger] after.0.v[i][n] == r.v[i][n]
        }),
{
    let after = effect(r, mem, d, fp).0;
    assert(after.v =~= r.v.update(d.i as int, after.v[d.i as int]));
}

/// Vector shifts (150, 151) write Vi's elements below VL and nothing else: element n is
/// Vj[n] shifted left (150) or right (151) by the low 7 bits of Ak, and zero when those
/// bits count 64 places or more.
pub proof fn law_vector_shifts(r: RegsView, mem: Seq<u64>, d: Decoded, fp: Seq<u64>)
    requires
        r.well_sized(),
        mem.len() == MEMORY_WORDS,
        fields_in_range(d),
        r.vl <= 64,
        d.opcode == 0o150 || d.opcode == 0o151,
    ensures
        ({
            let after = effect(r, mem, d, fp);
            let op = d.opcode;
            let i = d.i as int;
            let vl = r.vl as int;
            let sj = r.s[d.j as int];
            let vj = r.v[d.j as int];
            let vk = r.v[d.k as int];
            let ak = r.a[d.k as int];
            let element = |n: int| {
                let count = ak & 0x7F;
                if count >= 64 {
                    0
                } else if op == 0o150 {
                    vj[n] << (count as u64)
                } else {
                    vj[n] >> (count as u64)
                }
            };
            &&& after.1 == mem
            &&& after.2 == Ok::<(), crate::cpu::Trap>(())
            &&& after.0 == RegsView { v: r.v.update(i, after.0.v[i]), ..r }
            &&& after.0.v[i].len() == 64
            &&& forall|n: int| 0 <= n < vl ==> #[trigger] after.0.v[i][n] == element(n)
            &&& forall|n: int| vl <= n < 64 ==> #[trigger] after.0.v[i][n] == r.v[i][n]
        }),
{
    let after = effect(r, mem, d, fp).0;
    assert(after.v =~= r.v.update(d.i as int, after.v[d.i as int]));
    let ak = r.a[d.k as int];
    crate::cpu::lemma_low_bits_u32(ak);
    let vj = r.v[d.j as int];
    let count = (ak & 0x7F) as u64;
    assert forall|n: int| 0 <= n < r.vl && count < 64 implies #[trigger] after.v[d.i as int][n] == (
        if d.opcode == 0o150 { vj[n] << count } else { vj[n] >> count }) by {
        crate::bits::lemma_shl(vj[n], count);
        vstd::bits::lemma_u64_shr_is_div(vj[n], count);
    }
}

/// Vector element rotations (152, 153) write Vi's elements below VL and nothing else:
/// element n is element (n + c) mod VL (152, left) or (n + VL - c) mod VL (153, right) of
/// Vj as it was before the instruction, where c is Ak modulo VL.
pub proof fn law_vector_rotations(r: RegsView, mem: Seq<u64>, d: Decoded, fp: Seq<u64>)
    requires
        r.well_sized(),
        mem.len() == MEMORY_WORDS,
        fields_in_range(d),
        r.vl <= 64,
        d.opcode == 0o152 || d.opcode == 0o153,
    ensures
        ({
            let after = effect(r, mem, d, fp);
            let op = d.opcode;
            let i = d.i as int;
            let vl = r.vl as int;
            let sj = r.s[d.j as int];
            let vj = r.v[d.j as int];
            let vk = r.v[d.k as int];
            let ak = r.a[d.k as int];
            let element = |n: int| {
                let c = ak as int % vl;
                if op == 0o152 {
                    vj[(n + c) % vl]
                } else {
                    vj[(n + vl - c) % vl]
                }
            };
            &&& after.1 == mem
            &&& after.2 == Ok::<(), crate::cpu::Trap>(())
            &&& after.0 == RegsView { v: r.v.update(i, after.0.v[i]), ..r }
            &&& after.0.v[i].len() == 64
            &&& forall|n: int| 0 <= n < vl ==> #[trigger] after.0.v[i][n] == element(n)
            &&& forall|n: int| vl <= n < 64 ==> #[trigger] after.0.v[i][n] == r.v[i][n]
        }),
{
    let after = effect(r, mem, d, fp).0;
    assert(after.v =~= r.v.update(d.i as int, after.v[d.i as int]));
}

/// Vector integer add and subtract (154-157) write Vi's elements below VL and nothing
/// else: element n is Sj + Vk[n] (154), Vj[n] + Vk[n] (155), Sj - Vk[n] (156) or
/// Vj[n] - Vk[n] (157), modulo 2^64; the subtrahend is always Vk[n].
pub proof fn law_vector_integer(r: RegsView, mem: Seq<u64>, d: Decoded, fp: Seq<u64>)
    requires
        r.well_sized(),
        mem.len() == MEMORY_WORDS,
        fields_in_range(d),
        r.vl <= 64,
        0o154 <= d.opcode <= 0o157,
    ensures
        ({
            let after = effect(r, mem, d, fp);
            let op = d.opcode;
            let i = d.i as int;
            let vl = r.vl as int;
            let sj = r.s[d.j as int];
            let vj = r.v[d.j as int];
            let vk = r.v[d.k as int];
            let ak = r.a[d.k as int];
            let element = |n: int| {
                let x = if op % 2 == 0 { sj as int } else { vj[n] as int };
                if op <= 0o155 {
                    ((x + vk[n]) % 0x1_0000_0000_0000_0000) as u64
                } else {
                    ((x - vk[n]) % 0x1_0000_0000_0000_0000) as u64
                }
            };
            &&& after.1 == mem
            &&& after.2 == Ok::<(), crate::cpu::Trap>(())
            &&& after.0 == RegsView { v: r.v.update(i, after.0.v[i]), ..r }
            &&& after.0.v[i].len() == 64
            &&& forall|n: int| 0 <= n < vl ==> #[trigger] after.0.v[i][n] == element(n)
            &&& forall|n: int| vl <= n < 64 ==> #[trigger] after.0.v[i][n] == r.v[i][n]
        }),
{
    let after = effect(r, mem, d, fp).0;
    assert(after.v =~= r.v.update(d.i as int, after.v[d.i as int]));
}

/// The vector load (176) writes Vi's elements below VL and nothing else: element n is the
/// memory word at A0 + n * stride, with stride Ak (or 1 when k is 0), kept to 24 bits and
/// wrapped to the memory size.
pub proof fn law_vector_load(r: RegsView, mem: Seq<u64>, d: Decoded, fp: Seq<u64>)
    requires
        r.well_sized(),
        mem.len() == MEMORY_WORDS,
        fields_in_range(d),
        r.vl <= 64,
        d.opcode == 0o176,
    ensures
        ({
            let after = effect(r, mem, d, fp);
            let op = d.opcode;
            let i = d.i as int;
            let vl = r.vl as int;
            let sj = r.s[d.j as int];
            let vj = r.v[d.j as int];
            let vk = r.v[d.k as int];
            let ak = r.a[d.k as int];
            let element = |n: int| {
                let stride = if d.k == 0 { 1 } else { ak as int };
                mem[((r.a[0] + stride * n) % 0x100_0000) % 0x10_0000]
            };
            &&& after.1 == mem
            &&& after.2 == Ok::<(), crate::cpu::Trap>(())
            &&& after.0 == RegsView { v: r.v.update(i, after.0.v[i]), ..r }
            &&& after.0.v[i].len() == 64
            &&& forall|n: int| 0 <= n < vl ==> #[trigger] after.0.v[i][n] == element(n)
            &&& forall|n: int| vl <= n < 64 ==> #[trigger] after.0.v[i][n] == r.v[i][n]
        }),
{
    let after = effect(r, mem, d, fp).0;
    assert(after.v =~= r.v.update(d.i as int, after.v[d.i as int]));
}

proof fn lemma_low_bits(x: u64)
    by (bit_vector)
    ensures
        x & 0x00FF_FFFF == x % 0x100_0000,
        (x >> 63u64 == 0) == (x < 0x8000_0000_0000_0000),
        ((x as i64) < 0i64) == (x >= 0x8000_0000_0000_0000),
        (x >> 63u64 == 1) == (x >= 0x8000_0000_0000_0000),
{
}

proof fn lemma_low_byte(a: u32)
    by (bit_vector)
    ensures
        a & 0xFF == a % 0x100,
{
}

/// Address register, B register and vector control instructions (020-037). 020 sets VL to
/// the low 8 bits of Ak, at most 64; 021 sets Ai to the 22-bit constant, 022 to jk, 023 to
/// the low 24 bits of Sj, 024 to the low 24 bits of Bjk; 025 sets Bjk to Ai; 030, 031 and
/// 032 set Ai to Aj + Ak, Aj - Ak and Aj * Ak modulo 2^24; 033 sets VM to Sj and 034
/// clears it. Nothing else changes; 026, 027 and 035-037 are not implemented and change
/// nothing.
pub proof fn law_address_instructions(r: RegsView, mem: Seq<u64>, d: Decoded, fp: Seq<u64>)
    requires
        r.well_sized(),
        r.in_range(),
        fields_in_range(d),
        0o020 <= d.opcode <= 0o037,
    ensures
        ({
            let after = effect(r, mem, d, fp);
            let op = d.opcode;
            let i = d.i as int;
            let jk = d.j * 8 + d.k;
            let aj = r.a[d.j as int] as int;
            let ak = r.a[d.k as int];
            &&& after.1 == mem
            &&& (op <= 0o025 || (0o030 <= op <= 0o034)) ==> after.2 == Ok::<(), crate::cpu::Trap>(())
            &&& op == 0o020 ==> after.0 == RegsView {
                vl: if ak & 0xFF > 64 { 64 } else { (ak & 0xFF) as u8 },
                ..r
            }
            &&& op == 0o021 ==> after.0 == RegsView { a: r.a.update(i, ((d.addr22 & 0x00FF_FFFF) as int) as u32), ..r }
            &&& op == 0o022 ==> after.0 == RegsView { a: r.a.update(i, (d.jk as int) as u32), ..r }
            &&& op == 0o023 ==> after.0 == RegsView { a: r.a.update(i, ((r.s[d.j as int] & 0x00FF_FFFF) as int) as u32), ..r }
            &&& op == 0o024 ==> after.0 == RegsView { a: r.a.update(i, ((r.b[jk] & 0x00FF_FFFF) as int) as u32), ..r }
            &&& op == 0o025 ==> after.0 == RegsView { b: r.b.update(jk, r.a[i] & 0x00FF_FFFF), ..r }
            &&& op == 0o030 ==> after.0 == RegsView { a: r.a.update(i, ((aj + ak) % 0x100_0000) as u32), ..r }
            &&& op == 0o031 ==> after.0 == RegsView { a: r.a.update(i, ((aj - ak) % 0x100_0000) as u32), ..r }
            &&& op == 0o032 ==> after.0 == RegsView { a: r.a.update(i, ((aj * ak) % 0x100_0000) as u32), ..r }
            &&& op == 0o033 ==> after.0 == RegsView { vm: r.s[d.j as int], ..r }
            &&& op == 0o034 ==> after.0 == RegsView { vm: 0, ..r }
            &&& (op == 0o026 || op == 0o027 || 0o035 <= op) ==> after.0 == r && after.2 == Err::<(), crate::cpu::Trap>(
                crate::cpu::Trap::Unimplemented(op),
            )
        }),
{
    lemma_mask24(d.addr22);
    lemma_mask24(r.b[d.j * 8 + d.k]);
    lemma_mask24(r.a[d.i as int]);
    lemma_low_bits(r.s[d.j as int]);
    lemma_low_byte(r.a[d.k as int]);
}

/// Scalar logical instructions (043-051) set one S register and change nothing else:
/// 043 clears Si; 044 Si = Sj AND Sk; 045 Sj AND NOT Sk; 046 Sj XOR Sk; 047 NOT (Sj XOR
/// Sk); 050 takes the bits of Sj where Sk has ones and keeps Si's elsewhere; 051 takes Sj
/// when Sj is negative as a signed word and keeps Si otherwise.
pub proof fn law_scalar_logical(r: RegsView, mem: Seq<u64>, d: Decoded, fp: Seq<u64>)
    requires
        r.well_sized(),
        fields_in_range(d),
        0o043 <= d.opcode <= 0o051,
    ensures
        ({
            let after = effect(r, mem, d, fp);
            let op = d.opcode;
            let i = d.i as int;
            let si = r.s[i];
            let sj = r.s[d.j as int];
            let sk = r.s[d.k as int];
            let x = if op == 0o043 {
                0
            } else if op == 0o044 {
                sj & sk
            } else if op == 0o045 {
                sj & !sk
            } else if op == 0o046 {
                sj ^ sk
            } else if op == 0o047 {
                !(sj ^ sk)
            } else if op == 0o050 {
                (si & !sk) | (sj & sk)
            } else if (sj as i64) < 0 {
                sj
            } else {
                si
            };
            &&& after.1 == mem
            &&& after.2 == Ok::<(), crate::cpu::Trap>(())
            &&& after.0 == RegsView { s: r.s.update(i, x), ..r }
        }),
{
    lemma_low_bits(r.s[d.j as int]);
}

/// Scalar shifts (052-057) set one S register and change nothing else: 052 sets S0 and 054
/// sets Si to Si shifted left by jk; 053 sets S0 and 055 sets Si to Si shifted right by
/// 64 - jk (zero when jk is 0); 056 sets Si to the high word of the 128-bit Si:Sj shifted
/// left, and 057 to the low word of Sj:Si shifted right, by the low 7 bits of Ak.
pub proof fn law_scalar_shifts(r: RegsView, mem: Seq<u64>, d: Decoded, fp: Seq<u64>)
    requires
        r.well_sized(),
        fields_in_range(d),
        0o052 <= d.opcode <= 0o057,
    ensures
        ({
            let after = effect(r, mem, d, fp);
            let op = d.opcode;
            let i = d.i as int;
            let si = r.s[i];
            let sj = r.s[d.j as int];
            let jk = d.jk as u64;
            let c = (r.a[d.k as int] & 0x7F) as u64;
            let dest = if op <= 0o053 { 0 } else { i };
            let x = if op == 0o052 || op == 0o054 {
                si << jk
            } else if op == 0o053 || op == 0o055 {
                if jk == 0 { 0 } else { si >> ((64 - jk) as u64) }
            } else if op == 0o056 {
                if c == 0 {
                    si
                } else if c >= 64 {
                    sj << ((c - 64) as u64)
                } else {
                    (si << c) | (sj >> ((64 - c) as u64))
                }
            } else {
                if c == 0 {
                    si
                } else if c >= 64 {
                    sj >> ((c - 64) as u64)
                } else {
                    (sj << ((64 - c) as u64)) | (si >> c)
                }
            };
            &&& after.1 == mem
            &&& after.2 == Ok::<(), crate::cpu::Trap>(())
            &&& after.0 == RegsView { s: r.s.update(dest, x), ..r }
        }),
{
    let si = r.s[d.i as int];
    let sj = r.s[d.j as int];
    let jk = d.jk as u64;
    let ak = r.a[d.k as int];
    crate::cpu::lemma_low_bits_u32(ak);
    let c = (ak & 0x7F) as u64;
    crate::bits::lemma_shl(si, jk);
    if jk > 0 {
        crate::cpu::lemma_shr_complement(si, jk);
    }
    if d.opcode == 0o056 {
        crate::bits::lemma_double_shl(si, sj, c as int);
        if c >= 64 {
            crate::bits::lemma_shl(sj, (c - 64) as u64);
        } else if c > 0 {
            crate::bits::lemma_shl(si, c);
            crate::cpu::lemma_shr_complement(sj, c);
            crate::bits::lemma_or_disjoint(si, sj, c);
        }
    }
    if d.opcode == 0o057 {
        crate::bits::lemma_double_shr(sj, si, c as int);
        if c >= 64 {
            vstd::bits::lemma_u64_shr_is_div(sj, (c - 64) as u64);
        } else if c > 0 {
            crate::bits::lemma_shl(sj, (64 - c) as u64);
            vstd::bits::lemma_u64_shr_is_div(si, c);
            crate::bits::lemma_or_disjoint(sj, si, (64 - c) as u64);
            assert((64 - (64 - c)) as u64 == c);
        }
    }
}

/// Scalar transmits and integer arithmetic (040, 060, 061, 071-077): 040 sets Si to the
/// 22-bit constant; 060 and 061 set Si to Sj + Sk and Sj - Sk modulo 2^64; 071 sets Si to
/// Ak zero-extended (j = 0) or its low 24 bits sign-extended from bit 23 (j = 1); 073 sets
/// Si to VM; 074 sets Si to Tjk and 075 Tjk to Si; 076 sets Si to element Ak mod 64 of Vj
/// and 077 sets that element of Vi to Sj. Nothing else changes.
pub proof fn law_scalar_transmits(r: RegsView, mem: Seq<u64>, d: Decoded, fp: Seq<u64>)
    requires
        r.well_sized(),
        fields_in_range(d),
        d.opcode == 0o040 || d.opcode == 0o060 || d.opcode == 0o061 || (d.opcode == 0o071 && d.j
            <= 1) || (0o073 <= d.opcode <= 0o077),
    ensures
        ({
            let after = effect(r, mem, d, fp);
            let op = d.opcode;
            let i = d.i as int;
            let jk = d.j * 8 + d.k;
            let si = r.s[i];
            let sj = r.s[d.j as int];
            let sk = r.s[d.k as int];
            let ak = r.a[d.k as int];
            let low = ak & 0x00FF_FFFF;
            let e = (ak & 63) as int;
            let set_s = |x: u64| after.0 == RegsView { s: r.s.update(i, x), ..r };
            &&& after.1 == mem
            &&& after.2 == Ok::<(), crate::cpu::Trap>(())
            &&& op == 0o040 ==> set_s(d.addr22 as u64)
            &&& op == 0o060 ==> set_s(((sj + sk) % 0x1_0000_0000_0000_0000) as u64)
            &&& op == 0o061 ==> set_s(((sj - sk) % 0x1_0000_0000_0000_0000) as u64)
            &&& (op == 0o071 && d.j == 0) ==> set_s(ak as u64)
            &&& (op == 0o071 && d.j == 1) ==> set_s(
                if low & 0x0080_0000 != 0 { (low as u64) | 0xFFFF_FFFF_FF00_0000 } else { low as u64 },
            )
            &&& op == 0o073 ==> set_s(r.vm)
            &&& op == 0o074 ==> set_s(r.t[jk])
            &&& op == 0o075 ==> after.0 == RegsView { t: r.t.update(jk, si), ..r }
            &&& op == 0o076 ==> set_s(r.v[d.j as int][e])
            &&& op == 0o077 ==> after.0 == RegsView { v: r.v.update(i, r.v[i].update(e, sj)), ..r }
        }),
{
    crate::cpu::lemma_low_bits_u32(r.a[d.k as int]);
    lemma_sign_extend_word(r.a[d.k as int]);
}

proof fn lemma_sign_extend_word(x: u32)
    by (bit_vector)
    ensures
        x & 0x00FF_FFFF == x % 0x100_0000,
        ((x & 0x00FF_FFFF) & 0x0080_0000 != 0) == (x % 0x100_0000 >= 0x80_0000),
        (x & 0x00FF_FFFF) & 0x0080_0000 != 0 ==> ((x & 0x00FF_FFFF) as u64) | 0xFFFF_FFFF_FF00_0000u64
            == ((x & 0x00FF_FFFF) as u64) + 0xFFFF_FFFF_FF00_0000u64,
{
}

/// The vector mask test (175) sets VM and changes nothing else: bit 63 - n of VM is set
/// exactly when element n of Vj lies below VL and passes the test that k selects: zero
/// (k = 0), non-zero (1), positive as a signed word (2: non-zero with the top bit clear),
/// negative (3: top bit set); no element passes for other k.
pub proof fn law_vector_mask_test(r: RegsView, mem: Seq<u64>, d: Decoded, fp: Seq<u64>, n: int)
    requires
        r.well_sized(),
        fields_in_range(d),
        r.vl <= 64,
        d.opcode == 0o175,
        0 <= n < 64,
    ensures
        ({
            let after = effect(r, mem, d, fp);
            let e = r.v[d.j as int][n];
            let k = d.k;
            let pass = if k == 0 {
                e == 0
            } else if k == 1 {
                e != 0
            } else if k == 2 {
                e != 0 && e >> 63u64 == 0
            } else if k == 3 {
                e >> 63u64 == 1
            } else {
                false
            };
            &&& after.1 == mem
            &&& after.2 == Ok::<(), crate::cpu::Trap>(())
            &&& after.0 == RegsView { vm: after.0.vm, ..r }
            &&& ((after.0.vm >> ((63 - n) as u64)) & 1 == 1) == (n < r.vl && pass)
        }),
{
    crate::cpu::lemma_mask_word_bits(r.v[d.j as int], r.vl as int, d.k as int);
    lemma_low_bits(r.v[d.j as int][n]);
    let after = effect(r, mem, d, fp).0;
    assert(crate::cpu::vm_bit(after.vm, n) == (n < r.vl && crate::cpu::mask_test(
        r.v[d.j as int][n],
        d.k as int,
    )));
    assert(after == RegsView { vm: after.vm, ..r });
}

/// When an instruction issues and when its results become available. It issues at the
/// first cycle at or after the clock at which every register it reads is available, and
/// the clock then stands one cycle past it. The registers read are: A0 for 010-013; Ak for
/// 020, 071 (j up to 2) and 150-153; Ai for 025; Aj and Ak for 030-032; Sj and Sk for
/// 044-047 and 060-067; Si, Sj and Sk for 050; Si and Sj for 051; Si for 052-055 and 075;
/// Si, Sj and Ak for 056 and 057; Sj for 070; Sj and Ak for 077; Ah (h the opcode's low
/// three bits) for 100-107 and 120-127, with Ai for 110-117 and Si for 130-137; A0, and Ak
/// unless k is 0, for 176 and 177. A results are available 2 cycles after issue for 030
/// and 031, 6 for 032 and 7 for 100-107, at once for 021-024; S results 1 cycle after for
/// 044-051, 2 for the shifts 052-055 (052 and 053 produce S0), 3 for 056-061, 6 for 062
/// and 063, 7 for 064-067 and 120-127, 14 for 070, at once for 040, 043, 071 (j up to 2),
/// 073, 074 and 076.
pub proof fn law_issue_timing(m: MachineView, d: Decoded, fp: Seq<u64>)
    requires
        m.well_sized(),
        fields_in_range(d),
        timing_fits(m, d),
    ensures
        ({
            let after = execute_spec(m, d, fp).0;
            let op = d.opcode;
            let i = d.i as int;
            let ar = m.ar_ready;
            let sr = m.sr_ready;
            let aj = ar[d.j as int];
            let ak = ar[d.k as int];
            let sj = sr[d.j as int];
            let sk = sr[d.k as int];
            let ah = ar[(op & 7) as int];
            let reads: Seq<u64> = if 0o010 <= op <= 0o013 {
                seq![ar[0]]
            } else if op == 0o020 || (op == 0o071 && d.j <= 2) || (0o150 <= op <= 0o153) {
                seq![ak]
            } else if op == 0o025 {
                seq![ar[i]]
            } else if 0o030 <= op <= 0o032 {
                seq![aj, ak]
            } else if (0o044 <= op <= 0o047) || (0o060 <= op <= 0o067) {
                seq![sj, sk]
            } else if op == 0o050 {
                seq![sr[i], sj, sk]
            } else if op == 0o051 {
                seq![sr[i], sj]
            } else if (0o052 <= op <= 0o055) || op == 0o075 {
                seq![sr[i]]
            } else if op == 0o056 || op == 0o057 {
                seq![sr[i], sj, ak]
            } else if op == 0o070 {
                seq![sj]
            } else if op == 0o077 {
                seq![sj, ak]
            } else if (0o100 <= op <= 0o107) || (0o120 <= op <= 0o127) {
                seq![ah]
            } else if 0o110 <= op <= 0o117 {
                seq![ah, ar[i]]
            } else if 0o130 <= op <= 0o137 {
                seq![ah, sr[i]]
            } else if op == 0o176 || op == 0o177 {
                if d.k == 0 { seq![ar[0]] } else { seq![ar[0], ak] }
            } else {
                Seq::empty()
            };
            let issue = after.cycle - 1;
            let a_ready = if 0o021 <= op <= 0o024 {
                Some(0int)
            } else if op == 0o030 || op == 0o031 {
                Some(issue + 2)
            } else if op == 0o032 {
                Some(issue + 6)
            } else if 0o100 <= op <= 0o107 {
                Some(issue + 7)
            } else {
                None
            };
            let s_dest = if op == 0o052 || op == 0o053 { 0 } else { i };
            let s_ready = if op == 0o040 || op == 0o043 || (op == 0o071 && d.j <= 2) || op == 0o073
                || op == 0o074 || op == 0o076 {
                Some(0int)
            } else if 0o044 <= op <= 0o051 {
                Some(issue + 1)
            } else if 0o052 <= op <= 0o055 {
                Some(issue + 2)
            } else if 0o056 <= op <= 0o061 {
                Some(issue + 3)
            } else if op == 0o062 || op == 0o063 {
                Some(issue + 6)
            } else if (0o064 <= op <= 0o067) || (0o120 <= op <= 0o127) {
                Some(issue + 7)
            } else if op == 0o070 {
                Some(issue + 14)
            } else {
                None
            };
            &&& after.cycle >= 1
            &&& issue >= m.cycle
            &&& forall|x: int| 0 <= x < reads.len() ==> issue >= #[trigger] reads[x]
            &&& reads.len() <= 3 && (issue == m.cycle || (reads.len() >= 1 && issue == reads[0]) || (reads.len() >= 2
                && issue == reads[1]) || (reads.len() >= 3 && issue == reads[2]))
            &&& after.ar_ready =~= match a_ready {
                Some(t) => ar.update(i, t as u64),
                None => ar,
            }
            &&& after.sr_ready =~= match s_ready {
                Some(t) => sr.update(s_dest, t as u64),
                None => sr,
            }
        }),
{
    let after = execute_spec(m, d, fp).0;
    let op = d.opcode;
    let i = d.i as int;
    let ar = m.ar_ready;
    let sr = m.sr_ready;
    let aj = ar[d.j as int];
    let ak = ar[d.k as int];
    let sj = sr[d.j as int];
    let sk = sr[d.k as int];
    let ah = ar[(op & 7) as int];
    let reads: Seq<u64> = if 0o010 <= op <= 0o013 {
        seq![ar[0]]
    } else if op == 0o020 || (op == 0o071 && d.j <= 2) || (0o150 <= op <= 0o153) {
        seq![ak]
    } else if op == 0o025 {
        seq![ar[i]]
    } else if 0o030 <= op <= 0o032 {
        seq![aj, ak]
    } else if (0o044 <= op <= 0o047) || (0o060 <= op <= 0o067) {
        seq![sj, sk]
    } else if op == 0o050 {
        seq![sr[i], sj, sk]
    } else if op == 0o051 {
        seq![sr[i], sj]
    } else if (0o052 <= op <= 0o055) || op == 0o075 {
        seq![sr[i]]
    } else if op == 0o056 || op == 0o057 {
        seq![sr[i], sj, ak]
    } else if op == 0o070 {
        seq![sj]
    } else if op == 0o077 {
        seq![sj, ak]
    } else if (0o100 <= op <= 0o107) || (0o120 <= op <= 0o127) {
        seq![ah]
    } else if 0o110 <= op <= 0o117 {
        seq![ah, ar[i]]
    } else if 0o130 <= op <= 0o137 {
        seq![ah, sr[i]]
    } else if op == 0o176 || op == 0o177 {
        if d.k == 0 { seq![ar[0]] } else { seq![ar[0], ak] }
    } else {
        Seq::empty()
    };
    let issue = after.cycle - 1;
    let a_ready = if 0o021 <= op <= 0o024 {
        Some(0int)
    } else if op == 0o030 || op == 0o031 {
        Some(issue + 2)
    } else if op == 0o032 {
        Some(issue + 6)
    } else if 0o100 <= op <= 0o107 {
        Some(issue + 7)
    } else {
        None
    };
    let s_dest = if op == 0o052 || op == 0o053 { 0 } else { i };
    let s_ready = if op == 0o040 || op == 0o043 || (op == 0o071 && d.j <= 2) || op == 0o073
        || op == 0o074 || op == 0o076 {
        Some(0int)
    } else if 0o044 <= op <= 0o051 {
        Some(issue + 1)
    } else if 0o052 <= op <= 0o055 {
        Some(issue + 2)
    } else if 0o056 <= op <= 0o061 {
        Some(issue + 3)
    } else if op == 0o062 || op == 0o063 {
        Some(issue + 6)
    } else if (0o064 <= op <= 0o067) || (0o120 <= op <= 0o127) {
        Some(issue + 7)
    } else if op == 0o070 {
        Some(issue + 14)
    } else {
        None
    };
    crate::cpu::lemma_low_bits_u8(d.opcode);
    let srcs = sources(m, d);
    if issue != m.cycle {
        assert(issue == srcs.0 || issue == srcs.1);
        assert((reads.len() >= 1 && issue == reads[0]) || (reads.len() >= 2 && issue == reads[1]) || (
        reads.len() >= 3 && issue == reads[2]));
    }
    assert(after.ar_ready =~= match a_ready {
        Some(t) => ar.update(i, t as u64),
        None => ar,
    });
    assert(after.sr_ready =~= match s_ready {
        Some(t) => sr.update(s_dest, t as u64),
        None => sr,
    });
}

} // verus!
