//! The Cray-1 central processor: registers, instruction issue and execution.
use vstd::prelude::*;
use crate::ibuffer::{InstructionBuffers, IBufView, fetch_spec};
use crate::instr::{decode, Decoded, decode_spec};
use crate::memory::{Memory, word_index, MEMORY_WORDS};
use vstd::arithmetic::power2::pow2;
use crate::bits::{shl64, double_shl, double_shr, lemma_shl, lemma_double_shl, lemma_double_shr, lemma_or_disjoint, word_modulus};

verus! {

// 24-bit address register mask
const ADDR_MASK: u32 = 0x00FF_FFFF;

/// Maximum vector length.
pub const VL_MAX: u8 = 64;

/// The low 24 bits of a value: what an address register keeps.
pub open spec fn mask24(x: int) -> int {
    x % 0x100_0000
}

#[derive(Debug)]
pub struct Registers {
    /// A0-A7: primary address registers (24-bit).
    pub a: [u32; 8],
    /// S0-S7: primary scalar registers (64-bit).
    pub s: [u64; 8],
    /// V0-V7: vector registers, each of 64 64-bit elements.
    pub v: [[u64; 64]; 8],
    /// B00-B77: intermediate address registers (64 x 24-bit).
    pub b: [u32; 64],
    /// T00-T77: intermediate scalar registers (64 x 64-bit).
    pub t: [u64; 64],
    /// VL: vector length (0-64).
    pub vl: u8,
    /// VM: vector mask (bit 63 - n guards element n).
    pub vm: u64,
    /// P: parcel counter (word address in bits 23:2, parcel index in bits 1:0).
    pub p: u32,
    /// Real-time clock counter.
    pub rtc: u64,
}

/// The register file as mathematical sequences.
#[verifier::ext_equal]
pub struct RegsView {
    pub a: Seq<u32>,
    pub s: Seq<u64>,
    pub v: Seq<Seq<u64>>,
    pub b: Seq<u32>,
    pub t: Seq<u64>,
    pub vl: u8,
    pub vm: u64,
    pub p: u32,
    pub rtc: u64,
}

impl View for Registers {
    type V = RegsView;

    open spec fn view(&self) -> RegsView {
        RegsView {
            a: self.a@,
            s: self.s@,
            v: Seq::new(8, |i: int| self.v@[i]@),
            b: self.b@,
            t: self.t@,
            vl: self.vl,
            vm: self.vm,
            p: self.p,
            rtc: self.rtc,
        }
    }
}

/// The cleared register file.
pub open spec fn zero_regs() -> RegsView {
    RegsView {
        a: Seq::new(8, |i: int| 0u32),
        s: Seq::new(8, |i: int| 0u64),
        v: Seq::new(8, |i: int| Seq::new(64, |n: int| 0u64)),
        b: Seq::new(64, |i: int| 0u32),
        t: Seq::new(64, |i: int| 0u64),
        vl: 0,
        vm: 0,
        p: 0,
        rtc: 0,
    }
}

impl RegsView {
    pub open spec fn with_a(self, i: int, x: int) -> RegsView {
        RegsView { a: self.a.update(i, x as u32), ..self }
    }

    pub open spec fn with_s(self, i: int, x: int) -> RegsView {
        RegsView { s: self.s.update(i, x as u64), ..self }
    }

    pub open spec fn with_v(self, i: int, row: Seq<u64>) -> RegsView {
        RegsView { v: self.v.update(i, row), ..self }
    }

    pub open spec fn with_b(self, i: int, x: int) -> RegsView {
        RegsView { b: self.b.update(i, x as u32), ..self }
    }

    pub open spec fn with_t(self, i: int, x: int) -> RegsView {
        RegsView { t: self.t.update(i, x as u64), ..self }
    }

    pub open spec fn with_vl(self, x: int) -> RegsView {
        RegsView { vl: x as u8, ..self }
    }

    pub open spec fn with_vm(self, x: int) -> RegsView {
        RegsView { vm: x as u64, ..self }
    }

    pub open spec fn with_p(self, x: int) -> RegsView {
        RegsView { p: x as u32, ..self }
    }

    /// Each register bank has the machine's number of registers and each vector
    /// register 64 elements.
    pub open spec fn well_sized(self) -> bool {
        &&& self.a.len() == 8
        &&& self.s.len() == 8
        &&& self.v.len() == 8
        &&& forall|i: int| 0 <= i < 8 ==> (#[trigger] self.v[i]).len() == 64
        &&& self.b.len() == 64
        &&& self.t.len() == 64
    }

    /// A and B registers and P hold 24-bit values and VL is at most 64.
    pub open spec fn in_range(self) -> bool {
        &&& forall|i: int| 0 <= i < 8 ==> #[trigger] self.a[i] < 0x100_0000
        &&& forall|i: int| 0 <= i < 64 ==> #[trigger] self.b[i] < 0x100_0000
        &&& self.p < 0x100_0000
        &&& self.vl <= VL_MAX
    }
}

pub(crate) proof fn lemma_mask24(x: u32)
    by (bit_vector)
    ensures
        x & 0x00FF_FFFF == x % 0x100_0000,
{
}

impl Registers {
    /// All registers cleared.
    pub fn new() -> (r: Self)
        ensures
            r@ =~~= zero_regs(),
    {
        Self { a: [0;8], s: [0;8], v: [[0;64];8], b: [0;64], t: [0;64], vl: 0, vm: 0, p: 0, rtc: 0 }
    }

    /// Ai = val, keeping the low 24 bits.
    pub fn write_a(&mut self, i: usize, val: u32)
        requires
            i < 8,
        ensures
            final(self)@ =~~= old(self)@.with_a(i as int, mask24(val as int)),
    {
        proof {
            lemma_mask24(val);
        }
        self.a[i] = val & ADDR_MASK;
    }

    /// Bi = val, keeping the low 24 bits.
    pub fn write_b(&mut self, i: usize, val: u32)
        requires
            i < 64,
        ensures
            final(self)@ =~~= old(self)@.with_b(i as int, mask24(val as int)),
    {
        proof {
            lemma_mask24(val);
        }
        self.b[i] = val & ADDR_MASK;
    }

    /// VL = val, capped at 64.
    pub fn write_vl(&mut self, val: u8)
        ensures
            final(self)@ =~~= old(self)@.with_vl(if val > VL_MAX { VL_MAX as int } else { val as int }),
    {
        self.vl = if val > VL_MAX { VL_MAX } else { val };
    }
}

impl Default for Registers {
    fn default() -> (r: Self)
        ensures
            r@ =~~= zero_regs(),
    {
        Self::new()
    }
}

/// Reasons execution stops.
#[derive(Debug, PartialEq, Eq, Structural)]
pub enum Trap {
    /// Normal exit instruction (004xxx).
    NormalExit,
    /// Error exit instruction (000xxx).
    ErrorExit,
    /// Opcode not implemented.
    Unimplemented(u8),
}

/// The floating point operations that instructions hand to the host's floating point
/// unit, a function from the operation and two operand words (the second zero and unused
/// for `Reciprocal` and `FromInteger`) to the result word.
#[derive(Debug, Clone, Copy, PartialEq, Eq, Structural)]
pub enum FpOp {
    /// x + y
    Add,
    /// x - y
    Sub,
    /// x * y
    Mul,
    /// 2 * x * y
    DoubleMul,
    /// 1 / x
    Reciprocal,
    /// The integer x as a floating point word.
    FromInteger,
}

/// The state that instruction execution reads and writes.
#[verifier::ext_equal]
pub struct MachineView {
    pub regs: RegsView,
    pub mem: Seq<u64>,
    pub cycle: u64,
    /// Per address register: earliest cycle at which its value is available.
    pub ar_ready: Seq<u64>,
    /// Per scalar register: earliest cycle at which its value is available.
    pub sr_ready: Seq<u64>,
}

impl MachineView {
    /// Registers, memory and readiness tables have the machine's sizes.
    pub open spec fn well_sized(self) -> bool {
        &&& self.regs.well_sized()
        &&& self.mem.len() == MEMORY_WORDS
        &&& self.ar_ready.len() == 8
        &&& self.sr_ready.len() == 8
    }
}

// ---------------------------------------------------------------------------
// Issue timing
// ---------------------------------------------------------------------------

pub open spec fn max2(x: int, y: int) -> int {
    if x >= y { x } else { y }
}

/// The readiness times of the (up to two) source registers an instruction waits for.
pub open spec fn sources(m: MachineView, d: Decoded) -> (int, int) {
    let op = d.opcode as int;
    let i = d.i as int;
    let j = d.j as int;
    let k = d.k as int;
    let h = op % 8;
    let ar = m.ar_ready;
    let sr = m.sr_ready;
    if 0o010 <= op <= 0o013 {
        (ar[0] as int, 0)
    } else if op == 0o020 {
        (ar[k] as int, 0)
    } else if op == 0o025 {
        (ar[i] as int, 0)
    } else if 0o030 <= op <= 0o032 {
        (ar[j] as int, ar[k] as int)
    } else if 0o044 <= op <= 0o047 {
        (sr[j] as int, sr[k] as int)
    } else if op == 0o050 {
        (max2(sr[i] as int, sr[j] as int), sr[k] as int)
    } else if op == 0o051 {
        (sr[i] as int, sr[j] as int)
    } else if 0o052 <= op <= 0o055 {
        (sr[i] as int, 0)
    } else if op == 0o056 || op == 0o057 {
        (max2(sr[i] as int, sr[j] as int), ar[k] as int)
    } else if 0o060 <= op <= 0o067 {
        (sr[j] as int, sr[k] as int)
    } else if op == 0o070 {
        (sr[j] as int, 0)
    } else if op == 0o071 && j <= 2 {
        (ar[k] as int, 0)
    } else if op == 0o075 {
        (sr[i] as int, 0)
    } else if op == 0o077 {
        (sr[j] as int, ar[k] as int)
    } else if 0o100 <= op <= 0o107 || 0o120 <= op <= 0o127 {
        (ar[h] as int, 0)
    } else if 0o110 <= op <= 0o117 {
        (ar[h] as int, ar[i] as int)
    } else if 0o130 <= op <= 0o137 {
        (ar[h] as int, sr[i] as int)
    } else if 0o150 <= op <= 0o153 {
        (ar[k] as int, 0)
    } else if op == 0o176 || op == 0o177 {
        (ar[0] as int, if k != 0 { ar[k] as int } else { 0 })
    } else {
        (0, 0)
    }
}

/// The cycle at which an instruction issues: once the clock has reached the
/// readiness time of each of its sources.
pub open spec fn issue_cycle(m: MachineView, d: Decoded) -> int {
    max2(m.cycle as int, max2(sources(m, d).0, sources(m, d).1))
}

/// How many cycles after issue the address register result of an instruction
/// becomes available; `None` when the instruction does not time an A register,
/// `Some(0)` when it marks the register available at once.
pub open spec fn a_latency(d: Decoded) -> Option<int> {
    let op = d.opcode as int;
    if 0o021 <= op <= 0o024 {
        Some(0)
    } else if op == 0o030 || op == 0o031 {
        Some(2)
    } else if op == 0o032 {
        Some(6)
    } else if 0o100 <= op <= 0o107 {
        Some(7)
    } else {
        None
    }
}

/// Which S register an instruction times, and how many cycles after issue its result
/// becomes available (`0`: available at once).
pub open spec fn s_latency(d: Decoded) -> Option<(int, int)> {
    let op = d.opcode as int;
    let i = d.i as int;
    if op == 0o040 || op == 0o043 || op == 0o073 || op == 0o074 || op == 0o076 || (op == 0o071
        && d.j <= 2) {
        Some((i, 0))
    } else if 0o044 <= op <= 0o051 {
        Some((i, 1))
    } else if op == 0o052 || op == 0o053 {
        Some((0, 2))
    } else if op == 0o054 || op == 0o055 {
        Some((i, 2))
    } else if 0o056 <= op <= 0o061 {
        Some((i, 3))
    } else if op == 0o062 || op == 0o063 {
        Some((i, 6))
    } else if 0o064 <= op <= 0o067 {
        Some((i, 7))
    } else if op == 0o070 {
        Some((i, 14))
    } else if 0o120 <= op <= 0o127 {
        Some((i, 7))
    } else {
        None
    }
}

/// Readiness time written for a result with latency `lat` issued at `issued`.
pub open spec fn ready_time(issued: int, lat: int) -> u64 {
    if lat == 0 { 0u64 } else { (issued + lat) as u64 }
}

pub open spec fn ar_ready_after(ar: Seq<u64>, d: Decoded, issued: int) -> Seq<u64> {
    match a_latency(d) {
        Some(lat) => ar.update(d.i as int, ready_time(issued, lat)),
        None => ar,
    }
}

pub open spec fn sr_ready_after(sr: Seq<u64>, d: Decoded, issued: int) -> Seq<u64> {
    match s_latency(d) {
        Some((r, lat)) => sr.update(r, ready_time(issued, lat)),
        None => sr,
    }
}

/// Issuing and timing the instruction does not overflow the cycle counter.
pub open spec fn timing_fits(m: MachineView, d: Decoded) -> bool {
    let issued = issue_cycle(m, d);
    &&& issued + 1 <= u64::MAX
    &&& (a_latency(d) matches Some(lat) ==> issued + lat <= u64::MAX)
    &&& (s_latency(d) matches Some((r, lat)) ==> issued + lat <= u64::MAX)
}

// ---------------------------------------------------------------------------
// What each instruction does to registers and memory
// ---------------------------------------------------------------------------

/// Index of the B or T register that the j and k fields name together.
pub open spec fn jk_index(d: Decoded) -> int {
    d.j as int * 8 + d.k as int
}

/// Bit n of the vector mask, counted from the most significant end.
pub open spec fn vm_bit(vm: u64, n: int) -> bool {
    (vm >> ((63 - n) as u64)) & 1 == 1
}

/// The low 24 bits of a value, sign-extended from bit 23 to 64 bits.
pub open spec fn sign_extend24(x: int) -> int {
    let low = mask24(x);
    if low < 0x80_0000 { low } else { low + 0xFFFF_FFFF_FF00_0000 }
}

/// Whether a conditional branch (010-017) is taken.
pub open spec fn branch_taken(r: RegsView, op: int) -> bool {
    let a0 = r.a[0] as int;
    let s0 = r.s[0] as int;
    if op == 0o010 {
        a0 == 0
    } else if op == 0o011 {
        a0 != 0
    } else if op == 0o012 {
        (a0 / 0x80_0000) % 2 == 0 && a0 != 0
    } else if op == 0o013 {
        (a0 / 0x80_0000) % 2 == 1
    } else if op == 0o014 {
        s0 == 0
    } else if op == 0o015 {
        s0 != 0
    } else if op == 0o016 {
        0 < s0 < 0x8000_0000_0000_0000
    } else {
        s0 >= 0x8000_0000_0000_0000
    }
}

/// Exits, jumps and branches (000-017). P already points past the instruction; a jump
/// target is kept to P's 24 bits.
pub open spec fn branch_effect(r: RegsView, d: Decoded) -> (RegsView, Result<(), Trap>) {
    let op = d.opcode as int;
    let target = mask24(d.addr25 as int);
    if op == 0o000 {
        (r, Err(Trap::ErrorExit))
    } else if op == 0o004 {
        (r, Err(Trap::NormalExit))
    } else if op == 0o005 && d.i == 0 {
        (r.with_p(mask24(r.b[jk_index(d)] as int)), Ok(()))
    } else if op == 0o005 || op == 0o006 {
        (r.with_p(target), Ok(()))
    } else if op == 0o007 {
        (r.with_b(0, mask24(r.p as int)).with_p(target), Ok(()))
    } else if 0o010 <= op <= 0o017 {
        (if branch_taken(r, op) { r.with_p(target) } else { r }, Ok(()))
    } else {
        (r, Err(Trap::Unimplemented(d.opcode)))
    }
}

/// Address, B register and vector control transmits and address arithmetic (020-037).
pub open spec fn address_effect(r: RegsView, d: Decoded) -> (RegsView, Result<(), Trap>) {
    let op = d.opcode as int;
    let i = d.i as int;
    let aj = r.a[d.j as int] as int;
    let ak = r.a[d.k as int] as int;
    if op == 0o020 {
        let len = ak % 0x100;
        (r.with_vl(if len > 64 { 64 } else { len }), Ok(()))
    } else if op == 0o021 {
        (r.with_a(i, mask24(d.addr22 as int)), Ok(()))
    } else if op == 0o022 {
        (r.with_a(i, mask24(d.jk as int)), Ok(()))
    } else if op == 0o023 {
        (r.with_a(i, mask24(r.s[d.j as int] as int)), Ok(()))
    } else if op == 0o024 {
        (r.with_a(i, mask24(r.b[jk_index(d)] as int)), Ok(()))
    } else if op == 0o025 {
        (r.with_b(jk_index(d), mask24(r.a[i] as int)), Ok(()))
    } else if op == 0o030 {
        (r.with_a(i, mask24(aj + ak)), Ok(()))
    } else if op == 0o031 {
        (r.with_a(i, mask24(aj - ak)), Ok(()))
    } else if op == 0o032 {
        (r.with_a(i, mask24(aj * ak)), Ok(()))
    } else if op == 0o033 {
        (r.with_vm(r.s[d.j as int] as int), Ok(()))
    } else if op == 0o034 {
        (r.with_vm(0), Ok(()))
    } else {
        (r, Err(Trap::Unimplemented(d.opcode)))
    }
}

/// Scalar transmits, logical, shift and integer operations (040-077); `fp` holds the
/// floating point unit's result for the floating point ones.
pub open spec fn scalar_effect(r: RegsView, d: Decoded, fp: Seq<u64>) -> (RegsView, Result<(), Trap>) {
    let op = d.opcode as int;
    let i = d.i as int;
    let si = r.s[i];
    let sj = r.s[d.j as int];
    let sk = r.s[d.k as int];
    let ak = r.a[d.k as int] as int;
    let jk = d.jk as int;
    let word = 0x1_0000_0000_0000_0000int;
    if op == 0o040 {
        (r.with_s(i, d.addr22 as int), Ok(()))
    } else if op == 0o043 {
        (r.with_s(i, 0), Ok(()))
    } else if op == 0o044 {
        (r.with_s(i, (sj & sk) as int), Ok(()))
    } else if op == 0o045 {
        (r.with_s(i, (sj & !sk) as int), Ok(()))
    } else if op == 0o046 {
        (r.with_s(i, (sj ^ sk) as int), Ok(()))
    } else if op == 0o047 {
        (r.with_s(i, (!(sj ^ sk)) as int), Ok(()))
    } else if op == 0o050 {
        (r.with_s(i, ((si & !sk) | (sj & sk)) as int), Ok(()))
    } else if op == 0o051 {
        (r.with_s(i, if sj >= 0x8000_0000_0000_0000 { sj as int } else { si as int }), Ok(()))
    } else if op == 0o052 {
        (r.with_s(0, shl64(si as int, jk)), Ok(()))
    } else if op == 0o053 {
        (r.with_s(0, if jk == 0 { 0 } else { si as int / pow2((64 - jk) as nat) as int }), Ok(()))
    } else if op == 0o054 {
        (r.with_s(i, shl64(si as int, jk)), Ok(()))
    } else if op == 0o055 {
        (r.with_s(i, if jk == 0 { 0 } else { si as int / pow2((64 - jk) as nat) as int }), Ok(()))
    } else if op == 0o056 {
        (r.with_s(i, double_shl(si as int, sj as int, ak % 0x80)), Ok(()))
    } else if op == 0o057 {
        (r.with_s(i, double_shr(sj as int, si as int, ak % 0x80)), Ok(()))
    } else if op == 0o060 {
        (r.with_s(i, (sj + sk) % word), Ok(()))
    } else if op == 0o061 {
        (r.with_s(i, (sj - sk) % word), Ok(()))
    } else if 0o062 <= op <= 0o070 {
        (r.with_s(i, fp[0] as int), Ok(()))
    } else if op == 0o071 && d.j == 0 {
        (r.with_s(i, ak), Ok(()))
    } else if op == 0o071 && d.j == 1 {
        (r.with_s(i, sign_extend24(ak)), Ok(()))
    } else if op == 0o071 && d.j == 2 {
        (r.with_s(i, fp[0] as int), Ok(()))
    } else if op == 0o073 {
        (r.with_s(i, r.vm as int), Ok(()))
    } else if op == 0o074 {
        (r.with_s(i, r.t[jk_index(d)] as int), Ok(()))
    } else if op == 0o075 {
        (r.with_t(jk_index(d), si as int), Ok(()))
    } else if op == 0o076 {
        (r.with_s(i, r.v[d.j as int][ak % 64] as int), Ok(()))
    } else if op == 0o077 {
        (r.with_v(i, r.v[i].update(ak % 64, sj)), Ok(()))
    } else {
        (r, Err(Trap::Unimplemented(d.opcode)))
    }
}

/// The word address that a memory instruction (100-137) transfers:
/// A register h plus the 22-bit address, kept to 24 bits.
pub open spec fn memory_address(r: RegsView, d: Decoded) -> int {
    mask24(r.a[d.opcode as int % 8] as int + d.addr22 as int)
}

/// Scalar and address register memory transfers (100-137).
pub open spec fn memory_effect(r: RegsView, mem: Seq<u64>, d: Decoded) -> (RegsView, Seq<u64>) {
    let op = d.opcode as int;
    let i = d.i as int;
    let w = word_index(memory_address(r, d));
    if op <= 0o107 {
        (r.with_a(i, mask24(mem[w] as int)), mem)
    } else if op <= 0o117 {
        (r, mem.update(w, r.a[i] as u64))
    } else if op <= 0o127 {
        (r.with_s(i, mem[w] as int), mem)
    } else {
        (r, mem.update(w, r.s[i]))
    }
}

/// A vector register whose first `vl` elements are `f(n)` and whose others keep `old`.
pub open spec fn row_map(old: Seq<u64>, vl: int, f: spec_fn(int) -> u64) -> Seq<u64> {
    Seq::new(64, |n: int| if n < vl { f(n) } else { old[n] })
}

/// Whether element value `e` passes the vector mask test selected by `k`:
/// 0 zero, 1 non-zero, 2 positive, 3 negative; others never pass.
pub open spec fn mask_test(e: u64, k: int) -> bool {
    if k == 0 {
        e == 0
    } else if k == 1 {
        e != 0
    } else if k == 2 {
        e != 0 && e < 0x8000_0000_0000_0000
    } else if k == 3 {
        e >= 0x8000_0000_0000_0000
    } else {
        false
    }
}

/// The word address of element n of a vector memory transfer.
pub open spec fn vector_address(base: int, stride: int, n: int) -> int {
    mask24(base + stride * n)
}

/// Memory after storing the first `n` elements of `row`, in element order.
pub open spec fn vector_store(mem: Seq<u64>, base: int, stride: int, row: Seq<u64>, n: nat) -> Seq<u64>
    decreases n,
{
    if n == 0 {
        mem
    } else {
        vector_store(mem, base, stride, row, (n - 1) as nat).update(
            word_index(vector_address(base, stride, n - 1)),
            row[n - 1],
        )
    }
}

/// Rotation amount of the element shift instructions 152 and 153.
pub open spec fn rotation(r: RegsView, d: Decoded) -> int {
    let vl = r.vl as int;
    if vl == 0 { 0 } else { (r.a[d.k as int] as int) % vl }
}

/// Elements of Vj rotated left by c places within the first vl elements: a circular
/// rotation of Vj as it stood before the instruction, also when the result replaces Vj.
pub open spec fn rotate_left(vj: Seq<u64>, vl: int, c: int) -> spec_fn(int) -> u64 {
    |n: int| vj[(n + c) % vl]
}

/// Elements of Vj rotated right by c places within the first vl elements.
pub open spec fn rotate_right(vj: Seq<u64>, vl: int, c: int) -> spec_fn(int) -> u64 {
    |n: int| vj[(n + vl - c) % vl]
}

/// Element n of the result of a vector instruction that produces a vector register
/// (all of 140-176 but the mask test 175); `fp` holds the floating point unit's result for
/// each element of the floating point ones.
pub open spec fn lane_value(r: RegsView, mem: Seq<u64>, d: Decoded, fp: Seq<u64>, n: int) -> u64 {
    let op = d.opcode as int;
    let i = d.i as int;
    let j = d.j as int;
    let k = d.k as int;
    let vl = r.vl as int;
    let sj = r.s[j];
    let vj = r.v[j];
    let vk = r.v[k];
    let count = r.a[k] as int % 0x80;
    let word = word_modulus();
    let stride = if k == 0 { 1 } else { r.a[k] as int };
    if op == 0o140 {
        sj & vk[n]
    } else if op == 0o141 {
        vj[n] & vk[n]
    } else if op == 0o142 {
        sj | vk[n]
    } else if op == 0o143 {
        vj[n] | vk[n]
    } else if op == 0o144 {
        sj ^ vk[n]
    } else if op == 0o145 {
        vj[n] ^ vk[n]
    } else if op == 0o146 {
        if vm_bit(r.vm, n) { sj } else { vk[n] }
    } else if op == 0o147 {
        if vm_bit(r.vm, n) { vj[n] } else { vk[n] }
    } else if op == 0o150 {
        if count >= 64 { 0 } else { shl64(vj[n] as int, count) as u64 }
    } else if op == 0o151 {
        if count >= 64 { 0 } else { (vj[n] as int / pow2(count as nat) as int) as u64 }
    } else if op == 0o152 {
        rotate_left(vj, vl, rotation(r, d))(n)
    } else if op == 0o153 {
        rotate_right(vj, vl, rotation(r, d))(n)
    } else if op == 0o154 {
        ((sj + vk[n]) % word) as u64
    } else if op == 0o155 {
        ((vj[n] + vk[n]) % word) as u64
    } else if op == 0o156 {
        ((sj - vk[n]) % word) as u64
    } else if op == 0o157 {
        ((vj[n] - vk[n]) % word) as u64
    } else if op <= 0o174 {
        fp[n]
    } else {
        mem[word_index(vector_address(r.a[0] as int, stride, n))]
    }
}

/// Vector instructions (140-177): elementwise results go to Vi for the first VL elements,
/// the mask test (175) sets VM, and the store (177) writes Vj to memory.
pub open spec fn vector_effect(r: RegsView, mem: Seq<u64>, d: Decoded, fp: Seq<u64>) -> (RegsView, Seq<u64>) {
    let op = d.opcode as int;
    let vl = r.vl as int;
    let k = d.k as int;
    let stride = if k == 0 { 1 } else { r.a[k] as int };
    if op == 0o175 {
        (r.with_vm(mask_word(r.v[d.j as int], vl, k)), mem)
    } else if op == 0o177 {
        (r, vector_store(mem, r.a[0] as int, stride, r.v[d.j as int], vl as nat))
    } else {
        (r.with_v(d.i as int, row_map(r.v[d.i as int], vl, |n: int| lane_value(r, mem, d, fp, n))), mem)
    }
}

/// The vector mask that test `k` over the first `n` elements of `row` produces:
/// bit 63 - m is set exactly for each element m < n that passes.
pub open spec fn mask_word(row: Seq<u64>, n: int, k: int) -> int
    decreases n,
{
    if n <= 0 {
        0
    } else {
        mask_word(row, n - 1, k) + if mask_test(row[n - 1], k) {
            pow2((64 - n) as nat) as int
        } else {
            0
        }
    }
}

/// What instruction `d` does to the register file and memory, and whether it traps.
pub open spec fn effect(r: RegsView, mem: Seq<u64>, d: Decoded, fp: Seq<u64>) -> (RegsView, Seq<u64>, Result<(), Trap>) {
    let op = d.opcode as int;
    if op < 0o020 {
        let e = branch_effect(r, d);
        (e.0, mem, e.1)
    } else if op < 0o040 {
        let e = address_effect(r, d);
        (e.0, mem, e.1)
    } else if op < 0o100 {
        let e = scalar_effect(r, d, fp);
        (e.0, mem, e.1)
    } else if op < 0o140 {
        let e = memory_effect(r, mem, d);
        (e.0, e.1, Ok(()))
    } else if op < 0o200 {
        let e = vector_effect(r, mem, d, fp);
        (e.0, e.1, Ok(()))
    } else {
        (r, mem, Err(Trap::Unimplemented(d.opcode)))
    }
}

/// Issuing and executing instruction `d`: the clock moves to the issue cycle plus one,
/// the instruction takes effect, and the registers it produces are timed.
pub open spec fn execute_spec(m: MachineView, d: Decoded, fp: Seq<u64>) -> (MachineView, Result<(), Trap>) {
    let issued = issue_cycle(m, d);
    let e = effect(m.regs, m.mem, d, fp);
    (
        MachineView {
            regs: e.0,
            mem: e.1,
            cycle: (issued + 1) as u64,
            ar_ready: ar_ready_after(m.ar_ready, d, issued),
            sr_ready: sr_ready_after(m.sr_ready, d, issued),
        },
        e.2,
    )
}

/// The floating point operation and operand pairs that instruction `d` hands to the
/// floating point unit: one pair for a scalar instruction, one per element (up to VL)
/// for a vector instruction; `None` for instructions without floating point.
pub open spec fn fp_request_spec(r: RegsView, d: Decoded) -> Option<(FpOp, Seq<(u64, u64)>)> {
    let op = d.opcode as int;
    let sj = r.s[d.j as int];
    let sk = r.s[d.k as int];
    let vj = r.v[d.j as int];
    let vk = r.v[d.k as int];
    let vl = r.vl as nat;
    if op == 0o062 {
        Some((FpOp::Add, seq![(sj, sk)]))
    } else if op == 0o063 {
        Some((FpOp::Sub, seq![(sj, sk)]))
    } else if 0o064 <= op <= 0o066 {
        Some((FpOp::Mul, seq![(sj, sk)]))
    } else if op == 0o067 {
        Some((FpOp::DoubleMul, seq![(sj, sk)]))
    } else if op == 0o070 {
        Some((FpOp::Reciprocal, seq![(sj, 0u64)]))
    } else if op == 0o071 && d.j == 2 {
        Some((FpOp::FromInteger, seq![(r.a[d.k as int] as u64, 0u64)]))
    } else if op == 0o160 || op == 0o162 || op == 0o164 {
        Some((FpOp::Mul, Seq::new(vl, |n: int| (sj, vk[n]))))
    } else if op == 0o161 || op == 0o163 || op == 0o165 {
        Some((FpOp::Mul, Seq::new(vl, |n: int| (vj[n], vk[n]))))
    } else if op == 0o166 {
        Some((FpOp::DoubleMul, Seq::new(vl, |n: int| (sj, vk[n]))))
    } else if op == 0o167 {
        Some((FpOp::DoubleMul, Seq::new(vl, |n: int| (vj[n], vk[n]))))
    } else if op == 0o170 {
        Some((FpOp::Add, Seq::new(vl, |n: int| (sj, vk[n]))))
    } else if op == 0o171 {
        Some((FpOp::Add, Seq::new(vl, |n: int| (vj[n], vk[n]))))
    } else if op == 0o172 {
        Some((FpOp::Sub, Seq::new(vl, |n: int| (sj, vk[n]))))
    } else if op == 0o173 {
        Some((FpOp::Sub, Seq::new(vl, |n: int| (vj[n], vk[n]))))
    } else if op == 0o174 {
        Some((FpOp::Reciprocal, Seq::new(vl, |n: int| (vj[n], 0u64))))
    } else {
        None
    }
}

/// How many floating point results instruction `d` consumes.
pub open spec fn fp_count(r: RegsView, d: Decoded) -> nat {
    match fp_request_spec(r, d) {
        Some((op, operands)) => operands.len(),
        None => 0,
    }
}

/// The fields of `d` are in range, as `decode` produces them.
pub open spec fn fields_in_range(d: Decoded) -> bool {
    d.i < 8 && d.j < 8 && d.k < 8 && d.jk < 64
}

/// Executing `d` does not fail: a vector instruction needs VL within 64 elements,
/// and the clock must not overflow.
pub open spec fn can_execute(m: MachineView, d: Decoded) -> bool {
    &&& fields_in_range(d)
    &&& (0o140 <= d.opcode < 0o200 ==> m.regs.vl <= VL_MAX)
    &&& timing_fits(m, d)
}

proof fn lemma_branch_bits(a0: u32, s0: u64, j: u8, k: u8)
    by (bit_vector)
    requires
        j < 8,
        k < 8,
    ensures
        (a0 & (1u32 << 23u32) == 0) == ((a0 / 0x80_0000) % 2 == 0),
        ((s0 as i64) > 0i64) == (0 < s0 && s0 < 0x8000_0000_0000_0000),
        ((s0 as i64) < 0i64) == (s0 >= 0x8000_0000_0000_0000),
        (j << 3u8) | k == j * 8 + k,
{
}

/// Exits, jumps and branches (000-017).
fn exec_branch(regs: &mut Registers, d: Decoded) -> (r: Result<(), Trap>)
    requires
        fields_in_range(d),
        d.opcode < 0o020,
    ensures
        final(regs)@ =~~= branch_effect(old(regs)@, d).0,
        r == branch_effect(old(regs)@, d).1,
{
    let j = d.j;
    let k = d.k;
    proof {
        lemma_branch_bits(regs.a[0], regs.s[0], j, k);
        lemma_mask24(d.addr25);
    }
    let target = d.addr25 & ADDR_MASK;
    match d.opcode {
        0o000 => return Err(Trap::ErrorExit),
        0o004 => return Err(Trap::NormalExit),
        // J Bjk: unconditional jump to the parcel address held in Bjk (one parcel)
        0o005 if d.i == 0 => {
            let b = regs.b[((j << 3) | k) as usize];
            proof {
                lemma_mask24(b);
            }
            regs.p = b & ADDR_MASK;
        },
        // J exp: unconditional jump to the parcel address exp (two parcels)
        0o005 | 0o006 => regs.p = target,
        // R exp: return jump, saving the return address in B00
        0o007 => {
            let ret = regs.p;
            regs.write_b(0, ret);
            regs.p = target;
        },
        // Conditional branches on A0: JAZ, JAN, JAP, JAM
        0o010 => if regs.a[0] == 0 {
            regs.p = target;
        },
        0o011 => if regs.a[0] != 0 {
            regs.p = target;
        },
        0o012 => if regs.a[0] & (1 << 23) == 0 && regs.a[0] != 0 {
            regs.p = target;
        },
        0o013 => if regs.a[0] & (1 << 23) != 0 {
            regs.p = target;
        },
        // Conditional branches on S0: JSZ, JSN, JSP, JSM
        0o014 => if regs.s[0] == 0 {
            regs.p = target;
        },
        0o015 => if regs.s[0] != 0 {
            regs.p = target;
        },
        0o016 => if (regs.s[0] as i64) > 0 {
            regs.p = target;
        },
        0o017 => if (regs.s[0] as i64) < 0 {
            regs.p = target;
        },
        _ => return Err(Trap::Unimplemented(d.opcode)),
    }
    Ok(())
}

proof fn lemma_truncate8(x: u32)
    by (bit_vector)
    ensures
        (x as u8) as u32 == x % 0x100,
{
}

proof fn lemma_truncate32(s: u64)
    by (bit_vector)
    ensures
        (s as u32) as u64 == s % 0x1_0000_0000,
{
}

/// Address, B register and vector control transmits and address arithmetic (020-037).
fn exec_address(regs: &mut Registers, ar_ready: &mut [u64; 8], d: Decoded, issued: u64) -> (r: Result<(), Trap>)
    requires
        fields_in_range(d),
        0o020 <= d.opcode < 0o040,
        a_latency(d) matches Some(lat) ==> issued + lat <= u64::MAX,
    ensures
        final(regs)@ =~~= address_effect(old(regs)@, d).0,
        r == address_effect(old(regs)@, d).1,
        final(ar_ready)@ == ar_ready_after(old(ar_ready)@, d, issued as int),
{
    let i = d.i as usize;
    let j = d.j as usize;
    let k = d.k as usize;
    let jk = j * 8 + k;
    match d.opcode {
        // VL = Ak
        0o020 => {
            let ak = regs.a[k];
            proof {
                lemma_truncate8(ak);
            }
            regs.write_vl(ak as u8)
        },
        // VM = Sj
        0o033 => regs.vm = regs.s[j],
        // VM = 0
        0o034 => regs.vm = 0,
        // Ai = 22-bit constant
        0o021 => {
            regs.write_a(i, d.addr22);
            ar_ready[i] = 0;
        },
        // Ai = jk
        0o022 => {
            regs.write_a(i, d.jk as u32);
            ar_ready[i] = 0;
        },
        // Ai = Sj, low 24 bits
        0o023 => {
            let sj = regs.s[j];
            proof {
                lemma_truncate32(sj);
                lemma_mask24(sj as u32);
                vstd::arithmetic::div_mod::lemma_mod_mod(sj as int, 0x100_0000, 0x100);
            }
            regs.write_a(i, sj as u32);
            ar_ready[i] = 0;
        },
        // Ai = Bjk
        0o024 => {
            regs.write_a(i, regs.b[jk]);
            ar_ready[i] = 0;
        },
        // Bjk = Ai
        0o025 => regs.write_b(jk, regs.a[i]),
        // Ai = Aj + Ak (24 bits, wraps); 2 CP
        0o030 => {
            let (aj, ak) = (regs.a[j], regs.a[k]);
            let sum = aj.wrapping_add(ak);
            proof {
                lemma_wrapping_mask24(aj, ak);
            }
            regs.write_a(i, sum);
            ar_ready[i] = issued + 2;
        },
        // Ai = Aj - Ak; 2 CP
        0o031 => {
            let (aj, ak) = (regs.a[j], regs.a[k]);
            let diff = aj.wrapping_sub(ak);
            proof {
                lemma_wrapping_mask24(aj, ak);
            }
            regs.write_a(i, diff);
            ar_ready[i] = issued + 2;
        },
        // Ai = Aj * Ak (low 24 bits of the product); 6 CP
        0o032 => {
            let (aj, ak) = (regs.a[j], regs.a[k]);
            let prod = aj.wrapping_mul(ak);
            proof {
                lemma_wrapping_mask24(aj, ak);
            }
            regs.write_a(i, prod);
            ar_ready[i] = issued + 6;
        },
        _ => return Err(Trap::Unimplemented(d.opcode)),
    }
    Ok(())
}

/// Wrapping 32-bit results keep the true result's low 24 bits.
proof fn lemma_wrapping_mask24(x: u32, y: u32)
    ensures
        mask24(x.wrapping_add(y) as int) == mask24(x + y),
        mask24(x.wrapping_sub(y) as int) == mask24(x - y),
        mask24(x.wrapping_mul(y) as int) == mask24(x * y),
{
    assert(mask24(x.wrapping_add(y) as int) == mask24(x + y)) by {
        let w = x.wrapping_add(y) as int;
        assert(w == x + y || w == x + y - 0x1_0000_0000);
        assert(0x1_0000_0000int == 0x100 * 0x100_0000);
        vstd::arithmetic::div_mod::lemma_mod_multiples_vanish(-0x100, x + y, 0x100_0000);
    }
    assert(mask24(x.wrapping_sub(y) as int) == mask24(x - y)) by {
        let w = x.wrapping_sub(y) as int;
        assert(w == x - y || w == x - y + 0x1_0000_0000);
        assert(0x1_0000_0000int == 0x100 * 0x100_0000);
        vstd::arithmetic::div_mod::lemma_mod_multiples_vanish(0x100, x - y, 0x100_0000);
    }
    assert(mask24(x.wrapping_mul(y) as int) == mask24(x * y)) by {
        let p = x * y;
        let w = x.wrapping_mul(y) as int;
        assert(w == p % 0x1_0000_0000);
        vstd::arithmetic::div_mod::lemma_mod_mod(p, 0x100_0000, 0x100);
        assert(0x1_0000_0000int == 0x100_0000 * 0x100);
    }
}

proof fn lemma_sign_extend24(x: u32)
    by (bit_vector)
    ensures
        x & 0x00FF_FFFF == x % 0x100_0000,
        (x & 0x0080_0000) == 0 <==> x % 0x100_0000 < 0x80_0000,
        (x & 0x0080_0000) != 0 ==> ((x & 0x00FF_FFFF) as u64) | 0xFFFF_FFFF_FF00_0000u64 == ((x
            & 0x00FF_FFFF) as u64) + 0xFFFF_FFFF_FF00_0000u64,
{
}

proof fn lemma_sign_select(si: u64, sj: u64)
    by (bit_vector)
    ensures
        sj >= 0x8000_0000_0000_0000u64 ==> (si & !(((sj as i64) >> 63i64) as u64)) | (sj & (((sj as i64) >> 63i64) as u64)) == sj,
        sj < 0x8000_0000_0000_0000u64 ==> (si & !(((sj as i64) >> 63i64) as u64)) | (sj & (((sj as i64) >> 63i64) as u64)) == si,
{
}

pub(crate) proof fn lemma_low_bits_u32(x: u32)
    by (bit_vector)
    ensures
        x & 0x7F == x % 0x80,
        x & 63 == x % 64,
{
}

/// Wrapping 64-bit addition and subtraction are addition and subtraction modulo 2^64.
proof fn lemma_wrapping64(x: u64, y: u64)
    ensures
        x.wrapping_add(y) as int == (x + y) % word_modulus(),
        x.wrapping_sub(y) as int == (x - y) % word_modulus(),
{
    let w = word_modulus();
    if x + y > u64::MAX {
        vstd::arithmetic::div_mod::lemma_fundamental_div_mod_converse(x + y, w, 1, x + y - w);
    } else {
        vstd::arithmetic::div_mod::lemma_fundamental_div_mod_converse(x + y, w, 0, x + y);
    }
    if x - y < 0 {
        vstd::arithmetic::div_mod::lemma_fundamental_div_mod_converse(x - y, w, -1, x - y + w);
    } else {
        vstd::arithmetic::div_mod::lemma_fundamental_div_mod_converse(x - y, w, 0, x - y);
    }
}

/// `x >> (64 - c)` for a shift count 0 < c < 64.
pub(crate) proof fn lemma_shr_complement(x: u64, c: u64)
    requires
        0 < c < 64,
    ensures
        (x >> ((64 - c) as u64)) as int == x as int / (pow2((64 - c) as nat) as int),
{
    vstd::bits::lemma_u64_shr_is_div(x, (64 - c) as u64);
}

/// Scalar transmits, logical, shift and integer operations (040-077).
fn exec_scalar(regs: &mut Registers, sr_ready: &mut [u64; 8], d: Decoded, issued: u64, fp: &Vec<u64>) -> (r: Result<(), Trap>)
    requires
        fields_in_range(d),
        0o040 <= d.opcode < 0o100,
        s_latency(d) matches Some((reg, lat)) ==> issued + lat <= u64::MAX,
        fp@.len() == fp_count(old(regs)@, d),
    ensures
        final(regs)@ =~~= scalar_effect(old(regs)@, d, fp@).0,
        r == scalar_effect(old(regs)@, d, fp@).1,
        final(sr_ready)@ == sr_ready_after(old(sr_ready)@, d, issued as int),
{
    let i = d.i as usize;
    let j = d.j as usize;
    let k = d.k as usize;
    let jk = j * 8 + k;
    let shift = d.jk as u64;
    match d.opcode {
        // Si = 22-bit constant (zero-extended)
        0o040 => {
            regs.s[i] = d.addr22 as u64;
            sr_ready[i] = 0;
        },
        // Si = 0
        0o043 => {
            regs.s[i] = 0;
            sr_ready[i] = 0;
        },
        // Si = Ak (zero-extended)
        0o071 if d.j == 0 => {
            regs.s[i] = regs.a[k] as u64;
            sr_ready[i] = 0;
        },
        // Si = Ak (sign-extended from 24 bits)
        0o071 if d.j == 1 => {
            let ak = regs.a[k];
            proof {
                lemma_sign_extend24(ak);
            }
            let low = (ak & ADDR_MASK) as u64;
            regs.s[i] = if ak & 0x0080_0000 != 0 {
                low | 0xFFFF_FFFF_FF00_0000
            } else {
                low
            };
            sr_ready[i] = 0;
        },
        // Si = Ak as a floating point word
        0o071 if d.j == 2 => {
            regs.s[i] = fp[0];
            sr_ready[i] = 0;
        },
        // Si = Tjk
        0o074 => {
            regs.s[i] = regs.t[jk];
            sr_ready[i] = 0;
        },
        // Tjk = Si
        0o075 => regs.t[jk] = regs.s[i],
        // Si = VM
        0o073 => {
            regs.s[i] = regs.vm;
            sr_ready[i] = 0;
        },
        // Si = Vj[Ak]
        0o076 => {
            let ak = regs.a[k];
            proof {
                lemma_low_bits_u32(ak);
            }
            let elem = (ak & 63) as usize;
            regs.s[i] = regs.v[j][elem];
            sr_ready[i] = 0;
        },
        // Vi[Ak] = Sj
        0o077 => {
            let ak = regs.a[k];
            proof {
                lemma_low_bits_u32(ak);
            }
            let elem = (ak & 63) as usize;
            regs.v[i][elem] = regs.s[j];
        },
        // Floating point: Si = Sj + Sk, Sj - Sk; 6 CP
        0o062 | 0o063 => {
            regs.s[i] = fp[0];
            sr_ready[i] = issued + 6;
        },
        // Floating point: Si = Sj * Sk (truncated, half- and full-precision rounded), 2 * Sj * Sk; 7 CP
        0o064..=0o067 => {
            regs.s[i] = fp[0];
            sr_ready[i] = issued + 7;
        },
        // Floating point: Si = reciprocal approximation of Sj; 14 CP
        0o070 => {
            regs.s[i] = fp[0];
            sr_ready[i] = issued + 14;
        },
        // Si = Sj + Sk; 3 CP
        0o060 => {
            let (sj, sk) = (regs.s[j], regs.s[k]);
            proof {
                lemma_wrapping64(sj, sk);
            }
            regs.s[i] = sj.wrapping_add(sk);
            sr_ready[i] = issued + 3;
        },
        // Si = Sj - Sk; 3 CP
        0o061 => {
            let (sj, sk) = (regs.s[j], regs.s[k]);
            proof {
                lemma_wrapping64(sj, sk);
            }
            regs.s[i] = sj.wrapping_sub(sk);
            sr_ready[i] = issued + 3;
        },
        // Si = Sj & Sk; 1 CP
        0o044 => {
            regs.s[i] = regs.s[j] & regs.s[k];
            sr_ready[i] = issued + 1;
        },
        // Si = Sj & !Sk
        0o045 => {
            regs.s[i] = regs.s[j] & !regs.s[k];
            sr_ready[i] = issued + 1;
        },
        // Si = Sj ^ Sk
        0o046 => {
            regs.s[i] = regs.s[j] ^ regs.s[k];
            sr_ready[i] = issued + 1;
        },
        // Si = !(Sj ^ Sk) (logical equivalence)
        0o047 => {
            regs.s[i] = !(regs.s[j] ^ regs.s[k]);
            sr_ready[i] = issued + 1;
        },
        // Si = (Si & !Sk) | (Sj & Sk): Sj where Sk has ones, Si where it has zeros
        0o050 => {
            regs.s[i] = (regs.s[i] & !regs.s[k]) | (regs.s[j] & regs.s[k]);
            sr_ready[i] = issued + 1;
        },
        // Si = Sj when the sign of Sj is set, else Si
        0o051 => {
            let (si, sj) = (regs.s[i], regs.s[j]);
            proof {
                lemma_sign_select(si, sj);
            }
            let mask = ((sj as i64) >> 63) as u64;
            regs.s[i] = (si & !mask) | (sj & mask);
            sr_ready[i] = issued + 1;
        },
        // S0 = Si << jk; 2 CP
        0o052 => {
            let si = regs.s[i];
            proof {
                lemma_shl(si, shift);
            }
            regs.s[0] = si << shift;
            sr_ready[0] = issued + 2;
        },
        // S0 = Si >> (64 - jk)
        0o053 => {
            let si = regs.s[i];
            regs.s[0] = if shift == 0 {
                0
            } else {
                proof {
                    lemma_shr_complement(si, shift);
                }
                si >> (64 - shift)
            };
            sr_ready[0] = issued + 2;
        },
        // Si = Si << jk
        0o054 => {
            let si = regs.s[i];
            proof {
                lemma_shl(si, shift);
            }
            regs.s[i] = si << shift;
            sr_ready[i] = issued + 2;
        },
        // Si = Si >> (64 - jk)
        0o055 => {
            let si = regs.s[i];
            regs.s[i] = if shift == 0 {
                0
            } else {
                proof {
                    lemma_shr_complement(si, shift);
                }
                si >> (64 - shift)
            };
            sr_ready[i] = issued + 2;
        },
        // Si = high 64 bits of (Si:Sj) << Ak (double-length left shift); 3 CP
        0o056 => {
            let (si, sj, ak) = (regs.s[i], regs.s[j], regs.a[k]);
            proof {
                lemma_low_bits_u32(ak);
            }
            let count = (ak & 0x7F) as u64;
            proof {
                lemma_double_shl(si, sj, count as int);
            }
            regs.s[i] = if count == 0 {
                si
            } else if count >= 64 {
                proof {
                    lemma_shl(sj, (count - 64) as u64);
                }
                sj << (count - 64)
            } else {
                proof {
                    lemma_shl(si, count);
                    lemma_shr_complement(sj, count);
                    lemma_or_disjoint(si, sj, count);
                }
                (si << count) | (sj >> (64 - count))
            };
            sr_ready[i] = issued + 3;
        },
        // Si = low 64 bits of (Sj:Si) >> Ak (double-length right shift); 3 CP
        0o057 => {
            let (si, sj, ak) = (regs.s[i], regs.s[j], regs.a[k]);
            proof {
                lemma_low_bits_u32(ak);
            }
            let count = (ak & 0x7F) as u64;
            proof {
                lemma_double_shr(sj, si, count as int);
            }
            regs.s[i] = if count == 0 {
                si
            } else if count >= 64 {
                proof {
                    vstd::bits::lemma_u64_shr_is_div(sj, (count - 64) as u64);
                }
                sj >> (count - 64)
            } else {
                proof {
                    lemma_shl(sj, (64 - count) as u64);
                    vstd::bits::lemma_u64_shr_is_div(si, count);
                    lemma_or_disjoint(sj, si, (64 - count) as u64);
                    assert((64 - (64 - count)) as u64 == count);
                }
                (sj << (64 - count)) | (si >> count)
            };
            sr_ready[i] = issued + 3;
        },
        _ => return Err(Trap::Unimplemented(d.opcode)),
    }
    Ok(())
}

pub(crate) proof fn lemma_low_bits_u8(op: u8)
    by (bit_vector)
    ensures
        op & 7 == op % 8,
{
}

/// The effective address that `base.wrapping_add(offset) & ADDR_MASK` computes.
proof fn lemma_effective_address(base: u32, offset: u32)
    ensures
        (base.wrapping_add(offset) & 0x00FF_FFFF) as int == mask24(base + offset),
{
    lemma_wrapping_mask24(base, offset);
    lemma_mask24(base.wrapping_add(offset));
}

/// Scalar and address register memory transfers (100-137).
fn exec_memory(
    regs: &mut Registers,
    mem: &mut Memory,
    ar_ready: &mut [u64; 8],
    sr_ready: &mut [u64; 8],
    d: Decoded,
    issued: u64,
)
    requires
        fields_in_range(d),
        0o100 <= d.opcode < 0o140,
        a_latency(d) matches Some(lat) ==> issued + lat <= u64::MAX,
        s_latency(d) matches Some((reg, lat)) ==> issued + lat <= u64::MAX,
    ensures
        final(regs)@ =~~= memory_effect(old(regs)@, old(mem)@, d).0,
        final(mem)@ == memory_effect(old(regs)@, old(mem)@, d).1,
        final(ar_ready)@ == ar_ready_after(old(ar_ready)@, d, issued as int),
        final(sr_ready)@ == sr_ready_after(old(sr_ready)@, d, issued as int),
{
    let i = d.i as usize;
    let op = d.opcode;
    proof {
        lemma_low_bits_u8(op);
    }
    // The Ah base register is encoded in the low 3 bits of the opcode (the h field).
    // Effective word address = Ah + addr22, kept to 24 bits.
    let h = (op & 7) as usize;
    let base = regs.a[h];
    proof {
        lemma_effective_address(base, d.addr22);
    }
    let addr = base.wrapping_add(d.addr22) & ADDR_MASK;
    match op {
        // Ai = mem[Ah + addr22] (low 24 bits of the word)
        0o100..=0o107 => {
            let word = mem.read(addr);
            proof {
                lemma_truncate32(word);
                vstd::arithmetic::div_mod::lemma_mod_mod(word as int, 0x100_0000, 0x100);
            }
            regs.write_a(i, word as u32);
            ar_ready[i] = issued + 7;
        },
        // mem[Ah + addr22] = Ai
        0o110..=0o117 => mem.write(addr, regs.a[i] as u64),
        // Si = mem[Ah + addr22]
        0o120..=0o127 => {
            regs.s[i] = mem.read(addr);
            sr_ready[i] = issued + 7;
        },
        // mem[Ah + addr22] = Si
        _ => mem.write(addr, regs.s[i]),
    }
}

/// The word address of element n of a vector transfer, as the hardware computes it.
proof fn lemma_vector_address(base: u32, stride: u32, n: u32)
    ensures
        (base.wrapping_add(stride.wrapping_mul(n)) & 0x00FF_FFFF) as int == vector_address(
            base as int,
            stride as int,
            n as int,
        ),
{
    let m = stride.wrapping_mul(n);
    lemma_effective_address(base, m);
    lemma_wrapping_mask24(stride, n);
    vstd::arithmetic::div_mod::lemma_add_mod_noop(base as int, m as int, 0x100_0000);
    vstd::arithmetic::div_mod::lemma_add_mod_noop(base as int, stride * n, 0x100_0000);
}

proof fn lemma_lane_bits(x: u64, n: u64)
    by (bit_vector)
    requires
        n < 64,
    ensures
        ((x >> ((63 - n) as u64)) & 1 != 0) == ((x >> ((63 - n) as u64)) & 1 == 1),
        ((x >> 63u64) == 0) == (x < 0x8000_0000_0000_0000u64),
{
}

/// Element `n` of a vector instruction that produces Vi elementwise (all of 140-176 but the
/// element rotations 152, 153 and the mask test 175).
fn lane(regs: &Registers, mem: &Memory, d: Decoded, fp: &Vec<u64>, n: usize) -> (x: u64)
    requires
        fields_in_range(d),
        0o140 <= d.opcode <= 0o176,
        d.opcode != 0o152 && d.opcode != 0o153 && d.opcode != 0o175,
        n < regs.vl <= VL_MAX,
        fp@.len() == fp_count(regs@, d),
    ensures
        x == lane_value(regs@, mem@, d, fp@, n as int),
{
    let j = d.j as usize;
    let k = d.k as usize;
    let sv = regs.s[j];
    let vm = regs.vm;
    proof {
        lemma_lane_bits(vm, n as u64);
    }
    match d.opcode {
        // --- Vector logical ---
        0o140 => sv & regs.v[k][n],
        0o141 => regs.v[j][n] & regs.v[k][n],
        0o142 => sv | regs.v[k][n],
        0o143 => regs.v[j][n] | regs.v[k][n],
        0o144 => sv ^ regs.v[k][n],
        0o145 => regs.v[j][n] ^ regs.v[k][n],
        // Merge under the vector mask; VM bit n is bit 63 - n of the word
        0o146 => if (vm >> (63 - n) as u64) & 1 != 0 {
            sv
        } else {
            regs.v[k][n]
        },
        0o147 => if (vm >> (63 - n) as u64) & 1 != 0 {
            regs.v[j][n]
        } else {
            regs.v[k][n]
        },
        // --- Per-element bit shifts by Ak ---
        0o150 | 0o151 => {
            let ak = regs.a[k];
            proof {
                lemma_low_bits_u32(ak);
            }
            let count = (ak & 0x7F) as u64;
            let e = regs.v[j][n];
            if count >= 64 {
                0
            } else if d.opcode == 0o150 {
                proof {
                    lemma_shl(e, count);
                }
                e << count
            } else {
                proof {
                    vstd::bits::lemma_u64_shr_is_div(e, count);
                }
                e >> count
            }
        },
        // --- Vector integer add and subtract ---
        0o154 | 0o155 | 0o156 | 0o157 => {
            let x = if d.opcode == 0o154 || d.opcode == 0o156 {
                sv
            } else {
                regs.v[j][n]
            };
            let y = regs.v[k][n];
            proof {
                lemma_wrapping64(x, y);
            }
            if d.opcode <= 0o155 {
                x.wrapping_add(y)
            } else {
                x.wrapping_sub(y)
            }
        },
        // --- Vector floating point: the floating point unit's result for this element ---
        0o160..=0o174 => fp[n],
        // --- Vector load: Vi[n] = mem[A0 + n * Ak]; k = 0 means stride 1 ---
        _ => {
            let base = regs.a[0];
            let stride = if k == 0 {
                1
            } else {
                regs.a[k]
            };
            proof {
                lemma_vector_address(base, stride, n as u32);
            }
            let addr = base.wrapping_add(stride.wrapping_mul(n as u32)) & ADDR_MASK;
            mem.read(addr)
        },
    }
}

/// Element rotations (152: left, 153: right) of Vj into Vi by Ak places modulo VL.
/// Elements move one at a time in increasing order, reading Vj as it stands.
fn exec_rotate(regs: &mut Registers, d: Decoded)
    requires
        fields_in_range(d),
        d.opcode == 0o152 || d.opcode == 0o153,
        old(regs).vl <= VL_MAX,
    ensures
        final(regs)@ =~~= vector_effect(old(regs)@, Seq::empty(), d, Seq::empty()).0,
{
    let ghost r0 = regs@;
    let i = d.i as usize;
    let j = d.j as usize;
    let k = d.k as usize;
    let vl = regs.vl as usize;
    let count = if vl == 0 {
        0
    } else {
        (regs.a[k] as usize) % vl
    };
    let left = d.opcode == 0o152;
    let ghost vj0 = r0.v[j as int];
    let ghost c = count as int;
    let ghost target = |m: int| lane_value(r0, Seq::empty(), d, Seq::empty(), m);
    assert(c == rotation(r0, d));
    // Read from a copy of Vj, so that a rotation in place moves every element once.
    let source = regs.v[j];
    let mut row = regs.v[i];
    let mut n: usize = 0;
    while n < vl
        invariant
            fields_in_range(d),
            i == d.i,
            j == d.j,
            vl == r0.vl,
            vl <= 64,
            n <= vl,
            c == rotation(r0, d),
            count == c,
            vl > 0 ==> 0 <= c < vl,
            left == (d.opcode == 0o152),
            d.opcode == 0o152 || d.opcode == 0o153,
            vj0 == r0.v[j as int],
            source@ == vj0,
            regs@ == r0,
            r0.v.len() == 8,
            target == (|m: int| lane_value(r0, Seq::empty(), d, Seq::empty(), m)),
            forall|m: int| 0 <= m < n ==> #[trigger] row@[m] == target(m),
            forall|m: int| n <= m < 64 ==> #[trigger] row@[m] == r0.v[i as int][m],
        decreases vl - n,
    {
        let src = if left {
            (n + count) % vl
        } else {
            (n + vl - count) % vl
        };
        proof {
            lemma_rotation_source(vl as int, c, n as int);
        }
        row[n] = source[src];
        n += 1;
    }
    regs.v[i] = row;
    assert(row@ =~= row_map(r0.v[i as int], vl as int, target));
    assert(regs@.v =~~= r0.v.update(i as int, row@));
}

/// The source element of position n of a rotation lies within the first vl elements.
proof fn lemma_rotation_source(vl: int, c: int, n: int)
    requires
        0 <= c < vl,
        0 <= n < vl,
    ensures
        0 <= (n + c) % vl < vl,
        0 <= (n + vl - c) % vl < vl,
{
    vstd::arithmetic::div_mod::lemma_mod_bound(n + c, vl);
    vstd::arithmetic::div_mod::lemma_mod_bound(n + vl - c, vl);
}

proof fn lemma_mask_step(vm: u64, n: u64)
    by (bit_vector)
    requires
        n < 64,
        n == 0 ==> vm == 0,
        n > 0 ==> vm & (0xFFFF_FFFF_FFFF_FFFFu64 >> n) == 0,
    ensures
        vm | (1u64 << ((63 - n) as u64)) == vm + (1u64 << ((63 - n) as u64)),
        (vm | (1u64 << ((63 - n) as u64))) & (0xFFFF_FFFF_FFFF_FFFFu64 >> ((n + 1) as u64)) == 0,
        vm & (0xFFFF_FFFF_FFFF_FFFFu64 >> ((n + 1) as u64)) == 0,
{
}

/// Setting mask bit n leaves every other bit as it was.
pub(crate) proof fn lemma_mask_bit_set(vm: u64, n: u64, t: u64)
    by (bit_vector)
    requires
        n < 64,
        t < 64,
    ensures
        (((vm | (1u64 << ((63 - n) as u64))) >> ((63 - t) as u64)) & 1 == 1) == (((vm >> ((63
            - t) as u64)) & 1 == 1) || t == n),
        (0u64 >> ((63 - t) as u64)) & 1 != 1,
{
}

/// The mask word for the first m elements, as a machine word: bit 63 - t is set exactly
/// for each element t < m that passes, and the bits below those are clear.
pub(crate) proof fn lemma_mask_word_bits(row: Seq<u64>, m: int, k: int)
    requires
        0 <= m <= 64,
    ensures
        0 <= mask_word(row, m, k) <= u64::MAX,
        m == 0 ==> mask_word(row, m, k) == 0,
        m > 0 ==> (mask_word(row, m, k) as u64) & (0xFFFF_FFFF_FFFF_FFFFu64 >> (m as u64)) == 0,
        forall|t: int|
            #![trigger vm_bit(mask_word(row, m, k) as u64, t)]
            0 <= t < 64 ==> vm_bit(mask_word(row, m, k) as u64, t) == (t < m && mask_test(
                row[t],
                k,
            )),
    decreases m,
{
    if m == 0 {
        assert forall|t: int| 0 <= t < 64 implies !vm_bit(0u64, t) by {
            lemma_mask_bit_set(0, 0, t as u64);
        }
    } else {
        let n = m - 1;
        lemma_mask_word_bits(row, n, k);
        let w = mask_word(row, n, k) as u64;
        lemma_mask_step(w, n as u64);
        vstd::arithmetic::power2::lemma_pow2_strictly_increases((63 - n) as nat, 64);
        vstd::arithmetic::power2::lemma2_to64();
        vstd::bits::lemma_u64_shl_is_mul(1, (63 - n) as u64);
        let bit = 1u64 << ((63 - n) as u64);
        if mask_test(row[n], k) {
            assert(mask_word(row, m, k) == w + bit);
            assert(mask_word(row, m, k) as u64 == w | bit);
            assert forall|t: int| 0 <= t < 64 implies #[trigger] vm_bit(mask_word(row, m, k) as u64, t) == (t
                < m && mask_test(row[t], k)) by {
                lemma_mask_bit_set(w, n as u64, t as u64);
                assert(vm_bit(w, t) == (t < n && mask_test(row[t], k)));
                assert(vm_bit(w | bit, t) == (vm_bit(w, t) || t == n));
            }
        } else {
            assert(mask_word(row, m, k) == mask_word(row, n, k));
            assert forall|t: int| 0 <= t < 64 implies #[trigger] vm_bit(mask_word(row, m, k) as u64, t) == (t
                < m && mask_test(row[t], k)) by {
                if t == n {
                    assert(!(t < n && mask_test(row[t], k)));
                }
            }
        }
    }
}

/// Vector mask test (175): VM bit n is set for each element n < VL of Vj that passes the
/// test selected by k (0 zero, 1 non-zero, 2 positive, 3 negative).
fn exec_mask_test(regs: &mut Registers, d: Decoded)
    requires
        fields_in_range(d),
        d.opcode == 0o175,
        old(regs).vl <= VL_MAX,
    ensures
        final(regs)@ =~~= vector_effect(old(regs)@, Seq::empty(), d, Seq::empty()).0,
{
    let ghost r0 = regs@;
    let j = d.j as usize;
    let k = d.k;
    let vl = regs.vl as usize;
    let mut vm = 0u64;
    let mut n: usize = 0;
    while n < vl
        invariant
            j == d.j,
            k == d.k,
            vl == r0.vl,
            vl <= 64,
            n <= vl,
            fields_in_range(d),
            regs@ == r0,
            r0.v.len() == 8,
            vm as int == mask_word(r0.v[j as int], n as int, k as int),
            n == 0 ==> vm == 0,
            n > 0 ==> vm & (0xFFFF_FFFF_FFFF_FFFFu64 >> (n as u64)) == 0,
        decreases vl - n,
    {
        let elem = regs.v[j][n];
        proof {
            lemma_lane_bits(elem, 0);
        }
        let set = match k {
            0 => elem == 0,
            1 => elem != 0,
            2 => elem != 0 && (elem >> 63) == 0,
            3 => (elem >> 63) != 0,
            _ => false,
        };
        assert(set == mask_test(elem, k as int));
        proof {
            lemma_mask_step(vm, n as u64);
            vstd::arithmetic::power2::lemma_pow2_strictly_increases((63 - n) as nat, 64);
            vstd::arithmetic::power2::lemma2_to64();
            vstd::bits::lemma_u64_shl_is_mul(1, (63 - n) as u64);
        }
        if set {
            vm |= 1u64 << (63 - n) as u64;
        }
        n += 1;
    }
    regs.vm = vm;
}

/// Vector store (177): mem[A0 + n * Ak] = Vj[n] for n < VL, in element order;
/// k = 0 means stride 1.
fn exec_vector_store(regs: &Registers, mem: &mut Memory, d: Decoded)
    requires
        fields_in_range(d),
        d.opcode == 0o177,
        regs.vl <= VL_MAX,
    ensures
        final(mem)@ == vector_effect(regs@, old(mem)@, d, Seq::empty()).1,
{
    let j = d.j as usize;
    let k = d.k as usize;
    let vl = regs.vl as usize;
    let base = regs.a[0];
    let stride = if k == 0 {
        1
    } else {
        regs.a[k]
    };
    let mut n: usize = 0;
    while n < vl
        invariant
            j == d.j,
            fields_in_range(d),
            vl == regs.vl,
            vl <= 64,
            n <= vl,
            base == regs@.a[0],
            stride == (if d.k == 0 { 1 } else { regs@.a[d.k as int] }),
            mem@ == vector_store(old(mem)@, base as int, stride as int, regs@.v[j as int], n as nat),
        decreases vl - n,
    {
        proof {
            lemma_vector_address(base, stride, n as u32);
        }
        let addr = base.wrapping_add(stride.wrapping_mul(n as u32)) & ADDR_MASK;
        mem.write(addr, regs.v[j][n]);
        n += 1;
    }
}

/// Vector instructions (140-177).
fn exec_vector(regs: &mut Registers, mem: &mut Memory, d: Decoded, fp: &Vec<u64>)
    requires
        fields_in_range(d),
        0o140 <= d.opcode < 0o200,
        old(regs).vl <= VL_MAX,
        fp@.len() == fp_count(old(regs)@, d),
    ensures
        final(regs)@ =~~= vector_effect(old(regs)@, old(mem)@, d, fp@).0,
        final(mem)@ == vector_effect(old(regs)@, old(mem)@, d, fp@).1,
{
    match d.opcode {
        0o152 | 0o153 => {
            exec_rotate(regs, d);
            assert(vector_effect(old(regs)@, old(mem)@, d, fp@).0 =~~= vector_effect(old(regs)@, Seq::empty(), d, Seq::empty()).0);
        },
        0o175 => exec_mask_test(regs, d),
        0o177 => exec_vector_store(regs, mem, d),
        _ => {
            let ghost r0 = regs@;
            let i = d.i as usize;
            let vl = regs.vl as usize;
            let mut row = regs.v[i];
            let mut n: usize = 0;
            while n < vl
                invariant
                    i == d.i,
                    vl == r0.vl,
                    vl <= 64,
                    n <= vl,
                    fields_in_range(d),
                    0o140 <= d.opcode < 0o200,
                    d.opcode != 0o152 && d.opcode != 0o153 && d.opcode != 0o175 && d.opcode != 0o177,
                    regs@ == r0,
                    r0.v.len() == 8,
                    fp@.len() == fp_count(r0, d),
                    forall|m: int| 0 <= m < n ==> #[trigger] row@[m] == lane_value(r0, mem@, d, fp@, m),
                    forall|m: int| n <= m < 64 ==> #[trigger] row@[m] == r0.v[i as int][m],
                decreases vl - n,
            {
                let e = lane(regs, mem, d, fp, n);
                row[n] = e;
                n += 1;
            }
            regs.v[i] = row;
            assert(row@ =~= row_map(r0.v[i as int], vl as int, |m: int| lane_value(r0, mem@, d, fp@, m)));
            assert(regs@.v =~~= r0.v.update(i as int, row@));
        },
    }
}

// ---------------------------------------------------------------------------
// Fetch, decode and the whole step
// ---------------------------------------------------------------------------

/// Fetch and decode the instruction at P (taken to 24 bits): its first parcel, then the
/// parcel after it.
pub open spec fn fetch_decode_spec(m: MachineView, ib: IBufView) -> (IBufView, Decoded) {
    let p = mask24(m.regs.p as int);
    let first = fetch_spec(ib, m.mem, p as u32);
    let second = fetch_spec(first.0, m.mem, mask24(p + 1) as u32);
    (second.0, decode_spec(first.1, second.1))
}

/// Number of parcels that instruction `d` occupies.
pub open spec fn parcels_of(d: Decoded) -> int {
    if d.long { 2 } else { 1 }
}

/// The machine with P moved past instruction `d`, wrapping within P's 24 bits.
pub open spec fn advanced(m: MachineView, d: Decoded) -> MachineView {
    MachineView { regs: m.regs.with_p(mask24(mask24(m.regs.p as int) + parcels_of(d))), ..m }
}

/// One step can run without failing: the instruction can execute.
pub open spec fn step_defined(m: MachineView, ib: IBufView) -> bool {
    let d = fetch_decode_spec(m, ib).1;
    can_execute(advanced(m, d), d)
}

/// One step: fetch and decode at P, advance P past the instruction, then execute it;
/// `fp` holds the floating point unit's results for the instruction.
pub open spec fn step_spec(m: MachineView, ib: IBufView, fp: Seq<u64>) -> (MachineView, IBufView, Result<(), Trap>) {
    let fd = fetch_decode_spec(m, ib);
    let d = fd.1;
    let e = execute_spec(advanced(m, d), d, fp);
    (e.0, fd.0, e.1)
}

/// `fp` holds, in order, what `fpu` returned when called on the operation and each operand
/// pair that instruction `d` hands to the floating point unit from registers `r`.
pub open spec fn fp_results_of<F: Fn(FpOp, u64, u64) -> u64>(fpu: &F, r: RegsView, d: Decoded, fp: Seq<u64>) -> bool {
    match fp_request_spec(r, d) {
        Some((op, operands)) => {
            &&& fp.len() == operands.len()
            &&& forall|n: int|
                0 <= n < fp.len() ==> call_ensures(*fpu, (op, operands[n].0, operands[n].1), #[trigger] fp[n])
        },
        None => fp.len() == 0,
    }
}

/// One step from machine `m` with instruction buffers `ib` ends in `m2`, `ib2` with result
/// `r`, the floating point unit having returned `fp` for the instruction's floating point work.
pub open spec fn steps_to(
    m: MachineView,
    ib: IBufView,
    fp: Seq<u64>,
    m2: MachineView,
    ib2: IBufView,
    r: Result<(), Trap>,
) -> bool {
    let d = fetch_decode_spec(m, ib).1;
    let s = step_spec(m, ib, fp);
    &&& fp.len() == fp_count(advanced(m, d).regs, d)
    &&& m2 == s.0
    &&& ib2 == s.1
    &&& r == s.2
}

/// Floating point work that an instruction asks of the floating point unit.
pub struct FpRequest {
    pub op: FpOp,
    /// Operand pairs, one per result.
    pub operands: Vec<(u64, u64)>,
}

pub struct Cpu {
    pub regs: Registers,
    pub mem: Memory,
    pub cycle: u64,
    ibufs: InstructionBuffers,
    // Per address register: earliest cycle when the result is available.
    ar_ready_at: [u64; 8],
    // Per scalar register: earliest cycle when the result is available.
    sr_ready_at: [u64; 8],
}

impl Cpu {
    /// Per address register: the cycle from which its value is available.
    pub closed spec fn ar_ready(&self) -> Seq<u64> {
        self.ar_ready_at@
    }

    /// Per scalar register: the cycle from which its value is available.
    pub closed spec fn sr_ready(&self) -> Seq<u64> {
        self.sr_ready_at@
    }

    /// The state of the instruction buffers.
    pub closed spec fn ibufs_view(&self) -> IBufView {
        self.ibufs@
    }

    /// The instruction buffers' bookkeeping is consistent.
    pub closed spec fn wf(&self) -> bool {
        &&& self.ibufs.wf()
        &&& forall|i: int| 0 <= i < 8 ==> #[trigger] self.ar_ready_at@[i] <= self.cycle + 13
        &&& forall|i: int| 0 <= i < 8 ==> #[trigger] self.sr_ready_at@[i] <= self.cycle + 13
    }

    /// A processor with consistent bookkeeping can always take a step while its clock is
    /// far enough from overflow and VL is within 64: no register becomes ready more than
    /// 13 cycles ahead of the clock, and no unit takes longer than 14.
    pub proof fn lemma_step_defined(c: &Cpu)
        requires
            c.wf(),
            c.machine().cycle <= u64::MAX - 27,
            c.machine().regs.vl <= VL_MAX,
        ensures
            step_defined(c.machine(), c.ibufs_view()),
    {
        let m = c.machine();
        let d = fetch_decode_spec(m, c.ibufs_view()).1;
        let m1 = advanced(m, d);
        assert(fields_in_range(d));
        assert(sources(m1, d).0 <= m.cycle + 13);
        assert(sources(m1, d).1 <= m.cycle + 13);
    }

    /// The machine state always has the machine's sizes.
    pub broadcast proof fn lemma_machine_sized(c: &Cpu)
        ensures
            #[trigger] c.machine().well_sized(),
    {
        Memory::lemma_view_len(&c.mem);
    }

    /// A processor with consistent bookkeeping has well-formed instruction buffers.
    pub proof fn lemma_wf_ibufs(c: &Cpu)
        requires
            c.wf(),
        ensures
            c.ibufs_view().well_formed(),
    {
        InstructionBuffers::lemma_wf_shape(&c.ibufs);
    }

    /// The state that instruction execution reads and writes: the public registers,
    /// memory and clock, and the readiness tables.
    pub closed spec fn machine(&self) -> MachineView {
        MachineView {
            regs: self.regs@,
            mem: self.mem@,
            cycle: self.cycle,
            ar_ready: self.ar_ready(),
            sr_ready: self.sr_ready(),
        }
    }

    /// A processor with cleared registers, empty instruction buffers and all
    /// registers available, running on memory `mem`.
    pub fn new(mem: Memory) -> (c: Self)
        ensures
            c.wf(),
            c.machine().regs =~~= zero_regs(),
            c.machine().mem == mem@,
            c.machine().cycle == 0,
            c.machine().ar_ready == Seq::new(8, |i: int| 0u64),
            c.machine().sr_ready == Seq::new(8, |i: int| 0u64),
            c.ibufs_view().well_formed(),
            c.ibufs_view().next_fill == 0,
            forall|n: int| 0 <= n < 4 ==> !(#[trigger] c.ibufs_view().buffers[n]).valid,
    {
        let c = Self {
            regs: Registers::new(),
            mem,
            cycle: 0,
            ibufs: InstructionBuffers::new(),
            ar_ready_at: [0;8],
            sr_ready_at: [0;8],
        };
        assert(c.ar_ready_at@ =~= Seq::new(8, |i: int| 0u64));
        assert(c.sr_ready_at@ =~= Seq::new(8, |i: int| 0u64));
        c
    }

    /// The readiness times of the source registers that instruction `d` waits for.
    fn source_ready(&self, d: Decoded) -> (srcs: [u64; 2])
        requires
            fields_in_range(d),
        ensures
            srcs@[0] == sources(self.machine(), d).0,
            srcs@[1] == sources(self.machine(), d).1,
    {
        let i = d.i as usize;
        let j = d.j as usize;
        let k = d.k as usize;
        let h = (d.opcode & 7) as usize;
        proof {
            lemma_low_bits_u8(d.opcode);
        }
        let ar = &self.ar_ready_at;
        let sr = &self.sr_ready_at;
        match d.opcode {
            0o010..=0o013 => [ar[0], 0],
            0o020 => [ar[k], 0],
            0o025 => [ar[i], 0],
            0o030 | 0o031 | 0o032 => [ar[j], ar[k]],
            0o044..=0o047 => [sr[j], sr[k]],
            0o050 => [if sr[i] >= sr[j] { sr[i] } else { sr[j] }, sr[k]],
            0o051 => [sr[i], sr[j]],
            0o052 | 0o053 => [sr[i], 0],
            0o054 | 0o055 => [sr[i], 0],
            0o056 | 0o057 => [if sr[i] >= sr[j] { sr[i] } else { sr[j] }, ar[k]],
            0o060 | 0o061 => [sr[j], sr[k]],
            0o062 | 0o063 => [sr[j], sr[k]],
            0o064..=0o067 => [sr[j], sr[k]],
            0o070 => [sr[j], 0],
            0o071 if j <= 2 => [ar[k], 0],
            0o075 => [sr[i], 0],
            0o077 => [sr[j], ar[k]],
            0o100..=0o107 => [ar[h], 0],
            0o110..=0o117 => [ar[h], ar[i]],
            0o120..=0o127 => [ar[h], 0],
            0o130..=0o137 => [ar[h], sr[i]],
            0o150..=0o153 => [ar[k], 0],
            0o176 => [ar[0], if k != 0 { ar[k] } else { 0 }],
            0o177 => [ar[0], if k != 0 { ar[k] } else { 0 }],
            _ => [0, 0],
        }
    }

    /// Advance the clock past every source's readiness time, issue the instruction, and
    /// return the cycle at which it issued.
    fn issue(&mut self, srcs: &[u64]) -> (issued_at: u64)
        requires
            srcs@.len() == 2,
            max2(old(self).cycle as int, max2(srcs@[0] as int, srcs@[1] as int)) < u64::MAX,
        ensures
            issued_at == max2(old(self).cycle as int, max2(srcs@[0] as int, srcs@[1] as int)),
            final(self).cycle == issued_at + 1,
            final(self).regs == old(self).regs,
            final(self).mem == old(self).mem,
            final(self).ibufs == old(self).ibufs,
            final(self).ar_ready_at == old(self).ar_ready_at,
            final(self).sr_ready_at == old(self).sr_ready_at,
    {
        let mut latest = self.cycle;
        let mut n: usize = 0;
        while n < srcs.len()
            invariant
                srcs@.len() == 2,
                n <= 2,
                latest as int == (if n == 0 {
                    self.cycle as int
                } else if n == 1 {
                    max2(self.cycle as int, srcs@[0] as int)
                } else {
                    max2(self.cycle as int, max2(srcs@[0] as int, srcs@[1] as int))
                }),
            decreases 2 - n,
        {
            if srcs[n] > latest {
                latest = srcs[n];
            }
            n += 1;
        }
        self.cycle = latest;
        let issued_at = self.cycle;
        self.cycle += 1;
        issued_at
    }

    /// Issue and execute the decoded instruction `d`; `fp` holds the floating point unit's
    /// results for it, one per operand pair of `fp_request(d)`. Returns `Err` when
    /// execution should stop.
    pub fn execute(&mut self, d: Decoded, fp: &Vec<u64>) -> (r: Result<(), Trap>)
        requires
            old(self).wf(),
            can_execute(old(self).machine(), d),
            fp@.len() == fp_count(old(self).machine().regs, d),
        ensures
            final(self).wf(),
            final(self).ibufs_view() == old(self).ibufs_view(),
            final(self).machine() =~~= execute_spec(old(self).machine(), d, fp@).0,
            r == execute_spec(old(self).machine(), d, fp@).1,
    {
        let ghost m0 = self.machine();
        let srcs = self.source_ready(d);
        let issued_at = self.issue(&srcs);
        assert(issued_at == issue_cycle(m0, d));
        let op = d.opcode;
        if op < 0o020 {
            exec_branch(&mut self.regs, d)
        } else if op < 0o040 {
            exec_address(&mut self.regs, &mut self.ar_ready_at, d, issued_at)
        } else if op < 0o100 {
            exec_scalar(&mut self.regs, &mut self.sr_ready_at, d, issued_at, fp)
        } else if op < 0o140 {
            exec_memory(&mut self.regs, &mut self.mem, &mut self.ar_ready_at, &mut self.sr_ready_at, d, issued_at);
            Ok(())
        } else if op < 0o200 {
            exec_vector(&mut self.regs, &mut self.mem, d, fp);
            Ok(())
        } else {
            Err(Trap::Unimplemented(op))
        }
    }

    /// The floating point work that instruction `d` asks for, or `None` when it has none.
    pub fn fp_request(&self, d: Decoded) -> (req: Option<FpRequest>)
        requires
            fields_in_range(d),
            0o140 <= d.opcode < 0o200 ==> self.machine().regs.vl <= VL_MAX,
        ensures
            match req {
                Some(q) => fp_request_spec(self.machine().regs, d) == Some((q.op, q.operands@)),
                None => fp_request_spec(self.machine().regs, d) is None,
            },
    {
        let r = &self.regs;
        let j = d.j as usize;
        let k = d.k as usize;
        let (sj, sk) = (r.s[j], r.s[k]);
        let scalar = |op: FpOp, x: u64, y: u64| -> (q: FpRequest)
            ensures
                q.op == op,
                q.operands@ == seq![(x, y)],
            {
                let mut operands = Vec::new();
                operands.push((x, y));
                FpRequest { op, operands }
            };
        match d.opcode {
            0o062 => Some(scalar(FpOp::Add, sj, sk)),
            0o063 => Some(scalar(FpOp::Sub, sj, sk)),
            0o064..=0o066 => Some(scalar(FpOp::Mul, sj, sk)),
            0o067 => Some(scalar(FpOp::DoubleMul, sj, sk)),
            0o070 => Some(scalar(FpOp::Reciprocal, sj, 0)),
            0o071 if d.j == 2 => Some(scalar(FpOp::FromInteger, r.a[k] as u64, 0)),
            0o160..=0o174 => {
                let op = d.opcode;
                let fop = if op <= 0o165 {
                    FpOp::Mul
                } else if op <= 0o167 {
                    FpOp::DoubleMul
                } else if op <= 0o171 {
                    FpOp::Add
                } else if op <= 0o173 {
                    FpOp::Sub
                } else {
                    FpOp::Reciprocal
                };
                // Even opcodes take Sj as the first operand, odd ones (and 174) take Vj.
                let x_scalar = op % 2 == 0 && op != 0o174;
                let vl = r.vl as usize;
                let ghost pair = |m: int|
                    (
                        if x_scalar { sj } else { r@.v[j as int][m] },
                        if op == 0o174 { 0u64 } else { r@.v[k as int][m] },
                    );
                let mut operands: Vec<(u64, u64)> = Vec::new();
                let mut n: usize = 0;
                while n < vl
                    invariant
                        vl == r.vl,
                        vl <= 64,
                        n <= vl,
                        j == d.j,
                        k == d.k,
                        fields_in_range(d),
                        sj == r@.s[j as int],
                        pair == (|m: int|
                            (
                                if x_scalar { sj } else { r@.v[j as int][m] },
                                if op == 0o174 { 0u64 } else { r@.v[k as int][m] },
                            )),
                        operands@ =~= Seq::new(n as nat, pair),
                    decreases vl - n,
                {
                    let x = if x_scalar {
                        sj
                    } else {
                        r.v[j][n]
                    };
                    let y = if op == 0o174 {
                        0
                    } else {
                        r.v[k][n]
                    };
                    operands.push((x, y));
                    n += 1;
                }
                let req = FpRequest { op: fop, operands };
                assert(fp_request_spec(self.machine().regs, d) == Some((req.op, req.operands@)));
                Some(req)
            },
            _ => None,
        }
    }

    /// Run the floating point work that instruction `d` asks for on `fpu`, one call per
    /// operand pair, in order.
    fn fp_results<F: Fn(FpOp, u64, u64) -> u64>(&self, d: Decoded, fpu: &F) -> (results: Vec<u64>)
        requires
            fields_in_range(d),
            0o140 <= d.opcode < 0o200 ==> self.machine().regs.vl <= VL_MAX,
            forall|op: FpOp, x: u64, y: u64| call_requires(*fpu, (op, x, y)),
        ensures
            fp_results_of(fpu, self.machine().regs, d, results@),
    {
        let mut results = Vec::new();
        match self.fp_request(d) {
            Some(req) => {
                let mut n: usize = 0;
                while n < req.operands.len()
                    invariant
                        n <= req.operands@.len(),
                        results@.len() == n,
                        forall|op: FpOp, x: u64, y: u64| call_requires(*fpu, (op, x, y)),
                        forall|m: int|
                            0 <= m < n ==> call_ensures(
                                *fpu,
                                (req.op, req.operands@[m].0, req.operands@[m].1),
                                #[trigger] results@[m],
                            ),
                    decreases req.operands@.len() - n,
                {
                    let (x, y) = req.operands[n];
                    let r = fpu(req.op, x, y);
                    results.push(r);
                    n += 1;
                }
            },
            None => {},
        }
        results
    }

    /// Execute one instruction: fetch it at P through the instruction buffers, decode it,
    /// advance P past it and execute it, with `fpu` doing its floating point work.
    /// Returns `Err(Trap)` when execution should stop.
    pub fn step<F: Fn(FpOp, u64, u64) -> u64>(&mut self, fpu: &F) -> (r: Result<(), Trap>)
        requires
            old(self).wf(),
            step_defined(old(self).machine(), old(self).ibufs_view()),
            forall|op: FpOp, x: u64, y: u64| call_requires(*fpu, (op, x, y)),
        ensures
            final(self).wf(),
            final(self).ibufs_view().well_formed(),
            final(self).machine().cycle > old(self).machine().cycle,
            exists|fp: Seq<u64>|
                fp_results_of(
                    fpu,
                    advanced(
                        old(self).machine(),
                        fetch_decode_spec(old(self).machine(), old(self).ibufs_view()).1,
                    ).regs,
                    fetch_decode_spec(old(self).machine(), old(self).ibufs_view()).1,
                    fp,
                ) && #[trigger] steps_to(
                    old(self).machine(),
                    old(self).ibufs_view(),
                    fp,
                    final(self).machine(),
                    final(self).ibufs_view(),
                    r,
                ),
    {
        let ghost m0 = self.machine();
        let ghost ib0 = self.ibufs_view();
        proof {
            lemma_mask24(self.regs.p);
        }
        let p = self.regs.p & ADDR_MASK;
        let p_next = (p + 1) & ADDR_MASK;
        proof {
            lemma_mask24((p + 1) as u32);
        }
        let raw = self.ibufs.fetch(p, &self.mem);
        let next = self.ibufs.fetch(p_next, &self.mem);
        let d = decode(raw, next);
        assert(fetch_decode_spec(m0, ib0) == (self.ibufs_view(), d));
        let len: u32 = if d.long {
            2
        } else {
            1
        };
        proof {
            lemma_mask24((p + len) as u32);
        }
        self.regs.p = (p + len) & ADDR_MASK;
        assert(self.machine() =~~= advanced(m0, d));
        proof {
            lemma_decoded_in_range(raw, next);
        }
        let results = self.fp_results(d, fpu);
        let r = self.execute(d, &results);
        assert(step_spec(m0, ib0, results@).0 =~~= self.machine());
        assert(steps_to(m0, ib0, results@, self.machine(), self.ibufs_view(), r));
        r
    }

    /// The register file.
    pub fn registers(&self) -> (r: &Registers)
        ensures
            r@ == self.machine().regs,
    {
        &self.regs
    }

    /// The memory.
    pub fn memory(&self) -> (m: &Memory)
        ensures
            m@ == self.machine().mem,
    {
        &self.mem
    }

    /// The clock: the cycle after the last issued instruction.
    pub fn clock(&self) -> (c: u64)
        ensures
            c == self.machine().cycle,
    {
        self.cycle
    }

    /// Replace the register file; everything else stays as it was.
    pub fn set_registers(&mut self, regs: Registers)
        requires
            old(self).wf(),
        ensures
            final(self).wf(),
            final(self).ibufs_view() == old(self).ibufs_view(),
            final(self).machine() == (MachineView { regs: regs@, ..old(self).machine() }),
    {
        self.regs = regs;
    }

    /// Store `value` at memory word `addr` (modulo the memory size); everything else stays
    /// as it was. Instructions already copied into the buffers are not changed.
    pub fn write_memory(&mut self, addr: u32, value: u64)
        requires
            old(self).wf(),
        ensures
            final(self).wf(),
            final(self).ibufs_view() == old(self).ibufs_view(),
            final(self).machine() == (MachineView {
                mem: old(self).machine().mem.update(word_index(addr as int), value),
                ..old(self).machine()
            }),
    {
        self.mem.write(addr, value);
    }

    /// Whether `step` can run from this state without failing (see `step_defined`); the
    /// instruction buffers are left as they are.
    pub fn can_step(&self) -> (b: bool)
        requires
            self.wf(),
        ensures
            b == step_defined(self.machine(), self.ibufs_view()),
    {
        let ghost m0 = self.machine();
        proof {
            lemma_mask24(self.regs.p);
        }
        let p = self.regs.p & ADDR_MASK;
        let p_next = (p + 1) & ADDR_MASK;
        proof {
            lemma_mask24((p + 1) as u32);
        }
        let mut ib = self.ibufs;
        let raw = ib.fetch(p, &self.mem);
        let next = ib.fetch(p_next, &self.mem);
        let d = decode(raw, next);
        proof {
            lemma_decoded_in_range(raw, next);
        }
        assert(fetch_decode_spec(m0, self.ibufs_view()).1 == d);
        if d.opcode >= 0o140 && d.opcode < 0o200 && self.regs.vl > VL_MAX {
            return false;
        }
        let srcs = self.source_ready(d);
        let mut issued = self.cycle;
        if srcs[0] > issued {
            issued = srcs[0];
        }
        if srcs[1] > issued {
            issued = srcs[1];
        }
        assert(issued == issue_cycle(advanced(m0, d), d));
        if issued == u64::MAX {
            return false;
        }
        match a_latency_of(d) {
            Some(lat) => if issued > u64::MAX - lat {
                return false;
            },
            None => {},
        }
        match s_latency_of(d) {
            Some(lat) => if issued > u64::MAX - lat {
                return false;
            },
            None => {},
        }
        true
    }
}

/// `decode` produces fields in range.
proof fn lemma_decoded_in_range(p0: u16, p1: u16)
    ensures
        fields_in_range(decode_spec(p0, p1)),
{
}

/// The address register latency of instruction `d` (see `a_latency`).
fn a_latency_of(d: Decoded) -> (lat: Option<u64>)
    ensures
        match lat {
            Some(l) => a_latency(d) == Some(l as int),
            None => a_latency(d) is None,
        },
{
    match d.opcode {
        0o021..=0o024 => Some(0),
        0o030 | 0o031 => Some(2),
        0o032 => Some(6),
        0o100..=0o107 => Some(7),
        _ => None,
    }
}

/// The scalar register latency of instruction `d` (see `s_latency`).
fn s_latency_of(d: Decoded) -> (lat: Option<u64>)
    ensures
        match lat {
            Some(l) => s_latency(d) matches Some((reg, x)) && x == l,
            None => s_latency(d) is None,
        },
{
    match d.opcode {
        0o040 | 0o043 | 0o073 | 0o074 | 0o076 => Some(0),
        0o071 if d.j <= 2 => Some(0),
        0o044..=0o051 => Some(1),
        0o052..=0o055 => Some(2),
        0o056..=0o061 => Some(3),
        0o062 | 0o063 => Some(6),
        0o064..=0o067 => Some(7),
        0o070 => Some(14),
        0o120..=0o127 => Some(7),
        _ => None,
    }
}

} // verus!
