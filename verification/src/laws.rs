//! Properties of the machine that span several operations.
use vstd::prelude::*;
use crate::memory::{word_index, MEMORY_WORDS, image_word, be_bytes};
use vstd::arithmetic::div_mod::lemma_fundamental_div_mod_converse;
use crate::ibuffer::{IBufView, fetch_spec, coherent, memory_parcel, buffer_holds, first_holding, filled_buffer, parcel_of, BUFFER_PARCELS};
use crate::instr::{decode_spec, is_long_spec, Decoded};
use crate::fp::{flip_sign, sign_of, exponent_of, coefficient_of, normalize_spec, is_normalized, lead_shift, fp_word};
use vstd::arithmetic::power2::{pow2, lemma_pow2_adds, lemma2_to64};
use crate::cpu::{
    MachineView, RegsView, effect, address_effect, scalar_effect, memory_effect, vector_effect, execute_spec, step_spec, steps_to, sources, timing_fits, issue_cycle, a_latency, s_latency,
    fetch_decode_spec, parcels_of, advanced, fp_count, fields_in_range, memory_address, vector_store, vector_address, vm_bit, mask_test, lemma_mask_word_bits,
};

verus! {

/// A read gives back the last value written to the same word; writes to other words
/// leave it alone. Addresses that differ by a multiple of the memory size name the same word.
pub proof fn law_read_after_write(mem: Seq<u64>, written: u32, value: u64, read: u32)
    requires
        mem.len() == MEMORY_WORDS,
    ensures
        mem.update(word_index(written as int), value)[word_index(read as int)] == if word_index(
            written as int,
        ) == word_index(read as int) {
            value
        } else {
            mem[word_index(read as int)]
        },
{
}

/// Addresses wrap at one million words.
pub proof fn law_address_wraps(addr: int)
    requires
        addr >= 0,
    ensures
        word_index(addr + MEMORY_WORDS) == word_index(addr),
        0 <= word_index(addr) < MEMORY_WORDS,
        addr < MEMORY_WORDS ==> word_index(addr) == addr,
        MEMORY_WORDS == 0x10_0000,
{
    vstd::arithmetic::div_mod::lemma_mod_add_multiples_vanish(addr, MEMORY_WORDS as int);
}

/// A program image packs each 8-byte group into one word, the first byte in bits 63:56
/// and the last in bits 7:0; bytes past the end of a short last group count as zero.
pub proof fn law_image_word_bytes(data: Seq<u8>, i: int)
    requires
        0 <= i,
    ensures
        ({
            let b = |t: int| if 8 * i + t < data.len() { data[8 * i + t] as int } else { 0 };
            image_word(data, i) == b(0) * 0x100_0000_0000_0000 + b(1) * 0x1_0000_0000_0000 + b(2)
                * 0x100_0000_0000 + b(3) * 0x1_0000_0000 + b(4) * 0x100_0000 + b(5) * 0x1_0000
                + b(6) * 0x100 + b(7)
        }),
{
    reveal_with_fuel(be_bytes, 9);
}

/// Parcel `idx` of a word is its 16-bit slice counted from the most significant end:
/// bits 63:48 for parcel 0 down to bits 15:0 for parcel 3.
pub proof fn law_parcel_slices(word: u64, idx: int)
    requires
        0 <= idx < 4,
    ensures
        parcel_of(word, idx) == ((word >> ((48 - 16 * idx) as u64)) & 0xFFFF) as u16,
{
    lemma_parcel_slices(word);
}

proof fn lemma_parcel_slices(word: u64)
    by (bit_vector)
    ensures
        (word >> 48u64) & 0xFFFF == (word / 0x1_0000_0000_0000) % 0x1_0000,
        (word >> 32u64) & 0xFFFF == (word / 0x1_0000_0000) % 0x1_0000,
        (word >> 16u64) & 0xFFFF == (word / 0x1_0000) % 0x1_0000,
        (word >> 0u64) & 0xFFFF == word % 0x1_0000,
{
}

/// Buffers that agree with memory hand out memory's parcels, and keep agreeing with it.
pub proof fn law_coherent_fetch(ib: IBufView, mem: Seq<u64>, p: u32)
    requires
        ib.well_formed(),
        coherent(ib, mem),
    ensures
        fetch_spec(ib, mem, p).1 == memory_parcel(mem, p as int),
        coherent(fetch_spec(ib, mem, p).0, mem),
{
    let w = p as int / 4;
    let idx = p as int % 4;
    let hit = first_holding(ib, w);
    if hit < 4 {
        let b = ib.buffers[hit];
        let q = (w - b.base) * 4 + idx;
        vstd::arithmetic::div_mod::lemma_fundamental_div_mod_converse(q, 4, w - b.base, idx);
        assert(b.parcels[q] == parcel_of(mem[word_index(b.base + q / 4)], q % 4));
    } else {
        let nb = filled_buffer(mem, w);
        let ib2 = fetch_spec(ib, mem, p).0;
        assert(nb.base as int == w);
        assert forall|n: int, q: int|
            0 <= n < 4 && 0 <= q < BUFFER_PARCELS && ib2.buffers[n].valid implies #[trigger] ib2.buffers[n].parcels[q]
            == parcel_of(mem[word_index(ib2.buffers[n].base + q / 4)], q % 4) by {
            if n != ib.next_fill {
                assert(ib2.buffers[n] == ib.buffers[n]);
            }
        }
    }
}

/// Fetching the same parcel again right away hits a buffer: nothing is refilled and the
/// same parcel comes back.
pub proof fn law_refetch_hits(ib: IBufView, mem: Seq<u64>, p: u32)
    requires
        ib.well_formed(),
    ensures
        fetch_spec(fetch_spec(ib, mem, p).0, mem, p) == (fetch_spec(ib, mem, p).0, fetch_spec(ib, mem, p).1),
{
    let w = p as int / 4;
    let ib2 = fetch_spec(ib, mem, p).0;
    if first_holding(ib, w) == 4 {
        let slot = ib.next_fill;
        assert(filled_buffer(mem, w).base as int == w);
        assert(buffer_holds(ib2.buffers[slot], w));
        assert(forall|n: int| 0 <= n < 4 && n != slot ==> ib2.buffers[n] == ib.buffers[n]);
        assert(first_holding(ib2, w) == slot);
    }
}

/// Negating twice gives back the word; negation changes the sign and nothing else.
pub proof fn law_negate_involution(fp: u64)
    ensures
        flip_sign(flip_sign(fp) as u64) == fp,
        sign_of(flip_sign(fp) as u64) == 1 - sign_of(fp),
        exponent_of(flip_sign(fp) as u64) == exponent_of(fp),
        coefficient_of(flip_sign(fp) as u64) == coefficient_of(fp),
{
}

/// Decoding a parcel gives back the opcode and register fields it was encoded with,
/// and the extended addresses continue them with the following parcel.
pub proof fn law_decode_encoded(opcode: u8, i: u8, j: u8, k: u8, p1: u16)
    requires
        opcode < 128,
        i < 8,
        j < 8,
        k < 8,
    ensures
        ({
            let d = decode_spec((opcode * 512 + i * 64 + j * 8 + k) as u16, p1);
            &&& d.opcode == opcode
            &&& d.i == i
            &&& d.j == j
            &&& d.k == k
            &&& d.jk == j * 8 + k
            &&& d.addr22 == (j * 8 + k) * 65536 + p1
            &&& d.addr25 == (i * 64 + j * 8 + k) * 65536 + p1
            &&& d.long == is_long_spec(opcode as int, i as int)
        }),
{
    let p0 = opcode * 512 + i * 64 + j * 8 + k;
    let (o, ii, jj, kk) = (opcode as int, i as int, j as int, k as int);
    lemma_fundamental_div_mod_converse(p0, 512, o, ii * 64 + jj * 8 + kk);
    lemma_fundamental_div_mod_converse(p0, 64, o * 8 + ii, jj * 8 + kk);
    lemma_fundamental_div_mod_converse(o * 8 + ii, 8, o, ii);
    lemma_fundamental_div_mod_converse(p0, 8, o * 64 + ii * 8 + jj, kk);
    lemma_fundamental_div_mod_converse(o * 64 + ii * 8 + jj, 8, o * 8 + ii, jj);
}

/// An instruction issues no earlier than the clock and than the cycle at which each of
/// its sources is ready, and the clock then stands one cycle past the issue.
pub proof fn law_issue_waits_for_sources(m: MachineView, d: Decoded, fp: Seq<u64>)
    requires
        timing_fits(m, d),
    ensures
        execute_spec(m, d, fp).0.cycle > m.cycle,
        execute_spec(m, d, fp).0.cycle > sources(m, d).0,
        execute_spec(m, d, fp).0.cycle > sources(m, d).1,
{
}

/// Only the store instructions (110-117, 130-137, 177) change memory.
pub proof fn law_only_stores_write(r: RegsView, mem: Seq<u64>, d: Decoded, fp: Seq<u64>)
    requires
        !(0o110 <= d.opcode <= 0o117 || 0o130 <= d.opcode <= 0o137 || d.opcode == 0o177),
    ensures
        effect(r, mem, d, fp).1 == mem,
{
}

/// A scalar load (120-127) from the word that a scalar store (130-137) has just written
/// gives back the stored value; an address register load (100-107) after an address
/// register store (110-117) gives back the stored 24-bit value.
pub proof fn law_store_then_load(r: RegsView, mem: Seq<u64>, st: Decoded, ld: Decoded, fp: Seq<u64>)
    requires
        r.well_sized(),
        r.in_range(),
        mem.len() == MEMORY_WORDS,
        fields_in_range(st),
        fields_in_range(ld),
        (0o130 <= st.opcode <= 0o137 && 0o120 <= ld.opcode <= 0o127) || (0o110 <= st.opcode
            <= 0o117 && 0o100 <= ld.opcode <= 0o107),
        memory_address(r, ld) == memory_address(r, st),
    ensures
        ({
            let after_store = effect(r, mem, st, fp);
            let after_load = effect(after_store.0, after_store.1, ld, fp).0;
            if st.opcode >= 0o130 {
                after_load.s[ld.i as int] == r.s[st.i as int]
            } else {
                after_load.a[ld.i as int] == r.a[st.i as int]
            }
        }),
{
    let w = word_index(memory_address(r, st));
    assert(0 <= w < MEMORY_WORDS);
    let ra = r.a[st.i as int];
    assert(ra < 0x100_0000);
    assert((ra as u64) as int % 0x100_0000 == ra as int);
}

/// A step whose instruction has no floating point work has exactly one outcome.
pub proof fn law_integer_step_determined(
    m: MachineView,
    ib: IBufView,
    fp: Seq<u64>,
    m2: MachineView,
    ib2: IBufView,
    r: Result<(), crate::cpu::Trap>,
)
    requires
        steps_to(m, ib, fp, m2, ib2, r),
        fp_count(advanced(m, fetch_decode_spec(m, ib).1).regs, fetch_decode_spec(m, ib).1) == 0,
    ensures
        (m2, ib2, r) == step_spec(m, ib, Seq::empty()),
{
    assert(fp =~= Seq::<u64>::empty());
}

/// An instruction other than an exit, jump or branch leaves P just past itself: one
/// parcel on for a one-parcel instruction, two for a two-parcel one, wrapping within
/// P's 24 bits.
pub proof fn law_sequential_flow(m: MachineView, ib: IBufView, fp: Seq<u64>)
    requires
        m.regs.in_range(),
        fetch_decode_spec(m, ib).1.opcode >= 0o020,
    ensures
        step_spec(m, ib, fp).0.regs.p == (m.regs.p + if fetch_decode_spec(m, ib).1.long {
            2int
        } else {
            1int
        }) % 0x100_0000,
{
    let d = fetch_decode_spec(m, ib).1;
    let m1 = advanced(m, d);
    assert(m1.regs.p == (m.regs.p + parcels_of(d)) % 0x100_0000);
    let r = m1.regs;
    let op = d.opcode as int;
    if op < 0o040 {
        assert(address_effect(r, d).0.p == r.p);
    } else if op < 0o100 {
        assert(scalar_effect(r, d, fp).0.p == r.p);
    } else if op < 0o140 {
        assert(memory_effect(r, m1.mem, d).0.p == r.p);
    } else {
        assert(vector_effect(r, m1.mem, d, fp).0.p == r.p);
    }
    assert(effect(r, m1.mem, d, fp).0.p == r.p);
}

/// Executing an instruction keeps every A and B register and P within 24 bits and VL
/// within 64.
pub proof fn law_execute_keeps_range(m: MachineView, d: Decoded, fp: Seq<u64>)
    requires
        m.well_sized(),
        m.regs.in_range(),
        fields_in_range(d),
    ensures
        execute_spec(m, d, fp).0.regs.in_range(),
        execute_spec(m, d, fp).0.well_sized(),
{
    let r = m.regs;
    let k = d.k as int;
    let stride = if k == 0 { 1 } else { r.a[k] as int };
    lemma_vector_store_len(m.mem, r.a[0] as int, stride, r.v[d.j as int], r.vl as nat);
    let r2 = execute_spec(m, d, fp).0.regs;
    assert forall|n: int| 0 <= n < 8 implies #[trigger] r2.a[n] < 0x100_0000 by {
        if n != d.i as int {
            assert(r2.a[n] == r.a[n]);
        }
    }
    assert forall|n: int| 0 <= n < 64 implies #[trigger] r2.b[n] < 0x100_0000 by {
        if n != 0 && n != d.j * 8 + d.k {
            assert(r2.b[n] == r.b[n]);
        }
    }
    assert forall|n: int| 0 <= n < 8 implies (#[trigger] r2.v[n]).len() == 64 by {
        if n != d.i as int {
            assert(r2.v[n] == r.v[n]);
        }
    }
}

proof fn lemma_vector_store_len(mem: Seq<u64>, base: int, stride: int, row: Seq<u64>, n: nat)
    requires
        mem.len() == MEMORY_WORDS,
    ensures
        vector_store(mem, base, stride, row, n).len() == MEMORY_WORDS,
    decreases n,
{
    if n > 0 {
        lemma_vector_store_len(mem, base, stride, row, (n - 1) as nat);
    }
}

/// Buffers that hold nothing (as `InstructionBuffers::new` makes them) agree with any memory.
pub proof fn law_empty_buffers_coherent(ib: IBufView, mem: Seq<u64>)
    requires
        forall|n: int| 0 <= n < 4 ==> !(#[trigger] ib.buffers[n]).valid,
    ensures
        coherent(ib, mem),
{
}

/// A step keeps every A and B register and P within 24 bits and VL within 64.
pub proof fn law_step_keeps_range(m: MachineView, ib: IBufView, fp: Seq<u64>)
    requires
        m.well_sized(),
        m.regs.in_range(),
    ensures
        step_spec(m, ib, fp).0.regs.in_range(),
        step_spec(m, ib, fp).0.well_sized(),
{
    let d = fetch_decode_spec(m, ib).1;
    assert(fields_in_range(d));
    law_execute_keeps_range(advanced(m, d), d, fp);
}

proof fn lemma_lead_shift_range(c: int)
    requires
        0 < c < 0x1_0000_0000_0000,
    ensures
        0x8000_0000_0000 <= c * pow2(lead_shift(c)) < 0x1_0000_0000_0000,
    decreases 0x1_0000_0000_0000 - c,
{
    lemma2_to64();
    if c < 0x8000_0000_0000 {
        let s = lead_shift(2 * c);
        assert(lead_shift(c) == 1 + s);
        lemma_lead_shift_range(2 * c);
        lemma_pow2_adds(1, s);
        assert(c * pow2(lead_shift(c)) == (2 * c) * pow2(s)) by (nonlinear_arith)
            requires
                lead_shift(c) == 1 + s,
                pow2(1 + s) == 2 * pow2(s);
    } else {
        assert(lead_shift(c) == 0);
        assert(c * pow2(0) == c);
    }
}

/// The fields of a word assembled from a sign, a 15-bit exponent and a 48-bit coefficient.
proof fn lemma_fp_word_fields(sign: int, exp: int, coeff: int)
    requires
        0 <= sign <= 1,
        0 <= exp < 0x8000,
        0 <= coeff < 0x1_0000_0000_0000,
    ensures
        0 <= fp_word(sign, exp, coeff) <= u64::MAX,
        sign_of(fp_word(sign, exp, coeff) as u64) == sign,
        exponent_of(fp_word(sign, exp, coeff) as u64) == exp,
        coefficient_of(fp_word(sign, exp, coeff) as u64) == coeff,
{
    let w = fp_word(sign, exp, coeff);
    lemma_fundamental_div_mod_converse(w, 0x1_0000_0000_0000, sign * 0x8000 + exp, coeff);
    lemma_fundamental_div_mod_converse(sign * 0x8000 + exp, 0x8000, sign, exp);
    lemma_fundamental_div_mod_converse(w, 0x8000_0000_0000_0000, sign, exp * 0x1_0000_0000_0000 + coeff);
}

proof fn lemma_fields_of_word(fp: u64)
    ensures
        fp as int == fp_word(sign_of(fp), exponent_of(fp), coefficient_of(fp)),
        0 <= sign_of(fp) <= 1,
        0 <= exponent_of(fp) < 0x8000,
        0 <= coefficient_of(fp) < 0x1_0000_0000_0000,
{
    let x = fp as int;
    let q = x / 0x1_0000_0000_0000;
    vstd::arithmetic::div_mod::lemma_fundamental_div_mod(x, 0x1_0000_0000_0000);
    vstd::arithmetic::div_mod::lemma_fundamental_div_mod(q, 0x8000);
    lemma_fundamental_div_mod_converse(x, 0x8000_0000_0000_0000, q / 0x8000, (q % 0x8000) * 0x1_0000_0000_0000 + x % 0x1_0000_0000_0000);
}

/// Normalizing yields a normalized word; a non-zero result keeps the sign, and its
/// coefficient is the original one doubled once for each step the exponent went down.
pub proof fn law_normalize_normalized(fp: u64)
    ensures
        0 <= normalize_spec(fp) <= u64::MAX,
        is_normalized(normalize_spec(fp) as u64),
        normalize_spec(fp) != 0 ==> {
            let r = normalize_spec(fp) as u64;
            &&& sign_of(r) == sign_of(fp)
            &&& exponent_of(r) <= exponent_of(fp)
            &&& coefficient_of(r) == coefficient_of(fp) * pow2((exponent_of(fp) - exponent_of(r)) as nat)
        },
{
    let c = coefficient_of(fp);
    lemma_fields_of_word(fp);
    if normalize_spec(fp) != 0 {
        let s = lead_shift(c);
        lemma_lead_shift_range(c);
        lemma_fp_word_fields(sign_of(fp), exponent_of(fp) - s, c * pow2(s));
    }
}

proof fn lemma_normalized_fixed(fp: u64)
    requires
        is_normalized(fp),
    ensures
        normalize_spec(fp) == fp,
{
    lemma_fields_of_word(fp);
    lemma2_to64();
    if fp != 0 {
        let c = coefficient_of(fp);
        assert(lead_shift(c) == 0);
        assert(c * pow2(0) == c);
    }
}

/// Normalizing a normalized word leaves it as it is, so normalizing twice is normalizing once.
pub proof fn law_normalize_idempotent(fp: u64)
    ensures
        is_normalized(fp) ==> normalize_spec(fp) == fp,
        normalize_spec(normalize_spec(fp) as u64) == normalize_spec(fp),
{
    if is_normalized(fp) {
        lemma_normalized_fixed(fp);
    }
    law_normalize_normalized(fp);
    lemma_normalized_fixed(normalize_spec(fp) as u64);
}

/// The vector mask test (175) sets bit n of VM, counted from the most significant end,
/// exactly for each element n below VL that passes the test selected by k, and clears
/// every other bit.
pub proof fn law_mask_test_bits(r: RegsView, mem: Seq<u64>, d: Decoded, fp: Seq<u64>, n: int)
    requires
        d.opcode == 0o175,
        r.vl <= 64,
        0 <= n < 64,
    ensures
        vm_bit(effect(r, mem, d, fp).0.vm, n) == (n < r.vl && mask_test(r.v[d.j as int][n], d.k as int)),
{
    lemma_mask_word_bits(r.v[d.j as int], r.vl as int, d.k as int);
}

/// The first `n` elements of a vector memory transfer from `base` with `stride` fall on
/// `n` different words.
pub open spec fn distinct_words(base: int, stride: int, n: int) -> bool {
    forall|a: int, b: int|
        #![trigger vector_address(base, stride, a), vector_address(base, stride, b)]
        0 <= a < b < n ==> word_index(vector_address(base, stride, a)) != word_index(
            vector_address(base, stride, b),
        )
}

proof fn lemma_vector_store_reads(mem: Seq<u64>, base: int, stride: int, row: Seq<u64>, cnt: nat, n: int)
    requires
        mem.len() == MEMORY_WORDS,
        0 <= n < cnt,
        distinct_words(base, stride, cnt as int),
    ensures
        vector_store(mem, base, stride, row, cnt)[word_index(vector_address(base, stride, n))] == row[n],
    decreases cnt,
{
    let last = cnt - 1;
    lemma_vector_store_len(mem, base, stride, row, last as nat);
    law_address_wraps(0);
    assert(0 <= word_index(vector_address(base, stride, n)) < MEMORY_WORDS);
    if n < last {
        lemma_vector_store_reads(mem, base, stride, row, last as nat, n);
    }
}

/// A vector load (176) from the words that a vector store (177) with the same base and
/// stride has just written gives back each stored element, provided the elements' word
/// addresses are all different.
pub proof fn law_vector_store_then_load(
    r: RegsView,
    mem: Seq<u64>,
    st: Decoded,
    ld: Decoded,
    fp: Seq<u64>,
    n: int,
)
    requires
        r.well_sized(),
        mem.len() == MEMORY_WORDS,
        st.opcode == 0o177,
        ld.opcode == 0o176,
        st.k == ld.k,
        fields_in_range(st),
        fields_in_range(ld),
        r.vl <= 64,
        0 <= n < r.vl,
        distinct_words(r.a[0] as int, if st.k == 0 { 1 } else { r.a[st.k as int] as int }, r.vl as int),
    ensures
        ({
            let after_store = effect(r, mem, st, fp);
            effect(after_store.0, after_store.1, ld, fp).0.v[ld.i as int][n] == r.v[st.j as int][n]
        }),
{
    let stride = if st.k == 0 { 1 } else { r.a[st.k as int] as int };
    lemma_vector_store_reads(mem, r.a[0] as int, stride, r.v[st.j as int], r.vl as nat, n);
}

/// While the instruction buffers agree with memory, a step decodes the instruction that
/// memory holds at P (its parcel and the next), and the buffers keep agreeing with memory.
pub proof fn law_step_decodes_memory(m: MachineView, ib: IBufView)
    requires
        ib.well_formed(),
        coherent(ib, m.mem),
        m.regs.p < 0x100_0000,
    ensures
        fetch_decode_spec(m, ib).1 == decode_spec(
            memory_parcel(m.mem, m.regs.p as int),
            memory_parcel(m.mem, (m.regs.p + 1) % 0x100_0000),
        ),
        coherent(fetch_decode_spec(m, ib).0, m.mem),
{
    let p = m.regs.p;
    assert(p as int % 0x100_0000 == p as int);
    law_coherent_fetch(ib, m.mem, p);
    let ib1 = fetch_spec(ib, m.mem, p).0;
    assert(ib1.well_formed());
    let q = ((p + 1) % 0x100_0000) as u32;
    law_coherent_fetch(ib1, m.mem, q);
}

/// An instruction that reads a register another instruction has just produced issues no
/// earlier than that producer's issue cycle plus the producing unit's latency: for A
/// results read by address arithmetic (030-032), and for S results read by scalar
/// logical, integer and floating point instructions (044-047, 060-067).
pub proof fn law_result_latency(m: MachineView, producer: Decoded, consumer: Decoded, fp: Seq<u64>)
    requires
        m.well_sized(),
        fields_in_range(producer),
        fields_in_range(consumer),
        timing_fits(m, producer),
    ensures
        ({
            let m2 = execute_spec(m, producer, fp).0;
            let issued = issue_cycle(m, producer);
            &&& a_latency(producer) matches Some(lat) ==> (lat > 0 && 0o030 <= consumer.opcode
                <= 0o032 && (consumer.j == producer.i || consumer.k == producer.i) ==> issue_cycle(
                m2,
                consumer,
            ) >= issued + lat)
            &&& s_latency(producer) matches Some((reg, lat)) ==> (lat > 0 && (0o044
                <= consumer.opcode <= 0o047 || 0o060 <= consumer.opcode <= 0o067) && (consumer.j
                == reg || consumer.k == reg) ==> issue_cycle(m2, consumer) >= issued + lat)
        }),
{
}

} // verus!
