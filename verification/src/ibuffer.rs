//! The four instruction buffers, each holding 64 parcels (16 words) copied from memory.
//!
//! Buffers are filled in rotation. A buffer keeps the parcels it copied until it is
//! refilled: stores to memory do not reach instructions that are already buffered.
use vstd::prelude::*;
use crate::memory::{Memory, word_index};

verus! {

/// Parcels held by one buffer.
pub const BUFFER_PARCELS: usize = 64;
/// Memory words held by one buffer.
pub const BUFFER_WORDS: usize = 16;

/// Parcel `idx` (0 to 3, most significant first) of a memory word.
pub open spec fn parcel_of(word: u64, idx: int) -> u16 {
    let shifted = if idx == 0 {
        word as int / 0x1_0000_0000_0000
    } else if idx == 1 {
        word as int / 0x1_0000_0000
    } else if idx == 2 {
        word as int / 0x1_0000
    } else {
        word as int
    };
    (shifted % 0x1_0000) as u16
}

/// The parcel that parcel address `p` selects in memory `mem`:
/// bits 23:2 of `p` give the word address, bits 1:0 the parcel within the word.
pub open spec fn memory_parcel(mem: Seq<u64>, p: int) -> u16 {
    parcel_of(mem[word_index(p / 4)], p % 4)
}

/// The abstract state of one buffer.
pub struct BufferView {
    pub parcels: Seq<u16>,
    /// Word address of parcel 0.
    pub base: u32,
    pub valid: bool,
}

/// The abstract state of the buffer set.
pub struct IBufView {
    pub buffers: Seq<BufferView>,
    /// The buffer that the next miss refills.
    pub next_fill: int,
}

impl IBufView {
    /// Four buffers of 64 parcels each, and a refill index naming one of them.
    pub open spec fn well_formed(self) -> bool {
        &&& self.buffers.len() == 4
        &&& 0 <= self.next_fill < 4
        &&& forall|n: int| 0 <= n < 4 ==> (#[trigger] self.buffers[n]).parcels.len() == BUFFER_PARCELS
    }
}

pub open spec fn buffer_holds(b: BufferView, word_addr: int) -> bool {
    b.valid && b.base <= word_addr < b.base + BUFFER_WORDS
}

/// The first buffer (in order 0 to 3) that holds `word_addr`, or 4 when none does.
pub open spec fn first_holding(ib: IBufView, word_addr: int) -> int {
    if buffer_holds(ib.buffers[0], word_addr) {
        0
    } else if buffer_holds(ib.buffers[1], word_addr) {
        1
    } else if buffer_holds(ib.buffers[2], word_addr) {
        2
    } else if buffer_holds(ib.buffers[3], word_addr) {
        3
    } else {
        4
    }
}

/// A buffer freshly filled from memory starting at word `base`.
pub open spec fn filled_buffer(mem: Seq<u64>, base: int) -> BufferView {
    BufferView {
        parcels: Seq::new(
            BUFFER_PARCELS as nat,
            |q: int| parcel_of(mem[word_index(base + q / 4)], q % 4),
        ),
        base: base as u32,
        valid: true,
    }
}

/// Fetching parcel address `p`: the first buffer that holds its word answers;
/// on a miss the next buffer in rotation is refilled from memory starting at that word.
pub open spec fn fetch_spec(ib: IBufView, mem: Seq<u64>, p: u32) -> (IBufView, u16) {
    let word_addr = p as int / 4;
    let idx = p as int % 4;
    let hit = first_holding(ib, word_addr);
    if hit < 4 {
        let b = ib.buffers[hit];
        (ib, b.parcels[(word_addr - b.base) * 4 + idx])
    } else {
        let b = filled_buffer(mem, word_addr);
        (
            IBufView {
                buffers: ib.buffers.update(ib.next_fill, b),
                next_fill: (ib.next_fill + 1) % 4,
            },
            b.parcels[idx],
        )
    }
}

/// Every valid buffer holds exactly the parcels that memory holds for its words.
pub open spec fn coherent(ib: IBufView, mem: Seq<u64>) -> bool {
    forall|n: int, q: int|
        0 <= n < 4 && 0 <= q < BUFFER_PARCELS && ib.buffers[n].valid ==> #[trigger] ib.buffers[n].parcels[q]
            == parcel_of(mem[word_index(ib.buffers[n].base + q / 4)], q % 4)
}

#[derive(Clone, Copy)]
struct Buffer {
    parcels: [u16; 64],
    // Word address of parcel 0 in this buffer.
    base: u32,
    valid: bool,
}

impl Buffer {
    spec fn view(&self) -> BufferView {
        BufferView { parcels: self.parcels@, base: self.base, valid: self.valid }
    }

    fn new() -> (b: Self)
        ensures
            b.view() == (BufferView { parcels: Seq::new(64, |q: int| 0u16), base: 0, valid: false }),
    {
        let b = Self { parcels: [0;64], base: 0, valid: false };
        assert(b.parcels@ =~= Seq::new(64, |q: int| 0u16));
        b
    }

    fn contains(&self, word_addr: u32) -> (r: bool)
        requires
            self.base < 0x4000_0000,
        ensures
            r == buffer_holds(self.view(), word_addr as int),
    {
        self.valid && word_addr >= self.base && word_addr < self.base + BUFFER_WORDS as u32
    }

    fn fetch(&self, word_addr: u32, parcel_idx: usize) -> (r: u16)
        requires
            buffer_holds(self.view(), word_addr as int),
            parcel_idx < 4,
        ensures
            r == self.parcels@[(word_addr - self.base) * 4 + parcel_idx],
    {
        let offset = ((word_addr - self.base) as usize) * 4 + parcel_idx;
        self.parcels[offset]
    }

    fn fill(&mut self, base: u32, mem: &Memory)
        requires
            base < 0x4000_0000,
        ensures
            final(self).view() == filled_buffer(mem@, base as int),
    {
        broadcast use crate::memory::Memory::lemma_view_len;
        self.base = base;
        self.valid = true;
        for w in 0..BUFFER_WORDS
            invariant
                self.base == base,
                self.valid,
                base < 0x4000_0000,
                forall|q: int|
                    0 <= q < 4 * w ==> #[trigger] self.parcels@[q] == filled_buffer(
                        mem@,
                        base as int,
                    ).parcels[q],
        {
            let word = mem.read(base + w as u32);
            for p in 0..4
                invariant
                    self.base == base,
                    self.valid,
                    base < 0x4000_0000,
                    w < BUFFER_WORDS,
                    word == mem@[word_index(base + w)],
                    forall|q: int|
                        0 <= q < 4 * w + p ==> #[trigger] self.parcels@[q] == filled_buffer(
                            mem@,
                            base as int,
                        ).parcels[q],
            {
                let shift: u64 = 48 - (p as u64) * 16;
                let parcel = ((word >> shift) & 0xFFFF) as u16;
                assert(parcel == parcel_of(word, p as int)) by {
                    lemma_word_parcels(word);
                    if p == 0 {
                        assert(shift == 48);
                    } else if p == 1 {
                        assert(shift == 32);
                    } else if p == 2 {
                        assert(shift == 16);
                    } else {
                        assert(shift == 0);
                    }
                }
                self.parcels[w * 4 + p] = parcel;
                assert(filled_buffer(mem@, base as int).parcels[(w * 4 + p) as int] == parcel_of(
                    mem@[word_index(base + w)],
                    p as int,
                )) by {
                    assert((w * 4 + p) as int / 4 == w);
                    assert((w * 4 + p) as int % 4 == p);
                }
            }
        }
        assert(self.parcels@ =~= filled_buffer(mem@, base as int).parcels);
    }
}

/// How the four parcels of a word are cut out of it.
proof fn lemma_word_parcels(word: u64)
    by (bit_vector)
    ensures
        ((word >> 48u64) & 0xFFFF) as u16 == (word / 0x1_0000_0000_0000) % 0x1_0000,
        ((word >> 32u64) & 0xFFFF) as u16 == (word / 0x1_0000_0000) % 0x1_0000,
        ((word >> 16u64) & 0xFFFF) as u16 == (word / 0x1_0000) % 0x1_0000,
        ((word >> 0u64) & 0xFFFF) as u16 == word % 0x1_0000,
{
}

// Four instruction buffers, filled in rotation (an approximation of least recently used).
#[derive(Clone, Copy)]
pub struct InstructionBuffers {
    buffers: [Buffer; 4],
    // Index of the buffer filled least recently (next to be evicted).
    next_fill: usize,
}

impl View for InstructionBuffers {
    type V = IBufView;

    closed spec fn view(&self) -> IBufView {
        IBufView {
            buffers: Seq::new(4, |n: int| self.buffers@[n].view()),
            next_fill: self.next_fill as int,
        }
    }
}

impl InstructionBuffers {
    /// The buffers' internal bookkeeping is consistent.
    pub closed spec fn wf(&self) -> bool {
        &&& self.next_fill < 4
        &&& forall|n: int| 0 <= n < 4 ==> #[trigger] self.buffers@[n].base < 0x4000_0000
    }

    /// A buffer set with consistent bookkeeping has the shape of `IBufView::well_formed`.
    pub proof fn lemma_wf_shape(ib: &Self)
        requires
            ib.wf(),
        ensures
            ib@.well_formed(),
    {
    }

    /// Four empty buffers; the first miss fills buffer 0.
    pub fn new() -> (ib: Self)
        ensures
            ib.wf(),
            ib@.well_formed(),
            ib@.next_fill == 0,
            forall|n: int| 0 <= n < 4 ==> !(#[trigger] ib@.buffers[n]).valid,
    {
        Self { buffers: [Buffer::new(), Buffer::new(), Buffer::new(), Buffer::new()], next_fill: 0 }
    }

    /// The buffer that the next miss refills.
    pub fn next_fill(&self) -> (n: usize)
        ensures
            n == self@.next_fill,
    {
        self.next_fill
    }

    /// Return the parcel at parcel-counter value `p`, filling a buffer from memory on a miss.
    pub fn fetch(&mut self, p: u32, mem: &Memory) -> (r: u16)
        requires
            old(self).wf(),
        ensures
            final(self).wf(),
            final(self)@.well_formed(),
            (final(self)@, r) == fetch_spec(old(self)@, mem@, p),
    {
        let word_addr = p >> 2;
        let parcel_idx = (p & 0x3) as usize;
        proof {
            lemma_split_parcel_address(p);
        }
        let mut n: usize = 0;
        while n < 4
            invariant
                self.wf(),
                n <= 4,
                word_addr == p as int / 4,
                parcel_idx == p as int % 4,
                forall|m: int| 0 <= m < n ==> !buffer_holds(#[trigger] self@.buffers[m], word_addr as int),
            decreases 4 - n,
        {
            if self.buffers[n].contains(word_addr) {
                assert(first_holding(self@, word_addr as int) == n);
                return self.buffers[n].fetch(word_addr, parcel_idx);
            }
            n += 1;
        }
        // Miss: fill the next buffer in rotation, starting at the current word.
        let slot = self.next_fill;
        let ghost before = self@;
        self.buffers[slot].fill(word_addr, mem);
        self.next_fill = (slot + 1) % 4;
        assert(self@.buffers =~= before.buffers.update(slot as int, filled_buffer(mem@, word_addr as int)));
        self.buffers[slot].fetch(word_addr, parcel_idx)
    }
}

proof fn lemma_split_parcel_address(p: u32)
    by (bit_vector)
    ensures
        p >> 2 == p / 4,
        p & 0x3 == p % 4,
        p / 4 < 0x4000_0000,
{
}

impl Default for InstructionBuffers {
    fn default() -> (ib: Self)
        ensures
            ib.wf(),
            ib@.well_formed(),
            ib@.next_fill == 0,
            forall|n: int| 0 <= n < 4 ==> !(#[trigger] ib@.buffers[n]).valid,
    {
        Self::new()
    }
}

} // verus!
