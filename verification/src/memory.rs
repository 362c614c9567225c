//! Main memory: one million 64-bit words, word-addressed.
use vstd::prelude::*;
use vstd::arithmetic::power2::{pow2, lemma_pow2_adds, lemma2_to64, lemma_pow2_strictly_increases};
use vstd::bits::lemma_u64_shl_is_mul;

verus! {

/// Number of 64-bit words of main memory.
pub const MEMORY_WORDS: usize = 0x10_0000;

/// Number of interleaved memory banks.
pub const BANK_COUNT: usize = 16;

/// The word index that an address selects: addresses wrap at one million words.
pub open spec fn word_index(addr: int) -> int {
    addr % (MEMORY_WORDS as int)
}

/// Byte `pos` of `data`, or zero past its end.
pub open spec fn byte_or_zero(data: Seq<u8>, pos: int) -> int {
    if 0 <= pos < data.len() {
        data[pos] as int
    } else {
        0
    }
}

/// The big-endian number formed by the `n` bytes of `data` that start at `start`
/// (bytes past the end of `data` count as zero).
pub open spec fn be_bytes(data: Seq<u8>, start: int, n: nat) -> int
    decreases n,
{
    if n == 0 {
        0
    } else {
        be_bytes(data, start, (n - 1) as nat) * 256 + byte_or_zero(data, start + n - 1)
    }
}

/// The word that the `i`-th 8-byte group of a program image packs into:
/// the first byte of the group lands in bits 63:56, a short last group is zero-padded.
pub open spec fn image_word(data: Seq<u8>, i: int) -> int {
    be_bytes(data, 8 * i, 8)
}

/// Number of words that a program image of `len` bytes occupies.
pub open spec fn image_words(len: int) -> int {
    (len + 7) / 8
}

pub struct Memory {
    words: Vec<u64>,
}

impl Memory {
    #[verifier::type_invariant]
    spec fn inv(&self) -> bool {
        self.words.len() == MEMORY_WORDS
    }
}

impl View for Memory {
    type V = Seq<u64>;

    /// The memory contents, always exactly `MEMORY_WORDS` words long.
    closed spec fn view(&self) -> Seq<u64> {
        Seq::new(MEMORY_WORDS as nat, |i: int| self.words@[i])
    }
}

impl Memory {
    /// Memory always holds `MEMORY_WORDS` words.
    pub broadcast proof fn lemma_view_len(m: &Memory)
        ensures
            #[trigger] m@.len() == MEMORY_WORDS,
    {
    }

    /// All-zero memory.
    pub fn new() -> (m: Self)
        ensures
            m@ == Seq::new(MEMORY_WORDS as nat, |i: int| 0u64),
    {
        let words = vec![0u64; MEMORY_WORDS];
        let m = Memory { words };
        assert(m@ =~= Seq::new(MEMORY_WORDS as nat, |i: int| 0u64));
        m
    }

    /// The word at `addr`, taken modulo the memory size.
    pub fn read(&self, addr: u32) -> (r: u64)
        ensures
            r == self@[word_index(addr as int)],
    {
        proof {
            use_type_invariant(self);
        }
        let idx = (addr as usize) & (MEMORY_WORDS - 1);
        assert(idx == addr % 0x10_0000) by (bit_vector)
            requires idx == (addr as usize) & 0xF_FFFFusize;
        self.words[idx]
    }

    /// Store `value` at `addr`, taken modulo the memory size.
    pub fn write(&mut self, addr: u32, value: u64)
        ensures
            final(self)@ == old(self)@.update(word_index(addr as int), value),
        no_unwind
    {
        proof {
            use_type_invariant(&*self);
        }
        let idx = (addr as usize) & (MEMORY_WORDS - 1);
        assert(idx == addr % 0x10_0000) by (bit_vector)
            requires idx == (addr as usize) & 0xF_FFFFusize;
        self.words[idx] = value;
        assert(self@ =~= old(self)@.update(word_index(addr as int), value));
    }

    /// Load a flat big-endian binary image into memory starting at word 0.
    pub fn load_program(&mut self, data: &[u8])
        requires
            data@.len() <= 8 * MEMORY_WORDS,
        ensures
            forall|i: int|
                0 <= i < image_words(data@.len() as int) ==> final(self)@[i] as int == image_word(
                    data@,
                    i,
                ),
            forall|i: int|
                image_words(data@.len() as int) <= i < MEMORY_WORDS ==> #[trigger] final(self)@[i]
                    == old(self)@[i],
    {
        let len = data.len();
        let n_words = (len + 7) / 8;
        let mut i: usize = 0;
        while i < n_words
            invariant
                len == data@.len(),
                len <= 8 * MEMORY_WORDS,
                n_words == image_words(len as int),
                0 <= i <= n_words,
                forall|w: int| 0 <= w < i ==> self@[w] as int == image_word(data@, w),
                forall|w: int| i <= w < MEMORY_WORDS ==> #[trigger] self@[w] == old(self)@[w],
            decreases n_words - i,
        {
            let start = i * 8;
            let word = pack_word(data, start);
            self.write(i as u32, word);
            i += 1;
        }
    }
}

/// Packs up to eight bytes of `data`, starting at `start`, into a big-endian word.
fn pack_word(data: &[u8], start: usize) -> (word: u64)
    requires
        start < data@.len(),
        data@.len() <= 8 * MEMORY_WORDS,
    ensures
        word as int == be_bytes(data@, start as int, 8),
{
    let mut word: u64 = 0;
    let mut b: usize = 0;
    while b < 8 && start + b < data.len()
        invariant
            start < data@.len(),
            data@.len() <= 8 * MEMORY_WORDS,
            b <= 8,
            word as int == be_bytes(data@, start as int, b as nat) * pow2((64 - 8 * b) as nat),
            b == 0 ==> word == 0,
            b > 0 ==> word & low_mask_above(b as u64) == 0,
        decreases 8 - b,
    {
        let byte = data[start + b];
        let shift = (56 - b * 8) as u64;
        proof {
            lemma_pack_step(word, byte, b as u64);
            lemma_pow2_adds(8, shift as nat);
            lemma2_to64();
            vstd::arithmetic::power2::lemma_pow2_pos(shift as nat);
            if 8 + shift < 64 {
                lemma_pow2_strictly_increases((8 + shift) as nat, 64);
            }
            assert(byte * pow2(shift as nat) < 256 * pow2(shift as nat)) by (nonlinear_arith)
                requires byte < 256, pow2(shift as nat) > 0;
            assert(pow2((8 + shift) as nat) <= 0x1_0000_0000_0000_0000);
            lemma_u64_shl_is_mul(byte as u64, shift);
            assert(word as int == be_bytes(data@, start as int, b as nat) * (256 * pow2(shift as nat))) by {
                assert(pow2((64 - 8 * b) as nat) == pow2(8 + shift as nat));
            }
            assert(word as int == be_bytes(data@, start as int, b as nat) * 256 * pow2(shift as nat))
                by (nonlinear_arith)
                requires word as int == be_bytes(data@, start as int, b as nat) * (256 * pow2(shift as nat));
        }
        word = word | ((byte as u64) << shift);
        proof {
            assert(be_bytes(data@, start as int, (b + 1) as nat) == be_bytes(data@, start as int, b as nat) * 256 + byte);
            assert(word as int == be_bytes(data@, start as int, (b + 1) as nat) * pow2(shift as nat))
                by (nonlinear_arith)
                requires
                    word as int == be_bytes(data@, start as int, b as nat) * 256 * pow2(shift as nat) + byte * pow2(shift as nat),
                    be_bytes(data@, start as int, (b + 1) as nat) == be_bytes(data@, start as int, b as nat) * 256 + byte;
        }
        b += 1;
    }
    proof {
        lemma_be_bytes_zero_tail(data@, start as int, b as nat);
    }
    word
}

/// Mask of the low `64 - 8 * b` bits of a word.
spec fn low_mask_above(b: u64) -> u64 {
    0xFFFF_FFFF_FFFF_FFFFu64 >> ((8 * b) as u64)
}

proof fn lemma_pack_step(w: u64, x: u8, b: u64)
    by (bit_vector)
    requires
        b < 8,
        b == 0 ==> w == 0,
        b > 0 ==> w & (0xFFFF_FFFF_FFFF_FFFFu64 >> ((8 * b) as u64)) == 0,
    ensures
        w | ((x as u64) << ((56 - 8 * b) as u64)) == w + ((x as u64) << ((56 - 8 * b) as u64)),
        (w | ((x as u64) << ((56 - 8 * b) as u64))) & (0xFFFF_FFFF_FFFF_FFFFu64 >> ((8 * (b + 1)) as u64)) == 0,
{
}

/// Past the end of the data, further bytes shift the packed value up by one byte each.
proof fn lemma_be_bytes_zero_tail(data: Seq<u8>, start: int, b: nat)
    requires
        b <= 8,
        b == 8 || start + b >= data.len(),
        start >= 0,
    ensures
        be_bytes(data, start, 8) == be_bytes(data, start, b) * pow2((64 - 8 * b) as nat),
    decreases 8 - b,
{
    if b == 8 {
        lemma2_to64();
        assert(be_bytes(data, start, b) * pow2(0) == be_bytes(data, start, b));
    } else {
        lemma_be_bytes_zero_tail(data, start, b + 1);
        assert(byte_or_zero(data, start + b) == 0);
        assert(be_bytes(data, start, b + 1) == be_bytes(data, start, b) * 256);
        lemma_pow2_adds(8, (64 - 8 * (b + 1)) as nat);
        lemma2_to64();
        assert(8 + (64 - 8 * (b + 1)) == 64 - 8 * b);
        assert(pow2((64 - 8 * b) as nat) == 256 * pow2((64 - 8 * (b + 1)) as nat));
        assert(be_bytes(data, start, 8) == be_bytes(data, start, b) * 256 * pow2((64 - 8 * (b + 1)) as nat));
        assert(be_bytes(data, start, b) * 256 * pow2((64 - 8 * (b + 1)) as nat) == be_bytes(data, start, b) * (256 * pow2((64 - 8 * (b + 1)) as nat))) by (nonlinear_arith);
    }
}

impl Default for Memory {
    fn default() -> (m: Self)
        ensures
            m@ == Seq::new(MEMORY_WORDS as nat, |i: int| 0u64),
    {
        Memory::new()
    }
}

} // verus!
