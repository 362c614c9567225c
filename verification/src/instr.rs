//! Instruction decoding.
//!
//! A parcel is a 16-bit instruction slot; four fit in one 64-bit memory word.
//!
//! ```text
//!   15    12 11   9 8    6 5   3 2   0
//!   [  g:4  ][ h:3 ][ i:3 ][ j:3 ][ k:3 ]
//! ```
//!
//! The 7-bit opcode is g:h. i, j, k are 3-bit register indices; for shift and
//! mask instructions jk is a 6-bit count. Two-parcel instructions extend the
//! address with the next parcel: a 22-bit word address is jk followed by parcel 1,
//! a 25-bit parcel address is ijk followed by parcel 1.
use vstd::prelude::*;

verus! {

#[derive(Debug, Clone, Copy)]
pub struct Decoded {
    /// 7-bit opcode, g(4):h(3).
    pub opcode: u8,
    /// Result register index.
    pub i: u8,
    /// First operand register index.
    pub j: u8,
    /// Second operand register index.
    pub k: u8,
    /// 6-bit shift or mask count.
    pub jk: u8,
    /// 22-bit word address: jk followed by parcel 1.
    pub addr22: u32,
    /// 25-bit parcel address: ijk followed by parcel 1.
    pub addr25: u32,
    /// True when the instruction takes two parcels.
    pub long: bool,
}

/// Opcodes (with their i field) whose instruction takes a second parcel: jumps and
/// returns to an explicit parcel address, conditional branches, 22-bit constant
/// transmits to A (021) and S (040, 041) registers, and memory transfers with an
/// explicit word address. The vector length transmit 020 takes one parcel.
pub open spec fn is_long_spec(opcode: int, i: int) -> bool {
    ||| opcode == 0o06
    ||| opcode == 0o07
    ||| (opcode == 0o05 && i != 0)
    ||| (0o10 <= opcode <= 0o17)
    ||| opcode == 0o21
    ||| opcode == 0o40
    ||| opcode == 0o41
    ||| (0o100 <= opcode <= 0o137)
}

/// The fields of the instruction whose first parcel is `p0` and whose following parcel is `p1`.
pub open spec fn decode_spec(p0: u16, p1: u16) -> Decoded {
    let opcode = p0 as int / 512;
    let i = (p0 as int / 64) % 8;
    Decoded {
        opcode: opcode as u8,
        i: i as u8,
        j: ((p0 as int / 8) % 8) as u8,
        k: (p0 as int % 8) as u8,
        jk: (p0 as int % 64) as u8,
        addr22: ((p0 as int % 64) * 65536 + p1 as int) as u32,
        addr25: ((p0 as int % 512) * 65536 + p1 as int) as u32,
        long: is_long_spec(opcode, i),
    }
}

proof fn lemma_fields(p0: u16, p1: u16)
    by (bit_vector)
    ensures
        ((p0 >> 12) & 0xF) as u8 == p0 / 4096,
        ((p0 >> 9) & 0x7) as u8 == (p0 / 512) % 8,
        (((p0 >> 12) & 0xF) as u8) << 3u8 | (((p0 >> 9) & 0x7) as u8) == p0 / 512,
        ((p0 >> 6) & 0x7) as u8 == (p0 / 64) % 8,
        ((p0 >> 3) & 0x7) as u8 == (p0 / 8) % 8,
        (p0 & 0x7) as u8 == p0 % 8,
        (p0 & 0x3F) as u8 == p0 % 64,
        ((((p0 & 0x3F) as u8) as u32) << 16u32) | (p1 as u32) == (p0 % 64) as u32 * 65536 + p1 as u32,
        (((p0 & 0x1FF) as u32) << 16u32) | (p1 as u32) == (p0 % 512) as u32 * 65536 + p1 as u32,
{
}

/// Decode one instruction; `p1` is only meaningful when the opcode takes two parcels.
pub fn decode(p0: u16, p1: u16) -> (d: Decoded)
    ensures
        d == decode_spec(p0, p1),
{
    proof {
        lemma_fields(p0, p1);
    }
    let g = ((p0 >> 12) & 0xF) as u8;
    let h = ((p0 >> 9) & 0x7) as u8;
    let i = ((p0 >> 6) & 0x7) as u8;
    let j = ((p0 >> 3) & 0x7) as u8;
    let k = (p0 & 0x7) as u8;
    let jk = (p0 & 0x3F) as u8;

    let opcode = (g << 3) | h;
    let long = is_long(opcode, i);

    // Both extended addresses are always computed, so callers can use them
    // without a further branch, even for single-parcel instructions.
    let addr22 = ((jk as u32) << 16) | (p1 as u32);
    let addr25 = (((p0 & 0x1FF) as u32) << 16) | (p1 as u32);

    Decoded { opcode, i, j, k, jk, addr22, addr25, long }
}

/// True for opcodes that consume a second parcel.
fn is_long(opcode: u8, i: u8) -> (r: bool)
    ensures
        r == is_long_spec(opcode as int, i as int),
{
    match opcode {
        // Unconditional jump / return with explicit parcel address
        0o06 | 0o07 => true,
        // Jump to Bjk is one parcel (i = 0); jump to exp is two (i != 0)
        0o05 => i != 0,
        // Conditional branches on A0 and S0
        0o10..=0o17 => true,
        // 22-bit constant to an A register (020, VL = Ak, is one parcel)
        0o21 => true,
        // 22-bit constant to an S register
        0o40 | 0o41 => true,
        // Memory read/store with explicit word address
        0o100..=0o137 => true,
        _ => false,
    }
}

} // verus!
