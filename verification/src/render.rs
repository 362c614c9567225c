//! Text renderings of the register file and of traps, as the emulator prints them.
use vstd::prelude::*;
use crate::cpu::{Registers, RegsView, Trap, VL_MAX};
use vstd::arithmetic::div_mod::{lemma_div_decreases, lemma_basic_div, lemma_small_mod};

verus! {

/// The character of digit `d` (0-15): `0`-`9`, then upper-case `A`-`F`.
pub open spec fn digit_char(d: int) -> char {
    if d < 10 {
        (48 + d) as char
    } else {
        (55 + d) as char
    }
}

/// `value` written in base `base` with at least `width` digits, padded with leading zeros.
pub open spec fn digits(value: nat, base: nat, width: nat) -> Seq<char>
    recommends
        2 <= base <= 16,
    decreases value + width,
{
    if base < 2 || (value < base && width <= 1) {
        seq![digit_char(value as int)]
    } else {
        proof {
            lemma_quotient_shrinks(value, base);
        }
        digits(value / base, base, if width > 0 { (width - 1) as nat } else { 0 }).push(
            digit_char((value % base) as int),
        )
    }
}

/// Dividing by a base of at least 2 shrinks a number, to zero below the base.
pub proof fn lemma_quotient_shrinks(value: nat, base: nat)
    requires
        2 <= base,
    ensures
        value / base <= value,
        value >= base ==> value / base < value,
        value < base ==> value / base == 0,
        value < base ==> value % base == value,
{
    if value > 0 {
        lemma_div_decreases(value as int, base as int);
    }
    if value < base {
        lemma_basic_div(value as int, base as int);
        lemma_small_mod(value, base);
    }
}

/// The one-character text of digit `d`.
fn digit_str(d: u64) -> (s: &'static str)
    requires
        d < 16,
    ensures
        s@ == seq![digit_char(d as int)],
{
    match d {
        0 => { proof { reveal_strlit("0"); } "0" },
        1 => { proof { reveal_strlit("1"); } "1" },
        2 => { proof { reveal_strlit("2"); } "2" },
        3 => { proof { reveal_strlit("3"); } "3" },
        4 => { proof { reveal_strlit("4"); } "4" },
        5 => { proof { reveal_strlit("5"); } "5" },
        6 => { proof { reveal_strlit("6"); } "6" },
        7 => { proof { reveal_strlit("7"); } "7" },
        8 => { proof { reveal_strlit("8"); } "8" },
        9 => { proof { reveal_strlit("9"); } "9" },
        10 => { proof { reveal_strlit("A"); } "A" },
        11 => { proof { reveal_strlit("B"); } "B" },
        12 => { proof { reveal_strlit("C"); } "C" },
        13 => { proof { reveal_strlit("D"); } "D" },
        14 => { proof { reveal_strlit("E"); } "E" },
        _ => { proof { reveal_strlit("F"); } "F" },
    }
}

/// Append `value` in base `base` with at least `width` digits.
fn push_digits(out: &mut String, value: u64, base: u64, width: usize)
    requires
        2 <= base <= 16,
    ensures
        final(out)@ == old(out)@ + digits(value as nat, base as nat, width as nat),
    decreases value + width,
{
    proof {
        lemma_quotient_shrinks(value as nat, base as nat);
    }
    let ghost start = out@;
    let ghost c = digit_char((value % base) as int);
    if value >= base || width > 1 {
        let rest = if width > 0 { width - 1 } else { 0 };
        push_digits(out, value / base, base, rest);
        let ghost before = out@;
        out.append(digit_str(value % base));
        proof {
            let higher = digits((value / base) as nat, base as nat, rest as nat);
            assert(out@ =~= start + higher.push(c));
        }
    } else {
        out.append(digit_str(value % base));
        assert(out@ =~= start + seq![c]);
    }
}

/// `vals` in upper-case hexadecimal, each value with at least `width` digits and preceded
/// by a space.
pub open spec fn hex_list(vals: Seq<u64>, width: nat) -> Seq<char>
    decreases vals.len(),
{
    if vals.len() == 0 {
        Seq::empty()
    } else {
        hex_list(vals.drop_last(), width) + " "@ + digits(vals.last() as nat, 16, width)
    }
}

/// Append elements `from` up to `to` of `vals` as `hex_list` writes them.
fn push_hex_list<const N: usize>(out: &mut String, vals: &[u64; N], from: usize, to: usize, width: usize)
    requires
        from <= to <= N,
    ensures
        final(out)@ == old(out)@ + hex_list(vals@.subrange(from as int, to as int), width as nat),
{
    let ghost start = out@;
    let mut n = from;
    while n < to
        invariant
            from <= n <= to <= N,
            vals@.len() == N,
            out@ == start + hex_list(vals@.subrange(from as int, n as int), width as nat),
        decreases to - n,
    {
        let ghost before = out@;
        out.append(" ");
        push_digits(out, vals[n], 16, width);
        proof {
            let done = vals@.subrange(from as int, n + 1);
            assert(done.drop_last() =~= vals@.subrange(from as int, n as int));
            assert(out@ =~= start + hex_list(done, width as nat));
        }
        n += 1;
    }
}

/// The lines for the first `n` vector registers: each register's number and its first
/// `vl` elements.
pub open spec fn vector_lines(v: Seq<Seq<u64>>, vl: int, n: nat) -> Seq<char>
    decreases n,
{
    if n == 0 {
        Seq::empty()
    } else {
        vector_lines(v, vl, (n - 1) as nat) + "   V"@ + digits((n - 1) as nat, 10, 0) + hex_list(
            v[n - 1].subrange(0, vl),
            16,
        ) + "\n"@
    }
}

/// The register file as the emulator prints it: address registers, scalar registers,
/// the first VL elements of each vector register, then VL, VM, P and the real-time clock.
pub open spec fn registers_text(r: RegsView) -> Seq<char> {
    let vl = r.vl as nat;
    "A "@ + hex_list(r.a.map_values(|x: u32| x as u64), 6) + "\n"@
        + "S "@ + hex_list(r.s.subrange(0, 4), 16) + "\n"@
        + "  "@ + hex_list(r.s.subrange(4, 8), 16) + "\n"@
        + "V  (V0-V7, "@ + digits(vl, 10, 0) + " element"@ + (if vl == 1 { Seq::empty() } else { "s"@ })
        + " each)\n"@
        + vector_lines(r.v, vl as int, 8)
        + "VL "@ + digits(vl, 16, 2) + "  VM "@ + digits(r.vm as nat, 16, 16)
        + "  P "@ + digits(r.p as nat, 16, 6) + "  RTC "@ + digits(r.rtc as nat, 16, 16) + "\n"@
}

impl Registers {
    /// The register file as text (see `registers_text`).
    pub fn to_string(&self) -> (text: String)
        requires
            self.vl <= VL_MAX,
        ensures
            text@ == registers_text(self@),
    {
        let ghost r = self@;
        let mut out = String::new();
        let a: [u64; 8] = [
            self.a[0] as u64, self.a[1] as u64, self.a[2] as u64, self.a[3] as u64,
            self.a[4] as u64, self.a[5] as u64, self.a[6] as u64, self.a[7] as u64,
        ];
        assert(a@.subrange(0, 8) =~= r.a.map_values(|x: u32| x as u64));
        assert(self.s@.subrange(0, 4) =~= r.s.subrange(0, 4));
        assert(self.s@.subrange(4, 8) =~= r.s.subrange(4, 8));
        out.append("A ");
        push_hex_list(&mut out, &a, 0, 8, 6);
        out.append("\n");
        out.append("S ");
        push_hex_list(&mut out, &self.s, 0, 4, 16);
        out.append("\n");
        out.append("  ");
        push_hex_list(&mut out, &self.s, 4, 8, 16);
        out.append("\n");
        out.append("V  (V0-V7, ");
        push_digits(&mut out, self.vl as u64, 10, 0);
        out.append(" element");
        if self.vl != 1 {
            out.append("s");
        }
        out.append(" each)\n");
        let ghost head = out@;
        assert(head =~= "A "@ + hex_list(r.a.map_values(|x: u32| x as u64), 6) + "\n"@
            + "S "@ + hex_list(r.s.subrange(0, 4), 16) + "\n"@
            + "  "@ + hex_list(r.s.subrange(4, 8), 16) + "\n"@
            + "V  (V0-V7, "@ + digits(self.vl as nat, 10, 0) + " element"@ + (if self.vl == 1 { Seq::empty() } else {
                "s"@
            }) + " each)\n"@);
        let vl = self.vl as usize;
        let mut i: usize = 0;
        while i < 8
            invariant
                i <= 8,
                vl == r.vl,
                vl <= 64,
                r == self@,
                out@ == head + vector_lines(r.v, vl as int, i as nat),
            decreases 8 - i,
        {
            let ghost before = out@;
            out.append("   V");
            push_digits(&mut out, i as u64, 10, 0);
            push_hex_list(&mut out, &self.v[i], 0, vl, 16);
            out.append("\n");
            assert(out@ =~= head + vector_lines(r.v, vl as int, (i + 1) as nat));
            i += 1;
        }
        out.append("VL ");
        push_digits(&mut out, self.vl as u64, 16, 2);
        out.append("  VM ");
        push_digits(&mut out, self.vm, 16, 16);
        out.append("  P ");
        push_digits(&mut out, self.p as u64, 16, 6);
        out.append("  RTC ");
        push_digits(&mut out, self.rtc, 16, 16);
        out.append("\n");
        assert(out@ =~= registers_text(r));
        out
    }
}

/// How the emulator reports a trap.
pub open spec fn trap_text(t: Trap) -> Seq<char> {
    match t {
        Trap::NormalExit => "normal exit"@,
        Trap::ErrorExit => "error exit"@,
        Trap::Unimplemented(op) => "unimplemented opcode "@ + digits(op as nat, 8, 3),
    }
}

impl Trap {
    /// The trap as text: the opcode of an unimplemented instruction in three octal digits.
    pub fn to_string(&self) -> (text: String)
        ensures
            text@ == trap_text(*self),
    {
        match self {
            Trap::NormalExit => String::from_str("normal exit"),
            Trap::ErrorExit => String::from_str("error exit"),
            Trap::Unimplemented(op) => {
                let mut out = String::from_str("unimplemented opcode ");
                push_digits(&mut out, *op as u64, 8, 3);
                out
            },
        }
    }
}

} // verus!
