use crayon::cpu::{Cpu, FpOp, Registers, Trap};
use crayon::memory::Memory;
use crayon::fp::{from_ieee_bits, negate, normalize, to_ieee_bits};

// Host floating point for the CPU: Cray-1 words go through f64.

fn to_f64(fp: u64) -> f64 {
    f64::from_bits(to_ieee_bits(fp))
}

fn from_f64(f: f64) -> u64 {
    from_ieee_bits(f.to_bits())
}

// The conversions written directly on f64, to hold the library's bit-level ones against.

fn reference_to_f64(fp: u64) -> f64 {
    let fp = normalize(fp);
    let sign = fp >> 63;
    let cray_exp = (fp >> 48) & 0x7FFF;
    let coeff = fp & 0x0000_FFFF_FFFF_FFFF;
    if cray_exp == 0 || coeff == 0 {
        return if sign != 0 { -0.0 } else { 0.0 };
    }
    let f64_exp = cray_exp as i64 - 15362;
    if f64_exp <= 0 || f64_exp >= 0x7FF {
        return if sign != 0 { -0.0 } else { 0.0 };
    }
    let f64_frac = (coeff & ((1u64 << 47) - 1)) << 5;
    f64::from_bits((sign << 63) | ((f64_exp as u64) << 52) | f64_frac)
}

fn reference_from_f64(f: f64) -> u64 {
    if f == 0.0 || f.is_nan() {
        return 0;
    }
    if f.is_infinite() {
        let sign: u64 = if f < 0.0 { 1 } else { 0 };
        return (sign << 63) | (0x7FFF_u64 << 48) | 0x0000_FFFF_FFFF_FFFF;
    }
    let bits = f.to_bits();
    let sign = bits >> 63;
    let f64_exp = (bits >> 52) & 0x7FF;
    let f64_frac = bits & 0x000F_FFFF_FFFF_FFFF;
    if f64_exp == 0 {
        return 0;
    }
    let cray_exp = f64_exp as i64 + 15362;
    if cray_exp <= 0 {
        return 0;
    }
    if cray_exp > 0x7FFF {
        return (sign << 63) | (0x7FFF_u64 << 48) | 0x0000_FFFF_FFFF_FFFF;
    }
    let coeff = (1u64 << 47) | (f64_frac >> 5);
    (sign << 63) | ((cray_exp as u64) << 48) | coeff
}

fn host_float(op: FpOp, x: u64, y: u64) -> u64 {
    match op {
        FpOp::Add => from_f64(to_f64(x) + to_f64(y)),
        FpOp::Sub => from_f64(to_f64(x) - to_f64(y)),
        FpOp::Mul => from_f64(to_f64(x) * to_f64(y)),
        FpOp::DoubleMul => from_f64(2.0 * to_f64(x) * to_f64(y)),
        FpOp::Reciprocal => from_f64(to_f64(x).recip()),
        FpOp::FromInteger => from_f64(x as f64),
    }
}

#[test]
fn write_a_masks_to_24_bits() {
    let mut regs = Registers::new();
    regs.write_a(0, 0xFF_ABCD_EF);
    assert_eq!(regs.a[0], 0x00_ABCD_EF);
}

#[test]
fn write_b_masks_to_24_bits() {
    let mut regs = Registers::new();
    regs.write_b(0, 0xFF_123456);
    assert_eq!(regs.b[0], 0x00_123456);
}

#[test]
fn write_vl_caps_at_64() {
    let mut regs = Registers::new();
    regs.write_vl(200);
    assert_eq!(regs.vl, 64);
}

// Encode a 16-bit parcel from octal opcode and register fields.
fn parcel(opcode: u8, i: u8, j: u8, k: u8) -> [u8; 2] {
    let g = opcode >> 3;
    let h = opcode & 0x7;
    let word = ((g as u16) << 12) | ((h as u16) << 9)
             | ((i as u16) << 6) | ((j as u16) << 3) | (k as u16);
    word.to_be_bytes()
}

// Encode a parcel where j:k form a 6-bit constant (shift/mask/small-constant instructions).
fn parcel_jk(opcode: u8, i: u8, jk: u8) -> [u8; 2] {
    parcel(opcode, i, (jk >> 3) & 0x7, jk & 0x7)
}

fn cpu_with_program(bytes: &[u8]) -> Cpu {
    let mut mem = Memory::new();
    mem.load_program(bytes);
    Cpu::new(mem)
}

#[test]
fn addr_transmit_constant() {
    let [b0, b1] = parcel_jk(0o22, 1, 5); // A1 = 5
    let [e0, e1] = parcel(0o04, 0, 0, 0);
    let mut cpu = cpu_with_program(&[b0, b1, e0, e1, 0, 0, 0, 0]);
    cpu.step(&host_float).unwrap();
    assert_eq!(cpu.regs.a[1], 5);
}

#[test]
fn addr_add() {
    let [a0, a1] = parcel_jk(0o22, 1, 3); // A1 = 3
    let [b0, b1] = parcel_jk(0o22, 2, 5); // A2 = 5
    let [c0, c1] = parcel(0o30, 3, 1, 2); // A3 = A1 + A2
    let [e0, e1] = parcel(0o04, 0, 0, 0);
    let mut cpu = cpu_with_program(&[a0, a1, b0, b1, c0, c1, e0, e1]);
    for _ in 0..3 { cpu.step(&host_float).unwrap(); }
    assert_eq!(cpu.regs.a[3], 8);
}

#[test]
fn addr_sub() {
    let [a0, a1] = parcel_jk(0o22, 1, 10); // A1 = 10
    let [b0, b1] = parcel_jk(0o22, 2, 3);  // A2 = 3
    let [c0, c1] = parcel(0o31, 3, 1, 2);  // A3 = A1 - A2
    let [e0, e1] = parcel(0o04, 0, 0, 0);
    let mut cpu = cpu_with_program(&[a0, a1, b0, b1, c0, c1, e0, e1]);
    for _ in 0..3 { cpu.step(&host_float).unwrap(); }
    assert_eq!(cpu.regs.a[3], 7);
}

#[test]
fn step_normal_exit() {
    // opcode 004xxx = normal exit: g=0(0000b), h=4(100b) -> 0000_100_xxx = 0x0800...
    // wait: g bits 15:12, h bits 11:9. g=0,h=4 -> 0x0800?
    // 0o004 = 4: g=0(top4), h=4(bot3) -> bits11:9=100 -> 0x0800
    let mut mem = Memory::new();
    mem.write(0, 0x0800_0000_0000_0000);
    let mut cpu = Cpu::new(mem);
    assert_eq!(cpu.step(&host_float), Err(Trap::NormalExit));
}

#[test]
fn step_advances_p() {
    // normal exit is 16-bit, so P advances by 1
    let mut mem = Memory::new();
    mem.write(0, 0x0800_0000_0000_0000);
    let mut cpu = Cpu::new(mem);
    let _ = cpu.step(&host_float);
    assert_eq!(cpu.regs.p, 1);
}

#[test]
fn scalar_add() {
    // S1 = 10, S2 = 32; S3 = S1 + S2 = 42
    let [a0, a1] = parcel_jk(0o22, 1, 10); // A1 = 10
    let [b0, b1] = parcel(0o071, 1, 0, 1); // S1 = A1 (zero-extend)
    let [c0, c1] = parcel_jk(0o22, 2, 32); // A2 = 32
    let [d0, d1] = parcel(0o071, 2, 0, 2); // S2 = A2
    let [e0, e1] = parcel(0o060, 3, 1, 2); // S3 = S1 + S2
    let [x0, x1] = parcel(0o04, 0, 0, 0);
    let mut cpu = cpu_with_program(&[a0, a1, b0, b1, c0, c1, d0, d1, e0, e1, x0, x1, 0, 0, 0, 0]);
    for _ in 0..5 { cpu.step(&host_float).unwrap(); }
    assert_eq!(cpu.regs.s[3], 42);
}

#[test]
fn scalar_sub() {
    let [a0, a1] = parcel_jk(0o22, 1, 20); // A1 = 20
    let [b0, b1] = parcel(0o071, 1, 0, 1); // S1 = A1
    let [c0, c1] = parcel_jk(0o22, 2, 7);  // A2 = 7
    let [d0, d1] = parcel(0o071, 2, 0, 2); // S2 = A2
    let [e0, e1] = parcel(0o061, 3, 1, 2); // S3 = S1 - S2
    let [x0, x1] = parcel(0o04, 0, 0, 0);
    let mut cpu = cpu_with_program(&[a0, a1, b0, b1, c0, c1, d0, d1, e0, e1, x0, x1, 0, 0, 0, 0]);
    for _ in 0..5 { cpu.step(&host_float).unwrap(); }
    assert_eq!(cpu.regs.s[3], 13);
}

#[test]
fn scalar_and() {
    // S1 = 0xFF, S2 = 0x0F; S3 = S1 & S2 = 0x0F
    let [a0, a1] = parcel_jk(0o22, 1, 0o77); // A1 = 63 (0x3F max in 6 bits)
    let [b0, b1] = parcel(0o071, 1, 0, 1);
    let [c0, c1] = parcel_jk(0o22, 2, 0o17); // A2 = 15
    let [d0, d1] = parcel(0o071, 2, 0, 2);
    let [e0, e1] = parcel(0o044, 3, 1, 2);   // S3 = S1 & S2
    let [x0, x1] = parcel(0o04, 0, 0, 0);
    let mut cpu = cpu_with_program(&[a0, a1, b0, b1, c0, c1, d0, d1, e0, e1, x0, x1, 0, 0, 0, 0]);
    for _ in 0..5 { cpu.step(&host_float).unwrap(); }
    assert_eq!(cpu.regs.s[3], 0x3F & 0x0F);
}

#[test]
fn scalar_xor() {
    let [a0, a1] = parcel_jk(0o22, 1, 0o77); // A1 = 63
    let [b0, b1] = parcel(0o071, 1, 0, 1);
    let [c0, c1] = parcel_jk(0o22, 2, 0o17); // A2 = 15
    let [d0, d1] = parcel(0o071, 2, 0, 2);
    let [e0, e1] = parcel(0o046, 3, 1, 2);   // S3 = S1 ^ S2
    let [x0, x1] = parcel(0o04, 0, 0, 0);
    let mut cpu = cpu_with_program(&[a0, a1, b0, b1, c0, c1, d0, d1, e0, e1, x0, x1, 0, 0, 0, 0]);
    for _ in 0..5 { cpu.step(&host_float).unwrap(); }
    assert_eq!(cpu.regs.s[3], 0x3F ^ 0x0F);
}

#[test]
fn scalar_shift_left() {
    // S1 = 1; S0 = S1 << 4 = 16 (opcode 052: S0 = Si << jk)
    let [a0, a1] = parcel_jk(0o22, 1, 1); // A1 = 1
    let [b0, b1] = parcel(0o071, 1, 0, 1); // S1 = A1
    let [c0, c1] = parcel_jk(0o052, 1, 4); // S0 = S1 << 4
    let [x0, x1] = parcel(0o04, 0, 0, 0);
    let mut cpu = cpu_with_program(&[a0, a1, b0, b1, c0, c1, x0, x1]);
    for _ in 0..3 { cpu.step(&host_float).unwrap(); }
    assert_eq!(cpu.regs.s[0], 16);
}

#[test]
fn scalar_zero() {
    // Si = 0 (opcode 043)
    let [a0, a1] = parcel_jk(0o22, 1, 63); // A1 = 63
    let [b0, b1] = parcel(0o071, 1, 0, 1); // S1 = A1
    let [c0, c1] = parcel(0o043, 1, 0, 0); // S1 = 0
    let [x0, x1] = parcel(0o04, 0, 0, 0);
    let mut cpu = cpu_with_program(&[a0, a1, b0, b1, c0, c1, x0, x1]);
    for _ in 0..3 { cpu.step(&host_float).unwrap(); }
    assert_eq!(cpu.regs.s[1], 0);
}

// Encode the second parcel of a long instruction (a bare 16-bit value).
fn p1(val: u16) -> [u8; 2] { val.to_be_bytes() }

// Encode a 32-bit memory instruction: first parcel (opcode, i, addr22 upper 6 bits)
// followed immediately by the second parcel (addr22 lower 16 bits).
// For word addresses < 65536 the upper 6 bits (jk) are zero.
fn mem_instr(opcode: u8, i: u8, word_addr: u32) -> [u8; 4] {
    let jk = ((word_addr >> 16) & 0x3F) as u8;
    let [p0, p1_lo] = parcel(opcode, i, (jk >> 3) & 0x7, jk & 0x7);
    let [p1_hi, p1_lo2] = (word_addr as u16).to_be_bytes();
    [p0, p1_lo, p1_hi, p1_lo2]
}

#[test]
fn mem_load_s_from_word_addr() {
    // Write a known value to word 10, then load it into S1 via 0o120 (load S, Ah=A0=0).
    // Program: S1 = mem[0 + 10]
    let [l0, l1, l2, l3] = mem_instr(0o120, 1, 10); // Si = mem[A0 + 10]
    let [ex0, ex1] = parcel(0o04, 0, 0, 0);
    let mut cpu = cpu_with_program(&[l0, l1, l2, l3, ex0, ex1, 0, 0]);
    cpu.mem.write(10, 0xCAFE_0000_1234_5678);
    cpu.step(&host_float).unwrap(); // load S1 = mem[10]
    assert_eq!(cpu.regs.s[1], 0xCAFE_0000_1234_5678);
}

#[test]
fn mem_store_s_then_load() {
    // S2 = 0x1234; store to word 20; load back into S3.
    let [s0, s1, s2, s3] = mem_instr(0o130, 2, 20); // mem[20] = S2
    let [l0, l1, l2, l3] = mem_instr(0o120, 3, 20); // S3 = mem[20]
    let [ex0, ex1] = parcel(0o04, 0, 0, 0);
    let mut cpu = cpu_with_program(&[s0, s1, s2, s3, l0, l1, l2, l3, ex0, ex1, 0, 0, 0, 0, 0, 0]);
    cpu.regs.s[2] = 0x1234;
    cpu.step(&host_float).unwrap(); // store
    cpu.step(&host_float).unwrap(); // load
    assert_eq!(cpu.regs.s[3], 0x1234);
}

#[test]
fn mem_load_a_lower_24_bits() {
    // mem[5] = 0xFFFF_FFFF_00AB_CDEF; load into A1 -> masked to 24 bits = 0xABCDEF
    let [l0, l1, l2, l3] = mem_instr(0o100, 1, 5); // Ai = mem[A0 + 5] (lower 24 bits)
    let [ex0, ex1] = parcel(0o04, 0, 0, 0);
    let mut cpu = cpu_with_program(&[l0, l1, l2, l3, ex0, ex1, 0, 0]);
    cpu.mem.write(5, 0xFFFF_FFFF_00AB_CDEF);
    cpu.step(&host_float).unwrap();
    assert_eq!(cpu.regs.a[1], 0x00AB_CDEF);
}

#[test]
fn mem_store_a_then_reload() {
    // A1 = 42; store to word 30; load back into A2.
    let [s0, s1, s2, s3] = mem_instr(0o110, 1, 30); // mem[30] = A1
    let [l0, l1, l2, l3] = mem_instr(0o100, 2, 30); // A2 = mem[30]
    let [ex0, ex1] = parcel(0o04, 0, 0, 0);
    let mut cpu = cpu_with_program(&[s0, s1, s2, s3, l0, l1, l2, l3, ex0, ex1, 0, 0, 0, 0, 0, 0]);
    cpu.regs.a[1] = 42;
    cpu.step(&host_float).unwrap(); // store
    cpu.step(&host_float).unwrap(); // load
    assert_eq!(cpu.regs.a[2], 42);
}

#[test]
fn mem_indexed_load() {
    // Use A1 as base (=100), load S3 from mem[A1 + 5] = mem[105].
    // opcode 0o121 = load S with Ah=A1.
    let [l0, l1, l2, l3] = mem_instr(0o121, 3, 5); // S3 = mem[A1 + 5]
    let [ex0, ex1] = parcel(0o04, 0, 0, 0);
    let mut cpu = cpu_with_program(&[l0, l1, l2, l3, ex0, ex1, 0, 0]);
    cpu.regs.a[1] = 100;
    cpu.mem.write(105, 0xDEAD_BEEF);
    cpu.step(&host_float).unwrap();
    assert_eq!(cpu.regs.s[3], 0xDEAD_BEEF);
}

#[test]
fn branch_unconditional() {
    // J exp (0o006): jump from P=0 over error at P=2 to normal exit at P=4.
    // Layout: [J_p0][J_p1=4][err][exit]
    let [j0, j1] = parcel(0o06, 0, 0, 0); // J (first parcel, addr25 upper 9 bits = 0)
    let [t0, t1] = p1(4);                   // second parcel: target = parcel 4
    let [er0, er1] = parcel(0o00, 0, 0, 0); // error exit at P=2 — must NOT run
    let [pad0, pad1] = [0u8, 0u8];          // unused parcel 3
    let [ex0, ex1] = parcel(0o04, 0, 0, 0); // normal exit at P=4
    let prog = [j0, j1, t0, t1, er0, er1, pad0, pad1, ex0, ex1, 0, 0, 0, 0, 0, 0];
    let mut cpu = cpu_with_program(&prog);
    cpu.step(&host_float).unwrap();  // J: should set P=4, not 2
    assert_eq!(cpu.regs.p, 4);
    assert_eq!(cpu.step(&host_float), Err(Trap::NormalExit));
}

#[test]
fn branch_jaz_taken() {
    // A0 = 0; JAZ jumps to parcel 4 (normal exit), skipping error at parcel 3.
    let [a0, a1] = parcel_jk(0o22, 0, 0); // A0 = 0  (P=0)
    let [j0, j1] = parcel(0o10, 0, 0, 0); // JAZ first parcel  (P=1)
    let [t0, t1] = p1(4);                  // second parcel: target = parcel 4  (P=2)
    let [er, _]  = parcel(0o00, 0, 0, 0);  // error exit  (P=3 — not reached)
    let [ex0, ex1] = parcel(0o04, 0, 0, 0);
    let prog = [a0, a1, j0, j1, t0, t1, er, 0, ex0, ex1, 0, 0, 0, 0, 0, 0];
    let mut cpu = cpu_with_program(&prog);
    cpu.step(&host_float).unwrap(); // A0 = 0
    cpu.step(&host_float).unwrap(); // JAZ taken: P should become 4
    assert_eq!(cpu.regs.p, 4);
    assert_eq!(cpu.step(&host_float), Err(Trap::NormalExit));
}

#[test]
fn branch_jaz_not_taken() {
    // A0 = 5; JAZ is NOT taken; falls through to normal exit at P=3.
    let [a0, a1] = parcel_jk(0o22, 0, 5); // A0 = 5  (P=0)
    let [j0, j1] = parcel(0o10, 0, 0, 0); // JAZ first parcel  (P=1)
    let [t0, t1] = p1(8);                  // second parcel: target = parcel 8 (never reached)
    let [ex0, ex1] = parcel(0o04, 0, 0, 0); // normal exit at P=3
    let prog = [a0, a1, j0, j1, t0, t1, ex0, ex1, 0, 0, 0, 0, 0, 0, 0, 0];
    let mut cpu = cpu_with_program(&prog);
    cpu.step(&host_float).unwrap(); // A0 = 5
    cpu.step(&host_float).unwrap(); // JAZ not taken: P stays at 3
    assert_eq!(cpu.regs.p, 3);
    assert_eq!(cpu.step(&host_float), Err(Trap::NormalExit));
}

#[test]
fn fp_add() {
    // S3 = S1 + S2 in floating point
    let [a0, a1] = parcel(0o062, 3, 1, 2);  // S3 = S1 + S2
    let [x0, x1] = parcel(0o04, 0, 0, 0);
    let mut cpu = cpu_with_program(&[a0, a1, x0, x1]);
    cpu.regs.s[1] = from_f64(1.5);
    cpu.regs.s[2] = from_f64(2.5);
    cpu.step(&host_float).unwrap();
    assert_eq!(to_f64(cpu.regs.s[3]), 4.0);
}

#[test]
fn fp_mul() {
    // S3 = S1 * S2
    let [a0, a1] = parcel(0o064, 3, 1, 2);
    let [x0, x1] = parcel(0o04, 0, 0, 0);
    let mut cpu = cpu_with_program(&[a0, a1, x0, x1]);
    cpu.regs.s[1] = from_f64(3.0);
    cpu.regs.s[2] = from_f64(4.0);
    cpu.step(&host_float).unwrap();
    assert_eq!(to_f64(cpu.regs.s[3]), 12.0);
}

#[test]
fn fp_recip() {
    // S2 = 1/S1
    let [a0, a1] = parcel(0o070, 2, 1, 0);
    let [x0, x1] = parcel(0o04, 0, 0, 0);
    let mut cpu = cpu_with_program(&[a0, a1, x0, x1]);
    cpu.regs.s[1] = from_f64(4.0);
    cpu.step(&host_float).unwrap();
    assert_eq!(to_f64(cpu.regs.s[2]), 0.25);
}

#[test]
fn fp_normalize_via_add() {
    // Normalize S1 by adding 0 (S0=0): S2 = S0 + S1 = normalize(S1)
    let [a0, a1] = parcel(0o062, 2, 0, 1);  // S2 = S0 + S1
    let [x0, x1] = parcel(0o04, 0, 0, 0);
    let mut cpu = cpu_with_program(&[a0, a1, x0, x1]);
    // Build an unnormalized FP word for 1.0 (bit 47 clear)
    let one = from_f64(1.0);
    let exp = (one >> 48) & 0x7FFF;
    let coeff = one & 0x0000_FFFF_FFFF_FFFF;
    let unnorm = ((exp + 4) << 48) | (coeff >> 4); // shift right 4, compensate exponent
    cpu.regs.s[0] = 0; // additive identity
    cpu.regs.s[1] = unnorm;
    cpu.step(&host_float).unwrap();
    assert_eq!(to_f64(cpu.regs.s[2]), 1.0);
}

#[test]
fn vector_add_vv() {
    // V0 = V1 + V2 element-wise with VL=4
    let [a0, a1] = parcel_jk(0o22, 1, 4);   // A1 = 4
    let [b0, b1] = parcel(0o20, 0, 0, 1);   // VL = A1
    let [c0, c1] = parcel(0o155, 0, 1, 2);  // V0 = V1 + V2
    let [x0, x1] = parcel(0o04, 0, 0, 0);
    let mut cpu = cpu_with_program(&[a0, a1, b0, b1, c0, c1, x0, x1]);
    for n in 0..4usize { cpu.regs.v[1][n] = (n as u64 + 1) * 10; } // 10,20,30,40
    for n in 0..4usize { cpu.regs.v[2][n] = n as u64 + 1; }         // 1,2,3,4
    cpu.step(&host_float).unwrap();
    cpu.step(&host_float).unwrap();
    cpu.step(&host_float).unwrap();
    assert_eq!(&cpu.regs.v[0][..4], &[11, 22, 33, 44]);
}

#[test]
fn vector_add_sv() {
    // V0 = S1 + V2 (scalar broadcast) with VL=3
    let [a0, a1] = parcel_jk(0o22, 1, 3);   // A1 = 3
    let [b0, b1] = parcel(0o20, 0, 0, 1);   // VL = A1
    let [c0, c1] = parcel(0o154, 0, 1, 2);  // V0 = S1 + V2
    let [x0, x1] = parcel(0o04, 0, 0, 0);
    let mut cpu = cpu_with_program(&[a0, a1, b0, b1, c0, c1, x0, x1]);
    cpu.regs.s[1] = 100;
    for n in 0..3usize { cpu.regs.v[2][n] = n as u64; } // 0,1,2
    cpu.step(&host_float).unwrap();
    cpu.step(&host_float).unwrap();
    cpu.step(&host_float).unwrap();
    assert_eq!(&cpu.regs.v[0][..3], &[100, 101, 102]);
}

#[test]
fn vector_and_sv() {
    // V0 = S1 & V2 with VL=2
    let [a0, a1] = parcel_jk(0o22, 1, 2);   // A1 = 2
    let [b0, b1] = parcel(0o20, 0, 0, 1);   // VL = A1
    let [c0, c1] = parcel(0o140, 0, 1, 2);  // V0 = S1 & V2
    let [x0, x1] = parcel(0o04, 0, 0, 0);
    let mut cpu = cpu_with_program(&[a0, a1, b0, b1, c0, c1, x0, x1]);
    cpu.regs.s[1] = 0x0F;
    cpu.regs.v[2][0] = 0xFF;
    cpu.regs.v[2][1] = 0xAA;
    cpu.step(&host_float).unwrap();
    cpu.step(&host_float).unwrap();
    cpu.step(&host_float).unwrap();
    assert_eq!(cpu.regs.v[0][0], 0x0F);
    assert_eq!(cpu.regs.v[0][1], 0x0A);
}

#[test]
fn vector_shift_left() {
    // V0 = V1 << A2 with VL=2, A2=3
    let [a0, a1] = parcel_jk(0o22, 1, 2);   // A1 = 2 (VL)
    let [b0, b1] = parcel_jk(0o22, 2, 3);   // A2 = 3 (shift count)
    let [c0, c1] = parcel(0o20, 0, 0, 1);   // VL = A1
    let [d0, d1] = parcel(0o150, 0, 1, 2);  // V0 = V1 << A2
    let [x0, x1] = parcel(0o04, 0, 0, 0);
    let mut cpu = cpu_with_program(&[a0,a1,b0,b1,c0,c1,d0,d1,x0,x1, 0,0,0,0,0,0]);
    cpu.regs.v[1][0] = 1;
    cpu.regs.v[1][1] = 2;
    for _ in 0..4 { cpu.step(&host_float).unwrap(); }
    assert_eq!(cpu.regs.v[0][0], 8);
    assert_eq!(cpu.regs.v[0][1], 16);
}

#[test]
fn vector_mask_test_zero() {
    // vmtest_z on V1=[0,5,0,3] with VL=4 -> VM bits set for elements 0 and 2
    let [a0, a1] = parcel_jk(0o22, 1, 4);   // A1 = 4
    let [b0, b1] = parcel(0o20, 0, 0, 1);   // VL = A1
    let [c0, c1] = parcel(0o175, 0, 1, 0);  // VM = (V1[n]==0)
    let [x0, x1] = parcel(0o04, 0, 0, 0);
    let mut cpu = cpu_with_program(&[a0, a1, b0, b1, c0, c1, x0, x1]);
    cpu.regs.v[1][0] = 0;
    cpu.regs.v[1][1] = 5;
    cpu.regs.v[1][2] = 0;
    cpu.regs.v[1][3] = 3;
    cpu.step(&host_float).unwrap();
    cpu.step(&host_float).unwrap();
    cpu.step(&host_float).unwrap();
    assert_eq!(cpu.regs.vm, (1u64 << 63) | (1u64 << 61));
}

#[test]
fn vector_merge_vv() {
    // V0 = VM ? V1 : V2 with VL=4; VM selects elements 0 and 2 from V1
    let [a0, a1] = parcel_jk(0o22, 1, 4);   // A1 = 4
    let [b0, b1] = parcel(0o20, 0, 0, 1);   // VL = A1
    let [c0, c1] = parcel(0o147, 0, 1, 2);  // V0 = VM ? V1 : V2
    let [x0, x1] = parcel(0o04, 0, 0, 0);
    let mut cpu = cpu_with_program(&[a0, a1, b0, b1, c0, c1, x0, x1]);
    cpu.regs.vm = (1u64 << 63) | (1u64 << 61); // elements 0 and 2 from V1
    for n in 0..4usize { cpu.regs.v[1][n] = 100 + n as u64; } // 100,101,102,103
    for n in 0..4usize { cpu.regs.v[2][n] = 200 + n as u64; } // 200,201,202,203
    cpu.step(&host_float).unwrap();
    cpu.step(&host_float).unwrap();
    cpu.step(&host_float).unwrap();
    assert_eq!(cpu.regs.v[0][0], 100); // VM=1 -> V1
    assert_eq!(cpu.regs.v[0][1], 201); // VM=0 -> V2
    assert_eq!(cpu.regs.v[0][2], 102); // VM=1 -> V1
    assert_eq!(cpu.regs.v[0][3], 203); // VM=0 -> V2
}

#[test]
fn vector_load_store() {
    // vstore V1[0..3] to words 50,51,52; vload into V2; check match
    let [a0, a1] = parcel_jk(0o22, 0, 50);  // A0 = 50 (base address)
    let [b0, b1] = parcel_jk(0o22, 1, 3);   // A1 = 3
    let [c0, c1] = parcel(0o20, 0, 0, 1);   // VL = A1
    let [d0, d1] = parcel(0o177, 0, 1, 0);  // vstore V1 stride=1
    let [e0, e1] = parcel(0o176, 2, 0, 0);  // vload  V2 stride=1
    let [x0, x1] = parcel(0o04, 0, 0, 0);
    let mut cpu = cpu_with_program(&[a0,a1,b0,b1,c0,c1,d0,d1,e0,e1,x0,x1, 0,0,0,0]);
    cpu.regs.v[1][0] = 0xAA;
    cpu.regs.v[1][1] = 0xBB;
    cpu.regs.v[1][2] = 0xCC;
    for _ in 0..5 { cpu.step(&host_float).unwrap(); }
    assert_eq!(cpu.regs.v[2][0], 0xAA);
    assert_eq!(cpu.regs.v[2][1], 0xBB);
    assert_eq!(cpu.regs.v[2][2], 0xCC);
}

#[test]
fn vector_element_insert_extract() {
    // Insert S1=42 into V2[A3=1], then extract V2[A3=1] back to S0
    let [a0, a1] = parcel_jk(0o22, 3, 1);   // A3 = 1 (element index)
    let [b0, b1] = parcel(0o077, 2, 1, 3);  // V2[A3] = S1
    let [c0, c1] = parcel(0o076, 0, 2, 3);  // S0 = V2[A3]
    let [x0, x1] = parcel(0o04, 0, 0, 0);
    let mut cpu = cpu_with_program(&[a0, a1, b0, b1, c0, c1, x0, x1]);
    cpu.regs.s[1] = 42;
    cpu.step(&host_float).unwrap();
    cpu.step(&host_float).unwrap();
    cpu.step(&host_float).unwrap();
    assert_eq!(cpu.regs.s[0], 42);
    assert_eq!(cpu.regs.v[2][1], 42);
}

#[test]
fn branch_jan_loop() {
    // Count A0 down from 5 to 0 via JAN back to the decrement.
    // P=0: A0 = 5
    // P=1: A1 = 1
    // P=2: A0 = A0 - A1   (loop body)
    // P=3: JAN first parcel  -> if A0 ≠ 0 jump to P=2
    // P=4: JAN second parcel (target = 2)
    // P=5: normal exit
    let [a0, a1]   = parcel_jk(0o22, 0, 5); // A0 = 5
    let [b0, b1]   = parcel_jk(0o22, 1, 1); // A1 = 1
    let [dec0, dec1] = parcel(0o31, 0, 0, 1); // A0 = A0 - A1
    let [jan0, jan1] = parcel(0o11, 0, 0, 0); // JAN (ijk=0, upper 9 bits of target)
    let [tgt0, tgt1] = p1(2);                  // second parcel: target = parcel 2
    let [ex0, ex1]   = parcel(0o04, 0, 0, 0);
    let prog = [
        a0, a1, b0, b1, dec0, dec1, jan0, jan1,  // word 0 (P=0..3)
        tgt0, tgt1, ex0, ex1, 0, 0, 0, 0,         // word 1 (P=4..7)
    ];
    let mut cpu = cpu_with_program(&prog);
    while cpu.step(&host_float).is_ok() {}
    assert_eq!(cpu.regs.a[0], 0);
}

#[test]
fn negate_flips_sign() {
    let one = from_f64(1.0);
    assert_eq!(to_f64(negate(one)), -1.0);
}

#[test]
fn normalize_shifts_up() {
    // An unnormalized word for 1.0: coefficient shifted right by 4, exponent raised by 4.
    let one = from_f64(1.0);
    let exp = (one >> 48) & 0x7FFF;
    let coeff = one & 0x0000_FFFF_FFFF_FFFF;
    let unnorm = ((exp + 4) << 48) | (coeff >> 4);
    assert_eq!(to_f64(normalize(unnorm)), 1.0);
}

// ---------------------------------------------------------------------------
// Further behaviour of the library
// ---------------------------------------------------------------------------

fn run_to_trap(cpu: &mut Cpu) -> Trap {
    loop {
        assert!(cpu.can_step());
        if let Err(t) = cpu.step(&host_float) {
            return t;
        }
    }
}

#[test]
fn normalize_exact_words() {
    // Coefficient 1 with exponent 0x4000: shifted 47 places, exponent down by 47.
    assert_eq!(normalize((0x4000u64 << 48) | 1), ((0x4000u64 - 47) << 48) | (1u64 << 47));
    // Already normalized words come back unchanged, sign included.
    let w = (1u64 << 63) | (0x1234u64 << 48) | 0x8000_0000_0001;
    assert_eq!(normalize(w), w);
    // Zero coefficient, and underflow of the exponent, give zero.
    assert_eq!(normalize(0x4000u64 << 48), 0);
    assert_eq!(normalize((3u64 << 48) | 1), 0);
    // Normalizing twice is normalizing once.
    let x = (0x4010u64 << 48) | 0x0000_0F00_0000;
    assert_eq!(normalize(normalize(x)), normalize(x));
}

#[test]
fn negate_exact_words() {
    assert_eq!(negate(0), 0x8000_0000_0000_0000);
    assert_eq!(negate(0x8000_0000_0000_0001), 1);
    assert_eq!(negate(negate(0x1234_5678_9ABC_DEF0)), 0x1234_5678_9ABC_DEF0);
}

#[test]
fn error_exit_traps() {
    let [e0, e1] = parcel(0o00, 0, 0, 0);
    let mut cpu = cpu_with_program(&[e0, e1]);
    assert_eq!(cpu.step(&host_float), Err(Trap::ErrorExit));
    assert_eq!(cpu.regs.p, 1);
}

#[test]
fn unimplemented_opcode_traps() {
    let [u0, u1] = parcel(0o035, 0, 0, 0);
    let mut cpu = cpu_with_program(&[u0, u1]);
    assert_eq!(cpu.step(&host_float), Err(Trap::Unimplemented(0o35)));
}

#[test]
fn return_jump_saves_return_address() {
    // R exp: B00 = address after the instruction, then P = exp.
    let [r0, r1] = parcel(0o07, 0, 0, 0);
    let [t0, t1] = p1(6);
    let mut cpu = cpu_with_program(&[r0, r1, t0, t1]);
    cpu.step(&host_float).unwrap();
    assert_eq!(cpu.regs.b[0], 2);
    assert_eq!(cpu.regs.p, 6);
}

#[test]
fn jump_to_b_register() {
    let [j0, j1] = parcel(0o05, 0, 1, 2); // J B12
    let mut cpu = cpu_with_program(&[j0, j1]);
    cpu.regs.b[0o12] = 9;
    cpu.step(&host_float).unwrap();
    assert_eq!(cpu.regs.p, 9);
}

#[test]
fn branch_on_s0_sign() {
    // JSM: taken when S0 is negative.
    let [j0, j1] = parcel(0o17, 0, 0, 0);
    let [t0, t1] = p1(8);
    let mut cpu = cpu_with_program(&[j0, j1, t0, t1]);
    cpu.regs.s[0] = 0x8000_0000_0000_0000;
    cpu.step(&host_float).unwrap();
    assert_eq!(cpu.regs.p, 8);
    // JSP: not taken for zero.
    let [k0, k1] = parcel(0o16, 0, 0, 0);
    let mut cpu = cpu_with_program(&[k0, k1, t0, t1]);
    cpu.step(&host_float).unwrap();
    assert_eq!(cpu.regs.p, 2);
}

#[test]
fn address_multiply_wraps_to_24_bits() {
    let [m0, m1] = parcel(0o32, 3, 1, 2);
    let mut cpu = cpu_with_program(&[m0, m1]);
    cpu.regs.a[1] = 0x1000;
    cpu.regs.a[2] = 0x1001;
    cpu.step(&host_float).unwrap();
    assert_eq!(cpu.regs.a[3], (0x1000u32 * 0x1001) & 0xFF_FFFF);
    let [s0, s1] = parcel(0o31, 4, 0, 1);
    let mut cpu = cpu_with_program(&[s0, s1]);
    cpu.regs.a[1] = 1;
    cpu.step(&host_float).unwrap();
    assert_eq!(cpu.regs.a[4], 0xFF_FFFF);
}

#[test]
fn vector_length_caps_at_64() {
    let [v0, v1] = parcel(0o20, 0, 0, 1);
    let mut cpu = cpu_with_program(&[v0, v1]);
    cpu.regs.a[1] = 200;
    cpu.step(&host_float).unwrap();
    assert_eq!(cpu.regs.vl, 64);
    // Only the low 8 bits of Ak count.
    let mut cpu = cpu_with_program(&[v0, v1]);
    cpu.regs.a[1] = 0x105;
    cpu.step(&host_float).unwrap();
    assert_eq!(cpu.regs.vl, 5);
}

#[test]
fn intermediate_register_transmits() {
    let [a0, a1] = parcel(0o25, 1, 3, 4); // B34 = A1
    let [b0, b1] = parcel(0o24, 2, 3, 4); // A2 = B34
    let [c0, c1] = parcel(0o75, 5, 1, 7); // T17 = S5
    let [d0, d1] = parcel(0o74, 6, 1, 7); // S6 = T17
    let mut cpu = cpu_with_program(&[a0, a1, b0, b1, c0, c1, d0, d1]);
    cpu.regs.a[1] = 0x123456;
    cpu.regs.s[5] = 0xFEED;
    for _ in 0..4 { cpu.step(&host_float).unwrap(); }
    assert_eq!(cpu.regs.b[0o34], 0x123456);
    assert_eq!(cpu.regs.a[2], 0x123456);
    assert_eq!(cpu.regs.t[0o17], 0xFEED);
    assert_eq!(cpu.regs.s[6], 0xFEED);
}

#[test]
fn scalar_from_address_sign_extended() {
    let [a0, a1] = parcel(0o71, 1, 1, 2); // S1 = A2 sign-extended from 24 bits
    let [b0, b1] = parcel(0o71, 3, 0, 2); // S3 = A2 zero-extended
    let mut cpu = cpu_with_program(&[a0, a1, b0, b1]);
    cpu.regs.a[2] = 0x00FF_FFFF;
    cpu.step(&host_float).unwrap();
    cpu.step(&host_float).unwrap();
    assert_eq!(cpu.regs.s[1], 0xFFFF_FFFF_FFFF_FFFF);
    assert_eq!(cpu.regs.s[3], 0x00FF_FFFF);
    let mut cpu = cpu_with_program(&[a0, a1]);
    cpu.regs.a[2] = 0x80_0000;
    cpu.step(&host_float).unwrap();
    assert_eq!(cpu.regs.s[1], 0xFFFF_FFFF_FF80_0000);
    let mut cpu = cpu_with_program(&[a0, a1]);
    cpu.regs.a[2] = 0x7F_FFFF;
    cpu.step(&host_float).unwrap();
    assert_eq!(cpu.regs.s[1], 0x7F_FFFF);
}

#[test]
fn scalar_from_address_as_float() {
    let [a0, a1] = parcel(0o71, 1, 2, 2); // S1 = A2 as floating point
    let mut cpu = cpu_with_program(&[a0, a1]);
    cpu.regs.a[2] = 12;
    cpu.step(&host_float).unwrap();
    assert_eq!(to_f64(cpu.regs.s[1]), 12.0);
}

#[test]
fn scalar_shifts_right() {
    let [a0, a1] = parcel_jk(0o53, 1, 60); // S0 = S1 >> 4
    let [b0, b1] = parcel_jk(0o55, 2, 0); // S2 = 0 (count 0)
    let [c0, c1] = parcel_jk(0o54, 3, 8); // S3 <<= 8
    let mut cpu = cpu_with_program(&[a0, a1, b0, b1, c0, c1]);
    cpu.regs.s[1] = 0xF0;
    cpu.regs.s[2] = 0xFFFF;
    cpu.regs.s[3] = 0x0100_0000_0000_00FF;
    for _ in 0..3 { cpu.step(&host_float).unwrap(); }
    assert_eq!(cpu.regs.s[0], 0x0F);
    assert_eq!(cpu.regs.s[2], 0);
    assert_eq!(cpu.regs.s[3], 0xFF00);
}

#[test]
fn double_shifts() {
    // S1 = high 64 bits of (S1:S2) << A3
    let [a0, a1] = parcel(0o56, 1, 2, 3);
    // S4 = low 64 bits of (S5:S4) >> A3
    let [b0, b1] = parcel(0o57, 4, 5, 3);
    let mut cpu = cpu_with_program(&[a0, a1, b0, b1]);
    cpu.regs.a[3] = 8;
    cpu.regs.s[1] = 0x00AA_0000_0000_0001;
    cpu.regs.s[2] = 0xBB00_0000_0000_0000;
    cpu.regs.s[4] = 0x1234;
    cpu.regs.s[5] = 0xCC;
    cpu.step(&host_float).unwrap();
    cpu.step(&host_float).unwrap();
    assert_eq!(cpu.regs.s[1], 0xAA00_0000_0000_01BB);
    assert_eq!(cpu.regs.s[4], 0xCC00_0000_0000_0012);
    // Counts of 64 and more move the other word across.
    let mut cpu = cpu_with_program(&[a0, a1, b0, b1]);
    cpu.regs.a[3] = 68;
    cpu.regs.s[2] = 0x1;
    cpu.regs.s[5] = 0x100;
    cpu.step(&host_float).unwrap();
    cpu.step(&host_float).unwrap();
    assert_eq!(cpu.regs.s[1], 0x10);
    assert_eq!(cpu.regs.s[4], 0x10);
}

#[test]
fn scalar_merge_and_sign_select() {
    let [a0, a1] = parcel(0o50, 1, 2, 3); // S1 = (S1 & !S3) | (S2 & S3)
    let [b0, b1] = parcel(0o51, 4, 5, 0); // S4 = S5 if S5 negative, else S4
    let [c0, c1] = parcel(0o51, 6, 7, 0);
    let mut cpu = cpu_with_program(&[a0, a1, b0, b1, c0, c1]);
    cpu.regs.s[1] = 0xFFFF;
    cpu.regs.s[2] = 0x1234;
    cpu.regs.s[3] = 0x00F0;
    cpu.regs.s[4] = 7;
    cpu.regs.s[5] = 0x8000_0000_0000_0009;
    cpu.regs.s[6] = 3;
    cpu.regs.s[7] = 5;
    for _ in 0..3 { cpu.step(&host_float).unwrap(); }
    assert_eq!(cpu.regs.s[1], 0xFF3F);
    assert_eq!(cpu.regs.s[4], 0x8000_0000_0000_0009);
    assert_eq!(cpu.regs.s[6], 3);
}

#[test]
fn vector_mask_transmits() {
    let [a0, a1] = parcel(0o33, 0, 1, 0); // VM = S1
    let [b0, b1] = parcel(0o73, 2, 0, 0); // S2 = VM
    let [c0, c1] = parcel(0o34, 0, 0, 0); // VM = 0
    let mut cpu = cpu_with_program(&[a0, a1, b0, b1, c0, c1]);
    cpu.regs.s[1] = 0xABC;
    cpu.step(&host_float).unwrap();
    cpu.step(&host_float).unwrap();
    assert_eq!(cpu.regs.s[2], 0xABC);
    cpu.step(&host_float).unwrap();
    assert_eq!(cpu.regs.vm, 0);
}

#[test]
fn vector_mask_tests_sign() {
    let [a0, a1] = parcel(0o175, 0, 1, 2); // positive
    let [b0, b1] = parcel(0o175, 0, 1, 3); // negative
    let mut cpu = cpu_with_program(&[a0, a1, b0, b1]);
    cpu.regs.vl = 3;
    cpu.regs.v[1][0] = 5;
    cpu.regs.v[1][1] = 0x8000_0000_0000_0000;
    cpu.regs.v[1][2] = 0;
    cpu.regs.v[1][3] = 5; // beyond VL
    cpu.step(&host_float).unwrap();
    assert_eq!(cpu.regs.vm, 1u64 << 63);
    cpu.step(&host_float).unwrap();
    assert_eq!(cpu.regs.vm, 1u64 << 62);
}

#[test]
fn vector_rotations() {
    let [a0, a1] = parcel(0o152, 0, 1, 2); // V0 = V1 rotated left by A2
    let [b0, b1] = parcel(0o153, 3, 1, 2); // V3 = V1 rotated right by A2
    let mut cpu = cpu_with_program(&[a0, a1, b0, b1]);
    cpu.regs.vl = 4;
    cpu.regs.a[2] = 5; // 5 mod 4 = 1
    for n in 0..4usize { cpu.regs.v[1][n] = 10 + n as u64; }
    cpu.regs.v[0][4] = 99;
    cpu.step(&host_float).unwrap();
    cpu.step(&host_float).unwrap();
    assert_eq!(&cpu.regs.v[0][..5], &[11, 12, 13, 10, 99]);
    assert_eq!(&cpu.regs.v[3][..4], &[13, 10, 11, 12]);
}

#[test]
fn vector_rotation_in_place() {
    // The result replaces V1 itself: still a circular rotation of the old V1.
    let [a0, a1] = parcel(0o152, 1, 1, 2);
    let mut cpu = cpu_with_program(&[a0, a1]);
    cpu.regs.vl = 4;
    cpu.regs.a[2] = 1;
    for n in 0..4usize { cpu.regs.v[1][n] = 10 + n as u64; }
    cpu.step(&host_float).unwrap();
    assert_eq!(&cpu.regs.v[1][..4], &[11, 12, 13, 10]);
}

#[test]
fn vector_shift_right_and_overshift() {
    let [a0, a1] = parcel(0o151, 0, 1, 2); // V0 = V1 >> A2
    let [b0, b1] = parcel(0o150, 3, 1, 4); // V3 = V1 << A4
    let mut cpu = cpu_with_program(&[a0, a1, b0, b1]);
    cpu.regs.vl = 2;
    cpu.regs.a[2] = 4;
    cpu.regs.a[4] = 64;
    cpu.regs.v[1][0] = 0xF0;
    cpu.regs.v[1][1] = 0x100;
    cpu.step(&host_float).unwrap();
    cpu.step(&host_float).unwrap();
    assert_eq!(&cpu.regs.v[0][..2], &[0x0F, 0x10]);
    assert_eq!(&cpu.regs.v[3][..2], &[0, 0]);
}

#[test]
fn vector_strided_store() {
    let [a0, a1] = parcel(0o177, 0, 1, 2); // mem[A0 + n*A2] = V1[n]
    let mut cpu = cpu_with_program(&[a0, a1]);
    cpu.regs.vl = 3;
    cpu.regs.a[0] = 100;
    cpu.regs.a[2] = 10;
    for n in 0..3usize { cpu.regs.v[1][n] = 7 + n as u64; }
    cpu.step(&host_float).unwrap();
    assert_eq!(cpu.mem.read(100), 7);
    assert_eq!(cpu.mem.read(110), 8);
    assert_eq!(cpu.mem.read(120), 9);
    assert_eq!(cpu.mem.read(101), 0);
}

#[test]
fn vector_float_add() {
    let [a0, a1] = parcel(0o171, 0, 1, 2); // V0 = V1 + V2 in floating point
    let mut cpu = cpu_with_program(&[a0, a1]);
    cpu.regs.vl = 2;
    cpu.regs.v[1][0] = from_f64(1.5);
    cpu.regs.v[1][1] = from_f64(-2.0);
    cpu.regs.v[2][0] = from_f64(2.5);
    cpu.regs.v[2][1] = from_f64(0.5);
    cpu.step(&host_float).unwrap();
    assert_eq!(to_f64(cpu.regs.v[0][0]), 4.0);
    assert_eq!(to_f64(cpu.regs.v[0][1]), -1.5);
}

#[test]
fn issue_waits_for_address_results() {
    let [a0, a1] = parcel_jk(0o22, 1, 3); // A1 = 3: issues at 0
    let [b0, b1] = parcel(0o30, 2, 1, 1); // A2 = A1 + A1: issues at 1, ready at 3
    let [c0, c1] = parcel(0o30, 3, 2, 2); // A3 = A2 + A2: waits for A2, issues at 3
    let mut cpu = cpu_with_program(&[a0, a1, b0, b1, c0, c1]);
    cpu.step(&host_float).unwrap();
    assert_eq!(cpu.cycle, 1);
    cpu.step(&host_float).unwrap();
    assert_eq!(cpu.cycle, 2);
    cpu.step(&host_float).unwrap();
    assert_eq!(cpu.cycle, 4);
    assert_eq!(cpu.regs.a[3], 12);
}

#[test]
fn can_step_refuses_overflow() {
    let [a0, a1] = parcel_jk(0o22, 1, 3);
    let mut cpu = cpu_with_program(&[a0, a1]);
    assert!(cpu.can_step());
    cpu.cycle = u64::MAX;
    assert!(!cpu.can_step());
    let [v0, v1] = parcel(0o140, 0, 1, 2);
    let mut cpu = cpu_with_program(&[v0, v1]);
    cpu.regs.vl = 65;
    assert!(!cpu.can_step());
}

#[test]
fn parcel_counter_wraps_at_24_bits() {
    // The last parcel of the address space holds A1 = 3; P then wraps to 0.
    let mut cpu = cpu_with_program(&[]);
    cpu.mem.write(0x3F_FFFF, 0o22u64 << 9 | 1 << 6 | 3);
    cpu.regs.p = 0xFF_FFFF;
    assert!(cpu.can_step());
    cpu.step(&host_float).unwrap();
    assert_eq!(cpu.regs.a[1], 3);
    assert_eq!(cpu.regs.p, 0);
}

#[test]
fn jump_target_kept_to_24_bits() {
    // J exp with i = 4: the 25-bit target 0x100_0008 becomes parcel 8.
    let [j0, j1] = parcel(0o06, 4, 0, 0);
    let [t0, t1] = p1(8);
    let mut cpu = cpu_with_program(&[j0, j1, t0, t1]);
    cpu.step(&host_float).unwrap();
    assert_eq!(cpu.regs.p, 8);
}

#[test]
fn floating_point_request_and_execute() {
    let d = crayon::instr::decode(((0o062u16) << 9) | (3 << 6) | (1 << 3) | 2, 0);
    let mut cpu = cpu_with_program(&[]);
    cpu.regs.s[1] = 11;
    cpu.regs.s[2] = 22;
    let req = cpu.fp_request(d).unwrap();
    assert_eq!(req.op, FpOp::Add);
    assert_eq!(req.operands, vec![(11, 22)]);
    assert_eq!(cpu.execute(d, &vec![77]), Ok(()));
    assert_eq!(cpu.regs.s[3], 77);
    // Integer instructions ask for nothing.
    let e = crayon::instr::decode(((0o060u16) << 9) | (3 << 6) | (1 << 3) | 2, 0);
    assert!(cpu.fp_request(e).is_none());
}

#[test]
fn registers_default_is_cleared() {
    let regs = Registers::default();
    assert_eq!(regs.a, [0; 8]);
    assert_eq!(regs.vl, 0);
    assert_eq!(regs.p, 0);
}

#[test]
fn countdown_loop_ends_in_normal_exit() {
    let [a0, a1] = parcel_jk(0o22, 0, 3);
    let [b0, b1] = parcel_jk(0o22, 1, 1);
    let [dec0, dec1] = parcel(0o31, 0, 0, 1);
    let [jan0, jan1] = parcel(0o11, 0, 0, 0);
    let [tgt0, tgt1] = p1(2);
    let [ex0, ex1] = parcel(0o04, 0, 0, 0);
    let prog = [a0, a1, b0, b1, dec0, dec1, jan0, jan1, tgt0, tgt1, ex0, ex1, 0, 0, 0, 0];
    let mut cpu = cpu_with_program(&prog);
    assert_eq!(run_to_trap(&mut cpu), Trap::NormalExit);
    assert_eq!(cpu.regs.a[0], 0);
    assert_eq!(cpu.regs.p, 6);
}

#[test]
fn registers_text_of_cleared_file() {
    let regs = Registers::new();
    let mut expected = String::new();
    expected += "A  000000 000000 000000 000000 000000 000000 000000 000000\n";
    expected += "S  0000000000000000 0000000000000000 0000000000000000 0000000000000000\n";
    expected += "   0000000000000000 0000000000000000 0000000000000000 0000000000000000\n";
    expected += "V  (V0-V7, 0 elements each)\n";
    for i in 0..8 {
        expected += &format!("   V{i}\n");
    }
    expected += "VL 00  VM 0000000000000000  P 000000  RTC 0000000000000000\n";
    assert_eq!(regs.to_string(), expected);
}

#[test]
fn registers_text_shows_vector_elements() {
    let mut regs = Registers::new();
    regs.a[1] = 0xABCDEF;
    regs.a[7] = 0x1234_5678; // wider than six digits: printed in full
    regs.s[5] = 0xDEAD_BEEF;
    regs.vl = 1;
    regs.v[2][0] = 0x1F;
    regs.v[2][1] = 0x2F; // beyond VL: not shown
    regs.vm = 0x8000_0000_0000_0000;
    regs.p = 0x2A;
    regs.rtc = 7;
    let text = regs.to_string();
    let lines: Vec<&str> = text.lines().collect();
    assert_eq!(lines[0], "A  000000 ABCDEF 000000 000000 000000 000000 000000 12345678");
    assert_eq!(lines[2], "   0000000000000000 00000000DEADBEEF 0000000000000000 0000000000000000");
    assert_eq!(lines[3], "V  (V0-V7, 1 element each)");
    assert_eq!(lines[4], "   V0 0000000000000000");
    assert_eq!(lines[6], "   V2 000000000000001F");
    assert_eq!(lines[12], "VL 01  VM 8000000000000000  P 00002A  RTC 0000000000000007");
    assert_eq!(lines.len(), 13);
}

#[test]
fn trap_text() {
    assert_eq!(Trap::NormalExit.to_string(), "normal exit");
    assert_eq!(Trap::ErrorExit.to_string(), "error exit");
    assert_eq!(Trap::Unimplemented(0o35).to_string(), "unimplemented opcode 035");
    assert_eq!(Trap::Unimplemented(0o177).to_string(), "unimplemented opcode 177");
    assert_eq!(Trap::Unimplemented(3).to_string(), "unimplemented opcode 003");
}

#[test]
fn issue_waits_for_scalar_results() {
    let [a0, a1] = parcel(0o60, 3, 1, 2); // S3 = S1 + S2: issues at 0, ready at 3
    let [b0, b1] = parcel(0o44, 4, 3, 3); // S4 = S3 & S3: waits until 3
    let [c0, c1] = parcel(0o70, 5, 4, 0); // S5 = 1/S4: issues at 4, ready at 18
    let [d0, d1] = parcel(0o62, 6, 5, 5); // S6 = S5 + S5: waits until 18
    let mut cpu = cpu_with_program(&[a0, a1, b0, b1, c0, c1, d0, d1]);
    cpu.regs.s[1] = 1;
    cpu.regs.s[2] = 2;
    cpu.step(&host_float).unwrap();
    assert_eq!(cpu.cycle, 1);
    cpu.step(&host_float).unwrap();
    assert_eq!(cpu.cycle, 4);
    cpu.step(&host_float).unwrap();
    assert_eq!(cpu.cycle, 5);
    cpu.step(&host_float).unwrap();
    assert_eq!(cpu.cycle, 19);
}

#[test]
fn execute_answers_opcodes_beyond_seven_bits() {
    let mut cpu = cpu_with_program(&[]);
    let d = crayon::instr::Decoded {
        opcode: 0o200,
        i: 0,
        j: 0,
        k: 0,
        jk: 0,
        addr22: 0,
        addr25: 0,
        long: false,
    };
    assert!(cpu.fp_request(d).is_none());
    assert_eq!(cpu.execute(d, &vec![]), Err(Trap::Unimplemented(0o200)));
    assert_eq!(cpu.cycle, 1);
}

#[test]
fn roundtrip_one() {
    assert_eq!(to_f64(from_f64(1.0)), 1.0);
}

#[test]
fn roundtrip_neg_one() {
    assert_eq!(to_f64(from_f64(-1.0)), -1.0);
}

#[test]
fn roundtrip_two_point_five() {
    assert_eq!(to_f64(from_f64(2.5)), 2.5);
}

#[test]
fn roundtrip_half() {
    assert_eq!(to_f64(from_f64(0.5)), 0.5);
}

#[test]
fn zero_is_zero() {
    assert_eq!(from_f64(0.0), 0);
    assert_eq!(to_f64(0), 0.0);
}

#[test]
fn add_via_f64() {
    let a = from_f64(1.5);
    let b = from_f64(2.5);
    let result = from_f64(to_f64(a) + to_f64(b));
    assert_eq!(to_f64(result), 4.0);
}

#[test]
fn ieee_conversions_exact_words() {
    // 1.0 = 0.5 * 2^1: exponent 0x4001, coefficient with only bit 47 set.
    assert_eq!(from_ieee_bits(1.0f64.to_bits()), (0x4001u64 << 48) | (1u64 << 47));
    assert_eq!(to_ieee_bits((0x4001u64 << 48) | (1u64 << 47)), 1.0f64.to_bits());
    assert_eq!(from_ieee_bits(f64::NAN.to_bits()), 0);
    assert_eq!(from_ieee_bits((-0.0f64).to_bits()), 0);
    assert_eq!(from_ieee_bits(f64::NEG_INFINITY.to_bits()), 0xFFFF_FFFF_FFFF_FFFF);
    assert_eq!(from_ieee_bits(f64::MIN_POSITIVE.to_bits() >> 1), 0); // subnormal
    assert_eq!(to_ieee_bits(1u64 << 63), 0); // normalizing a zero coefficient drops the sign
    assert_eq!(to_ieee_bits(0x7FFF_8000_0000_0000), 0); // exponent beyond a double's
}

#[test]
fn ieee_conversions_agree_with_f64_arithmetic() {
    let values = [
        0.0, -0.0, 1.0, -1.0, 0.5, 2.5, -3.75, 1e-300, 1e300, 123456.789, -7.0e-5,
        f64::MIN_POSITIVE, f64::MAX, f64::MIN, f64::EPSILON, f64::INFINITY,
        f64::NEG_INFINITY, f64::NAN, 5e-324,
    ];
    for &f in values.iter() {
        assert_eq!(from_f64(f), reference_from_f64(f), "from {f}");
        let w = reference_from_f64(f);
        assert_eq!(to_f64(w).to_bits(), reference_to_f64(w).to_bits(), "to {w:#x}");
    }
    let words = [
        0u64, 1, 1u64 << 63, 0x4000_0000_0000_0001, 0x4001_8000_0000_0000,
        0xC123_4567_89AB_CDEF, 0x0001_FFFF_FFFF_FFFF, 0x7FFF_FFFF_FFFF_FFFF, 0x3C02_8000_0000_0000,
        0x3C03_8000_0000_0000, 0x4401_8000_0000_0001,
    ];
    for &w in words.iter() {
        assert_eq!(to_f64(w).to_bits(), reference_to_f64(w).to_bits(), "to {w:#x}");
    }
}

#[test]
fn accessors_and_setters() {
    let [a0, a1] = parcel(0o120, 1, 0, 0); // S1 = mem[A0 + exp]
    let [t0, t1] = p1(40);
    let mut cpu = cpu_with_program(&[a0, a1, t0, t1]);
    let mut regs = Registers::new();
    regs.a[0] = 2;
    cpu.set_registers(regs);
    cpu.write_memory(42, 0x77);
    assert_eq!(cpu.memory().read(42), 0x77);
    assert_eq!(cpu.registers().a[0], 2);
    assert_eq!(cpu.clock(), 0);
    cpu.step(&host_float).unwrap();
    assert_eq!(cpu.registers().s[1], 0x77);
    assert_eq!(cpu.clock(), 1);
}

#[test]
fn steps_near_the_top_of_the_clock() {
    // Far enough from overflow, every instruction can issue, even the slowest.
    let [r0, r1] = parcel(0o70, 2, 1, 0); // S2 = 1/S1: 14 cycles
    let [a0, a1] = parcel(0o62, 3, 2, 2); // waits for S2
    let mut cpu = cpu_with_program(&[r0, r1, a0, a1]);
    cpu.cycle = u64::MAX - 27;
    assert!(cpu.can_step());
    cpu.step(&host_float).unwrap();
    assert!(cpu.can_step());
    cpu.step(&host_float).unwrap();
    assert_eq!(cpu.clock(), u64::MAX - 27 + 15);
}
