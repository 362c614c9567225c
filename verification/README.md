# crayon

An emulator for the Cray-1 supercomputer whose machine semantics are written down as
Verus specifications and proved against the executable code.

## Layout

- `src/memory.rs`: one million 64-bit words, addresses taken modulo the memory size,
  and loading of big-endian program images.
- `src/instr.rs`: decoding of 16-bit parcels into instructions.
- `src/ibuffer.rs`: the four instruction buffers that parcels are fetched through.
- `src/fp.rs`: the floating point word format, normalization, negation, and the
  bit-level conversions between Cray-1 words and IEEE 754 doubles.
- `src/bits.rs`: shift arithmetic shared by the scalar and vector shifts.
- `src/cpu.rs`: registers, issue timing, and what each instruction does
  (`execute_spec`, `step_spec`), with `Cpu::step` proved against them.
- `src/render.rs`: the text in which the register file and traps are printed.
- `src/assembler.rs`: the instruction set as customasm rules, and the text the assembler
  is run on.
- `src/laws.rs`: properties that span several operations (reads after writes,
  buffer coherence, normalization, ranges kept by every step, and more).
- `app/`: the command-line runner; the customasm run (customasm panics on some source
  texts that no contract can pick out, so the library does not trust the call); and
  floating point arithmetic through the host's `f64`, which `Cpu::step` receives as a
  function whose every result the step's contract ties to the call that produced it.

## Verification

Verus checks every function in `src/` against its contract; the tests under `tests/`
run the library with a host floating point unit.
