//! A Cray-1 CPU emulator whose machine semantics are stated and proved with Verus.
pub mod memory;
pub mod instr;
pub mod ibuffer;
pub mod fp;
pub mod bits;
pub mod cpu;
pub mod assembler;
pub mod render;
pub mod laws;
pub mod instruction_laws;
