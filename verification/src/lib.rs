//! A CHIP-8 style virtual machine: a byte-addressable memory with reserved
//! font and program regions, a 64x32 monochrome display with XOR sprite
//! blitting, two 8-bit countdown timers, and the fetch-decode-execute
//! interpreter that drives them, with verified instruction semantics.
use vstd::prelude::*;

pub mod cpu;
pub mod display;
pub mod emulator;
pub mod memory;

verus! {

/// The machine's fault taxonomy. Only `RomTooLarge` is reported outward as an
/// error result; the other three are absorbed diagnostics: the offending
/// instruction has no effect (beyond the normal program counter advance) and
/// execution continues.
#[derive(Clone, Copy, PartialEq, Eq, Structural, Debug)]
pub enum Chip8Error {
    RomTooLarge,
    StackOverflow,
    StackUnderflow,
    UnknownOpcode,
}

/// What one interpreter cycle did to the program counter. `Waiting` is the
/// wait-for-key instruction's "did not advance" signal to the driver: the same
/// instruction will be fetched again next cycle.
#[derive(Clone, Copy, PartialEq, Eq, Structural, Debug)]
pub enum StepOutcome {
    Advanced,
    Waiting,
    Faulted(Chip8Error),
}

} // verus!
