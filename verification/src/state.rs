use vstd::prelude::*;

verus! {

/// Faults that the interpreter or the loader surfaces to its caller.
#[derive(Clone, Copy, Debug, PartialEq, Eq, Structural)]
pub enum Chip8Error {
    /// CALL past the stack capacity, or RET on an empty stack.
    StackFault,
    /// An instruction fetch, a sprite read or a memory write outside the
    /// 4096-byte address space.
    MemoryFault,
    /// A program image too large for the memory above the program start.
    LoadError,
}

/// Mathematical model of the interpreter state: the view of `Chip8`.
///
/// The display is a flat row-major grid, 32 rows of 64 cells, so the pixel at
/// row `r`, column `c` sits at index `r * 64 + c`.
#[verifier::ext_equal]
pub struct C8State {
    pub ram: Seq<u8>,
    pub v: Seq<u8>,
    pub i: u16,
    pub pc: u16,
    pub sp: int,
    pub dt: u8,
    pub st: u8,
    pub stack: Seq<u16>,
    pub display: Seq<bool>,
}

impl C8State {
    /// The sizes that every reachable interpreter state keeps: 4 KiB of
    /// memory, 16 registers, a 256-word stack whose pointer marks the next
    /// free slot, and a 64 x 32 display.
    pub open spec fn wf(self) -> bool {
        &&& self.ram.len() == 4096
        &&& self.v.len() == 16
        &&& self.stack.len() == 256
        &&& 0 <= self.sp <= 256
        &&& self.display.len() == 2048
    }
}

} // verus!
