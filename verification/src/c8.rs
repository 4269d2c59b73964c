use vstd::prelude::*;

use crate::font::{font_bytes, font_table};
use crate::state::{C8State, Chip8Error};

verus! {

/// Start of the program image in memory.
pub const PROGRAM_START: usize = 0x200;

/// Address of the built-in glyph table.
pub const FONT_LOCATION: usize = 0x0000;

/// The CHIP-8 interpreter state: memory, registers, timers, stack and the
/// monochrome display, mutated in place by the instruction cycle.
pub struct Chip8 {
    /// 4 KiB of memory.
    pub ram: Vec<u8>,
    /// The sixteen general-purpose registers V0-VF.
    pub v: Vec<u8>,
    /// The index register I.
    pub i: u16,
    /// The program counter.
    pub pc: u16,
    /// The stack pointer: the next free slot of `stack`.
    pub sp: usize,
    /// The delay timer.
    pub dt: u8,
    /// The sound timer.
    pub st: u8,
    /// The 256-word call stack.
    pub stack: Vec<u16>,
    /// The display, one cell per pixel, row-major: 32 rows of 64 columns.
    pub display: Vec<bool>,
}

impl View for Chip8 {
    type V = C8State;

    open spec fn view(&self) -> C8State {
        C8State {
            ram: self.ram@,
            v: self.v@,
            i: self.i,
            pc: self.pc,
            sp: self.sp as int,
            dt: self.dt,
            st: self.st,
            stack: self.stack@,
            display: self.display@,
        }
    }
}

/// A vector of `n` copies of `val`.
fn filled<T: Copy>(n: usize, val: T) -> (r: Vec<T>)
    ensures
        r@.len() == n,
        forall|k: int| 0 <= k < n ==> r@[k] == val,
{
    let mut r: Vec<T> = Vec::new();
    let mut idx: usize = 0;
    while idx < n
        invariant
            idx <= n,
            r@.len() == idx,
            forall|k: int| 0 <= k < idx ==> r@[k] == val,
        decreases n - idx,
    {
        r.push(val);
        idx = idx + 1;
    }
    r
}

impl Chip8 {
    /// A freshly constructed machine: zeroed state but for the glyph table in
    /// low memory and the program counter at the program start.
    pub fn new() -> (c: Chip8)
        ensures
            c@.wf(),
            c@.pc == 0x200,
            c@.i == 0,
            c@.sp == 0,
            c@.dt == 0,
            c@.st == 0,
            forall|k: int| 0 <= k < 16 ==> c@.v[k] == 0,
            forall|k: int| 0 <= k < 80 ==> c@.ram[k] == font_table()[k],
            forall|k: int| 80 <= k < 4096 ==> c@.ram[k] == 0,
            forall|k: int| 0 <= k < 256 ==> c@.stack[k] == 0,
            forall|k: int| 0 <= k < 2048 ==> !c@.display[k],
    {
        let mut m_c8 = Chip8 {
            ram: filled(4096, 0u8),
            v: filled(16, 0u8),
            i: 0x0000,
            pc: 0x0200,
            sp: 0,
            dt: 0x00,
            st: 0x00,
            stack: filled(256, 0u16),
            display: filled(2048, false),
        };
        m_c8.load_font();
        m_c8
    }

    /// Writes the glyph table into low memory; every other part of the state
    /// is left as it was.
    pub fn load_font(&mut self)
        requires
            old(self)@.wf(),
        ensures
            final(self)@.wf(),
            forall|k: int| 0 <= k < 80 ==> final(self)@.ram[k] == font_table()[k],
            forall|k: int| 80 <= k < 4096 ==> final(self)@.ram[k] == old(self)@.ram[k],
            final(self)@ == (C8State { ram: final(self)@.ram, ..old(self)@ }),
    {
        let font = font_bytes();
        let mut idx: usize = 0;
        while idx < 80
            invariant
                idx <= 80,
                font@ == font_table(),
                self@.ram.len() == 4096,
                forall|k: int| 0 <= k < idx ==> self@.ram[k] == font_table()[k],
                forall|k: int| idx <= k < 4096 ==> self@.ram[k] == old(self)@.ram[k],
                self@ == (C8State { ram: self@.ram, ..old(self)@ }),
            decreases 80 - idx,
        {
            self.ram.set(FONT_LOCATION + idx, font[idx]);
            idx = idx + 1;
        }
    }

    /// One 60 Hz timer tick: both timers count down toward zero without
    /// wrapping below it, and the caller learns whether the sound timer was
    /// running at the moment of the tick.
    pub fn update_timers(&mut self) -> (should_beep: bool)
        ensures
            should_beep == (old(self)@.st > 0),
            final(self)@.st == (if old(self)@.st > 0 { (old(self)@.st - 1) as u8 } else { 0u8 }),
            final(self)@.dt == (if old(self)@.dt > 0 { (old(self)@.dt - 1) as u8 } else { 0u8 }),
            final(self)@ == (C8State { st: final(self)@.st, dt: final(self)@.dt, ..old(self)@ }),
    {
        let should_beep = self.st > 0;

        self.st = if self.st > 0 { self.st - 1 } else { 0 };
        self.dt = if self.dt > 0 { self.dt - 1 } else { 0 };

        should_beep
    }

    /// Pushes a return address; the stack pointer names the next free slot.
    pub(crate) fn st_push(&mut self, value: u16)
        requires
            old(self)@.wf(),
            old(self)@.sp < 256,
        ensures
            final(self)@.wf(),
            final(self)@.stack == old(self)@.stack.update(old(self)@.sp, value),
            final(self)@.sp == old(self)@.sp + 1,
            final(self)@ == (C8State {
                stack: final(self)@.stack,
                sp: final(self)@.sp,
                ..old(self)@
            }),
    {
        self.stack.set(self.sp, value);
        self.sp = self.sp + 1;
    }

    /// Pops the most recently pushed return address.
    pub(crate) fn st_pop(&mut self) -> (r: u16)
        requires
            old(self)@.wf(),
            old(self)@.sp > 0,
        ensures
            final(self)@.wf(),
            r == old(self)@.stack[old(self)@.sp - 1],
            final(self)@.sp == old(self)@.sp - 1,
            final(self)@ == (C8State { sp: final(self)@.sp, ..old(self)@ }),
    {
        self.sp = self.sp - 1;
        self.stack[self.sp]
    }

    /// Copies a program image into memory at the program start.  An image
    /// that would run past the end of memory is refused whole: nothing is
    /// copied and the loader reports `LoadError`.
    pub fn load_program(&mut self, program: &Vec<u8>) -> (r: Result<(), Chip8Error>)
        requires
            old(self)@.wf(),
        ensures
            final(self)@.wf(),
            r is Ok <==> program@.len() <= 3584,
            match r {
                Ok(()) => {
                    &&& forall|k: int|
                        0 <= k < program@.len() ==> final(self)@.ram[0x200 + k] == program@[k]
                    &&& forall|k: int|
                        0 <= k < 4096 && !(0x200 <= k < 0x200 + program@.len())
                            ==> final(self)@.ram[k] == old(self)@.ram[k]
                    &&& final(self)@ == (C8State { ram: final(self)@.ram, ..old(self)@ })
                },
                Err(e) => e == Chip8Error::LoadError && final(self)@ == old(self)@,
            },
    {
        if program.len() > 4096 - PROGRAM_START {
            return Err(Chip8Error::LoadError);
        }
        let mut idx: usize = 0;
        while idx < program.len()
            invariant
                idx <= program@.len(),
                program@.len() <= 3584,
                self@.ram.len() == 4096,
                forall|k: int| 0 <= k < idx ==> self@.ram[0x200 + k] == program@[k],
                forall|k: int|
                    0 <= k < 4096 && !(0x200 <= k < 0x200 + idx)
                        ==> self@.ram[k] == old(self)@.ram[k],
                self@ == (C8State { ram: self@.ram, ..old(self)@ }),
            decreases program@.len() - idx,
        {
            self.ram.set(PROGRAM_START + idx, program[idx]);
            idx = idx + 1;
        }
        Ok(())
    }

    /// Read-only access to the display: a flat row-major grid, 32 rows of 64
    /// cells.
    pub fn get_display(&self) -> (d: &Vec<bool>)
        ensures
            d@ == self@.display,
    {
        &self.display
    }

    /// Turns every display pixel off.
    pub fn clear_display(&mut self)
        requires
            old(self)@.wf(),
        ensures
            final(self)@.wf(),
            forall|k: int| 0 <= k < 2048 ==> !final(self)@.display[k],
            final(self)@ == (C8State { display: final(self)@.display, ..old(self)@ }),
    {
        let mut idx: usize = 0;
        while idx < 2048
            invariant
                idx <= 2048,
                self@.display.len() == 2048,
                forall|k: int| 0 <= k < idx ==> !self@.display[k],
                self@ == (C8State { display: self@.display, ..old(self)@ }),
            decreases 2048 - idx,
        {
            self.display.set(idx, false);
            idx = idx + 1;
        }
    }
}

/// Relies on rand::random: a fresh byte from the thread-local generator.
/// Nothing is promised of the value; callers state what holds of every byte.
#[verifier::external_body]
pub(crate) fn random_byte() -> (r: u8) {
    rand::random::<u8>()
}

} // verus!
