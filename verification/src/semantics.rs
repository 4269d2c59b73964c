use vstd::prelude::*;

use crate::state::{C8State, Chip8Error};

verus! {

// ---------------------------------------------------------------------------
// Decoding a 16-bit instruction word into its fields.
// ---------------------------------------------------------------------------

/// The instruction word fetched at `pc`: two consecutive bytes, big-endian.
pub open spec fn fetched(s: C8State) -> u16 {
    (s.ram[s.pc as int] * 256 + s.ram[s.pc as int + 1]) as u16
}

/// The top nibble: selects one of the sixteen instruction families.
pub open spec fn op_top(op: u16) -> int {
    (op as int) / 0x1000
}

/// The second nibble: the first register index.
pub open spec fn op_x(op: u16) -> int {
    ((op as int) / 0x100) % 0x10
}

/// The third nibble: the second register index.
pub open spec fn op_y(op: u16) -> int {
    ((op as int) / 0x10) % 0x10
}

/// The low byte.
pub open spec fn op_kk(op: u16) -> u8 {
    ((op as int) % 0x100) as u8
}

/// The low 12 bits: an address.
pub open spec fn op_nnn(op: u16) -> u16 {
    ((op as int) % 0x1000) as u16
}

/// The low nibble.
pub open spec fn op_n(op: u16) -> int {
    (op as int) % 0x10
}

// ---------------------------------------------------------------------------
// Arithmetic helpers.
// ---------------------------------------------------------------------------

/// Subtraction wrapped modulo 256.
pub open spec fn byte_sub(a: u8, b: u8) -> u8 {
    ((a - b + 256) % 256) as u8
}

// ---------------------------------------------------------------------------
// Sprite drawing.
// ---------------------------------------------------------------------------

/// The place value of sprite bit `j`, most significant bit first.
pub open spec fn bit_weight(j: int) -> int {
    if j == 0 {
        128
    } else if j == 1 {
        64
    } else if j == 2 {
        32
    } else if j == 3 {
        16
    } else if j == 4 {
        8
    } else if j == 5 {
        4
    } else if j == 6 {
        2
    } else {
        1
    }
}

/// True when bit `j` of sprite byte `b` is set, counting from the most
/// significant bit: bit 0 lands on the leftmost pixel of the row.
pub open spec fn sprite_bit(b: u8, j: int) -> bool {
    ((b as int) / bit_weight(j)) % 2 == 1
}

/// Does a sprite of `rows` rows whose top-left corner is (cx, cy) put a bit
/// on the in-bounds cell at row `r`, column `c`?  Cells past the right or
/// bottom edge of the grid are clipped, never wrapped.
pub open spec fn covers(rows: int, cx: int, cy: int, r: int, c: int) -> bool {
    &&& cy <= r < cy + rows
    &&& r < 32
    &&& cx <= c < cx + 8
    &&& c < 64
}

/// The display after XOR-blitting `sprite` with its top-left corner at
/// (cx, cy): a covered cell whose sprite bit is set is toggled, every other
/// cell keeps its value.
pub open spec fn draw_display(d: Seq<bool>, sprite: Seq<u8>, cx: int, cy: int) -> Seq<bool> {
    Seq::new(
        2048,
        |k: int|
            {
                let r = k / 64;
                let c = k % 64;
                if covers(sprite.len() as int, cx, cy, r, c) && sprite_bit(sprite[r - cy], c - cx) {
                    !d[k]
                } else {
                    d[k]
                }
            },
    )
}

/// True when the blit turns some lit cell off again: a set sprite bit lands
/// on a cell that is already on.
pub open spec fn draw_collision(d: Seq<bool>, sprite: Seq<u8>, cx: int, cy: int) -> bool {
    exists|r: int, c: int|
        covers(sprite.len() as int, cx, cy, r, c) && sprite_bit(sprite[r - cy], c - cx) && d[r * 64
            + c]
}

// ---------------------------------------------------------------------------
// The sixteen instruction families.
// ---------------------------------------------------------------------------

/// The state after skipping the next instruction when `cond` holds.
pub open spec fn skip_if(s: C8State, cond: bool) -> C8State {
    if cond {
        C8State { pc: (s.pc + 2) as u16, ..s }
    } else {
        s
    }
}

/// True when register value `vx` names a pressed key.  An index outside the
/// sixteen-key pad reads as released.
pub open spec fn key_down(keys: Seq<bool>, vx: u8) -> bool {
    vx < 16 && keys[vx as int]
}

/// The lowest-indexed pressed key at or above `from`, if any.
pub open spec fn first_pressed(keys: Seq<bool>, from: int) -> Option<u8>
    decreases 16 - from,
{
    if from < 0 || from >= 16 {
        None
    } else if keys[from] {
        Some(from as u8)
    } else {
        first_pressed(keys, from + 1)
    }
}

/// Family 0: clear-screen, return, and the ignored SYS instruction.
pub open spec fn spec_sys(s: C8State, op: u16) -> Result<C8State, Chip8Error> {
    if op == 0x00E0 {
        Ok(C8State { display: Seq::new(2048, |k: int| false), ..s })
    } else if op == 0x00EE {
        if s.sp == 0 {
            Err(Chip8Error::StackFault)
        } else {
            Ok(C8State { pc: s.stack[s.sp - 1], sp: s.sp - 1, ..s })
        }
    } else {
        Ok(s)
    }
}

/// Family 2: call, pushing the already-advanced program counter.
pub open spec fn spec_call(s: C8State, op: u16) -> Result<C8State, Chip8Error> {
    if s.sp >= 256 {
        Err(Chip8Error::StackFault)
    } else {
        Ok(C8State { stack: s.stack.update(s.sp, s.pc), sp: s.sp + 1, pc: op_nnn(op), ..s })
    }
}

/// Family 8: the register-to-register ALU operations on (Vx, Vy).
///
/// The historical quirks are deliberate: both shifts read Vy, not Vx, and
/// SUBN stores its difference into Vy.
pub open spec fn spec_alu(s: C8State, op: u16) -> C8State {
    let x = op_x(op);
    let y = op_y(op);
    let n = op_n(op);
    let vx = s.v[x];
    let vy = s.v[y];
    if n == 0x0 {
        C8State { v: s.v.update(x, vy), ..s }
    } else if n == 0x1 {
        C8State { v: s.v.update(x, vx | vy), ..s }
    } else if n == 0x2 {
        C8State { v: s.v.update(x, vx & vy), ..s }
    } else if n == 0x3 {
        C8State { v: s.v.update(x, vx ^ vy), ..s }
    } else if n == 0x4 {
        C8State {
            v: s.v.update(x, ((vx + vy) % 256) as u8).update(
                15,
                if vx + vy >= 256 { 1u8 } else { 0u8 },
            ),
            ..s
        }
    } else if n == 0x5 {
        C8State {
            v: s.v.update(x, byte_sub(vx, vy)).update(15, if vx >= vy { 1u8 } else { 0u8 }),
            ..s
        }
    } else if n == 0x6 {
        C8State {
            v: s.v.update(x, ((vy as int) / 2) as u8).update(15, ((vy as int) % 2) as u8),
            ..s
        }
    } else if n == 0x7 {
        C8State {
            v: s.v.update(y, byte_sub(vy, vx)).update(15, if vy >= vx { 1u8 } else { 0u8 }),
            ..s
        }
    } else if n == 0xE {
        C8State {
            v: s.v.update(x, ((vy as int * 2) % 256) as u8).update(15, ((vy as int) / 128) as u8),
            ..s
        }
    } else {
        s
    }
}

/// Family D: the sprite blit.  The sprite is the `n` bytes at I; a read past
/// the end of memory is a fault that leaves the state unchanged.
pub open spec fn spec_draw(s: C8State, op: u16) -> Result<C8State, Chip8Error> {
    let n = op_n(op);
    if s.i + n > 4096 {
        Err(Chip8Error::MemoryFault)
    } else {
        let sprite = s.ram.subrange(s.i as int, s.i + n);
        let cx = (s.v[op_x(op)] as int) % 64;
        let cy = (s.v[op_y(op)] as int) % 32;
        Ok(
            C8State {
                display: draw_display(s.display, sprite, cx, cy),
                v: s.v.update(
                    15,
                    if draw_collision(s.display, sprite, cx, cy) { 1u8 } else { 0u8 },
                ),
                ..s
            },
        )
    }
}

/// Family E: skip on key state.
pub open spec fn spec_keys(s: C8State, op: u16, keys: Seq<bool>) -> C8State {
    if op_kk(op) == 0x9E {
        skip_if(s, key_down(keys, s.v[op_x(op)]))
    } else if op_kk(op) == 0xA1 {
        skip_if(s, !key_down(keys, s.v[op_x(op)]))
    } else {
        s
    }
}

/// Family F: timers, key wait, index arithmetic, glyph addressing, binary
/// coded decimal, and the register block transfers.
pub open spec fn spec_misc(s: C8State, op: u16, keys: Seq<bool>) -> Result<C8State, Chip8Error> {
    let x = op_x(op);
    let kk = op_kk(op);
    if kk == 0x07 {
        Ok(C8State { v: s.v.update(x, s.dt), ..s })
    } else if kk == 0x0A {
        match first_pressed(keys, 0) {
            Some(key) => Ok(C8State { v: s.v.update(x, key), ..s }),
            None => Ok(C8State { pc: (s.pc - 2) as u16, ..s }),
        }
    } else if kk == 0x15 {
        Ok(C8State { dt: s.v[x], ..s })
    } else if kk == 0x18 {
        Ok(C8State { st: s.v[x], ..s })
    } else if kk == 0x1E {
        let sum = s.i + s.v[x];
        let newi = if sum > 65535 { 65535u16 } else { sum as u16 };
        Ok(
            C8State {
                i: newi,
                v: if newi > 0xFFF { s.v.update(15, 1u8) } else { s.v },
                ..s
            },
        )
    } else if kk == 0x29 {
        Ok(C8State { i: (5 * s.v[x]) as u16, ..s })
    } else if kk == 0x33 {
        if s.i + 2 >= 4096 {
            Err(Chip8Error::MemoryFault)
        } else {
            let vx = s.v[x] as int;
            Ok(
                C8State {
                    ram: s.ram.update(s.i as int, (vx / 100) as u8).update(
                        s.i + 1,
                        ((vx / 10) % 10) as u8,
                    ).update(s.i + 2, (vx % 10) as u8),
                    ..s
                },
            )
        }
    } else if kk == 0x55 {
        if s.i + x >= 4096 {
            Err(Chip8Error::MemoryFault)
        } else {
            Ok(
                C8State {
                    ram: Seq::new(
                        4096,
                        |k: int|
                            if s.i <= k <= s.i + x {
                                s.v[k - s.i]
                            } else {
                                s.ram[k]
                            },
                    ),
                    ..s
                },
            )
        }
    } else if kk == 0x65 {
        if s.i + x >= 4096 {
            Err(Chip8Error::MemoryFault)
        } else {
            Ok(
                C8State {
                    v: Seq::new(
                        16,
                        |k: int|
                            if 0 <= k <= x {
                                s.ram[s.i + k]
                            } else {
                                s.v[k]
                            },
                    ),
                    ..s
                },
            )
        }
    } else {
        Ok(s)
    }
}

/// Executes the decoded instruction `op` on a state whose program counter has
/// already been advanced past it.  `rnd` stands for the byte the random
/// source hands the RND instruction; every other family ignores it.
pub open spec fn spec_execute(s: C8State, op: u16, keys: Seq<bool>, rnd: u8) -> Result<
    C8State,
    Chip8Error,
> {
    let top = op_top(op);
    if top == 0x0 {
        spec_sys(s, op)
    } else if top == 0x1 {
        Ok(C8State { pc: op_nnn(op), ..s })
    } else if top == 0x2 {
        spec_call(s, op)
    } else if top == 0x3 {
        Ok(skip_if(s, s.v[op_x(op)] == op_kk(op)))
    } else if top == 0x4 {
        Ok(skip_if(s, s.v[op_x(op)] != op_kk(op)))
    } else if top == 0x5 {
        Ok(if op_n(op) == 0 { skip_if(s, s.v[op_x(op)] == s.v[op_y(op)]) } else { s })
    } else if top == 0x6 {
        Ok(C8State { v: s.v.update(op_x(op), op_kk(op)), ..s })
    } else if top == 0x7 {
        Ok(C8State { v: s.v.update(op_x(op), ((s.v[op_x(op)] + op_kk(op)) % 256) as u8), ..s })
    } else if top == 0x8 {
        Ok(spec_alu(s, op))
    } else if top == 0x9 {
        Ok(if op_n(op) == 0 { skip_if(s, s.v[op_x(op)] != s.v[op_y(op)]) } else { s })
    } else if top == 0xA {
        Ok(C8State { i: op_nnn(op), ..s })
    } else if top == 0xB {
        Ok(C8State { pc: (op_nnn(op) + s.v[0]) as u16, ..s })
    } else if top == 0xC {
        Ok(C8State { v: s.v.update(op_x(op), rnd & op_kk(op)), ..s })
    } else if top == 0xD {
        spec_draw(s, op)
    } else if top == 0xE {
        Ok(spec_keys(s, op, keys))
    } else {
        spec_misc(s, op, keys)
    }
}

/// One whole fetch-decode-execute step: the mathematical reference that
/// `Chip8::fde_loop` implements.  A fetch past the end of memory is a fault;
/// otherwise the program counter advances by two before the instruction runs,
/// so a jump it performs is not overwritten.
pub open spec fn step_spec(pre: C8State, keys: Seq<bool>, rnd: u8) -> Result<C8State, Chip8Error> {
    if pre.pc + 1 >= 4096 {
        Err(Chip8Error::MemoryFault)
    } else {
        let op = fetched(pre);
        let s = C8State { pc: (pre.pc + 2) as u16, ..pre };
        spec_execute(s, op, keys, rnd)
    }
}

/// Relates one call of the step function to its reference: on success the new
/// state is exactly what `step_spec` gives; on a fault the state is untouched
/// and the error is the one `step_spec` gives.
pub open spec fn step_matches(
    pre: C8State,
    keys: Seq<bool>,
    rnd: u8,
    post: C8State,
    r: Result<(), Chip8Error>,
) -> bool {
    match r {
        Ok(()) => step_spec(pre, keys, rnd) == Ok::<C8State, Chip8Error>(post),
        Err(e) => step_spec(pre, keys, rnd) == Err::<C8State, Chip8Error>(e) && post == pre,
    }
}

} // verus!
