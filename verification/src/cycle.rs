use vstd::prelude::*;

use crate::c8::{random_byte, Chip8};
use crate::semantics::{
    bit_weight, covers, draw_collision, draw_display, fetched, first_pressed, op_kk, op_nnn,
    op_x, skip_if, spec_alu, spec_call, spec_draw, spec_keys, spec_misc, spec_sys, sprite_bit,
    step_matches,
};
use crate::state::{C8State, Chip8Error};

verus! {

/// The cells the blit loops have already visited: all of the first `rdone`
/// sprite rows, and the first `cdone` columns of sprite row `rdone`.
spec fn processed(cx: int, cy: int, rdone: int, cdone: int, r: int, c: int) -> bool {
    r - cy < rdone || (r - cy == rdone && c - cx < cdone)
}

/// Display cell `k` once the blit has visited that region.
spec fn pix_after(
    d: Seq<bool>,
    sprite: Seq<u8>,
    cx: int,
    cy: int,
    rdone: int,
    cdone: int,
    k: int,
) -> bool {
    let r = k / 64;
    let c = k % 64;
    if covers(sprite.len() as int, cx, cy, r, c) && sprite_bit(sprite[r - cy], c - cx) && processed(
        cx,
        cy,
        rdone,
        cdone,
        r,
        c,
    ) {
        !d[k]
    } else {
        d[k]
    }
}

/// Has the blit found a lit cell under a set sprite bit within the visited
/// region?
spec fn hit_upto(d: Seq<bool>, sprite: Seq<u8>, cx: int, cy: int, rdone: int, cdone: int) -> bool {
    exists|r: int, c: int|
        covers(sprite.len() as int, cx, cy, r, c) && sprite_bit(sprite[r - cy], c - cx)
            && processed(cx, cy, rdone, cdone, r, c) && d[r * 64 + c]
}

/// The place value of sprite bit `j` as an executable value.
fn bit_weight_exec(j: usize) -> (w: u8)
    requires
        j < 8,
    ensures
        w as int == bit_weight(j as int),
{
    if j == 0 {
        128
    } else if j == 1 {
        64
    } else if j == 2 {
        32
    } else if j == 3 {
        16
    } else if j == 4 {
        8
    } else if j == 5 {
        4
    } else if j == 6 {
        2
    } else {
        1
    }
}

impl Chip8 {
    /// Family 0: clear-screen, return, and the ignored SYS instruction.
    fn exec_sys(&mut self, op: u16) -> (r: Result<(), Chip8Error>)
        requires
            old(self)@.wf(),
        ensures
            final(self)@.wf(),
            match r {
                Ok(()) => spec_sys(old(self)@, op) == Ok::<C8State, Chip8Error>(final(self)@),
                Err(e) => spec_sys(old(self)@, op) == Err::<C8State, Chip8Error>(e)
                    && final(self)@ == old(self)@,
            },
    {
        if op == 0x00E0 {
            self.clear_display();
            proof {
                assert(self@.display =~= Seq::new(2048, |k: int| false));
            }
            Ok(())
        } else if op == 0x00EE {
            if self.sp == 0 {
                return Err(Chip8Error::StackFault);
            }
            let addr = self.st_pop();
            self.pc = addr;
            Ok(())
        } else {
            Ok(())
        }
    }

    /// Family 2: call, pushing the already-advanced program counter.
    fn exec_call(&mut self, op: u16) -> (r: Result<(), Chip8Error>)
        requires
            old(self)@.wf(),
        ensures
            final(self)@.wf(),
            match r {
                Ok(()) => spec_call(old(self)@, op) == Ok::<C8State, Chip8Error>(final(self)@),
                Err(e) => spec_call(old(self)@, op) == Err::<C8State, Chip8Error>(e)
                    && final(self)@ == old(self)@,
            },
    {
        if self.sp >= 256 {
            return Err(Chip8Error::StackFault);
        }
        let ret = self.pc;
        self.st_push(ret);
        self.pc = op % 0x1000;
        Ok(())
    }

    /// Family 8: the ALU operations on (Vx, Vy), with the historical quirks
    /// of the shift and SUBN instructions.
    fn exec_alu(&mut self, op: u16)
        requires
            old(self)@.wf(),
        ensures
            final(self)@.wf(),
            final(self)@ == spec_alu(old(self)@, op),
    {
        let x = ((op / 0x100) % 0x10) as usize;
        let y = ((op / 0x10) % 0x10) as usize;
        let n = op % 0x10;
        let vx = self.v[x];
        let vy = self.v[y];
        if n == 0x0 {
            self.v.set(x, vy);
        } else if n == 0x1 {
            self.v.set(x, vx | vy);
        } else if n == 0x2 {
            self.v.set(x, vx & vy);
        } else if n == 0x3 {
            self.v.set(x, vx ^ vy);
        } else if n == 0x4 {
            let sum: u16 = vx as u16 + vy as u16;
            self.v.set(x, (sum % 256) as u8);
            self.v.set(15, if sum >= 256 { 1 } else { 0 });
        } else if n == 0x5 {
            let diff: u16 = (vx as u16 + 256 - vy as u16) % 256;
            self.v.set(x, diff as u8);
            self.v.set(15, if vx >= vy { 1 } else { 0 });
        } else if n == 0x6 {
            self.v.set(x, vy / 2);
            self.v.set(15, vy % 2);
        } else if n == 0x7 {
            let diff: u16 = (vy as u16 + 256 - vx as u16) % 256;
            self.v.set(y, diff as u8);
            self.v.set(15, if vy >= vx { 1 } else { 0 });
        } else if n == 0xE {
            self.v.set(x, ((vy as u16 * 2) % 256) as u8);
            self.v.set(15, vy / 128);
        }
    }

    /// Family F: timers, key wait, index arithmetic, glyph addressing,
    /// binary coded decimal, and the register block transfers.
    fn exec_misc(&mut self, op: u16, pressed_keys: &[bool; 16]) -> (r: Result<(), Chip8Error>)
        requires
            old(self)@.wf(),
            2 <= old(self)@.pc,
        ensures
            final(self)@.wf(),
            match r {
                Ok(()) => spec_misc(old(self)@, op, pressed_keys@) == Ok::<C8State, Chip8Error>(
                    final(self)@,
                ),
                Err(e) => spec_misc(old(self)@, op, pressed_keys@) == Err::<C8State, Chip8Error>(e)
                    && final(self)@ == old(self)@,
            },
    {
        let x = ((op / 0x100) % 0x10) as usize;
        let kk = op % 0x100;
        if kk == 0x07 {
            let t = self.dt;
            self.v.set(x, t);
            Ok(())
        } else if kk == 0x0A {
            let mut idx: usize = 0;
            while idx < 16 && !pressed_keys[idx]
                invariant
                    idx <= 16,
                    first_pressed(pressed_keys@, 0) == first_pressed(pressed_keys@, idx as int),
                decreases 16 - idx,
            {
                idx = idx + 1;
            }
            if idx < 16 {
                self.v.set(x, idx as u8);
            } else {
                self.pc = self.pc - 2;
            }
            Ok(())
        } else if kk == 0x15 {
            let t = self.v[x];
            self.dt = t;
            Ok(())
        } else if kk == 0x18 {
            let t = self.v[x];
            self.st = t;
            Ok(())
        } else if kk == 0x1E {
            let vx = self.v[x];
            let sum: u32 = self.i as u32 + vx as u32;
            let newi: u16 = if sum > 65535 { 65535 } else { sum as u16 };
            self.i = newi;
            if newi > 0xFFF {
                self.v.set(15, 1);
            }
            Ok(())
        } else if kk == 0x29 {
            let vx = self.v[x];
            self.i = 5 * (vx as u16);
            Ok(())
        } else if kk == 0x33 {
            if self.i > 4093 {
                return Err(Chip8Error::MemoryFault);
            }
            let i0 = self.i as usize;
            let vx = self.v[x];
            self.ram.set(i0, vx / 100);
            self.ram.set(i0 + 1, (vx / 10) % 10);
            self.ram.set(i0 + 2, vx % 10);
            Ok(())
        } else if kk == 0x55 {
            if self.i as usize + x >= 4096 {
                return Err(Chip8Error::MemoryFault);
            }
            let i0 = self.i as usize;
            let mut j: usize = 0;
            while j < x + 1
                invariant
                    old(self)@.wf(),
                    j <= x + 1,
                    x < 16,
                    i0 + x < 4096,
                    i0 == self@.i,
                    self@.ram.len() == 4096,
                    self@.v == old(self)@.v,
                    forall|k: int| i0 <= k < i0 + j ==> self@.ram[k] == old(self)@.v[k - i0],
                    forall|k: int|
                        0 <= k < 4096 && !(i0 <= k < i0 + j) ==> self@.ram[k] == old(self)@.ram[k],
                    self@ == (C8State { ram: self@.ram, ..old(self)@ }),
                decreases x + 1 - j,
            {
                let t = self.v[j];
                self.ram.set(i0 + j, t);
                j = j + 1;
            }
            proof {
                assert(self@.ram =~= Seq::new(
                    4096,
                    |k: int|
                        if old(self)@.i <= k <= old(self)@.i + op_x(op) {
                            old(self)@.v[k - old(self)@.i]
                        } else {
                            old(self)@.ram[k]
                        },
                ));
            }
            Ok(())
        } else if kk == 0x65 {
            if self.i as usize + x >= 4096 {
                return Err(Chip8Error::MemoryFault);
            }
            let i0 = self.i as usize;
            let mut j: usize = 0;
            while j < x + 1
                invariant
                    old(self)@.wf(),
                    j <= x + 1,
                    x < 16,
                    i0 + x < 4096,
                    i0 == self@.i,
                    self@.v.len() == 16,
                    self@.ram == old(self)@.ram,
                    forall|k: int| 0 <= k < j ==> self@.v[k] == old(self)@.ram[i0 + k],
                    forall|k: int| j <= k < 16 ==> self@.v[k] == old(self)@.v[k],
                    self@ == (C8State { v: self@.v, ..old(self)@ }),
                decreases x + 1 - j,
            {
                let t = self.ram[i0 + j];
                self.v.set(j, t);
                j = j + 1;
            }
            proof {
                assert(self@.v =~= Seq::new(
                    16,
                    |k: int|
                        if 0 <= k <= op_x(op) {
                            old(self)@.ram[old(self)@.i + k]
                        } else {
                            old(self)@.v[k]
                        },
                ));
            }
            Ok(())
        } else {
            Ok(())
        }
    }

    /// Family D: the sprite blit.  Reads the `n`-byte sprite at I, XORs it
    /// onto the display at (Vx mod 64, Vy mod 32) clipping at the edges, and
    /// raises VF exactly when a set sprite bit lands on a lit cell.
    fn exec_draw(&mut self, op: u16) -> (r: Result<(), Chip8Error>)
        requires
            old(self)@.wf(),
        ensures
            final(self)@.wf(),
            match r {
                Ok(()) => spec_draw(old(self)@, op) == Ok::<C8State, Chip8Error>(final(self)@),
                Err(e) => spec_draw(old(self)@, op) == Err::<C8State, Chip8Error>(e)
                    && final(self)@ == old(self)@,
            },
    {
        let n = (op % 0x10) as usize;
        if self.i as usize + n > 4096 {
            return Err(Chip8Error::MemoryFault);
        }
        let x = ((op / 0x100) % 0x10) as usize;
        let y = ((op / 0x10) % 0x10) as usize;
        let i0 = self.i as usize;
        let cx = (self.v[x] % 64) as usize;
        let cy = (self.v[y] % 32) as usize;
        let ghost sprite = self@.ram.subrange(i0 as int, i0 as int + n as int);
        let ghost d0 = self@.display;
        let rows = if n < 32 - cy {
            n
        } else {
            32 - cy
        };
        let cols = if 8 < 64 - cx {
            8
        } else {
            64 - cx
        };
        let mut hit = false;
        let mut row: usize = 0;
        proof {
            assert(!hit_upto(d0, sprite, cx as int, cy as int, 0, 0)) by {
                if hit_upto(d0, sprite, cx as int, cy as int, 0, 0) {
                    let (r0, c0) = choose|r0: int, c0: int|
                        covers(sprite.len() as int, cx as int, cy as int, r0, c0) && sprite_bit(
                            sprite[r0 - cy],
                            c0 - cx,
                        ) && processed(cx as int, cy as int, 0, 0, r0, c0) && d0[r0 * 64 + c0];
                    assert(r0 - cy >= 0 && c0 - cx >= 0);
                    assert(false);
                }
            };
        }
        while row < rows
            invariant
                old(self)@.wf(),
                row <= rows,
                n <= 15,
                i0 == old(self)@.i,
                i0 + n <= 4096,
                cx < 64,
                cy < 32,
                rows as int == (if (n as int) < 32 - cy { n as int } else { 32 - cy }),
                cols as int == (if 8 < 64 - (cx as int) { 8int } else { 64 - cx }),
                sprite == old(self)@.ram.subrange(i0 as int, i0 as int + n as int),
                sprite.len() == n,
                d0 == old(self)@.display,
                self@.display.len() == 2048,
                forall|k: int|
                    0 <= k < 2048 ==> self@.display[k] == pix_after(
                        d0,
                        sprite,
                        cx as int,
                        cy as int,
                        row as int,
                        0,
                        k,
                    ),
                hit == hit_upto(d0, sprite, cx as int, cy as int, row as int, 0),
                self@ == (C8State { display: self@.display, ..old(self)@ }),
            decreases rows - row,
        {
            let rowdata = self.ram[i0 + row];
            let mut col: usize = 0;
            while col < cols
                invariant
                    old(self)@.wf(),
                    row < rows,
                    col <= cols,
                    n <= 15,
                    i0 == old(self)@.i,
                    i0 + n <= 4096,
                    cx < 64,
                    cy < 32,
                    rows as int == (if (n as int) < 32 - cy { n as int } else { 32 - cy }),
                    cols as int == (if 8 < 64 - (cx as int) { 8int } else { 64 - cx }),
                    sprite == old(self)@.ram.subrange(i0 as int, i0 as int + n as int),
                    sprite.len() == n,
                    rowdata == sprite[row as int],
                    d0 == old(self)@.display,
                    self@.display.len() == 2048,
                    forall|k: int|
                        0 <= k < 2048 ==> self@.display[k] == pix_after(
                            d0,
                            sprite,
                            cx as int,
                            cy as int,
                            row as int,
                            col as int,
                            k,
                        ),
                    hit == hit_upto(d0, sprite, cx as int, cy as int, row as int, col as int),
                    self@ == (C8State { display: self@.display, ..old(self)@ }),
                decreases cols - col,
            {
                let weight = bit_weight_exec(col);
                let bit = (rowdata / weight) % 2 == 1;
                let idx = (cy + row) * 64 + (cx + col);
                let ghost old_hit = hit;
                let pix = self.display[idx];
                if pix && bit {
                    hit = true;
                }
                self.display.set(idx, pix != bit);
                proof {
                    let cxi = cx as int;
                    let cyi = cy as int;
                    let rowi = row as int;
                    let coli = col as int;
                    let ri = cyi + rowi;
                    let ci = cxi + coli;
                    let idxi = idx as int;
                    assert(idxi / 64 == ri && idxi % 64 == ci) by (nonlinear_arith)
                        requires
                            idxi == ri * 64 + ci,
                            0 <= ci < 64,
                            0 <= ri,
                    ;
                    assert(covers(sprite.len() as int, cxi, cyi, ri, ci));
                    assert(bit == sprite_bit(sprite[rowi], coli));
                    assert(pix == d0[idxi]);
                    assert forall|k: int| 0 <= k < 2048 implies self@.display[k] == pix_after(
                        d0,
                        sprite,
                        cxi,
                        cyi,
                        rowi,
                        coli + 1,
                        k,
                    ) by {
                        let r = k / 64;
                        let c = k % 64;
                        assert(k == r * 64 + c && 0 <= c < 64) by (nonlinear_arith)
                            requires
                                r == k / 64,
                                c == k % 64,
                                0 <= k,
                        ;
                        if k != idxi {
                            assert(!(r == ri && c == ci));
                        }
                    }
                    let new_hit = old_hit || (pix && bit);
                    assert(new_hit == hit_upto(d0, sprite, cxi, cyi, rowi, coli + 1)) by {
                        if old_hit {
                            let (r0, c0) = choose|r0: int, c0: int|
                                covers(sprite.len() as int, cxi, cyi, r0, c0) && sprite_bit(
                                    sprite[r0 - cyi],
                                    c0 - cxi,
                                ) && processed(cxi, cyi, rowi, coli, r0, c0) && d0[r0 * 64 + c0];
                            assert(processed(cxi, cyi, rowi, coli + 1, r0, c0));
                            assert(hit_upto(d0, sprite, cxi, cyi, rowi, coli + 1));
                        } else if pix && bit {
                            assert(covers(sprite.len() as int, cxi, cyi, ri, ci) && sprite_bit(
                                sprite[ri - cyi],
                                ci - cxi,
                            ) && processed(cxi, cyi, rowi, coli + 1, ri, ci) && d0[ri * 64 + ci]);
                            assert(hit_upto(d0, sprite, cxi, cyi, rowi, coli + 1));
                        } else {
                            if hit_upto(d0, sprite, cxi, cyi, rowi, coli + 1) {
                                let (r0, c0) = choose|r0: int, c0: int|
                                    covers(sprite.len() as int, cxi, cyi, r0, c0) && sprite_bit(
                                        sprite[r0 - cyi],
                                        c0 - cxi,
                                    ) && processed(cxi, cyi, rowi, coli + 1, r0, c0) && d0[r0 * 64
                                    + c0];
                                if processed(cxi, cyi, rowi, coli, r0, c0) {
                                    assert(hit_upto(d0, sprite, cxi, cyi, rowi, coli));
                                    assert(false);
                                } else {
                                    assert(r0 == ri && c0 == ci);
                                    assert(false);
                                }
                            }
                        }
                    };
                }
                col = col + 1;
            }
            proof {
                let cxi = cx as int;
                let cyi = cy as int;
                let rowi = row as int;
                let colsi = cols as int;
                assert forall|k: int| 0 <= k < 2048 implies pix_after(
                    d0,
                    sprite,
                    cxi,
                    cyi,
                    rowi,
                    colsi,
                    k,
                ) == pix_after(d0, sprite, cxi, cyi, rowi + 1, 0, k) by {
                    let r = k / 64;
                    let c = k % 64;
                    assert(k == r * 64 + c && 0 <= c < 64) by (nonlinear_arith)
                        requires
                            r == k / 64,
                            c == k % 64,
                            0 <= k,
                    ;
                }
                assert(hit_upto(d0, sprite, cxi, cyi, rowi, colsi) == hit_upto(
                    d0,
                    sprite,
                    cxi,
                    cyi,
                    rowi + 1,
                    0,
                )) by {
                    if hit_upto(d0, sprite, cxi, cyi, rowi, colsi) {
                        let (r0, c0) = choose|r0: int, c0: int|
                            covers(sprite.len() as int, cxi, cyi, r0, c0) && sprite_bit(
                                sprite[r0 - cyi],
                                c0 - cxi,
                            ) && processed(cxi, cyi, rowi, colsi, r0, c0) && d0[r0 * 64 + c0];
                        assert(processed(cxi, cyi, rowi + 1, 0, r0, c0));
                        assert(hit_upto(d0, sprite, cxi, cyi, rowi + 1, 0));
                    }
                    if hit_upto(d0, sprite, cxi, cyi, rowi + 1, 0) {
                        let (r1, c1) = choose|r1: int, c1: int|
                            covers(sprite.len() as int, cxi, cyi, r1, c1) && sprite_bit(
                                sprite[r1 - cyi],
                                c1 - cxi,
                            ) && processed(cxi, cyi, rowi + 1, 0, r1, c1) && d0[r1 * 64 + c1];
                        assert(processed(cxi, cyi, rowi, colsi, r1, c1));
                        assert(hit_upto(d0, sprite, cxi, cyi, rowi, colsi));
                    }
                };
            }
            row = row + 1;
        }
        self.v.set(15, if hit { 1 } else { 0 });
        proof {
            let cxi = cx as int;
            let cyi = cy as int;
            let rowsi = rows as int;
            assert forall|k: int| 0 <= k < 2048 implies pix_after(
                d0,
                sprite,
                cxi,
                cyi,
                rowsi,
                0,
                k,
            ) == draw_display(d0, sprite, cxi, cyi)[k] by {
                let r = k / 64;
                let c = k % 64;
                assert(k == r * 64 + c && 0 <= c < 64) by (nonlinear_arith)
                    requires
                        r == k / 64,
                        c == k % 64,
                        0 <= k,
                ;
            }
            assert(self@.display =~= draw_display(d0, sprite, cxi, cyi));
            assert(hit == draw_collision(d0, sprite, cxi, cyi)) by {
                if hit_upto(d0, sprite, cxi, cyi, rowsi, 0) {
                    let (r0, c0) = choose|r0: int, c0: int|
                        covers(sprite.len() as int, cxi, cyi, r0, c0) && sprite_bit(
                            sprite[r0 - cyi],
                            c0 - cxi,
                        ) && processed(cxi, cyi, rowsi, 0, r0, c0) && d0[r0 * 64 + c0];
                    assert(draw_collision(d0, sprite, cxi, cyi));
                }
                if draw_collision(d0, sprite, cxi, cyi) {
                    let (r1, c1) = choose|r1: int, c1: int|
                        covers(sprite.len() as int, cxi, cyi, r1, c1) && sprite_bit(
                            sprite[r1 - cyi],
                            c1 - cxi,
                        ) && d0[r1 * 64 + c1];
                    assert(processed(cxi, cyi, rowsi, 0, r1, c1));
                    assert(hit_upto(d0, sprite, cxi, cyi, rowsi, 0));
                }
            };
        }
        Ok(())
    }

    /// One fetch-decode-execute cycle against the key-state snapshot the
    /// driver supplies.  The behaviour is exactly `step_spec`: on success the
    /// new state is the one the reference gives, and on a fault the error is
    /// the one the reference gives and the state is left untouched.  The
    /// quantified byte stands for what the random source handed the RND
    /// instruction; every other instruction ignores it.
    pub fn fde_loop(&mut self, pressed_keys: &[bool; 16]) -> (r: Result<(), Chip8Error>)
        requires
            old(self)@.wf(),
        ensures
            final(self)@.wf(),
            exists|rnd: u8|
                #[trigger] step_matches(old(self)@, pressed_keys@, rnd, final(self)@, r),
    {
        let ghost pre = self@;
        let ghost keys = pressed_keys@;

        if self.pc >= 4095 {
            proof {
                assert(step_matches(
                    pre,
                    keys,
                    0u8,
                    self@,
                    Err::<(), Chip8Error>(Chip8Error::MemoryFault),
                ));
            }
            return Err(Chip8Error::MemoryFault);
        }
        // Fetch two consecutive bytes, big-endian, and advance the program
        // counter before executing, so a jump is not overwritten.
        let pc0 = self.pc as usize;
        let b0 = self.ram[pc0];
        let b1 = self.ram[pc0 + 1];
        let instruction: u16 = (b0 as u16) * 256 + (b1 as u16);
        self.pc = self.pc + 2;

        let ghost s0 = self@;
        proof {
            assert(instruction == fetched(pre));
            assert(s0 =~= (C8State { pc: (pre.pc + 2) as u16, ..pre }));
        }
        // Decode the instruction fields and dispatch on the top nibble.
        let top = instruction / 0x1000;
        let x = ((instruction / 0x100) % 0x10) as usize;
        let kk = (instruction % 0x100) as u8;
        let nnn = instruction % 0x1000;

        if top == 0x0 {
            match self.exec_sys(instruction) {
                Ok(()) => {
                    proof {
                        assert(step_matches(pre, keys, 0u8, self@, Ok::<(), Chip8Error>(())));
                    }
                    Ok(())
                },
                Err(e) => {
                    self.pc = self.pc - 2;
                    proof {
                        assert(self@ =~= pre);
                        assert(step_matches(pre, keys, 0u8, self@, Err::<(), Chip8Error>(e)));
                    }
                    Err(e)
                },
            }
        } else if top == 0x1 {
            self.pc = nnn;
            proof {
                assert(self@ =~= (C8State { pc: op_nnn(instruction), ..s0 }));
                assert(step_matches(pre, keys, 0u8, self@, Ok::<(), Chip8Error>(())));
            }
            Ok(())
        } else if top == 0x2 {
            match self.exec_call(instruction) {
                Ok(()) => {
                    proof {
                        assert(step_matches(pre, keys, 0u8, self@, Ok::<(), Chip8Error>(())));
                    }
                    Ok(())
                },
                Err(e) => {
                    self.pc = self.pc - 2;
                    proof {
                        assert(self@ =~= pre);
                        assert(step_matches(pre, keys, 0u8, self@, Err::<(), Chip8Error>(e)));
                    }
                    Err(e)
                },
            }
        } else if top == 0x3 {
            if self.v[x] == kk {
                self.pc = self.pc + 2;
            }
            proof {
                assert(self@ =~= skip_if(s0, s0.v[op_x(instruction)] == op_kk(instruction)));
                assert(step_matches(pre, keys, 0u8, self@, Ok::<(), Chip8Error>(())));
            }
            Ok(())
        } else if top == 0x4 {
            if self.v[x] != kk {
                self.pc = self.pc + 2;
            }
            proof {
                assert(self@ =~= skip_if(s0, s0.v[op_x(instruction)] != op_kk(instruction)));
                assert(step_matches(pre, keys, 0u8, self@, Ok::<(), Chip8Error>(())));
            }
            Ok(())
        } else if top == 0x5 {
            let y = ((instruction / 0x10) % 0x10) as usize;
            if instruction % 0x10 == 0 {
                if self.v[x] == self.v[y] {
                    self.pc = self.pc + 2;
                }
            }
            proof {
                assert(step_matches(pre, keys, 0u8, self@, Ok::<(), Chip8Error>(())));
            }
            Ok(())
        } else if top == 0x6 {
            self.v.set(x, kk);
            proof {
                assert(self@ =~= (C8State {
                    v: s0.v.update(op_x(instruction), op_kk(instruction)),
                    ..s0
                }));
                assert(step_matches(pre, keys, 0u8, self@, Ok::<(), Chip8Error>(())));
            }
            Ok(())
        } else if top == 0x7 {
            let vx = self.v[x];
            let sum: u16 = vx as u16 + kk as u16;
            self.v.set(x, (sum % 256) as u8);
            proof {
                assert(step_matches(pre, keys, 0u8, self@, Ok::<(), Chip8Error>(())));
            }
            Ok(())
        } else if top == 0x8 {
            self.exec_alu(instruction);
            proof {
                assert(step_matches(pre, keys, 0u8, self@, Ok::<(), Chip8Error>(())));
            }
            Ok(())
        } else if top == 0x9 {
            let y = ((instruction / 0x10) % 0x10) as usize;
            if instruction % 0x10 == 0 {
                if self.v[x] != self.v[y] {
                    self.pc = self.pc + 2;
                }
            }
            proof {
                assert(step_matches(pre, keys, 0u8, self@, Ok::<(), Chip8Error>(())));
            }
            Ok(())
        } else if top == 0xA {
            self.i = nnn;
            proof {
                assert(step_matches(pre, keys, 0u8, self@, Ok::<(), Chip8Error>(())));
            }
            Ok(())
        } else if top == 0xB {
            let v0 = self.v[0];
            self.pc = nnn + v0 as u16;
            proof {
                assert(step_matches(pre, keys, 0u8, self@, Ok::<(), Chip8Error>(())));
            }
            Ok(())
        } else if top == 0xC {
            let rb = random_byte();
            self.v.set(x, rb & kk);
            proof {
                assert(self@ =~= (C8State {
                    v: s0.v.update(op_x(instruction), rb & op_kk(instruction)),
                    ..s0
                }));
                assert(step_matches(pre, keys, rb, self@, Ok::<(), Chip8Error>(())));
            }
            Ok(())
        } else if top == 0xD {
            match self.exec_draw(instruction) {
                Ok(()) => {
                    proof {
                        assert(step_matches(pre, keys, 0u8, self@, Ok::<(), Chip8Error>(())));
                    }
                    Ok(())
                },
                Err(e) => {
                    self.pc = self.pc - 2;
                    proof {
                        assert(self@ =~= pre);
                        assert(step_matches(pre, keys, 0u8, self@, Err::<(), Chip8Error>(e)));
                    }
                    Err(e)
                },
            }
        } else if top == 0xE {
            self.exec_keys(instruction, pressed_keys);
            proof {
                assert(step_matches(pre, keys, 0u8, self@, Ok::<(), Chip8Error>(())));
            }
            Ok(())
        } else {
            match self.exec_misc(instruction, pressed_keys) {
                Ok(()) => {
                    proof {
                        assert(step_matches(pre, keys, 0u8, self@, Ok::<(), Chip8Error>(())));
                    }
                    Ok(())
                },
                Err(e) => {
                    self.pc = self.pc - 2;
                    proof {
                        assert(self@ =~= pre);
                        assert(step_matches(pre, keys, 0u8, self@, Err::<(), Chip8Error>(e)));
                    }
                    Err(e)
                },
            }
        }
    }

    /// Family E: skip on the state of the key Vx names.
    fn exec_keys(&mut self, op: u16, pressed_keys: &[bool; 16])
        requires
            old(self)@.wf(),
            old(self)@.pc <= 4096,
        ensures
            final(self)@.wf(),
            final(self)@ == spec_keys(old(self)@, op, pressed_keys@),
    {
        let x = ((op / 0x100) % 0x10) as usize;
        let kk = op % 0x100;
        if kk == 0x9E {
            let vx = self.v[x];
            if vx < 16 && pressed_keys[vx as usize] {
                self.pc = self.pc + 2;
            }
        } else if kk == 0xA1 {
            let vx = self.v[x];
            if !(vx < 16 && pressed_keys[vx as usize]) {
                self.pc = self.pc + 2;
            }
        }
    }
}

} // verus!
