use vstd::prelude::*;

use crate::semantics::{
    draw_collision, draw_display, fetched, op_kk, op_n, op_nnn, op_top, op_x, op_y, step_spec,
};
use crate::state::{C8State, Chip8Error};

verus! {

/// Loading a constant: after `6xkk`, register Vx holds exactly kk.
pub proof fn lemma_ld_const(pre: C8State, keys: Seq<bool>, rnd: u8)
    requires
        pre.wf(),
        pre.pc + 1 < 4096,
        op_top(fetched(pre)) == 0x6,
    ensures
        ({
            &&& step_spec(pre, keys, rnd) matches Ok(post)
            &&& post.v[op_x(fetched(pre))] == op_kk(fetched(pre))
        }),
{
}

/// `8xy4` stores the wrapped sum of Vx and Vy into Vx and sets VF exactly
/// when the unwrapped sum reaches 256.  The flag register itself cannot be
/// the destination: there the flag write wins.
pub proof fn lemma_add_carry(pre: C8State, keys: Seq<bool>, rnd: u8)
    requires
        pre.wf(),
        pre.pc + 1 < 4096,
        op_top(fetched(pre)) == 0x8,
        op_n(fetched(pre)) == 0x4,
        op_x(fetched(pre)) != 15,
    ensures
        ({
            let op = fetched(pre);
            &&& step_spec(pre, keys, rnd) matches Ok(post)
            &&& post.v[op_x(op)] == (pre.v[op_x(op)] + pre.v[op_y(op)]) % 256
            &&& (post.v[15] == 1 <==> pre.v[op_x(op)] + pre.v[op_y(op)] >= 256)
            &&& (post.v[15] == 0 <==> pre.v[op_x(op)] + pre.v[op_y(op)] < 256)
        }),
{
}

/// Drawing the same sprite at the same spot twice restores every display
/// cell: the XOR blit is its own inverse.
pub proof fn lemma_draw_twice_restores(d: Seq<bool>, sprite: Seq<u8>, cx: int, cy: int)
    requires
        d.len() == 2048,
    ensures
        draw_display(draw_display(d, sprite, cx, cy), sprite, cx, cy) == d,
{
    let d1 = draw_display(d, sprite, cx, cy);
    let d2 = draw_display(d1, sprite, cx, cy);
    assert forall|k: int| 0 <= k < 2048 implies d2[k] == d[k] by {}
    assert(d2 =~= d);
}

/// `Dxyn` raises VF exactly when some set sprite bit lands on a cell that is
/// already lit; a blit onto clear cells leaves VF at zero.
pub proof fn lemma_draw_collision_flag(pre: C8State, keys: Seq<bool>, rnd: u8)
    requires
        pre.wf(),
        pre.pc + 1 < 4096,
        op_top(fetched(pre)) == 0xD,
        pre.i + op_n(fetched(pre)) <= 4096,
    ensures
        ({
            let op = fetched(pre);
            let sprite = pre.ram.subrange(pre.i as int, pre.i + op_n(op));
            let cx = (pre.v[op_x(op)] as int) % 64;
            let cy = (pre.v[op_y(op)] as int) % 32;
            &&& step_spec(pre, keys, rnd) matches Ok(post)
            &&& (post.v[15] == 1 <==> draw_collision(pre.display, sprite, cx, cy))
            &&& (post.v[15] == 0 <==> !draw_collision(pre.display, sprite, cx, cy))
        }),
{
}

/// Clipping: the blit changes only cells inside both the display and the
/// sprite's own box; nothing wraps to the far side of the grid.
pub proof fn lemma_draw_clips(d: Seq<bool>, sprite: Seq<u8>, cx: int, cy: int)
    requires
        d.len() == 2048,
    ensures
        draw_display(d, sprite, cx, cy).len() == 2048,
        forall|k: int|
            0 <= k < 2048 && !(cy <= k / 64 < cy + sprite.len() && cx <= k % 64 < cx + 8)
                ==> draw_display(d, sprite, cx, cy)[k] == d[k],
{
}

/// Stack round trip: a CALL whose target holds `00EE` comes straight back,
/// with the program counter at the instruction after the CALL and the stack
/// pointer where it began.
pub proof fn lemma_call_ret_roundtrip(pre: C8State, keys: Seq<bool>, rnd: u8, rnd2: u8)
    requires
        pre.wf(),
        pre.pc + 1 < 4096,
        op_top(fetched(pre)) == 0x2,
        pre.sp < 256,
        op_nnn(fetched(pre)) + 1 < 4096,
        pre.ram[op_nnn(fetched(pre)) as int] == 0x00,
        pre.ram[op_nnn(fetched(pre)) as int + 1] == 0xEE,
    ensures
        ({
            &&& step_spec(pre, keys, rnd) matches Ok(mid)
            &&& step_spec(mid, keys, rnd2) matches Ok(post)
            &&& post.pc == pre.pc + 2
            &&& post.sp == pre.sp
            &&& post.ram == pre.ram
            &&& post.v == pre.v
            &&& post.display == pre.display
        }),
{
    let op = fetched(pre);
    let s1 = C8State { pc: (pre.pc + 2) as u16, ..pre };
    let mid = C8State {
        stack: s1.stack.update(pre.sp, s1.pc),
        sp: pre.sp + 1,
        pc: op_nnn(op),
        ..s1
    };
    assert(step_spec(pre, keys, rnd) == Ok::<C8State, Chip8Error>(mid));
    assert(fetched(mid) == 0x00EE);
}

/// Executing the same `Dxyn` twice in a row (the second copy sitting right
/// after the first in memory) leaves every display cell as it began.  The
/// coordinate registers must not be VF, which the first draw overwrites.
pub proof fn lemma_draw_step_twice(pre: C8State, keys: Seq<bool>, rnd: u8, rnd2: u8)
    requires
        pre.wf(),
        pre.pc + 3 < 4096,
        op_top(fetched(pre)) == 0xD,
        op_x(fetched(pre)) != 15,
        op_y(fetched(pre)) != 15,
        pre.ram[pre.pc + 2] == pre.ram[pre.pc as int],
        pre.ram[pre.pc + 3] == pre.ram[pre.pc as int + 1],
        pre.i + op_n(fetched(pre)) <= 4096,
    ensures
        ({
            &&& step_spec(pre, keys, rnd) matches Ok(mid)
            &&& step_spec(mid, keys, rnd2) matches Ok(post)
            &&& post.display == pre.display
        }),
{
    let op = fetched(pre);
    let n = op_n(op);
    let s1 = C8State { pc: (pre.pc + 2) as u16, ..pre };
    let sprite = s1.ram.subrange(s1.i as int, s1.i + n);
    let cx = (s1.v[op_x(op)] as int) % 64;
    let cy = (s1.v[op_y(op)] as int) % 32;
    let hit1 = draw_collision(s1.display, sprite, cx, cy);
    let mid = C8State {
        display: draw_display(s1.display, sprite, cx, cy),
        v: s1.v.update(15, if hit1 { 1u8 } else { 0u8 }),
        ..s1
    };
    assert(step_spec(pre, keys, rnd) == Ok::<C8State, Chip8Error>(mid));
    assert(fetched(mid) == op);
    let s2 = C8State { pc: (mid.pc + 2) as u16, ..mid };
    assert(s2.ram.subrange(s2.i as int, s2.i + n) == sprite);
    assert(s2.v[op_x(op)] == pre.v[op_x(op)]);
    assert(s2.v[op_y(op)] == pre.v[op_y(op)]);
    lemma_draw_twice_restores(pre.display, sprite, cx, cy);
}

/// Block-transfer round trip: `Fx55` followed by `Fx65` (sitting outside the
/// stored range) writes V0..Vx to memory at I, reads them straight back, and
/// leaves every register and I exactly as they began.
pub proof fn lemma_store_load_roundtrip(pre: C8State, keys: Seq<bool>, rnd: u8, rnd2: u8)
    requires
        pre.wf(),
        pre.pc + 3 < 4096,
        op_top(fetched(pre)) == 0xF,
        op_kk(fetched(pre)) == 0x55,
        pre.i + op_x(fetched(pre)) < 4096,
        pre.ram[pre.pc + 2] == (0xF0 + op_x(fetched(pre))) as u8,
        pre.ram[pre.pc + 3] == 0x65,
        pre.i + op_x(fetched(pre)) < pre.pc + 2 || pre.pc + 3 < pre.i,
    ensures
        ({
            &&& step_spec(pre, keys, rnd) matches Ok(mid)
            &&& step_spec(mid, keys, rnd2) matches Ok(post)
            &&& mid.i == pre.i
            &&& post.i == pre.i
            &&& post.v == pre.v
            &&& post.ram == mid.ram
        }),
{
    let op = fetched(pre);
    let xv = op_x(op);
    let i0 = pre.i as int;
    let s1 = C8State { pc: (pre.pc + 2) as u16, ..pre };
    let ram2 = Seq::new(
        4096,
        |k: int| if i0 <= k <= i0 + xv { pre.v[k - i0] } else { pre.ram[k] },
    );
    let mid = C8State { ram: ram2, ..s1 };
    assert(step_spec(pre, keys, rnd) == Ok::<C8State, Chip8Error>(mid));

    assert(mid.ram[mid.pc as int] == (0xF0 + xv) as u8);
    assert(mid.ram[mid.pc as int + 1] == 0x65);
    let op2 = fetched(mid);
    assert(op2 == 61541 + 256 * xv);
    assert((op2 as int) / 0x1000 == 0xF) by (nonlinear_arith)
        requires
            op2 == 61541 + 256 * xv,
            0 <= xv < 16,
    ;
    assert(((op2 as int) % 0x100) == 0x65) by (nonlinear_arith)
        requires
            op2 == 61541 + 256 * xv,
            0 <= xv < 16,
    ;
    assert((((op2 as int) / 0x100) % 0x10) == xv) by (nonlinear_arith)
        requires
            op2 == 61541 + 256 * xv,
            0 <= xv < 16,
    ;
    assert(op_top(op2) == 0xF && op_kk(op2) == 0x65 && op_x(op2) == xv);

    let s2 = C8State { pc: (mid.pc + 2) as u16, ..mid };
    let v2 = Seq::new(16, |k: int| if 0 <= k <= xv { mid.ram[mid.i + k] } else { mid.v[k] });
    let post = C8State { v: v2, ..s2 };
    assert(step_spec(mid, keys, rnd2) == Ok::<C8State, Chip8Error>(post));
    assert forall|k: int| 0 <= k < 16 implies v2[k] == pre.v[k] by {
        if 0 <= k <= xv {
            assert(ram2[i0 + k] == pre.v[k]);
        }
    }
    assert(v2 =~= pre.v);
}

} // verus!
