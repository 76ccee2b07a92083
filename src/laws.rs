//! Properties of the instruction semantics that span several instructions
//! or hold for every register.
use vstd::prelude::*;

use crate::machine::{cell, Machine, HEIGHT, MEM_SIZE, SCREEN_SIZE, WIDTH};
use crate::opcode::decode;
use crate::semantics::{
    addr, advance, any_pressed, cycle, fetch, is_lowest_pressed, lemma_lowest_pressed, run, step,
    tick,
};
use crate::sprite::{collides, covers, drawn, sprite_rows};

verus! {

/// Executing `6xKK` leaves `KK` in register `x`.
pub proof fn lemma_load_immediate(m: Machine, x: u8, kk: u8, random: u8)
    requires
        m.wf(),
        x < 16,
    ensures
        ({
            let w = (0x6000 + x * 0x100 + kk) as u16;
            step(m, w, random) is Ok && step(m, w, random)->Ok_0.v[x as int] == kk
        }),
{
}

/// `8xy4` adds with wraparound and sets `VF` to the carry: `FF + 01` gives
/// `00` with carry 1, `01 + 01` gives `02` with carry 0 (for `x` other than
/// `F`, which the flag overwrites).
pub proof fn lemma_add_carry(m: Machine, x: u8, y: u8, random: u8)
    requires
        m.wf(),
        x < 15,
        y < 16,
    ensures
        ({
            let w = (0x8004 + x * 0x100 + y * 0x10) as u16;
            let r = step(m, w, random);
            &&& r is Ok
            &&& m.v[x as int] == 0xFF && m.v[y as int] == 0x01 ==> r->Ok_0.v[x as int] == 0x00
                && r->Ok_0.v[15] == 1
            &&& m.v[x as int] == 0x01 && m.v[y as int] == 0x01 ==> r->Ok_0.v[x as int] == 0x02
                && r->Ok_0.v[15] == 0
        }),
{
}

/// `8xy5` subtracts with wraparound and sets `VF` to 1 when no borrow
/// occurs: `01 - 02` gives `FF` with flag 0, `02 - 01` gives `01` with flag 1
/// (for `x` other than `F`, which the flag overwrites).
pub proof fn lemma_sub_borrow(m: Machine, x: u8, y: u8, random: u8)
    requires
        m.wf(),
        x < 15,
        y < 16,
    ensures
        ({
            let w = (0x8005 + x * 0x100 + y * 0x10) as u16;
            let r = step(m, w, random);
            &&& r is Ok
            &&& m.v[x as int] == 0x01 && m.v[y as int] == 0x02 ==> r->Ok_0.v[x as int] == 0xFF
                && r->Ok_0.v[15] == 0
            &&& m.v[x as int] == 0x02 && m.v[y as int] == 0x01 ==> r->Ok_0.v[x as int] == 0x01
                && r->Ok_0.v[15] == 1
        }),
{
}

/// `00E0` leaves every pixel of the 64 by 32 framebuffer dark.
pub proof fn lemma_clear_display(m: Machine, random: u8)
    requires
        m.wf(),
    ensures
        step(m, 0x00E0, random) is Ok,
        forall|x: int, y: int|
            0 <= x < WIDTH && 0 <= y < HEIGHT ==> !step(m, 0x00E0, random)->Ok_0.graphics[#[trigger] cell(
                x,
                y,
            )],
{
    assert forall|x: int, y: int| 0 <= x < WIDTH && 0 <= y < HEIGHT implies 0 <= #[trigger] cell(
        x,
        y,
    ) < SCREEN_SIZE by {
        assert(x + y * 64 <= 63 + 31 * 64) by (nonlinear_arith)
            requires
                x < 64,
                y < 32,
        ;
    }
}

/// A call `2NNN` followed by a return `00EE` resumes after the call, two
/// bytes on (at the program start address past the end of memory), with
/// the stack as deep as before.
pub proof fn lemma_call_return(m: Machine, nnn: u16, random: u8)
    requires
        m.wf(),
        m.sp < 16,
        nnn < 0x1000,
    ensures
        ({
            let called = step(m, (0x2000 + nnn) as u16, random);
            &&& called is Ok
            &&& called->Ok_0.pc == nnn
            &&& step(called->Ok_0, 0x00EE, random) is Ok
            &&& step(called->Ok_0, 0x00EE, random)->Ok_0.pc == advance(m.pc)
            &&& m.pc + 2 < MEM_SIZE ==> step(called->Ok_0, 0x00EE, random)->Ok_0.pc == m.pc + 2
            &&& step(called->Ok_0, 0x00EE, random)->Ok_0.sp == m.sp
        }),
{
}

/// `Fx33` with 156 in `Vx` stores the digits 1, 5 and 6 from `I` on.
pub proof fn lemma_bcd(m: Machine, x: u8, random: u8)
    requires
        m.wf(),
        x < 16,
        m.v[x as int] == 156,
    ensures
        ({
            let r = step(m, (0xF033 + x * 0x100) as u16, random);
            &&& r is Ok
            &&& r->Ok_0.memory[addr(m.i as int)] == 1
            &&& r->Ok_0.memory[addr(m.i + 1)] == 5
            &&& r->Ok_0.memory[addr(m.i + 2)] == 6
        }),
{
}

/// Drawing a sprite twice at one place leaves the framebuffer as it was,
/// and the second draw collides exactly when the first lit some pixel.
pub proof fn lemma_draw_twice(g: Seq<bool>, rows: Seq<u8>, ox: int, oy: int)
    ensures
        drawn(drawn(g, rows, ox, oy), rows, ox, oy) == g,
        collides(drawn(g, rows, ox, oy), rows, ox, oy) == exists|k: int|
            0 <= k < g.len() && !g[k] && #[trigger] covers(rows, ox, oy, k),
{
    assert(drawn(drawn(g, rows, ox, oy), rows, ox, oy) =~= g);
}

/// Executing `Dxyn` twice (with neither coordinate register `VF`, which the
/// draw sets) restores the framebuffer, and the second draw sets `VF` to 1
/// exactly when the first lit some pixel.
pub proof fn lemma_redraw(m: Machine, x: u8, y: u8, n: u8, random: u8)
    requires
        m.wf(),
        x < 15,
        y < 15,
        n < 16,
    ensures
        ({
            let w = (0xD000 + x * 0x100 + y * 0x10 + n) as u16;
            let first = step(m, w, random);
            let second = step(first->Ok_0, w, random);
            let rows = sprite_rows(m.memory, m.i, n as int);
            &&& first is Ok
            &&& second is Ok
            &&& second->Ok_0.graphics == m.graphics
            &&& (second->Ok_0.v[15] == 1) == exists|k: int|
                0 <= k < SCREEN_SIZE && !m.graphics[k] && #[trigger] covers(
                    rows,
                    m.v[x as int] as int,
                    m.v[y as int] as int,
                    k,
                )
        }),
{
    let w = (0xD000 + x * 0x100 + y * 0x10 + n) as u16;
    assert(w / 4096 == 0xD && (w / 256) % 16 == x && (w / 16) % 16 == y && w % 16 == n)
        by (bit_vector)
        requires
            w == (0xD000 + x * 0x100 + y * 0x10 + n) as u16,
            x < 15,
            y < 15,
            n < 16,
    ;
    let op = decode(w);
    assert(op.instruction == 0xD && op.x == x && op.y == y && op.n == n);
    let rows = sprite_rows(m.memory, m.i, n as int);
    let ox = m.v[x as int] as int;
    let oy = m.v[y as int] as int;
    let m1 = Machine {
        graphics: drawn(m.graphics, rows, ox, oy),
        v: m.v.update(15, if collides(m.graphics, rows, ox, oy) { 1u8 } else { 0u8 }),
        pc: advance(m.pc),
        ..m
    };
    assert(step(m, w, random) == Ok::<Machine, crate::error::Chip8Error>(m1));
    assert(m1.v[x as int] as int == ox && m1.v[y as int] as int == oy);
    lemma_draw_twice(m.graphics, rows, ox, oy);
}

/// While no key is held down, cycles on `Fx0A` leave the program counter
/// and the registers as they were.
pub proof fn lemma_key_wait_stalls(m: Machine, x: u8, randoms: Seq<u8>)
    requires
        m.wf(),
        x < 16,
        fetch(m) == (0xF00A + x * 0x100) as u16,
        !any_pressed(m.keyboard),
    ensures
        run(m, randoms) is Ok,
        run(m, randoms)->Ok_0.pc == m.pc,
        run(m, randoms)->Ok_0.v == m.v,
    decreases randoms.len(),
{
    if randoms.len() > 0 {
        assert(cycle(m, randoms[0]) == Ok::<Machine, crate::error::Chip8Error>(tick(m)));
        lemma_key_wait_stalls(tick(m), x, randoms.drop_first());
    }
}

/// Once a key is held down, a cycle on `Fx0A` stores the lowest such key
/// in `Vx` and moves on.
pub proof fn lemma_key_wait_resumes(m: Machine, x: u8, k: int, random: u8)
    requires
        m.wf(),
        x < 16,
        fetch(m) == (0xF00A + x * 0x100) as u16,
        is_lowest_pressed(m.keyboard, k),
    ensures
        cycle(m, random) is Ok,
        cycle(m, random)->Ok_0.pc == advance(m.pc),
        cycle(m, random)->Ok_0.v[x as int] == k,
{
    lemma_lowest_pressed(m.keyboard, k);
}

} // verus!
