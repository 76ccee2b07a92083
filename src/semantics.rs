//! The meaning of each instruction, as a function from state to state.
use vstd::prelude::*;

use crate::error::Chip8Error;
use crate::machine::{Machine, FIRST_ADDRESS, MEM_SIZE, SCREEN_SIZE, STACK_SIZE};
use crate::opcode::{decode, Opcode};
use crate::sprite::{collides, drawn, sprite_rows};

verus! {

/// The program counter after moving past one instruction; past the end of
/// memory it wraps to the program start address.
pub open spec fn advance(pc: int) -> int {
    if pc + 2 >= MEM_SIZE {
        FIRST_ADDRESS as int
    } else {
        pc + 2
    }
}

/// An address reduced to the 12 bits that memory has.
pub open spec fn addr(a: int) -> int {
    a % (MEM_SIZE as int)
}

/// Whether key `k` exists and is held down.
pub open spec fn key_pressed(keys: Seq<bool>, k: int) -> bool {
    0 <= k < 16 && keys[k]
}

/// Whether some key is held down.
pub open spec fn any_pressed(keys: Seq<bool>) -> bool {
    exists|k: int| key_pressed(keys, k)
}

/// Whether `k` is the lowest key held down.
pub open spec fn is_lowest_pressed(keys: Seq<bool>, k: int) -> bool {
    key_pressed(keys, k) && forall|j: int| 0 <= j < k ==> !keys[j]
}

/// The lowest key held down.
pub open spec fn lowest_pressed(keys: Seq<bool>) -> int {
    choose|k: int| is_lowest_pressed(keys, k)
}

/// There is one lowest key held down.
pub proof fn lemma_lowest_pressed(keys: Seq<bool>, k: int)
    requires
        is_lowest_pressed(keys, k),
    ensures
        lowest_pressed(keys) == k,
{
    let l = lowest_pressed(keys);
    assert(is_lowest_pressed(keys, l));
    if l < k {
        assert(!keys[l]);
    } else if l > k {
        assert(!keys[k]);
    }
}

/// The machine with its program counter set to `pc`.
pub open spec fn goto(m: Machine, pc: int) -> Machine {
    Machine { pc, ..m }
}

/// The machine with register `x` set to `value` and the counter moved on.
pub open spec fn set_reg(m: Machine, x: int, value: u8) -> Machine {
    Machine { v: m.v.update(x, value), pc: advance(m.pc), ..m }
}

/// The machine with register `x` set to `value`, then `VF` to `flag`, and
/// the counter moved on. When `x` is `F` the flag is what remains.
pub open spec fn set_reg_flag(m: Machine, x: int, value: u8, flag: bool) -> Machine {
    Machine {
        v: m.v.update(x, value).update(15, if flag { 1u8 } else { 0u8 }),
        pc: advance(m.pc),
        ..m
    }
}

/// Moves past the next instruction as well when `cond` holds.
pub open spec fn skip_if(m: Machine, cond: bool) -> Machine {
    goto(m, if cond { advance(advance(m.pc)) } else { advance(m.pc) })
}

/// The register instructions of class 8: `Vx := Vx op Vy`.
pub open spec fn step_alu(m: Machine, op: Opcode) -> Result<Machine, Chip8Error> {
    let x = op.x as int;
    let vx = m.v[x];
    let vy = m.v[op.y as int];
    if op.n == 0x0 {
        Ok(set_reg(m, x, vy))
    } else if op.n == 0x1 {
        Ok(set_reg(m, x, vx | vy))
    } else if op.n == 0x2 {
        Ok(set_reg(m, x, vx & vy))
    } else if op.n == 0x3 {
        Ok(set_reg(m, x, vx ^ vy))
    } else if op.n == 0x4 {
        Ok(set_reg_flag(m, x, ((vx + vy) % 256) as u8, vx + vy > 255))
    } else if op.n == 0x5 {
        Ok(set_reg_flag(m, x, ((vx - vy) % 256) as u8, vx >= vy))
    } else if op.n == 0x6 {
        Ok(set_reg_flag(m, x, vx / 2, vx % 2 == 1))
    } else if op.n == 0x7 {
        Ok(set_reg_flag(m, x, ((vy - vx) % 256) as u8, vy >= vx))
    } else if op.n == 0xE {
        Ok(set_reg_flag(m, x, ((vx * 2) % 256) as u8, vx >= 128))
    } else {
        Err(Chip8Error::UnrecognizedInstruction)
    }
}

/// Memory with registers `V0` up to, not including, `Vx` stored from `I` on.
pub open spec fn stored_registers(m: Machine, x: int) -> Seq<u8> {
    Seq::new(
        MEM_SIZE as nat,
        |a: int|
            if addr(a - m.i) < x {
                m.v[addr(a - m.i)]
            } else {
                m.memory[a]
            },
    )
}

/// Registers `V0` up to, not including, `Vx` read from memory from `I` on.
pub open spec fn loaded_registers(m: Machine, x: int) -> Seq<u8> {
    Seq::new(16, |j: int| if j < x { m.memory[addr(m.i + j)] } else { m.v[j] })
}

/// The timer, key, index and memory instructions of class F.
pub open spec fn step_misc(m: Machine, op: Opcode) -> Result<Machine, Chip8Error> {
    let x = op.x as int;
    let vx = m.v[x];
    let kk = op.low_byte;
    let next = advance(m.pc);
    if kk == 0x07 {
        Ok(set_reg(m, x, m.delay))
    } else if kk == 0x0A {
        if any_pressed(m.keyboard) {
            Ok(set_reg(m, x, lowest_pressed(m.keyboard) as u8))
        } else {
            Ok(m)
        }
    } else if kk == 0x15 {
        Ok(Machine { delay: vx, pc: next, ..m })
    } else if kk == 0x18 {
        Ok(Machine { sound: vx, pc: next, ..m })
    } else if kk == 0x1E {
        Ok(Machine { i: ((m.i + vx) % 0x10000) as u16, pc: next, ..m })
    } else if kk == 0x29 {
        Ok(Machine { i: (vx * 5) as u16, pc: next, ..m })
    } else if kk == 0x33 {
        Ok(
            Machine {
                memory: m.memory.update(addr(m.i as int), vx / 100).update(
                    addr(m.i + 1),
                    (vx / 10) % 10,
                ).update(addr(m.i + 2), vx % 10),
                pc: next,
                ..m
            },
        )
    } else if kk == 0x55 {
        Ok(Machine { memory: stored_registers(m, x), pc: next, ..m })
    } else if kk == 0x65 {
        Ok(Machine { v: loaded_registers(m, x), pc: next, ..m })
    } else {
        Err(Chip8Error::UnrecognizedInstruction)
    }
}

/// The effect of executing the instruction word `w` on `m`, where
/// `random` is the random byte that `CxKK` masks. The program counter is
/// moved on, or set by a jump, call, return or skip; the timers are left.
pub open spec fn step(m: Machine, w: u16, random: u8) -> Result<Machine, Chip8Error> {
    let op = decode(w);
    let x = op.x as int;
    let vx = m.v[x];
    let vy = m.v[op.y as int];
    let kk = op.low_byte;
    let next = advance(m.pc);
    if op.instruction == 0x0 {
        if kk == 0xE0 {
            Ok(Machine { graphics: Seq::new(SCREEN_SIZE as nat, |k: int| false), pc: next, ..m })
        } else if kk == 0xEE {
            if m.sp == 0 {
                Err(Chip8Error::StackUnderflow)
            } else {
                Ok(Machine { sp: m.sp - 1, pc: addr(m.stack[m.sp - 1] as int), ..m })
            }
        } else {
            Err(Chip8Error::UnrecognizedInstruction)
        }
    } else if op.instruction == 0x1 {
        Ok(goto(m, op.nnn as int))
    } else if op.instruction == 0x2 {
        if m.sp >= STACK_SIZE {
            Err(Chip8Error::StackOverflow)
        } else {
            Ok(
                Machine {
                    stack: m.stack.update(m.sp, next as u16),
                    sp: m.sp + 1,
                    pc: op.nnn as int,
                    ..m
                },
            )
        }
    } else if op.instruction == 0x3 {
        Ok(skip_if(m, vx == kk))
    } else if op.instruction == 0x4 {
        Ok(skip_if(m, vx != kk))
    } else if op.instruction == 0x5 {
        Ok(skip_if(m, vx == vy))
    } else if op.instruction == 0x6 {
        Ok(set_reg(m, x, kk))
    } else if op.instruction == 0x7 {
        Ok(set_reg(m, x, ((vx + kk) % 256) as u8))
    } else if op.instruction == 0x8 {
        step_alu(m, op)
    } else if op.instruction == 0x9 {
        Ok(skip_if(m, vx != vy))
    } else if op.instruction == 0xA {
        Ok(Machine { i: op.nnn, pc: next, ..m })
    } else if op.instruction == 0xB {
        Ok(goto(m, addr(m.v[0] + op.nnn)))
    } else if op.instruction == 0xC {
        Ok(set_reg(m, x, random & kk))
    } else if op.instruction == 0xD {
        let rows = sprite_rows(m.memory, m.i, op.n as int);
        Ok(
            Machine {
                graphics: drawn(m.graphics, rows, vx as int, vy as int),
                v: m.v.update(15, if collides(m.graphics, rows, vx as int, vy as int) { 1u8 } else { 0u8 }),
                pc: next,
                ..m
            },
        )
    } else if op.instruction == 0xE {
        if kk == 0x9E {
            Ok(skip_if(m, key_pressed(m.keyboard, vx as int)))
        } else if kk == 0xA1 {
            Ok(skip_if(m, !key_pressed(m.keyboard, vx as int)))
        } else {
            Err(Chip8Error::UnrecognizedInstruction)
        }
    } else {
        step_misc(m, op)
    }
}

/// The word at the program counter, high byte first.
pub open spec fn fetch(m: Machine) -> u16 {
    (m.memory[m.pc] * 256 + m.memory[addr(m.pc + 1)]) as u16
}

/// Both timers moved one step toward zero.
pub open spec fn tick(m: Machine) -> Machine {
    Machine {
        delay: if m.delay > 0 { (m.delay - 1) as u8 } else { 0 },
        sound: if m.sound > 0 { (m.sound - 1) as u8 } else { 0 },
        ..m
    }
}

/// One cycle: fetch, execute, then tick the timers.
pub open spec fn cycle(m: Machine, random: u8) -> Result<Machine, Chip8Error> {
    match step(m, fetch(m), random) {
        Ok(next) => Ok(tick(next)),
        Err(e) => Err(e),
    }
}

/// Cycles run one after another, the `k`-th with `randoms[k]` as its random
/// byte, stopping at the first error.
pub open spec fn run(m: Machine, randoms: Seq<u8>) -> Result<Machine, Chip8Error>
    decreases randoms.len(),
{
    if randoms.len() == 0 {
        Ok(m)
    } else {
        match cycle(m, randoms[0]) {
            Ok(next) => run(next, randoms.drop_first()),
            Err(e) => Err(e),
        }
    }
}

/// `r` and `after` are what `expected` asks for: on success the new state,
/// on failure the error with the state `before` left as it was.
pub open spec fn outcome(
    r: Result<(), Chip8Error>,
    before: Machine,
    after: Machine,
    expected: Result<Machine, Chip8Error>,
) -> bool {
    match expected {
        Ok(m) => r is Ok && after == m,
        Err(e) => r == Err::<(), Chip8Error>(e) && after == before,
    }
}

} // verus!
