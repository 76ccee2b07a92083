//! The instruction executor and the cycle driver.
use vstd::prelude::*;

use crate::error::Chip8Error;
use crate::machine::{Chip8, Machine, FIRST_ADDRESS, MEM_SIZE, SCREEN_SIZE, STACK_SIZE};
use crate::opcode::{decode, Opcode};
use crate::semantics::{
    addr, advance, cycle, fetch, goto, key_pressed, lemma_lowest_pressed, loaded_registers, outcome,
    set_reg, set_reg_flag, skip_if, step, step_alu, step_misc, stored_registers, tick,
};

verus! {

/// Relies on `rand::random`: a byte from the thread-local generator. Nothing
/// is known of its value.
#[verifier::external_body]
fn random_byte() -> (r: u8) {
    rand::random::<u8>()
}

/// Address `a` is `d` bytes past `base`, around the end of memory, exactly
/// when it is the address that `d` bytes past `base` lands on.
proof fn lemma_wrap(base: int, d: int, a: int)
    requires
        0 <= d < MEM_SIZE,
        0 <= a < MEM_SIZE,
    ensures
        (a == addr(base + d)) == (addr(a - base) == d),
{
}

/// The address of the instruction after the one at `pc`.
fn next_address(pc: usize) -> (r: usize)
    requires
        pc < MEM_SIZE,
    ensures
        r == advance(pc as int),
        r < MEM_SIZE,
{
    if pc + 2 >= MEM_SIZE {
        FIRST_ADDRESS
    } else {
        pc + 2
    }
}

impl Chip8 {
    /// Moves the program counter past one instruction, back to the program
    /// start address at the end of memory.
    fn increment_program_counter(&mut self)
        requires
            old(self).wf(),
        ensures
            final(self).wf(),
            final(self)@ == goto(old(self)@, advance(old(self)@.pc)),
    {
        self.pc = next_address(self.pc);
    }

    /// The instruction word at the program counter, high byte first.
    pub fn fetch_opcode(&self) -> (r: u16)
        requires
            self.wf(),
        ensures
            r == fetch(self@),
    {
        let high = self.memory[self.pc];
        let low = self.memory[(self.pc + 1) % MEM_SIZE];
        let r = (high as u16) << 8 | low as u16;
        assert(r == high * 256 + low) by (bit_vector)
            requires
                r == (high as u16) << 8 | low as u16,
        ;
        r
    }

    /// Moves both timers one step toward zero.
    pub fn decrement_timers(&mut self)
        ensures
            final(self)@ == tick(old(self)@),
            final(self).pc == old(self).pc,
            final(self).sp == old(self).sp,
    {
        if self.sound > 0 {
            self.sound = self.sound - 1;
        }
        if self.delay > 0 {
            self.delay = self.delay - 1;
        }
    }

    /// Sets register `x` and moves past the instruction.
    fn set_register(&mut self, x: usize, value: u8)
        requires
            old(self).wf(),
            x < 16,
        ensures
            final(self).wf(),
            final(self)@ == set_reg(old(self)@, x as int, value),
    {
        self.V[x] = value;
        self.increment_program_counter();
    }

    /// Sets register `x`, then `VF` to `flag`, and moves past the
    /// instruction.
    fn set_register_flag(&mut self, x: usize, value: u8, flag: bool)
        requires
            old(self).wf(),
            x < 16,
        ensures
            final(self).wf(),
            final(self)@ == set_reg_flag(old(self)@, x as int, value, flag),
    {
        self.V[x] = value;
        self.V[15] = if flag { 1 } else { 0 };
        self.increment_program_counter();
    }

    /// Moves past the instruction, and past the next one too when `cond`.
    fn skip_if(&mut self, cond: bool)
        requires
            old(self).wf(),
        ensures
            final(self).wf(),
            final(self)@ == skip_if(old(self)@, cond),
    {
        self.increment_program_counter();
        if cond {
            self.increment_program_counter();
        }
    }

    /// Executes a class 8 instruction.
    fn execute_alu(&mut self, op: Opcode) -> (r: Result<(), Chip8Error>)
        requires
            old(self).wf(),
            op.x < 16,
            op.y < 16,
        ensures
            final(self).wf(),
            outcome(r, old(self)@, final(self)@, step_alu(old(self)@, op)),
    {
        let x = op.x;
        let vx = self.V[x];
        let vy = self.V[op.y];
        match op.n {
            0x0 => self.set_register(x, vy),
            0x1 => self.set_register(x, vx | vy),
            0x2 => self.set_register(x, vx & vy),
            0x3 => self.set_register(x, vx ^ vy),
            0x4 => {
                let sum: u16 = vx as u16 + vy as u16;
                self.set_register_flag(x, (sum % 256) as u8, sum > 0xFF);
            },
            0x5 => {
                let difference: u16 = (vx as u16 + 256 - vy as u16) % 256;
                self.set_register_flag(x, difference as u8, vx >= vy);
            },
            0x6 => {
                let shifted = vx >> 1;
                let low_bit = vx & 0x01 == 1;
                assert(shifted == vx / 2 && low_bit == (vx % 2 == 1)) by (bit_vector)
                    requires
                        shifted == vx >> 1,
                        low_bit == (vx & 0x01 == 1),
                ;
                self.set_register_flag(x, shifted, low_bit);
            },
            0x7 => {
                let difference: u16 = (vy as u16 + 256 - vx as u16) % 256;
                self.set_register_flag(x, difference as u8, vy >= vx);
            },
            0xE => {
                let shifted: u8 = ((vx as u16) << 1 & 0xFF) as u8;
                let high_bit = vx & 0x80 != 0;
                assert(shifted == (vx * 2) % 256 && high_bit == (vx >= 128)) by (bit_vector)
                    requires
                        shifted == ((vx as u16) << 1 & 0xFF) as u8,
                        high_bit == (vx & 0x80 != 0),
                ;
                self.set_register_flag(x, shifted, high_bit);
            },
            _ => {
                return Err(Chip8Error::UnrecognizedInstruction);
            },
        }
        Ok(())
    }

    /// Executes a class F instruction.
    fn execute_misc(&mut self, op: Opcode) -> (r: Result<(), Chip8Error>)
        requires
            old(self).wf(),
            op.x < 16,
        ensures
            final(self).wf(),
            outcome(r, old(self)@, final(self)@, step_misc(old(self)@, op)),
    {
        let x = op.x;
        let vx = self.V[x];
        match op.low_byte {
            0x07 => {
                let delay = self.delay;
                self.set_register(x, delay);
            },
            0x0A => {
                let mut k: usize = 0;
                while k < 16 && !self.keyboard[k]
                    invariant
                        k <= 16,
                        forall|j: int| 0 <= j < k ==> !self.keyboard@[j],
                    decreases 16 - k,
                {
                    k = k + 1;
                }
                if k < 16 {
                    proof {
                        lemma_lowest_pressed(self.keyboard@, k as int);
                        assert(key_pressed(self.keyboard@, k as int));
                    }
                    self.set_register(x, k as u8);
                }
            },
            0x15 => {
                self.delay = vx;
                self.increment_program_counter();
            },
            0x18 => {
                self.sound = vx;
                self.increment_program_counter();
            },
            0x1E => {
                self.I = ((self.I as u32 + vx as u32) % 0x10000) as u16;
                self.increment_program_counter();
            },
            0x29 => {
                self.I = vx as u16 * 5;
                self.increment_program_counter();
            },
            0x33 => {
                let index = self.I as usize;
                self.memory[index % MEM_SIZE] = vx / 100;
                self.memory[(index + 1) % MEM_SIZE] = (vx / 10) % 10;
                self.memory[(index + 2) % MEM_SIZE] = vx % 10;
                self.increment_program_counter();
            },
            0x55 => {
                let ghost m = self@;
                for k in 0..x
                    invariant
                        x < 16,
                        m == old(self)@,
                        self.wf(),
                        self@ == (Machine { memory: self.memory@, ..m }),
                        forall|a: int|
                            0 <= a < MEM_SIZE ==> #[trigger] self.memory@[a] == if addr(a - m.i)
                                < k {
                                m.v[addr(a - m.i)]
                            } else {
                                m.memory[a]
                            },
                {
                    let target = (self.I as usize + k) % MEM_SIZE;
                    self.memory[target] = self.V[k];
                    proof {
                        assert forall|a: int| 0 <= a < MEM_SIZE implies #[trigger] self.memory@[a]
                            == if addr(a - m.i) < k + 1 {
                            m.v[addr(a - m.i)]
                        } else {
                            m.memory[a]
                        } by {
                            lemma_wrap(m.i as int, k as int, a);
                        }
                    }
                }
                assert(self.memory@ =~= stored_registers(m, x as int));
                self.increment_program_counter();
            },
            0x65 => {
                let ghost m = self@;
                for k in 0..x
                    invariant
                        x < 16,
                        m == old(self)@,
                        self.wf(),
                        self@ == (Machine { v: self.V@, ..m }),
                        forall|j: int|
                            0 <= j < 16 ==> #[trigger] self.V@[j] == if j < k {
                                m.memory[addr(m.i + j)]
                            } else {
                                m.v[j]
                            },
                {
                    self.V[k] = self.memory[(self.I as usize + k) % MEM_SIZE];
                }
                assert(self.V@ =~= loaded_registers(m, x as int));
                self.increment_program_counter();
            },
            _ => {
                return Err(Chip8Error::UnrecognizedInstruction);
            },
        }
        Ok(())
    }

    /// Executes the instruction word `opcode`; `random_byte` is the random
    /// byte that `CxKK` masks. On an error the machine is left as it was.
    pub fn decode_opcode(&mut self, opcode: u16, random_byte: u8) -> (r: Result<(), Chip8Error>)
        requires
            old(self).wf(),
        ensures
            final(self).wf(),
            outcome(r, old(self)@, final(self)@, step(old(self)@, opcode, random_byte)),
    {
        let op = Opcode::from(opcode);
        let low_byte = op.low_byte;
        let x = op.x;
        let y = op.y;
        let nnn = op.nnn;
        match op.instruction {
            0x0 => match low_byte {
                0xE0 => {
                    for k in 0..SCREEN_SIZE
                        invariant
                            self.wf(),
                            self@ == (Machine { graphics: self.graphics@, ..old(self)@ }),
                            forall|j: int| 0 <= j < k ==> !self.graphics@[j],
                    {
                        self.graphics[k] = false;
                    }
                    assert(self.graphics@ =~= Seq::new(SCREEN_SIZE as nat, |k: int| false));
                    self.increment_program_counter();
                },
                0xEE => {
                    if self.sp == 0 {
                        return Err(Chip8Error::StackUnderflow);
                    }
                    self.sp = self.sp - 1;
                    self.pc = self.stack[self.sp] as usize % MEM_SIZE;
                },
                _ => {
                    return Err(Chip8Error::UnrecognizedInstruction);
                },
            },
            0x1 => {
                self.pc = nnn as usize;
            },
            0x2 => {
                if self.sp >= STACK_SIZE {
                    return Err(Chip8Error::StackOverflow);
                }
                self.stack[self.sp] = next_address(self.pc) as u16;
                self.sp = self.sp + 1;
                self.pc = nnn as usize;
            },
            0x3 => {
                let cond = self.V[x] == low_byte;
                self.skip_if(cond);
            },
            0x4 => {
                let cond = self.V[x] != low_byte;
                self.skip_if(cond);
            },
            0x5 => {
                let cond = self.V[x] == self.V[y];
                self.skip_if(cond);
            },
            0x6 => {
                self.set_register(x, low_byte);
            },
            0x7 => {
                let sum: u16 = self.V[x] as u16 + low_byte as u16;
                self.set_register(x, (sum % 256) as u8);
            },
            0x8 => {
                return self.execute_alu(op);
            },
            0x9 => {
                let cond = self.V[x] != self.V[y];
                self.skip_if(cond);
            },
            0xA => {
                self.I = nnn;
                self.increment_program_counter();
            },
            0xB => {
                self.pc = (self.V[0] as usize + nnn as usize) % MEM_SIZE;
            },
            0xC => {
                self.set_register(x, random_byte & low_byte);
            },
            0xD => {
                self.draw_sprite(x, y, op.n);
                self.increment_program_counter();
            },
            0xE => {
                let key = self.V[x] as usize;
                let pressed = key < 16 && self.keyboard[key];
                match low_byte {
                    0x9E => self.skip_if(pressed),
                    0xA1 => self.skip_if(!pressed),
                    _ => {
                        return Err(Chip8Error::UnrecognizedInstruction);
                    },
                }
            },
            _ => {
                return self.execute_misc(op);
            },
        }
        Ok(())
    }

    /// Runs one cycle: fetches the word at the program counter, executes
    /// it with `random_byte` as the random byte of `CxKK`, then moves both
    /// timers one step toward zero. On an error the machine is left as it
    /// was.
    pub fn emulate_cycle_with(&mut self, random_byte: u8) -> (r: Result<(), Chip8Error>)
        requires
            old(self).wf(),
        ensures
            final(self).wf(),
            outcome(r, old(self)@, final(self)@, cycle(old(self)@, random_byte)),
    {
        let opcode = self.fetch_opcode();
        let r = self.decode_opcode(opcode, random_byte);
        if r.is_err() {
            return r;
        }
        self.decrement_timers();
        Ok(())
    }

    /// Runs one cycle as `emulate_cycle_with` does, with a freshly drawn
    /// random byte.
    pub fn emulate_cycle(&mut self) -> (r: Result<(), Chip8Error>)
        requires
            old(self).wf(),
        ensures
            final(self).wf(),
            exists|b: u8| outcome(r, old(self)@, final(self)@, #[trigger] cycle(old(self)@, b)),
            decode(fetch(old(self)@)).instruction != 0xC ==> outcome(
                r,
                old(self)@,
                final(self)@,
                cycle(old(self)@, 0),
            ),
    {
        let b = random_byte();
        let r = self.emulate_cycle_with(b);
        assert(outcome(r, old(self)@, self@, cycle(old(self)@, b)));
        assert(decode(fetch(old(self)@)).instruction != 0xC ==> step(
            old(self)@,
            fetch(old(self)@),
            b,
        ) == step(old(self)@, fetch(old(self)@), 0));
        r
    }
}

} // verus!
