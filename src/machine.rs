use vstd::prelude::*;

use crate::error::Chip8Error;
use crate::font::{font, font_set};

verus! {

/// Width of the framebuffer in pixels.
pub const WIDTH: usize = 64;

/// Height of the framebuffer in pixels.
pub const HEIGHT: usize = 32;

/// Number of framebuffer cells.
pub const SCREEN_SIZE: usize = 2048;

/// Address at which programs are loaded and execution starts.
pub const FIRST_ADDRESS: usize = 0x200;

/// Size of the addressable memory in bytes.
pub const MEM_SIZE: usize = 4096;

/// Number of return addresses the call stack holds.
pub const STACK_SIZE: usize = 16;

/// Number of glyph bytes at the bottom of memory.
pub const FONT_SIZE: usize = 80;

/// The interpreter state.
///
/// The framebuffer is row-major: the pixel at column `x` and row `y` is
/// `graphics[x + y * WIDTH]`, `true` when lit.
#[allow(non_snake_case)]
pub struct Chip8 {
    pub memory: [u8; MEM_SIZE],
    /// The general-purpose registers `V0` to `VF`.
    pub V: [u8; 16],
    /// The index register.
    pub I: u16,
    /// The program counter.
    pub pc: usize,
    /// The number of return addresses on the stack.
    pub sp: usize,
    pub delay: u8,
    pub sound: u8,
    pub stack: [u16; STACK_SIZE],
    pub keyboard: [bool; 16],
    pub graphics: [bool; SCREEN_SIZE],
}

/// The interpreter state as mathematical values.
pub struct Machine {
    pub memory: Seq<u8>,
    pub v: Seq<u8>,
    pub i: u16,
    pub pc: int,
    pub sp: int,
    pub delay: u8,
    pub sound: u8,
    pub stack: Seq<u16>,
    pub keyboard: Seq<bool>,
    pub graphics: Seq<bool>,
}

impl Machine {
    /// Sizes of the parts, a program counter inside memory and a stack
    /// pointer within the stack.
    pub open spec fn wf(self) -> bool {
        &&& self.memory.len() == MEM_SIZE
        &&& self.v.len() == 16
        &&& self.stack.len() == STACK_SIZE
        &&& self.keyboard.len() == 16
        &&& self.graphics.len() == SCREEN_SIZE
        &&& 0 <= self.pc < MEM_SIZE
        &&& 0 <= self.sp <= STACK_SIZE
    }
}

/// Memory after power-on: the glyph table at the bottom, zero elsewhere.
pub open spec fn initial_memory() -> Seq<u8> {
    Seq::new(MEM_SIZE as nat, |a: int| if a < FONT_SIZE { font()[a] } else { 0u8 })
}

/// The state after power-on.
pub open spec fn initial_machine() -> Machine {
    Machine {
        memory: initial_memory(),
        v: Seq::new(16, |k: int| 0u8),
        i: 0,
        pc: FIRST_ADDRESS as int,
        sp: 0,
        delay: 0,
        sound: 0,
        stack: Seq::new(STACK_SIZE as nat, |k: int| 0u16),
        keyboard: Seq::new(16, |k: int| false),
        graphics: Seq::new(SCREEN_SIZE as nat, |k: int| false),
    }
}

/// `mem` with `program` copied in from the program start address on.
pub open spec fn loaded(mem: Seq<u8>, program: Seq<u8>) -> Seq<u8> {
    Seq::new(
        mem.len(),
        |a: int|
            if FIRST_ADDRESS <= a < FIRST_ADDRESS + program.len() {
                program[a - FIRST_ADDRESS]
            } else {
                mem[a]
            },
    )
}

/// The index of the framebuffer cell at column `x` and row `y`.
pub open spec fn cell(x: int, y: int) -> int {
    x + y * WIDTH
}

impl View for Chip8 {
    type V = Machine;

    open spec fn view(&self) -> Machine {
        Machine {
            memory: self.memory@,
            v: self.V@,
            i: self.I,
            pc: self.pc as int,
            sp: self.sp as int,
            delay: self.delay,
            sound: self.sound,
            stack: self.stack@,
            keyboard: self.keyboard@,
            graphics: self.graphics@,
        }
    }
}

impl Chip8 {
    /// A program counter inside memory and a stack pointer within the stack.
    pub open spec fn wf(&self) -> bool {
        self.pc < MEM_SIZE && self.sp <= STACK_SIZE
    }

    /// A machine after power-on, the glyph table loaded, ready to run from
    /// the program start address.
    pub fn new() -> (r: Chip8)
        ensures
            r.wf(),
            r@ == initial_machine(),
    {
        let mut cpu = Chip8 {
            memory: [0; MEM_SIZE],
            V: [0; 16],
            I: 0,
            pc: FIRST_ADDRESS,
            sp: 0,
            delay: 0,
            sound: 0,
            stack: [0; STACK_SIZE],
            keyboard: [false; 16],
            graphics: [false; SCREEN_SIZE],
        };
        cpu.init();
        assert(cpu.memory@ =~= initial_memory());
        assert(cpu.V@ =~= initial_machine().v);
        assert(cpu.stack@ =~= initial_machine().stack);
        assert(cpu.keyboard@ =~= initial_machine().keyboard);
        assert(cpu.graphics@ =~= initial_machine().graphics);
        cpu
    }

    /// Writes the glyph table into the bottom of memory, leaving the rest.
    fn init(&mut self)
        ensures
            final(self).memory@ == Seq::new(
                MEM_SIZE as nat,
                |a: int|
                    if a < FONT_SIZE {
                        font()[a]
                    } else {
                        old(self).memory@[a]
                    },
            ),
            final(self).V == old(self).V,
            final(self).I == old(self).I,
            final(self).pc == old(self).pc,
            final(self).sp == old(self).sp,
            final(self).delay == old(self).delay,
            final(self).sound == old(self).sound,
            final(self).stack == old(self).stack,
            final(self).keyboard == old(self).keyboard,
            final(self).graphics == old(self).graphics,
    {
        let fonts = font_set();
        for k in 0..FONT_SIZE
            invariant
                fonts@ == font(),
                forall|a: int| 0 <= a < k ==> self.memory@[a] == font()[a],
                forall|a: int| k <= a < MEM_SIZE ==> self.memory@[a] == old(self).memory@[a],
                self.V == old(self).V,
                self.I == old(self).I,
                self.pc == old(self).pc,
                self.sp == old(self).sp,
                self.delay == old(self).delay,
                self.sound == old(self).sound,
                self.stack == old(self).stack,
                self.keyboard == old(self).keyboard,
                self.graphics == old(self).graphics,
        {
            self.memory[k] = fonts[k];
        }
        assert(self.memory@ =~= Seq::new(
            MEM_SIZE as nat,
            |a: int|
                if a < FONT_SIZE {
                    font()[a]
                } else {
                    old(self).memory@[a]
                },
        ));
    }

    /// Copies `program` into memory from the program start address on.
    /// A program longer than the space above that address is refused and
    /// the machine left as it was.
    pub fn load_program(&mut self, program: Vec<u8>) -> (r: Result<(), Chip8Error>)
        ensures
            program.len() > MEM_SIZE - FIRST_ADDRESS ==> r == Err::<(), Chip8Error>(
                Chip8Error::LoadOverflow,
            ) && *final(self) == *old(self),
            program.len() <= MEM_SIZE - FIRST_ADDRESS ==> r is Ok && final(self)@ == (Machine {
                memory: loaded(old(self)@.memory, program@),
                ..old(self)@
            }),
    {
        if program.len() > MEM_SIZE - FIRST_ADDRESS {
            return Err(Chip8Error::LoadOverflow);
        }
        for k in 0..program.len()
            invariant
                program.len() <= MEM_SIZE - FIRST_ADDRESS,
                forall|a: int|
                    0 <= a < MEM_SIZE ==> self.memory@[a] == if FIRST_ADDRESS <= a
                        < FIRST_ADDRESS + k {
                        program@[a - FIRST_ADDRESS]
                    } else {
                        old(self).memory@[a]
                    },
                self.V == old(self).V,
                self.I == old(self).I,
                self.pc == old(self).pc,
                self.sp == old(self).sp,
                self.delay == old(self).delay,
                self.sound == old(self).sound,
                self.stack == old(self).stack,
                self.keyboard == old(self).keyboard,
                self.graphics == old(self).graphics,
        {
            self.memory[FIRST_ADDRESS + k] = program[k];
        }
        assert(self.memory@ =~= loaded(old(self)@.memory, program@));
        Ok(())
    }

    /// Whether the pixel at column `x` and row `y` is lit.
    pub fn pixel_at(&self, x: usize, y: usize) -> (r: bool)
        requires
            x < WIDTH,
            y < HEIGHT,
        ensures
            r == self.graphics@[cell(x as int, y as int)],
    {
        self.graphics[x + y * WIDTH]
    }

    /// The eight pixels of row `y` from column `x` rightwards, the columns
    /// wrapping around the right edge.
    pub fn pixel_byte_at(&self, x: usize, y: usize) -> (r: [bool; 8])
        requires
            y < HEIGHT,
        ensures
            forall|b: int|
                0 <= b < 8 ==> r@[b] == self.graphics@[cell((x + b) % WIDTH as int, y as int)],
    {
        let mut pixel_byte: [bool; 8] = [false; 8];
        for b in 0..8
            invariant
                y < HEIGHT,
                forall|c: int|
                    0 <= c < b ==> pixel_byte@[c] == self.graphics@[cell(
                        (x + c) % WIDTH as int,
                        y as int,
                    )],
        {
            let column = (x % WIDTH + b) % WIDTH;
            assert(column == (x + b) % WIDTH as int) by {
                vstd::arithmetic::div_mod::lemma_add_mod_noop(x as int, b as int, WIDTH as int);
                vstd::arithmetic::div_mod::lemma_mod_twice(b as int, WIDTH as int);
            }
            pixel_byte[b] = self.pixel_at(column, y);
        }
        pixel_byte
    }
}

} // verus!
