//! A CHIP-8 interpreter whose instruction semantics are stated as
//! specifications and proved.
//!
//! Conventions where the instruction set leaves a choice:
//! - `8xy4`, `8xy5`, `8xy6`, `8xy7` and `8xyE` write `Vx` first and `VF`
//!   last, so with `x` equal to `F` the flag is what remains;
//! - the shifts shift `Vx`, and `8xy5`/`8xy7` set `VF` to 1 when no borrow
//!   occurs (the minuend is at least the subtrahend);
//! - a call pushes the address of the following instruction and a return
//!   jumps to the popped address; a call with a full stack and a return
//!   with an empty one are errors that leave the machine unchanged;
//! - sprite rows below the bottom edge are dropped, columns wrap around the
//!   right edge;
//! - memory addresses, and the jump target of `Bnnn`, wrap at 4096;
//! - `Fx55` and `Fx65` move registers `V0` up to, not including, `Vx`;
//! - `Ex9E`/`ExA1` treat a key number above `F` as not pressed;
//! - `emulate_cycle` ticks the timers once per instruction; a host that
//!   ticks them at its own rate calls `fetch_opcode`, `decode_opcode` and
//!   `decrement_timers` itself.

pub mod error;
pub mod execute;
pub mod font;
pub mod laws;
pub mod machine;
pub mod opcode;
pub mod semantics;
pub mod sprite;

pub use error::Chip8Error;
pub use machine::{Chip8, Machine};
pub use opcode::Opcode;
