use vstd::prelude::*;

verus! {

/// The conditions that stop a load or a cycle.
#[derive(Clone, Copy, Debug, PartialEq, Eq, Structural)]
pub enum Chip8Error {
    /// The program does not fit between the program start address and the
    /// end of memory.
    LoadOverflow,
    /// A call was made with all sixteen stack entries in use.
    StackOverflow,
    /// A return was made with an empty stack.
    StackUnderflow,
    /// The instruction word has no meaning in its class.
    UnrecognizedInstruction,
}

} // verus!
