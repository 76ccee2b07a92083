use vstd::prelude::*;

use crate::machine::Chip8;

verus! {

/// The fields of one 16-bit instruction word.
#[derive(Clone, Copy, Debug, PartialEq, Eq, Structural)]
pub struct Opcode {
    /// The first byte of the word.
    pub high_byte: u8,
    /// The second byte of the word.
    pub low_byte: u8,
    /// The instruction class: the high nibble of the first byte.
    pub instruction: u8,
    /// The low nibble of the first byte.
    pub x: usize,
    /// The high nibble of the second byte.
    pub y: usize,
    /// The low nibble of the second byte.
    pub n: usize,
    /// The low twelve bits of the word.
    pub nnn: u16,
}

/// The descriptor of the instruction word `w`.
pub open spec fn decode(w: u16) -> Opcode {
    Opcode {
        high_byte: (w / 256) as u8,
        low_byte: (w % 256) as u8,
        instruction: (w / 4096) as u8,
        x: ((w / 256) % 16) as usize,
        y: ((w / 16) % 16) as usize,
        n: (w % 16) as usize,
        nnn: (w % 4096) as u16,
    }
}

impl Chip8 {
    /// The high and the low byte of `opcode`.
    pub fn bytes_from_opcode(opcode: u16) -> (r: (u8, u8))
        ensures
            r.0 == opcode / 256,
            r.1 == opcode % 256,
    {
        let high_order: u8 = ((opcode & 0xFF00) >> 8) as u8;
        let low_order: u8 = (opcode & 0x00FF) as u8;
        assert(high_order == opcode / 256 && low_order == opcode % 256) by (bit_vector)
            requires
                high_order == ((opcode & 0xFF00) >> 8) as u8,
                low_order == (opcode & 0x00FF) as u8,
        ;
        (high_order, low_order)
    }
}

impl From<u16> for Opcode {
    fn from(w: u16) -> (r: Opcode)
        ensures
            r == decode(w),
    {
        let (high_byte, low_byte) = Chip8::bytes_from_opcode(w);
        let r = Opcode {
            high_byte,
            low_byte,
            instruction: (high_byte & 0xF0) >> 4,
            x: (high_byte & 0x0F) as usize,
            y: ((low_byte & 0xF0) >> 4) as usize,
            n: (low_byte & 0x0F) as usize,
            nnn: w & 0x0FFF,
        };
        assert((high_byte & 0xF0) >> 4 == (w / 4096) as u8 && (high_byte & 0x0F) == (w / 256)
            % 16 && (low_byte & 0xF0) >> 4 == (w / 16) % 16 && (low_byte & 0x0F) == w % 16 && w
            & 0x0FFF == w % 4096) by (bit_vector)
            requires
                high_byte == (w / 256) as u8,
                low_byte == (w % 256) as u8,
        ;
        r
    }
}

impl From<(u8, u8)> for Opcode {
    fn from(bytes: (u8, u8)) -> (r: Opcode)
        ensures
            r == decode((bytes.0 * 256 + bytes.1) as u16),
    {
        let (high_byte, low_byte) = bytes;
        let w: u16 = (high_byte as u16) << 8 | low_byte as u16;
        assert(w == (high_byte as u16) * 256 + low_byte as u16) by (bit_vector)
            requires
                w == (high_byte as u16) << 8 | low_byte as u16,
        ;
        Opcode::from(w)
    }
}

impl vstd::std_specs::convert::FromSpecImpl<(u8, u8)> for Opcode {
    open spec fn obeys_from_spec() -> bool {
        true
    }

    open spec fn from_spec(bytes: (u8, u8)) -> Opcode {
        decode((bytes.0 * 256 + bytes.1) as u16)
    }
}

impl vstd::std_specs::convert::FromSpecImpl<u16> for Opcode {
    open spec fn obeys_from_spec() -> bool {
        true
    }

    open spec fn from_spec(w: u16) -> Opcode {
        decode(w)
    }
}

} // verus!
