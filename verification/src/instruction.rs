//! Classification of raw instruction words into instruction variants.
//!
//! A word is classified by its highest nibble; the families with highest
//! nibble 0x0 and 0x8 are disambiguated further by the full low byte or the
//! low nibble. A bit pattern outside the recognized table is a decode
//! failure, never a variant.

use vstd::prelude::*;
use vstd::string::StringExecFns;

use crate::opcode::Opcode;
use crate::opcode::spec_opcode;

verus! {

/// A tagged variant over every recognized opcode class, each carrying its
/// decomposed opcode.
#[derive(Debug, Clone, Copy, PartialEq, Eq, Structural)]
pub enum Instruction {
    /// Halt program
    End(Opcode),
    /// Clear the frame buffer
    I00E0(Opcode),
    /// Return from subroutine: pc = stack.pop()
    I00EE(Opcode),
    /// Jump: pc = nnn
    I1NNN(Opcode),
    /// Call subroutine: stack.push(pc); pc = nnn
    I2NNN(Opcode),
    /// Skip next instruction if v[x] == kk
    I3XNN(Opcode),
    /// Skip next instruction if v[x] != kk
    I4XNN(Opcode),
    /// Skip next instruction if v[x] == v[y]
    I5XY0(Opcode),
    /// v[x] = kk
    I6XNN(Opcode),
    /// v[x] = v[x] + kk, 8-bit wraparound, no flag
    I7XNN(Opcode),
    /// v[x] = v[y]
    I8XY0(Opcode),
    /// v[x] = v[x] OR v[y]
    I8XY1(Opcode),
    /// v[x] = v[x] AND v[y]
    I8XY2(Opcode),
    /// v[x] = v[x] XOR v[y]
    I8XY3(Opcode),
    /// v[x] = v[x] + v[y]; v[F] = carry out of the 9th bit
    I8XY4(Opcode),
    /// v[x] = v[x] - v[y]; v[F] = 0 on borrow, else 1
    I8XY5(Opcode),
    /// Right shift: v[F] = low bit, v[x] >>= 1 (legacy quirk copies v[y] first)
    I8XY6(Opcode),
    /// v[x] = v[y] - v[x]; v[F] = 0 on borrow, else 1
    I8XY7(Opcode),
    /// Left shift: v[F] = high bit, v[x] <<= 1 (legacy quirk copies v[y] first)
    I8XYE(Opcode),
    /// Skip next instruction if v[x] != v[y]
    I9XY0(Opcode),
    /// register_i = nnn
    IANNN(Opcode),
    /// pc = nnn + v[0]
    IBNNN(Opcode),
    /// v[x] = random byte AND kk
    ICXNN(Opcode),
    /// Draw an n-byte sprite at (v[x] mod 64, v[y] mod 32)
    IDXYN(Opcode),
}

/// The classification table: which instruction, if any, a raw word decodes
/// to. `None` is a decode failure.
pub open spec fn spec_decode(raw: u16) -> Option<Instruction> {
    let op = spec_opcode(raw);
    if raw == 0x0000 {
        Some(Instruction::End(op))
    } else if raw == 0x00E0 {
        Some(Instruction::I00E0(op))
    } else if raw == 0x00EE {
        Some(Instruction::I00EE(op))
    } else {
        let hi = raw >> 12;
        if hi == 0x1 {
            Some(Instruction::I1NNN(op))
        } else if hi == 0x2 {
            Some(Instruction::I2NNN(op))
        } else if hi == 0x3 {
            Some(Instruction::I3XNN(op))
        } else if hi == 0x4 {
            Some(Instruction::I4XNN(op))
        } else if hi == 0x5 {
            Some(Instruction::I5XY0(op))
        } else if hi == 0x6 {
            Some(Instruction::I6XNN(op))
        } else if hi == 0x7 {
            Some(Instruction::I7XNN(op))
        } else if hi == 0x8 {
            let lo = raw & 0xF;
            if lo == 0x0 {
                Some(Instruction::I8XY0(op))
            } else if lo == 0x1 {
                Some(Instruction::I8XY1(op))
            } else if lo == 0x2 {
                Some(Instruction::I8XY2(op))
            } else if lo == 0x3 {
                Some(Instruction::I8XY3(op))
            } else if lo == 0x4 {
                Some(Instruction::I8XY4(op))
            } else if lo == 0x5 {
                Some(Instruction::I8XY5(op))
            } else if lo == 0x6 {
                Some(Instruction::I8XY6(op))
            } else if lo == 0x7 {
                Some(Instruction::I8XY7(op))
            } else if lo == 0xE {
                Some(Instruction::I8XYE(op))
            } else {
                None
            }
        } else if hi == 0x9 {
            Some(Instruction::I9XY0(op))
        } else if hi == 0xA {
            Some(Instruction::IANNN(op))
        } else if hi == 0xB {
            Some(Instruction::IBNNN(op))
        } else if hi == 0xC {
            Some(Instruction::ICXNN(op))
        } else if hi == 0xD {
            Some(Instruction::IDXYN(op))
        } else {
            None
        }
    }
}

impl Instruction {
    /// The decomposed opcode the variant carries.
    pub open spec fn opcode(self) -> Opcode {
        match self {
            Instruction::End(op) => op,
            Instruction::I00E0(op) => op,
            Instruction::I00EE(op) => op,
            Instruction::I1NNN(op) => op,
            Instruction::I2NNN(op) => op,
            Instruction::I3XNN(op) => op,
            Instruction::I4XNN(op) => op,
            Instruction::I5XY0(op) => op,
            Instruction::I6XNN(op) => op,
            Instruction::I7XNN(op) => op,
            Instruction::I8XY0(op) => op,
            Instruction::I8XY1(op) => op,
            Instruction::I8XY2(op) => op,
            Instruction::I8XY3(op) => op,
            Instruction::I8XY4(op) => op,
            Instruction::I8XY5(op) => op,
            Instruction::I8XY6(op) => op,
            Instruction::I8XY7(op) => op,
            Instruction::I8XYE(op) => op,
            Instruction::I9XY0(op) => op,
            Instruction::IANNN(op) => op,
            Instruction::IBNNN(op) => op,
            Instruction::ICXNN(op) => op,
            Instruction::IDXYN(op) => op,
        }
    }

    /// Classify a raw word. Returns the instruction the table assigns to it,
    /// or an error for a bit pattern the table does not recognize.
    pub fn from_raw_opcode(raw_opcode: u16) -> (r: Result<Instruction, String>)
        ensures
            r is Ok <==> spec_decode(raw_opcode) is Some,
            r is Ok ==> r->Ok_0 == spec_decode(raw_opcode)->Some_0,
    {
        let opcode = Opcode::new(raw_opcode);
        if raw_opcode == 0x0000 {
            return Ok(Instruction::End(opcode));
        }
        if raw_opcode == 0x00E0 {
            return Ok(Instruction::I00E0(opcode));
        }
        if raw_opcode == 0x00EE {
            return Ok(Instruction::I00EE(opcode));
        }
        let hi = raw_opcode >> 12;
        if hi == 0x1 {
            return Ok(Instruction::I1NNN(opcode));
        }
        if hi == 0x2 {
            return Ok(Instruction::I2NNN(opcode));
        }
        if hi == 0x3 {
            return Ok(Instruction::I3XNN(opcode));
        }
        if hi == 0x4 {
            return Ok(Instruction::I4XNN(opcode));
        }
        if hi == 0x5 {
            return Ok(Instruction::I5XY0(opcode));
        }
        if hi == 0x6 {
            return Ok(Instruction::I6XNN(opcode));
        }
        if hi == 0x7 {
            return Ok(Instruction::I7XNN(opcode));
        }
        if hi == 0x8 {
            let lo = raw_opcode & 0xF;
            if lo == 0x0 {
                return Ok(Instruction::I8XY0(opcode));
            }
            if lo == 0x1 {
                return Ok(Instruction::I8XY1(opcode));
            }
            if lo == 0x2 {
                return Ok(Instruction::I8XY2(opcode));
            }
            if lo == 0x3 {
                return Ok(Instruction::I8XY3(opcode));
            }
            if lo == 0x4 {
                return Ok(Instruction::I8XY4(opcode));
            }
            if lo == 0x5 {
                return Ok(Instruction::I8XY5(opcode));
            }
            if lo == 0x6 {
                return Ok(Instruction::I8XY6(opcode));
            }
            if lo == 0x7 {
                return Ok(Instruction::I8XY7(opcode));
            }
            if lo == 0xE {
                return Ok(Instruction::I8XYE(opcode));
            }
            return Err(String::from_str("Cannot decode instruction"));
        }
        if hi == 0x9 {
            return Ok(Instruction::I9XY0(opcode));
        }
        if hi == 0xA {
            return Ok(Instruction::IANNN(opcode));
        }
        if hi == 0xB {
            return Ok(Instruction::IBNNN(opcode));
        }
        if hi == 0xC {
            return Ok(Instruction::ICXNN(opcode));
        }
        if hi == 0xD {
            return Ok(Instruction::IDXYN(opcode));
        }
        Err(String::from_str("Cannot decode instruction"))
    }
}

} // verus!
