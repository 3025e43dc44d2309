//! Field extraction for raw 16-bit instruction words.
//!
//! Every 16-bit value decomposes into the five addressing-mode fields by pure
//! bit-masking; there is no failure mode.

use vstd::prelude::*;

verus! {

/// The value of the `x` field (bits 8-11) of a raw instruction word.
pub open spec fn spec_x(raw: u16) -> u16 {
    (raw >> 8) & 0xF
}

/// The value of the `y` field (bits 4-7) of a raw instruction word.
pub open spec fn spec_y(raw: u16) -> u16 {
    (raw >> 4) & 0xF
}

/// The value of the `n` field (bits 0-3) of a raw instruction word.
pub open spec fn spec_n(raw: u16) -> u16 {
    raw & 0xF
}

/// The value of the `nnn` field (bits 0-11) of a raw instruction word.
pub open spec fn spec_nnn(raw: u16) -> u16 {
    raw & 0xFFF
}

/// The value of the `kk` field (bits 0-7) of a raw instruction word.
pub open spec fn spec_kk(raw: u16) -> u16 {
    raw & 0xFF
}

/// The five extracted fields are bounded by the width of their bit masks.
pub proof fn lemma_field_bounds(raw: u16)
    by (bit_vector)
    ensures
        (raw >> 8) & 0xF < 16,
        (raw >> 4) & 0xF < 16,
        raw & 0xF < 16,
        raw & 0xFFF < 0x1000,
        raw & 0xFF < 256,
{
}

/// The decomposition that extraction assigns to a raw word.
pub open spec fn spec_opcode(raw: u16) -> Opcode {
    Opcode {
        raw,
        x: spec_x(raw) as u8,
        y: spec_y(raw) as u8,
        n: spec_n(raw) as u8,
        nnn: spec_nnn(raw),
        kk: spec_kk(raw) as u8,
    }
}

/// An immutable decomposition of one raw 16-bit instruction word into its
/// five addressing-mode fields.
#[derive(Debug, Clone, Copy, PartialEq, Eq, Structural)]
pub struct Opcode {
    pub raw: u16,
    pub x: u8,
    pub y: u8,
    pub n: u8,
    pub nnn: u16,
    pub kk: u8,
}

impl Opcode {
    /// Each field holds exactly the bits its mask selects from `raw`.
    pub open spec fn wf(self) -> bool {
        &&& self.x == spec_x(self.raw)
        &&& self.y == spec_y(self.raw)
        &&& self.n == spec_n(self.raw)
        &&& self.nnn == spec_nnn(self.raw)
        &&& self.kk == spec_kk(self.raw)
    }

    pub fn new(raw: u16) -> (r: Opcode)
        ensures
            r.raw == raw,
            r.wf(),
            r == spec_opcode(raw),
    {
        proof {
            lemma_field_bounds(raw);
        }
        let x = take_param_x(raw);
        let y = take_param_y(raw);
        let n = take_param_n(raw);
        let nnn = take_param_nnn(raw);
        let kk = take_param_kk(raw);

        Opcode { raw, x, y, n, nnn, kk }
    }
}

/// The decomposition extraction assigns to a word is well-formed; together
/// with `lemma_decode_deterministic` this makes extraction total and
/// deterministic over all 16-bit values.
pub proof fn lemma_spec_opcode_wf(raw: u16)
    ensures
        spec_opcode(raw).wf(),
{
    lemma_field_bounds(raw);
}

/// Decoding is deterministic: two well-formed decompositions of the same raw
/// word are equal in every field.
pub proof fn lemma_decode_deterministic(a: Opcode, b: Opcode)
    requires
        a.wf(),
        b.wf(),
        a.raw == b.raw,
    ensures
        a == b,
{
}

pub fn take_param_n(opcode: u16) -> (r: u8)
    ensures
        r == spec_n(opcode),
        r < 16,
{
    proof {
        lemma_field_bounds(opcode);
    }
    (opcode & 0xF) as u8
}

pub fn take_param_nnn(opcode: u16) -> (r: u16)
    ensures
        r == spec_nnn(opcode),
        r < 0x1000,
{
    proof {
        lemma_field_bounds(opcode);
    }
    opcode & 0xFFF
}

pub fn take_param_kk(opcode: u16) -> (r: u8)
    ensures
        r == spec_kk(opcode),
{
    proof {
        lemma_field_bounds(opcode);
    }
    (opcode & 0xFF) as u8
}

pub fn take_param_x(opcode: u16) -> (r: u8)
    ensures
        r == spec_x(opcode),
        r < 16,
{
    proof {
        lemma_field_bounds(opcode);
    }
    ((opcode >> 8) & 0xF) as u8
}

pub fn take_param_y(opcode: u16) -> (r: u8)
    ensures
        r == spec_y(opcode),
        r < 16,
{
    proof {
        lemma_field_bounds(opcode);
    }
    ((opcode >> 4) & 0xF) as u8
}

} // verus!
