//! Instruction decoder: splits a raw 16-bit instruction word into its four
//! nibble fields and the two derived operands (byte immediate `NN`, 12-bit
//! address `NNN`).

use vstd::prelude::*;

verus! {

/// The top nibble of an instruction word (the instruction family).
pub open spec fn nib1(op: u16) -> u8 {
    ((op & 0xF000) >> 12) as u8
}

/// The second nibble (typically a register index X).
pub open spec fn nib2(op: u16) -> u8 {
    ((op & 0x0F00) >> 8) as u8
}

/// The third nibble (typically a register index Y or a sub-opcode digit).
pub open spec fn nib3(op: u16) -> u8 {
    ((op & 0x00F0) >> 4) as u8
}

/// The bottom nibble (a sub-opcode digit or a sprite height).
pub open spec fn nib4(op: u16) -> u8 {
    (op & 0x000F) as u8
}

/// The 8-bit immediate operand: the low byte of the word.
pub open spec fn imm_nn(op: u16) -> u8 {
    (op & 0x00FF) as u8
}

/// The 12-bit address operand: the low 12 bits of the word.
pub open spec fn imm_nnn(op: u16) -> u16 {
    op & 0x0FFF
}

/// Every nibble field is a 4-bit value, and the derived operands fit in
/// 8 and 12 bits respectively.
pub proof fn lemma_field_bounds(op: u16)
    by (bit_vector)
    ensures
        nib1(op) < 16,
        nib2(op) < 16,
        nib3(op) < 16,
        nib4(op) < 16,
        imm_nnn(op) < 0x1000,
{
}

/// A decoded instruction: the raw word together with its four nibble
/// fields, valid only for the duration of one `tick`.
pub struct Op {
    pub op: u16,
    pub d1: u8,
    pub d2: u8,
    pub d3: u8,
    pub d4: u8,
}

impl Op {
    /// The four stored fields are exactly the nibbles of the stored word.
    pub open spec fn wf(self) -> bool {
        &&& self.d1 == nib1(self.op)
        &&& self.d2 == nib2(self.op)
        &&& self.d3 == nib3(self.op)
        &&& self.d4 == nib4(self.op)
    }

    /// Decode a raw word. Total: every 16-bit word has well-defined fields;
    /// only the dispatch step may fail to recognize a pattern.
    pub fn from_opcode(opcode: u16) -> (r: Self)
        ensures
            r.op == opcode,
            r.wf(),
    {
        Self {
            op: opcode,
            d1: ((opcode & 0xF000) >> 12) as u8,
            d2: ((opcode & 0x0F00) >> 8) as u8,
            d3: ((opcode & 0x00F0) >> 4) as u8,
            d4: (opcode & 0x000F) as u8,
        }
    }

    /// The byte immediate `NN`.
    pub fn get_nn(&self) -> (r: u8)
        ensures
            r == imm_nn(self.op),
    {
        (self.op & 0xFF) as u8
    }

    /// The address immediate `NNN`.
    pub fn get_nnn(&self) -> (r: u16)
        ensures
            r == imm_nnn(self.op),
    {
        self.op & 0xFFF
    }
}

} // verus!
