//! Register resolution and the bit encoder.
//!
//! An instruction becomes one 16-bit word:
//!
//! ```text
//!  15    12 11    9 8     6  5  4         0
//! +--------+-------+-------+---+-----------+
//! | opcode |  dest |  src  | 1 | immediate |   immediate form
//! +--------+-------+-------+---+-----+-----+
//! | opcode |  dest |  src  | 0 0 0   | reg |   register form
//! +--------+-------+-------+---------+-----+
//! ```
//!
//! A value that does not fit its field is an error, never truncated.

use vstd::prelude::*;
use vstd::string::*;
use crate::model::{Instruction, InstructionView, OType, Operand, OperandView};
use crate::primitives::{parse_u16, spec_parse_u16};

verus! {

/// The number of operands that every instruction takes.
pub const OPERAND_COUNT: usize = 3;

/// The values of a three-bit register field lie below this bound.
pub const REGISTER_LIMIT: u16 = 8;

/// The values of the five-bit immediate field lie below this bound.
pub const IMMEDIATE_LIMIT: u16 = 32;

/// Bit 5 of a word, set in the immediate form.
pub const IMMEDIATE_FLAG: u16 = 0b10_0000;

/// Why an operand has no field value.
#[derive(Debug, Clone, Copy, PartialEq, Eq, Structural)]
pub enum ResolutionError {
    /// The token is neither a register name nor an unsigned integer of at most sixteen bits.
    NotAnInteger,
    /// The token resolves to a value that does not fit the field it is meant for.
    TooWide,
}

/// Why an instruction has no encoding.
#[derive(Debug, Clone, Copy, PartialEq, Eq, Structural)]
pub enum EncodeError {
    /// The instruction has `found` operands, not three.
    Arity { found: usize },
    /// The operand at `index`, counted from zero, does not resolve.
    Resolution { index: usize, cause: ResolutionError },
}

/// The table of register names: `r1` to `r5` stand for 1 to 5.
pub open spec fn register_index(name: Seq<char>) -> Option<u16> {
    if name =~= seq!['r', '1'] {
        Some(1u16)
    } else if name =~= seq!['r', '2'] {
        Some(2u16)
    } else if name =~= seq!['r', '3'] {
        Some(3u16)
    } else if name =~= seq!['r', '4'] {
        Some(4u16)
    } else if name =~= seq!['r', '5'] {
        Some(5u16)
    } else {
        None
    }
}

/// The integer that an operand stands for. A register operand is looked up in
/// the table of register names and, when it is not there, read as an unsigned
/// integer. An immediate operand is read as an unsigned integer.
pub open spec fn spec_resolve(operand: OperandView) -> Option<u16> {
    match operand.o_type {
        OType::REG => match register_index(operand.name) {
            Some(index) => Some(index),
            None => spec_parse_u16(operand.name),
        },
        OType::IMM => spec_parse_u16(operand.name),
    }
}

/// Resolves an operand to the integer it stands for.
pub fn reg_to_binary(o: &Operand) -> (r: Result<u16, ResolutionError>)
    ensures
        r == match spec_resolve(o@) {
            Some(value) => Ok::<u16, ResolutionError>(value),
            None => Err::<u16, ResolutionError>(ResolutionError::NotAnInteger),
        },
{
    let name = o.name.as_str();
    match o.o_type {
        OType::REG => {
            if name.unicode_len() == 2 && name.get_char(0) == 'r' {
                let digit = name.get_char(1);
                if digit == '1' {
                    return Ok(1);
                } else if digit == '2' {
                    return Ok(2);
                } else if digit == '3' {
                    return Ok(3);
                } else if digit == '4' {
                    return Ok(4);
                } else if digit == '5' {
                    return Ok(5);
                }
            }
        },
        OType::IMM => {},
    }
    match parse_u16(name) {
        Some(value) => Ok(value),
        None => Err(ResolutionError::NotAnInteger),
    }
}

/// The value of an operand in a field whose values lie below `limit`.
pub open spec fn spec_field(operand: OperandView, limit: u16) -> Result<u16, ResolutionError> {
    match spec_resolve(operand) {
        None => Err(ResolutionError::NotAnInteger),
        Some(value) => if value < limit {
            Ok(value)
        } else {
            Err(ResolutionError::TooWide)
        },
    }
}

/// Resolves an operand for a field whose values lie below `limit`.
pub fn resolve_field(o: &Operand, limit: u16) -> (r: Result<u16, ResolutionError>)
    ensures
        r == spec_field(o@, limit),
{
    match reg_to_binary(o) {
        Ok(value) => if value < limit {
            Ok(value)
        } else {
            Err(ResolutionError::TooWide)
        },
        Err(cause) => Err(cause),
    }
}

/// The three field values of an operand list: destination register, source
/// register, and a last operand below `last_limit`. The list must hold exactly
/// three operands; they are resolved in order, and the first that fails is
/// the one reported.
pub open spec fn spec_fields(operands: Seq<OperandView>, last_limit: u16) -> Result<
    (u16, u16, u16),
    EncodeError,
> {
    if operands.len() != OPERAND_COUNT {
        Err(EncodeError::Arity { found: operands.len() as usize })
    } else {
        match spec_field(operands[0], REGISTER_LIMIT) {
            Err(cause) => Err(EncodeError::Resolution { index: 0, cause }),
            Ok(dest) => match spec_field(operands[1], REGISTER_LIMIT) {
                Err(cause) => Err(EncodeError::Resolution { index: 1, cause }),
                Ok(src) => match spec_field(operands[2], last_limit) {
                    Err(cause) => Err(EncodeError::Resolution { index: 2, cause }),
                    Ok(last) => Ok((dest, src, last)),
                },
            },
        }
    }
}

fn fields(i: &Instruction, last_limit: u16) -> (r: Result<(u16, u16, u16), EncodeError>)
    ensures
        r == spec_fields(i@.operand_list, last_limit),
{
    let operands = i.operands();
    if operands.len() != OPERAND_COUNT {
        return Err(EncodeError::Arity { found: operands.len() });
    }
    let dest = match resolve_field(&operands[0], REGISTER_LIMIT) {
        Ok(value) => value,
        Err(cause) => {
            return Err(EncodeError::Resolution { index: 0, cause });
        },
    };
    let src = match resolve_field(&operands[1], REGISTER_LIMIT) {
        Ok(value) => value,
        Err(cause) => {
            return Err(EncodeError::Resolution { index: 1, cause });
        },
    };
    let last = match resolve_field(&operands[2], last_limit) {
        Ok(value) => value,
        Err(cause) => {
            return Err(EncodeError::Resolution { index: 2, cause });
        },
    };
    Ok((dest, src, last))
}

/// The word of the immediate form.
pub open spec fn immediate_word(opcode: u16, dest: u16, src: u16, value: u16) -> u16 {
    opcode << 12 | dest << 9 | src << 6 | IMMEDIATE_FLAG | value
}

/// The word of the register form.
pub open spec fn register_word(opcode: u16, dest: u16, src: u16, reg: u16) -> u16 {
    opcode << 12 | dest << 9 | src << 6 | reg
}

/// The encoding of an instruction in the immediate form.
pub open spec fn spec_add_imm_bits(i: InstructionView) -> Result<u16, EncodeError> {
    match spec_fields(i.operand_list, IMMEDIATE_LIMIT) {
        Ok((dest, src, value)) => Ok(immediate_word(i.operation.spec_opcode(), dest, src, value)),
        Err(e) => Err(e),
    }
}

/// The encoding of an instruction in the register form.
pub open spec fn spec_add_reg_bits(i: InstructionView) -> Result<u16, EncodeError> {
    match spec_fields(i.operand_list, REGISTER_LIMIT) {
        Ok((dest, src, reg)) => Ok(register_word(i.operation.spec_opcode(), dest, src, reg)),
        Err(e) => Err(e),
    }
}

/// The encoding of an instruction: the form is chosen by the instruction's mode.
pub open spec fn spec_encode(i: InstructionView) -> Result<u16, EncodeError> {
    match i.o_type() {
        OType::IMM => spec_add_imm_bits(i),
        OType::REG => spec_add_reg_bits(i),
    }
}

/// Encodes an instruction in the immediate form: the last operand fills the
/// five-bit immediate field and bit 5 is set.
pub fn add_imm_bits(i: &Instruction) -> (r: Result<u16, EncodeError>)
    ensures
        r == spec_add_imm_bits(i@),
{
    match fields(i, IMMEDIATE_LIMIT) {
        Ok((dest, src, value)) => Ok(
            i.operation().opcode() << 12 | dest << 9 | src << 6 | IMMEDIATE_FLAG | value,
        ),
        Err(e) => Err(e),
    }
}

/// Encodes an instruction in the register form: the last operand fills the
/// three-bit register field and bits 5 to 3 are zero.
pub fn add_reg_bits(i: &Instruction) -> (r: Result<u16, EncodeError>)
    ensures
        r == spec_add_reg_bits(i@),
{
    match fields(i, REGISTER_LIMIT) {
        Ok((dest, src, reg)) => Ok(i.operation().opcode() << 12 | dest << 9 | src << 6 | reg),
        Err(e) => Err(e),
    }
}

/// Encodes an instruction in the form that its mode selects.
pub fn encode(i: &Instruction) -> (r: Result<u16, EncodeError>)
    ensures
        r == spec_encode(i@),
{
    match i.mode() {
        OType::IMM => add_imm_bits(i),
        OType::REG => add_reg_bits(i),
    }
}

} // verus!
