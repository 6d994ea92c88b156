//! The instruction set and the parsed form of a program.

use vstd::prelude::*;

verus! {

/// The operations of the instruction set.
#[derive(Debug, Clone, Copy, PartialEq, Eq, Structural)]
pub enum Ops {
    /// `add`
    ADD,
    /// `ld`
    LD,
    /// `store`
    STORE,
}

impl Ops {
    /// The four-bit opcode of each operation.
    pub open spec fn spec_opcode(self) -> u16 {
        match self {
            Ops::ADD => 0b0001,
            Ops::LD => 0b0010,
            Ops::STORE => 0b0011,
        }
    }

    /// The opcode, as it stands in bits 15 to 12 of an encoded word.
    pub fn opcode(&self) -> (code: u16)
        ensures
            code == self.spec_opcode(),
    {
        match self {
            Ops::ADD => 0b0001,
            Ops::LD => 0b0010,
            Ops::STORE => 0b0011,
        }
    }
}

/// Whether an operand is an immediate literal or a register.
#[derive(Debug, Clone, Copy, PartialEq, Eq, Structural)]
pub enum OType {
    /// A literal, written with a leading `$`.
    IMM,
    /// A register, written by its name or by its number.
    REG,
}

/// One operand as written in the source: its token, without the sigil, and its kind.
#[derive(Debug, PartialEq, Eq)]
pub struct Operand {
    pub name: String,
    pub o_type: OType,
}

/// The mathematical value of an [`Operand`].
pub struct OperandView {
    pub name: Seq<char>,
    pub o_type: OType,
}

impl View for Operand {
    type V = OperandView;

    open spec fn view(&self) -> OperandView {
        OperandView { name: self.name@, o_type: self.o_type }
    }
}

/// The values of a sequence of operands.
pub open spec fn operands_view(operands: Seq<Operand>) -> Seq<OperandView> {
    operands.map_values(|o: Operand| o@)
}

/// True when at least one operand is an immediate.
pub open spec fn any_immediate(operands: Seq<OperandView>) -> bool {
    exists|k: int| 0 <= k < operands.len() && (#[trigger] operands[k]).o_type == OType::IMM
}

/// The mode of an operand list: immediate as soon as one operand is, register otherwise.
pub open spec fn mode_of(operands: Seq<OperandView>) -> OType {
    if any_immediate(operands) {
        OType::IMM
    } else {
        OType::REG
    }
}

/// One parsed instruction. Its mode is computed from the operands when the
/// instruction is built and cannot be set apart from them.
#[derive(Debug, PartialEq, Eq)]
pub struct Instruction {
    operation: Ops,
    operand_list: Vec<Operand>,
    o_type: OType,
}

/// The mathematical value of an [`Instruction`]; the mode is a function of it.
pub struct InstructionView {
    pub operation: Ops,
    pub operand_list: Seq<OperandView>,
}

impl InstructionView {
    /// The mode of the instruction, which selects the form of its encoding.
    pub open spec fn o_type(self) -> OType {
        mode_of(self.operand_list)
    }
}

impl View for Instruction {
    type V = InstructionView;

    closed spec fn view(&self) -> InstructionView {
        InstructionView {
            operation: self.operation,
            operand_list: operands_view(self.operand_list@),
        }
    }
}

/// Taking one more operand into account sets the immediate mode exactly when
/// that operand is an immediate.
proof fn lemma_any_immediate_step(operands: Seq<OperandView>, k: int)
    requires
        0 <= k < operands.len(),
    ensures
        any_immediate(operands.take(k + 1)) <==> any_immediate(operands.take(k))
            || operands[k].o_type == OType::IMM,
{
    let before = operands.take(k);
    let after = operands.take(k + 1);
    if any_immediate(before) {
        let j = choose|j: int| 0 <= j < before.len() && (#[trigger] before[j]).o_type == OType::IMM;
        assert(after[j].o_type == OType::IMM);
    }
    if operands[k].o_type == OType::IMM {
        assert(after[k].o_type == OType::IMM);
    }
    if any_immediate(after) {
        let j = choose|j: int| 0 <= j < after.len() && (#[trigger] after[j]).o_type == OType::IMM;
        if j < k {
            assert(before[j].o_type == OType::IMM);
        }
    }
}

impl Instruction {
    #[verifier::type_invariant]
    spec fn mode_is_derived(&self) -> bool {
        self.o_type == mode_of(operands_view(self.operand_list@))
    }

    /// Builds an instruction and derives its mode from the operands.
    pub fn new(operation: Ops, operand_list: Vec<Operand>) -> (ins: Instruction)
        ensures
            ins@ == (InstructionView { operation, operand_list: operands_view(operand_list@) }),
    {
        let mut o_type = OType::REG;
        let mut k: usize = 0;
        while k < operand_list.len()
            invariant
                k <= operand_list.len(),
                o_type == mode_of(operands_view(operand_list@).take(k as int)),
            decreases operand_list.len() - k,
        {
            proof {
                lemma_any_immediate_step(operands_view(operand_list@), k as int);
            }
            match operand_list[k].o_type {
                OType::IMM => {
                    o_type = OType::IMM;
                },
                OType::REG => {},
            }
            k += 1;
        }
        assert(operands_view(operand_list@).take(k as int) =~= operands_view(operand_list@));
        Instruction { operation, operand_list, o_type }
    }

    /// The operation of the instruction.
    pub fn operation(&self) -> (op: Ops)
        ensures
            op == self@.operation,
    {
        self.operation
    }

    /// The operands of the instruction, in source order.
    pub fn operands(&self) -> (operands: &Vec<Operand>)
        ensures
            operands_view(operands@) == self@.operand_list,
    {
        &self.operand_list
    }

    /// The mode of the instruction: immediate when some operand is an
    /// immediate, register otherwise.
    pub fn mode(&self) -> (mode: OType)
        ensures
            mode == self@.o_type(),
    {
        proof {
            use_type_invariant(self);
        }
        self.o_type
    }
}

} // verus!
