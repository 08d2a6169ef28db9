//! Small MIPS programs, given instruction by instruction, for trying a
//! prover out.

use vstd::prelude::*;

verus! {

/// The operations that the programs of this file use.
#[allow(non_camel_case_types)]
#[derive(Clone, Copy, Debug, PartialEq, Eq, Structural)]
pub enum Opcode {
    ADD,
    LB,
    LBU,
    LH,
    LHU,
    LL,
    LW,
    LWL,
    LWR,
    SB,
    SH,
    SW,
    SWL,
    SWR,
}

/// One instruction: an operation, its three operands, and for the second
/// and the third operand whether it is an immediate value and not a register.
#[derive(Clone, Copy, Debug, PartialEq, Eq, Structural)]
pub struct Instruction {
    pub opcode: Opcode,
    pub op_a: u8,
    pub op_b: u32,
    pub op_c: u32,
    pub imm_b: bool,
    pub imm_c: bool,
}

/// A program: its instructions, the address at which execution starts, and
/// the address of its first instruction.
#[derive(Clone, Debug)]
pub struct Program {
    pub instructions: Vec<Instruction>,
    pub pc_start: u32,
    pub pc_base: u32,
}

/// The instruction with the given parts.
pub open spec fn instruction(
    opcode: Opcode,
    op_a: u8,
    op_b: u32,
    op_c: u32,
    imm_b: bool,
    imm_c: bool,
) -> Instruction {
    Instruction { opcode, op_a, op_b, op_c, imm_b, imm_c }
}

impl Instruction {
    /// Makes an instruction of its parts.
    pub fn new(opcode: Opcode, op_a: u8, op_b: u32, op_c: u32, imm_b: bool, imm_c: bool) -> (made:
        Self)
        ensures
            made == instruction(opcode, op_a, op_b, op_c, imm_b, imm_c),
    {
        Instruction { opcode, op_a, op_b, op_c, imm_b, imm_c }
    }
}

impl Program {
    /// Makes a program of its parts.
    pub fn new(instructions: Vec<Instruction>, pc_start: u32, pc_base: u32) -> (program: Self)
        ensures
            program.instructions == instructions,
            program.pc_start == pc_start,
            program.pc_base == pc_base,
    {
        Program { instructions, pc_start, pc_base }
    }
}

/// The instructions of a program that adds two constants.
pub open spec fn simple_program_instructions() -> Seq<Instruction> {
    seq![
        instruction(Opcode::ADD, 29, 0, 5, false, true),
        instruction(Opcode::ADD, 30, 0, 37, false, true),
        instruction(Opcode::ADD, 31, 30, 29, false, false),
    ]
}

/// A program that adds two constants, starting at address zero.
#[must_use]
pub fn simple_program() -> (program: Program)
    ensures
        program.instructions@ == simple_program_instructions(),
        program.pc_start == 0,
        program.pc_base == 0,
{
    let instructions = vec![
        Instruction::new(Opcode::ADD, 29, 0, 5, false, true),
        Instruction::new(Opcode::ADD, 30, 0, 37, false, true),
        Instruction::new(Opcode::ADD, 31, 30, 29, false, false),
    ];
    assert(instructions@ =~= simple_program_instructions());
    Program::new(instructions, 0, 0)
}

/// The instructions of a program that stores and loads words, halfwords and bytes.
pub open spec fn simple_memory_program_instructions() -> Seq<Instruction> {
    seq![
        instruction(Opcode::ADD, 29, 0, 0x12348765, false, true),
        instruction(Opcode::SW, 29, 0, 0x27654320, false, true),
        instruction(Opcode::LW, 28, 0, 0x27654320, false, true),
        instruction(Opcode::LBU, 27, 0, 0x27654320, false, true),
        instruction(Opcode::LBU, 26, 0, 0x27654321, false, true),
        instruction(Opcode::LBU, 25, 0, 0x27654322, false, true),
        instruction(Opcode::LBU, 24, 0, 0x27654323, false, true),
        instruction(Opcode::LB, 23, 0, 0x27654320, false, true),
        instruction(Opcode::LB, 22, 0, 0x27654321, false, true),
        instruction(Opcode::LHU, 21, 0, 0x27654320, false, true),
        instruction(Opcode::LHU, 20, 0, 0x27654322, false, true),
        instruction(Opcode::LH, 19, 0, 0x27654320, false, true),
        instruction(Opcode::LH, 18, 0, 0x27654322, false, true),
        instruction(Opcode::ADD, 17, 0, 0x38276525, false, true),
        instruction(Opcode::SW, 29, 0, 0x43627530, false, true),
        instruction(Opcode::SB, 17, 0, 0x43627530, false, true),
        instruction(Opcode::LW, 16, 0, 0x43627530, false, true),
        instruction(Opcode::SB, 17, 0, 0x43627531, false, true),
        instruction(Opcode::LW, 15, 0, 0x43627530, false, true),
        instruction(Opcode::SB, 17, 0, 0x43627532, false, true),
        instruction(Opcode::LW, 14, 0, 0x43627530, false, true),
        instruction(Opcode::SB, 17, 0, 0x43627533, false, true),
        instruction(Opcode::LW, 13, 0, 0x43627530, false, true),
        instruction(Opcode::SW, 29, 0, 0x43627530, false, true),
        instruction(Opcode::SH, 17, 0, 0x43627530, false, true),
        instruction(Opcode::LW, 12, 0, 0x43627530, false, true),
        instruction(Opcode::SH, 17, 0, 0x43627532, false, true),
        instruction(Opcode::LW, 11, 0, 0x43627530, false, true),
    ]
}

/// A program that stores and loads words, halfwords and bytes, starting at address zero.
#[must_use]
pub fn simple_memory_program() -> (program: Program)
    ensures
        program.instructions@ == simple_memory_program_instructions(),
        program.pc_start == 0,
        program.pc_base == 0,
{
    let instructions = vec![
        Instruction::new(Opcode::ADD, 29, 0, 0x12348765, false, true),
        Instruction::new(Opcode::SW, 29, 0, 0x27654320, false, true),
        Instruction::new(Opcode::LW, 28, 0, 0x27654320, false, true),
        Instruction::new(Opcode::LBU, 27, 0, 0x27654320, false, true),
        Instruction::new(Opcode::LBU, 26, 0, 0x27654321, false, true),
        Instruction::new(Opcode::LBU, 25, 0, 0x27654322, false, true),
        Instruction::new(Opcode::LBU, 24, 0, 0x27654323, false, true),
        Instruction::new(Opcode::LB, 23, 0, 0x27654320, false, true),
        Instruction::new(Opcode::LB, 22, 0, 0x27654321, false, true),
        Instruction::new(Opcode::LHU, 21, 0, 0x27654320, false, true),
        Instruction::new(Opcode::LHU, 20, 0, 0x27654322, false, true),
        Instruction::new(Opcode::LH, 19, 0, 0x27654320, false, true),
        Instruction::new(Opcode::LH, 18, 0, 0x27654322, false, true),
        Instruction::new(Opcode::ADD, 17, 0, 0x38276525, false, true),
        Instruction::new(Opcode::SW, 29, 0, 0x43627530, false, true),
        Instruction::new(Opcode::SB, 17, 0, 0x43627530, false, true),
        Instruction::new(Opcode::LW, 16, 0, 0x43627530, false, true),
        Instruction::new(Opcode::SB, 17, 0, 0x43627531, false, true),
        Instruction::new(Opcode::LW, 15, 0, 0x43627530, false, true),
        Instruction::new(Opcode::SB, 17, 0, 0x43627532, false, true),
        Instruction::new(Opcode::LW, 14, 0, 0x43627530, false, true),
        Instruction::new(Opcode::SB, 17, 0, 0x43627533, false, true),
        Instruction::new(Opcode::LW, 13, 0, 0x43627530, false, true),
        Instruction::new(Opcode::SW, 29, 0, 0x43627530, false, true),
        Instruction::new(Opcode::SH, 17, 0, 0x43627530, false, true),
        Instruction::new(Opcode::LW, 12, 0, 0x43627530, false, true),
        Instruction::new(Opcode::SH, 17, 0, 0x43627532, false, true),
        Instruction::new(Opcode::LW, 11, 0, 0x43627530, false, true),
    ];
    assert(instructions@ =~= simple_memory_program_instructions());
    Program::new(instructions, 0, 0)
}

/// The instructions of a program that loads and stores words that are not aligned.
pub open spec fn other_memory_program_instructions() -> Seq<Instruction> {
    seq![
        instruction(Opcode::ADD, 29, 0, 1081407, false, true),
        instruction(Opcode::ADD, 27, 0, 25, false, true),
        instruction(Opcode::ADD, 25, 0, 268701695, false, true),
        instruction(Opcode::ADD, 17, 0, 0x43627530, false, true),
        instruction(Opcode::ADD, 22, 0, 22, false, true),
        instruction(Opcode::ADD, 10, 0, 15, false, true),
        instruction(Opcode::LWR, 29, 27, 1, false, true),
        instruction(Opcode::LWL, 29, 27, 1, false, true),
        instruction(Opcode::LL, 29, 27, 3, false, true),
        instruction(Opcode::ADD, 15, 0, 1081407, false, true),
        instruction(Opcode::SWL, 15, 22, 2, false, true),
        instruction(Opcode::SWR, 15, 22, 2, false, true),
        instruction(Opcode::SWL, 26, 10, 2, false, true),
        instruction(Opcode::SWR, 26, 10, 2, false, true),
        instruction(Opcode::LWR, 29, 27, 0, false, true),
        instruction(Opcode::LWL, 29, 27, 0, false, true),
    ]
}

/// A program that loads and stores words that are not aligned, starting at address zero.
#[must_use]
pub fn other_memory_program() -> (program: Program)
    ensures
        program.instructions@ == other_memory_program_instructions(),
        program.pc_start == 0,
        program.pc_base == 0,
{
    let instructions = vec![
        Instruction::new(Opcode::ADD, 29, 0, 1081407, false, true),
        Instruction::new(Opcode::ADD, 27, 0, 25, false, true),
        Instruction::new(Opcode::ADD, 25, 0, 268701695, false, true),
        Instruction::new(Opcode::ADD, 17, 0, 0x43627530, false, true),
        Instruction::new(Opcode::ADD, 22, 0, 22, false, true),
        Instruction::new(Opcode::ADD, 10, 0, 15, false, true),
        Instruction::new(Opcode::LWR, 29, 27, 1, false, true),
        Instruction::new(Opcode::LWL, 29, 27, 1, false, true),
        Instruction::new(Opcode::LL, 29, 27, 3, false, true),
        Instruction::new(Opcode::ADD, 15, 0, 1081407, false, true),
        Instruction::new(Opcode::SWL, 15, 22, 2, false, true),
        Instruction::new(Opcode::SWR, 15, 22, 2, false, true),
        Instruction::new(Opcode::SWL, 26, 10, 2, false, true),
        Instruction::new(Opcode::SWR, 26, 10, 2, false, true),
        Instruction::new(Opcode::LWR, 29, 27, 0, false, true),
        Instruction::new(Opcode::LWL, 29, 27, 0, false, true),
    ];
    assert(instructions@ =~= other_memory_program_instructions());
    Program::new(instructions, 0, 0)
}

} // verus!
