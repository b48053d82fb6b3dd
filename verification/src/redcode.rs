//! The Redcode instruction model: opcodes, modifiers, addressing modes and
//! the instruction record that fills every cell of the arena.

use vstd::prelude::*;

verus! {

/// How an indirect operand changes the cell it points through.
#[derive(Debug, Clone, Copy, PartialEq, Eq, Structural)]
pub enum IncrementMode {
    /// The pointer is left as it is.
    Unchanged,
    /// The pointer is decremented before it is followed.
    PreDecrement,
    /// The pointer is incremented after it was followed.
    PostIncrement,
}

/// The addressing mode of an operand. With the three increment modes of the
/// two indirect forms there are eight modes in all.
#[derive(Debug, Clone, Copy, PartialEq, Eq, Structural)]
pub enum AddressingMode {
    /// `#`: the operand is the instruction itself.
    Immediate,
    /// `$`: the operand is the cell at the displacement.
    Direct,
    /// `*`, `{`, `}`: follow the A field of the cell at the displacement.
    AIndirect(IncrementMode),
    /// `@`, `<`, `>`: follow the B field of the cell at the displacement.
    BIndirect(IncrementMode),
}

impl AddressingMode {
    /// Whether this is the immediate mode.
    pub fn is_immediate(&self) -> (r: bool)
        ensures
            r == (*self == AddressingMode::Immediate),
    {
        match *self {
            AddressingMode::Immediate => true,
            _ => false,
        }
    }
}

impl Default for AddressingMode {
    /// An operand written without a sigil is direct.
    fn default() -> (r: Self)
        ensures
            r == AddressingMode::Direct,
    {
        AddressingMode::Direct
    }
}

/// An operation of the Redcode processor.
#[derive(Debug, Clone, Copy, PartialEq, Eq, Structural)]
pub enum OpCode {
    /// Data: kills the thread that executes it.
    Dat,
    /// Move.
    Mov,
    /// Add.
    Add,
    /// Subtract.
    Sub,
    /// Multiply.
    Mul,
    /// Divide.
    Div,
    /// Modulo.
    Mod,
    /// Unconditional jump.
    Jmp,
    /// Jump if zero.
    Jmz,
    /// Jump if not zero.
    Jmn,
    /// Decrement, then jump if not zero.
    Djn,
    /// Split: start a new thread.
    Spl,
    /// Compare: the older name of `SkipEq`.
    Cmp,
    /// `SEQ`: skip the next instruction if equal.
    SkipEq,
    /// Skip the next instruction if not equal.
    Sne,
    /// Skip the next instruction if less than.
    Slt,
    /// Load from private storage.
    Ldp,
    /// Store to private storage.
    Stp,
    /// No operation.
    Nop,
}

impl Default for OpCode {
    /// `DAT`.
    fn default() -> (r: Self)
        ensures
            r == OpCode::Dat,
    {
        OpCode::Dat
    }
}

/// An opcode modifier: which fields of the source and of the destination
/// take part in an operation.
#[derive(Debug, Clone, Copy, PartialEq, Eq, Structural)]
pub enum OpMode {
    /// A to A.
    A,
    /// B to B.
    B,
    /// A to B.
    AB,
    /// B to A.
    BA,
    /// A to A and B to B.
    F,
    /// A to B and B to A.
    X,
    /// The whole instruction.
    I,
}

/// The ICWS name of an `OpMode`.
pub type Modifier = OpMode;

impl Default for OpMode {
    /// The modifier that stands in for one that was left out.
    fn default() -> (r: Self)
        ensures
            r == OpMode::I,
    {
        OpMode::I
    }
}

/// One operand of an instruction.
#[derive(Debug, Clone, Copy, PartialEq, Eq, Structural)]
pub struct Field {
    pub value: u32,
    pub mode: AddressingMode,
}

impl Default for Field {
    /// `$0`, the operand that stands in for one that was left out.
    fn default() -> (r: Self)
        ensures
            r == (Field { value: 0, mode: AddressingMode::Direct }),
    {
        Field { value: 0, mode: AddressingMode::Direct }
    }
}

/// The opcode of an instruction with its modifier.
#[derive(Debug, Clone, Copy, PartialEq, Eq, Structural)]
pub struct OpField {
    pub code: OpCode,
    pub mode: OpMode,
}

impl Default for OpField {
    /// `DAT.F`.
    fn default() -> (r: Self)
        ensures
            r == (OpField { code: OpCode::Dat, mode: OpMode::F }),
    {
        OpField { code: OpCode::Dat, mode: OpMode::F }
    }
}

/// An instruction: what one cell of the arena holds.
#[derive(Debug, Clone, Copy, PartialEq, Eq, Structural)]
pub struct Instruction {
    pub op: OpField,
    pub a: Field,
    pub b: Field,
}

/// The instruction that fills an empty arena: `DAT.F #0, #0`.
pub open spec fn default_instruction() -> Instruction {
    Instruction {
        op: OpField { code: OpCode::Dat, mode: OpMode::F },
        a: Field { value: 0, mode: AddressingMode::Immediate },
        b: Field { value: 0, mode: AddressingMode::Immediate },
    }
}

/// The modifier that ICWS '94 gives an instruction written without one.
pub open spec fn default_modifier(code: OpCode, a_mode: AddressingMode, b_mode: AddressingMode)
    -> OpMode {
    let a_imm = a_mode == AddressingMode::Immediate;
    let b_imm = b_mode == AddressingMode::Immediate;
    match code {
        OpCode::Dat | OpCode::Nop => OpMode::F,
        OpCode::Mov | OpCode::SkipEq | OpCode::Sne | OpCode::Cmp => if a_imm {
            OpMode::AB
        } else if b_imm {
            OpMode::B
        } else {
            OpMode::I
        },
        OpCode::Add | OpCode::Sub | OpCode::Mul | OpCode::Div | OpCode::Mod => if a_imm {
            OpMode::AB
        } else if b_imm {
            OpMode::B
        } else {
            OpMode::F
        },
        OpCode::Slt | OpCode::Ldp | OpCode::Stp => if a_imm {
            OpMode::AB
        } else {
            OpMode::B
        },
        OpCode::Jmp | OpCode::Jmz | OpCode::Jmn | OpCode::Djn | OpCode::Spl => OpMode::B,
    }
}

impl Instruction {
    /// The instruction `opcode.opmode a_mode a_value, b_mode b_value`.
    pub fn new(
        opcode: OpCode,
        opmode: OpMode,
        a_mode: AddressingMode,
        a_value: u32,
        b_mode: AddressingMode,
        b_value: u32,
    ) -> (r: Self)
        ensures
            r == (Instruction {
                op: OpField { code: opcode, mode: opmode },
                a: Field { value: a_value, mode: a_mode },
                b: Field { value: b_value, mode: b_mode },
            }),
    {
        Instruction {
            op: OpField { code: opcode, mode: opmode },
            a: Field { value: a_value, mode: a_mode },
            b: Field { value: b_value, mode: b_mode },
        }
    }

    /// The modifier this instruction would have been given had it been
    /// written without one. It depends on the opcode and on which operands
    /// are immediate, not on the modifier the instruction carries.
    pub fn corrected_opmode(&self) -> (r: OpMode)
        ensures
            r == default_modifier(self.op.code, self.a.mode, self.b.mode),
    {
        match self.op.code {
            OpCode::Dat | OpCode::Nop => OpMode::F,
            OpCode::Mov | OpCode::SkipEq | OpCode::Sne | OpCode::Cmp => {
                if self.a.mode.is_immediate() {
                    OpMode::AB
                } else if self.b.mode.is_immediate() {
                    OpMode::B
                } else {
                    OpMode::I
                }
            },
            OpCode::Add | OpCode::Sub | OpCode::Mul | OpCode::Div | OpCode::Mod => {
                if self.a.mode.is_immediate() {
                    OpMode::AB
                } else if self.b.mode.is_immediate() {
                    OpMode::B
                } else {
                    OpMode::F
                }
            },
            OpCode::Slt | OpCode::Ldp | OpCode::Stp => {
                if self.a.mode.is_immediate() {
                    OpMode::AB
                } else {
                    OpMode::B
                }
            },
            OpCode::Jmp | OpCode::Jmz | OpCode::Jmn | OpCode::Djn | OpCode::Spl => OpMode::B,
        }
    }
}

impl Default for Instruction {
    /// `DAT.F #0, #0`: inert data that kills any thread stepping onto it.
    fn default() -> (r: Self)
        ensures
            r == default_instruction(),
    {
        Instruction {
            op: OpField { code: OpCode::Dat, mode: OpMode::F },
            a: Field { value: 0, mode: AddressingMode::Immediate },
            b: Field { value: 0, mode: AddressingMode::Immediate },
        }
    }
}

/// Builds an instruction field by field. A fresh builder holds the opcode it
/// was made with, the modifier `I` and the operands `$0, $0`.
#[derive(Debug, Clone, Copy)]
pub struct InstructionBuilder {
    opcode: OpCode,
    opmode: OpMode,
    a_mode: AddressingMode,
    a_value: u32,
    b_mode: AddressingMode,
    b_value: u32,
}

impl View for InstructionBuilder {
    type V = Instruction;

    /// The instruction that `build` would return.
    closed spec fn view(&self) -> Instruction {
        Instruction {
            op: OpField { code: self.opcode, mode: self.opmode },
            a: Field { value: self.a_value, mode: self.a_mode },
            b: Field { value: self.b_value, mode: self.b_mode },
        }
    }
}

impl InstructionBuilder {
    /// A builder of an instruction with the opcode `code`, the modifier `I`
    /// and the operands `$0, $0`.
    pub fn new(code: OpCode) -> (r: Self)
        ensures
            r@ == (Instruction {
                op: OpField { code, mode: OpMode::I },
                a: Field { value: 0, mode: AddressingMode::Direct },
                b: Field { value: 0, mode: AddressingMode::Direct },
            }),
    {
        InstructionBuilder {
            opcode: code,
            opmode: OpMode::I,
            a_mode: AddressingMode::Direct,
            a_value: 0,
            b_mode: AddressingMode::Direct,
            b_value: 0,
        }
    }

    /// Sets the modifier.
    pub fn opmode(&mut self, opmode: OpMode) -> (r: &mut Self)
        ensures
            r@ == (Instruction { op: OpField { code: old(self)@.op.code, mode: opmode }, ..old(self)@ }),
            *final(self) == *final(r),
    {
        self.opmode = opmode;
        self
    }

    /// Sets the addressing mode of the A operand.
    pub fn a_mode(&mut self, a_mode: AddressingMode) -> (r: &mut Self)
        ensures
            r@ == (Instruction { a: Field { value: old(self)@.a.value, mode: a_mode }, ..old(self)@ }),
            *final(self) == *final(r),
    {
        self.a_mode = a_mode;
        self
    }

    /// Sets the value of the A operand.
    pub fn a_value(&mut self, a_value: u32) -> (r: &mut Self)
        ensures
            r@ == (Instruction { a: Field { value: a_value, mode: old(self)@.a.mode }, ..old(self)@ }),
            *final(self) == *final(r),
    {
        self.a_value = a_value;
        self
    }

    /// Sets the addressing mode of the B operand.
    pub fn b_mode(&mut self, b_mode: AddressingMode) -> (r: &mut Self)
        ensures
            r@ == (Instruction { b: Field { value: old(self)@.b.value, mode: b_mode }, ..old(self)@ }),
            *final(self) == *final(r),
    {
        self.b_mode = b_mode;
        self
    }

    /// Sets the value of the B operand.
    pub fn b_value(&mut self, b_value: u32) -> (r: &mut Self)
        ensures
            r@ == (Instruction { b: Field { value: b_value, mode: old(self)@.b.mode }, ..old(self)@ }),
            *final(self) == *final(r),
    {
        self.b_value = b_value;
        self
    }

    /// The instruction as it was set up.
    pub fn build(&self) -> (r: Instruction)
        ensures
            r == self@,
    {
        Instruction {
            op: OpField { code: self.opcode, mode: self.opmode },
            a: Field { value: self.a_value, mode: self.a_mode },
            b: Field { value: self.b_value, mode: self.b_mode },
        }
    }
}

} // verus!
