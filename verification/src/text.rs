//! The textual form of instructions: `OPCODE.MODIFIER <mode><value>,
//! <mode><value>`, the opcode and the modifier in upper case, a mode as its
//! sigil, a value in decimal.

use crate::redcode::{AddressingMode, Field, IncrementMode, Instruction, OpCode, OpField, OpMode};
use vstd::prelude::*;

verus! {

/// The mnemonic of an opcode.
pub open spec fn opcode_text(code: OpCode) -> Seq<char> {
    match code {
        OpCode::Dat => seq!['D', 'A', 'T'],
        OpCode::Mov => seq!['M', 'O', 'V'],
        OpCode::Add => seq!['A', 'D', 'D'],
        OpCode::Sub => seq!['S', 'U', 'B'],
        OpCode::Mul => seq!['M', 'U', 'L'],
        OpCode::Div => seq!['D', 'I', 'V'],
        OpCode::Mod => seq!['M', 'O', 'D'],
        OpCode::Jmp => seq!['J', 'M', 'P'],
        OpCode::Jmz => seq!['J', 'M', 'Z'],
        OpCode::Jmn => seq!['J', 'M', 'N'],
        OpCode::Djn => seq!['D', 'J', 'N'],
        OpCode::Spl => seq!['S', 'P', 'L'],
        OpCode::Cmp => seq!['C', 'M', 'P'],
        OpCode::SkipEq => seq!['S', 'E', 'Q'],
        OpCode::Sne => seq!['S', 'N', 'E'],
        OpCode::Slt => seq!['S', 'L', 'T'],
        OpCode::Ldp => seq!['L', 'D', 'P'],
        OpCode::Stp => seq!['S', 'T', 'P'],
        OpCode::Nop => seq!['N', 'O', 'P'],
    }
}

/// The name of a modifier.
pub open spec fn opmode_text(mode: OpMode) -> Seq<char> {
    match mode {
        OpMode::A => seq!['A'],
        OpMode::B => seq!['B'],
        OpMode::AB => seq!['A', 'B'],
        OpMode::BA => seq!['B', 'A'],
        OpMode::F => seq!['F'],
        OpMode::X => seq!['X'],
        OpMode::I => seq!['I'],
    }
}

/// The sigil of an addressing mode.
pub open spec fn sigil(mode: AddressingMode) -> char {
    match mode {
        AddressingMode::Immediate => '#',
        AddressingMode::Direct => '$',
        AddressingMode::AIndirect(IncrementMode::Unchanged) => '*',
        AddressingMode::AIndirect(IncrementMode::PreDecrement) => '{',
        AddressingMode::AIndirect(IncrementMode::PostIncrement) => '}',
        AddressingMode::BIndirect(IncrementMode::Unchanged) => '@',
        AddressingMode::BIndirect(IncrementMode::PreDecrement) => '<',
        AddressingMode::BIndirect(IncrementMode::PostIncrement) => '>',
    }
}

/// The character of a decimal digit.
pub open spec fn digit_char(d: int) -> char {
    ('0' as int + d) as char
}

/// A number in decimal, without leading zeros.
pub open spec fn decimal(n: nat) -> Seq<char>
    decreases n,
{
    if n < 10 {
        seq![digit_char(n as int)]
    } else {
        decimal(n / 10).push(digit_char((n % 10) as int))
    }
}

/// An operand: its sigil, then its value.
pub open spec fn field_text(f: Field) -> Seq<char> {
    seq![sigil(f.mode)] + decimal(f.value as nat)
}

/// An opcode with its modifier: `OPCODE.MODIFIER`.
pub open spec fn opfield_text(op: OpField) -> Seq<char> {
    opcode_text(op.code) + seq!['.'] + opmode_text(op.mode)
}

/// An instruction: `OPCODE.MODIFIER <mode><value>, <mode><value>`.
pub open spec fn instruction_text(instr: Instruction) -> Seq<char> {
    opfield_text(instr.op) + seq![' '] + field_text(instr.a) + seq![',', ' '] + field_text(instr.b)
}

/// Makes a string of the characters, by `String::from_iter`: the string
/// holds the characters of `chars`, in their order.
#[verifier::external_body]
fn string_of(chars: &Vec<char>) -> (s: String)
    ensures
        s@ == chars@,
{
    String::from_iter(chars.iter())
}

/// Appends the mnemonic of the opcode.
fn push_opcode(out: &mut Vec<char>, code: OpCode)
    ensures
        final(out)@ == old(out)@ + opcode_text(code),
{
    let (a, b, c): (char, char, char) = match code {
        OpCode::Dat => ('D', 'A', 'T'),
        OpCode::Mov => ('M', 'O', 'V'),
        OpCode::Add => ('A', 'D', 'D'),
        OpCode::Sub => ('S', 'U', 'B'),
        OpCode::Mul => ('M', 'U', 'L'),
        OpCode::Div => ('D', 'I', 'V'),
        OpCode::Mod => ('M', 'O', 'D'),
        OpCode::Jmp => ('J', 'M', 'P'),
        OpCode::Jmz => ('J', 'M', 'Z'),
        OpCode::Jmn => ('J', 'M', 'N'),
        OpCode::Djn => ('D', 'J', 'N'),
        OpCode::Spl => ('S', 'P', 'L'),
        OpCode::Cmp => ('C', 'M', 'P'),
        OpCode::SkipEq => ('S', 'E', 'Q'),
        OpCode::Sne => ('S', 'N', 'E'),
        OpCode::Slt => ('S', 'L', 'T'),
        OpCode::Ldp => ('L', 'D', 'P'),
        OpCode::Stp => ('S', 'T', 'P'),
        OpCode::Nop => ('N', 'O', 'P'),
    };
    out.push(a);
    out.push(b);
    out.push(c);
    assert(out@ =~= old(out)@ + opcode_text(code));
}

/// Appends the name of the modifier.
fn push_opmode(out: &mut Vec<char>, mode: OpMode)
    ensures
        final(out)@ == old(out)@ + opmode_text(mode),
{
    match mode {
        OpMode::A => {
            out.push('A');
        },
        OpMode::B => {
            out.push('B');
        },
        OpMode::AB => {
            out.push('A');
            out.push('B');
        },
        OpMode::BA => {
            out.push('B');
            out.push('A');
        },
        OpMode::F => {
            out.push('F');
        },
        OpMode::X => {
            out.push('X');
        },
        OpMode::I => {
            out.push('I');
        },
    }
    assert(out@ =~= old(out)@ + opmode_text(mode));
}

/// The sigil of the addressing mode.
fn sigil_of(mode: AddressingMode) -> (c: char)
    ensures
        c == sigil(mode),
{
    match mode {
        AddressingMode::Immediate => '#',
        AddressingMode::Direct => '$',
        AddressingMode::AIndirect(IncrementMode::Unchanged) => '*',
        AddressingMode::AIndirect(IncrementMode::PreDecrement) => '{',
        AddressingMode::AIndirect(IncrementMode::PostIncrement) => '}',
        AddressingMode::BIndirect(IncrementMode::Unchanged) => '@',
        AddressingMode::BIndirect(IncrementMode::PreDecrement) => '<',
        AddressingMode::BIndirect(IncrementMode::PostIncrement) => '>',
    }
}

/// The character of the digit `d`.
fn digit_of(d: u32) -> (c: char)
    requires
        d < 10,
    ensures
        c == digit_char(d as int),
{
    match d {
        0 => '0',
        1 => '1',
        2 => '2',
        3 => '3',
        4 => '4',
        5 => '5',
        6 => '6',
        7 => '7',
        8 => '8',
        _ => '9',
    }
}

/// Appends the number in decimal.
fn push_decimal(out: &mut Vec<char>, n: u32)
    ensures
        final(out)@ == old(out)@ + decimal(n as nat),
    decreases n,
{
    if n >= 10 {
        push_decimal(out, n / 10);
    }
    out.push(digit_of(n % 10));
    assert(out@ =~= old(out)@ + decimal(n as nat));
}

/// Appends the operand.
fn push_field(out: &mut Vec<char>, f: Field)
    ensures
        final(out)@ == old(out)@ + field_text(f),
{
    out.push(sigil_of(f.mode));
    push_decimal(out, f.value);
    assert(out@ =~= old(out)@ + field_text(f));
}

/// Appends the opcode with its modifier.
fn push_opfield(out: &mut Vec<char>, op: OpField)
    ensures
        final(out)@ == old(out)@ + opfield_text(op),
{
    push_opcode(out, op.code);
    out.push('.');
    push_opmode(out, op.mode);
    assert(out@ =~= old(out)@ + opfield_text(op));
}

impl OpCode {
    /// The mnemonic of the opcode, in upper case.
    pub fn to_string(&self) -> (s: String)
        ensures
            s@ == opcode_text(*self),
    {
        let mut out: Vec<char> = Vec::new();
        push_opcode(&mut out, *self);
        assert(out@ =~= opcode_text(*self));
        string_of(&out)
    }
}

impl OpMode {
    /// The name of the modifier, in upper case.
    pub fn to_string(&self) -> (s: String)
        ensures
            s@ == opmode_text(*self),
    {
        let mut out: Vec<char> = Vec::new();
        push_opmode(&mut out, *self);
        assert(out@ =~= opmode_text(*self));
        string_of(&out)
    }
}

impl AddressingMode {
    /// The sigil of the addressing mode.
    pub fn to_string(&self) -> (s: String)
        ensures
            s@ == seq![sigil(*self)],
    {
        let mut out: Vec<char> = Vec::new();
        out.push(sigil_of(*self));
        assert(out@ =~= seq![sigil(*self)]);
        string_of(&out)
    }
}

impl Field {
    /// The operand as text: its sigil, then its value in decimal.
    pub fn to_string(&self) -> (s: String)
        ensures
            s@ == field_text(*self),
    {
        let mut out: Vec<char> = Vec::new();
        push_field(&mut out, *self);
        assert(out@ =~= field_text(*self));
        string_of(&out)
    }
}

impl OpField {
    /// The opcode with its modifier as text: `OPCODE.MODIFIER`.
    pub fn to_string(&self) -> (s: String)
        ensures
            s@ == opfield_text(*self),
    {
        let mut out: Vec<char> = Vec::new();
        push_opfield(&mut out, *self);
        assert(out@ =~= opfield_text(*self));
        string_of(&out)
    }
}

impl Instruction {
    /// The instruction as text: `OPCODE.MODIFIER <mode><value>,
    /// <mode><value>`.
    pub fn to_string(&self) -> (s: String)
        ensures
            s@ == instruction_text(*self),
    {
        let mut out: Vec<char> = Vec::new();
        push_opfield(&mut out, self.op);
        out.push(' ');
        push_field(&mut out, self.a);
        out.push(',');
        out.push(' ');
        push_field(&mut out, self.b);
        assert(out@ =~= instruction_text(*self));
        string_of(&out)
    }
}

} // verus!
