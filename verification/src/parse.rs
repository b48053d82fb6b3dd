//! The parser of the textual form of programs.
//!
//! An instruction is an opcode, a modifier after a dot, an operand and a
//! second operand after a comma; the modifier and the second operand may be
//! left out. An operand is a sigil, which may be left out, and a decimal
//! value. Opcodes and modifiers are read in either case. The instructions of
//! a program stand one a line.
//!
//! Every reader takes a position in the text and gives what it read with the
//! position behind it.

use crate::redcode::{AddressingMode, Field, IncrementMode, Instruction, OpCode, OpField, OpMode};
use crate::text::{decimal, digit_char, field_text, instruction_text, opfield_text, opmode_text};
use vstd::prelude::*;

verus! {

/// The text could not be read.
#[derive(Debug, Clone, Copy, PartialEq, Eq, Structural)]
pub struct ParseError;

/// Whether the character is a space or a tab.
pub open spec fn is_space(c: char) -> bool {
    c == ' ' || c == '\t'
}

/// Whether the character is a decimal digit.
pub open spec fn is_digit(c: char) -> bool {
    '0' <= c <= '9'
}

/// The value of a decimal digit.
pub open spec fn digit_value(c: char) -> int {
    c as int - '0' as int
}

/// The upper-case form of a letter of `a` to `z`; any other character
/// itself.
pub open spec fn upper(c: char) -> char {
    if 'a' <= c <= 'z' {
        (c as int - 32) as char
    } else {
        c
    }
}

/// The position behind the spaces and tabs that stand at `at`.
pub open spec fn after_spaces(s: Seq<char>, at: int) -> int
    decreases s.len() - at,
{
    if 0 <= at < s.len() && is_space(s[at]) {
        after_spaces(s, at + 1)
    } else {
        at
    }
}

/// The opcode with the mnemonic `a b c`.
pub open spec fn opcode_named(a: char, b: char, c: char) -> Option<OpCode> {
    match (a, b, c) {
        ('D', 'A', 'T') => Some(OpCode::Dat),
        ('M', 'O', 'V') => Some(OpCode::Mov),
        ('A', 'D', 'D') => Some(OpCode::Add),
        ('S', 'U', 'B') => Some(OpCode::Sub),
        ('M', 'U', 'L') => Some(OpCode::Mul),
        ('D', 'I', 'V') => Some(OpCode::Div),
        ('M', 'O', 'D') => Some(OpCode::Mod),
        ('J', 'M', 'P') => Some(OpCode::Jmp),
        ('J', 'M', 'Z') => Some(OpCode::Jmz),
        ('J', 'M', 'N') => Some(OpCode::Jmn),
        ('D', 'J', 'N') => Some(OpCode::Djn),
        ('S', 'P', 'L') => Some(OpCode::Spl),
        ('C', 'M', 'P') => Some(OpCode::Cmp),
        ('S', 'E', 'Q') => Some(OpCode::SkipEq),
        ('S', 'N', 'E') => Some(OpCode::Sne),
        ('S', 'L', 'T') => Some(OpCode::Slt),
        ('L', 'D', 'P') => Some(OpCode::Ldp),
        ('S', 'T', 'P') => Some(OpCode::Stp),
        ('N', 'O', 'P') => Some(OpCode::Nop),
        _ => None,
    }
}

/// The opcode whose mnemonic, in either case, stands at `at`.
pub open spec fn opcode_at(s: Seq<char>, at: int) -> Option<OpCode> {
    if 0 <= at && at + 3 <= s.len() {
        opcode_named(upper(s[at]), upper(s[at + 1]), upper(s[at + 2]))
    } else {
        None
    }
}

/// The modifier whose name, in either case, stands at `at`, with the
/// position behind it. A name of two letters goes before one of one.
pub open spec fn opmode_at(s: Seq<char>, at: int) -> Option<(int, OpMode)> {
    if 0 <= at && at + 2 <= s.len() && upper(s[at]) == 'A' && upper(s[at + 1]) == 'B' {
        Some((at + 2, OpMode::AB))
    } else if 0 <= at && at + 2 <= s.len() && upper(s[at]) == 'B' && upper(s[at + 1]) == 'A' {
        Some((at + 2, OpMode::BA))
    } else if 0 <= at < s.len() {
        match upper(s[at]) {
            'A' => Some((at + 1, OpMode::A)),
            'B' => Some((at + 1, OpMode::B)),
            'F' => Some((at + 1, OpMode::F)),
            'I' => Some((at + 1, OpMode::I)),
            'X' => Some((at + 1, OpMode::X)),
            _ => None,
        }
    } else {
        None
    }
}

/// The addressing mode with the sigil `c`.
pub open spec fn mode_of(c: char) -> Option<AddressingMode> {
    match c {
        '#' => Some(AddressingMode::Immediate),
        '$' => Some(AddressingMode::Direct),
        '*' => Some(AddressingMode::AIndirect(IncrementMode::Unchanged)),
        '@' => Some(AddressingMode::BIndirect(IncrementMode::Unchanged)),
        '{' => Some(AddressingMode::AIndirect(IncrementMode::PreDecrement)),
        '}' => Some(AddressingMode::AIndirect(IncrementMode::PostIncrement)),
        '<' => Some(AddressingMode::BIndirect(IncrementMode::PreDecrement)),
        '>' => Some(AddressingMode::BIndirect(IncrementMode::PostIncrement)),
        _ => None,
    }
}

/// The addressing mode whose sigil stands at `at`.
pub open spec fn mode_at(s: Seq<char>, at: int) -> Option<AddressingMode> {
    if 0 <= at < s.len() {
        mode_of(s[at])
    } else {
        None
    }
}

/// The position behind the digits that stand at `at`.
pub open spec fn digits_end(s: Seq<char>, at: int) -> int
    decreases s.len() - at,
{
    if 0 <= at < s.len() && is_digit(s[at]) {
        digits_end(s, at + 1)
    } else {
        at
    }
}

/// The number that the digits from `from` up to `to` write.
pub open spec fn number_of(s: Seq<char>, from: int, to: int) -> nat
    decreases to - from,
{
    if to <= from {
        0
    } else {
        (number_of(s, from, to - 1) * 10 + digit_value(s[to - 1])) as nat
    }
}

/// The value that stands at `at`: one digit or more, which write a number
/// that a cell value can hold.
pub open spec fn value_at(s: Seq<char>, at: int) -> Option<(int, u32)> {
    let end = digits_end(s, at);
    let v = number_of(s, at, end);
    if end > at && v <= u32::MAX {
        Some((end, v as u32))
    } else {
        None
    }
}

/// The operand that stands at `at`: a sigil, spaces, a value. Without a
/// sigil the operand is direct.
pub open spec fn field_at(s: Seq<char>, at: int) -> Option<(int, Field)> {
    let (behind, mode) = match mode_at(s, at) {
        Some(mode) => (at + 1, mode),
        None => (at, AddressingMode::Direct),
    };
    match value_at(s, after_spaces(s, behind)) {
        Some((end, value)) => Some((end, Field { value, mode })),
        None => None,
    }
}

/// The second operand, if one stands at `at`: a comma, spaces, an operand.
/// Where none does, nothing is read.
pub open spec fn b_field_at(s: Seq<char>, at: int) -> (int, Option<Field>) {
    if 0 <= at < s.len() && s[at] == ',' {
        match field_at(s, after_spaces(s, at + 1)) {
            Some((end, f)) => (end, Some(f)),
            None => (at, None),
        }
    } else {
        (at, None)
    }
}

/// The opcode that stands at `at`, with its modifier where a dot and a
/// modifier follow it; without them the modifier is `I`.
pub open spec fn opfield_at(s: Seq<char>, at: int) -> Option<(int, OpField)> {
    match opcode_at(s, at) {
        None => None,
        Some(code) => {
            let dot = at + 3;
            if dot < s.len() && s[dot] == '.' {
                match opmode_at(s, dot + 1) {
                    Some((end, mode)) => Some((end, OpField { code, mode })),
                    None => Some((dot, OpField { code, mode: OpMode::I })),
                }
            } else {
                Some((dot, OpField { code, mode: OpMode::I }))
            }
        },
    }
}

/// The instruction that stands at `at`: an opcode with its modifier,
/// spaces, an operand, spaces, and a second operand where one follows;
/// without one the second operand is `$0`.
pub open spec fn instruction_at(s: Seq<char>, at: int) -> Option<(int, Instruction)> {
    match opfield_at(s, at) {
        None => None,
        Some((behind_op, op)) => match field_at(s, after_spaces(s, behind_op)) {
            None => None,
            Some((behind_a, a)) => {
                let (end, b) = b_field_at(s, after_spaces(s, behind_a));
                Some(
                    (
                        end,
                        Instruction {
                            op,
                            a,
                            b: match b {
                                Some(f) => f,
                                None => Field { value: 0, mode: AddressingMode::Direct },
                            },
                        },
                    ),
                )
            },
        },
    }
}

/// The position behind the end of line that stands at `at`, if one does.
pub open spec fn line_end_at(s: Seq<char>, at: int) -> Option<int> {
    if 0 <= at < s.len() && s[at] == '\n' {
        Some(at + 1)
    } else if 0 <= at && at + 1 < s.len() && s[at] == '\r' && s[at + 1] == '\n' {
        Some(at + 2)
    } else {
        None
    }
}

/// The instructions `sofar`, and those that follow at `at`, each behind an
/// end of line, with the position behind the last of them.
pub open spec fn lines_at(s: Seq<char>, at: int, sofar: Seq<Instruction>) -> (int, Seq<Instruction>)
    decreases s.len() - at,
{
    match line_end_at(s, at) {
        None => (at, sofar),
        Some(next) => match instruction_at(s, next) {
            None => (at, sofar),
            Some((end, instr)) => if at < end <= s.len() {
                lines_at(s, end, sofar.push(instr))
            } else {
                (at, sofar)
            },
        },
    }
}

/// The program that stands at `at`: instructions, one a line, as many as
/// can be read, with the position behind the last of them.
pub open spec fn program_at(s: Seq<char>, at: int) -> (int, Seq<Instruction>) {
    match instruction_at(s, at) {
        None => (at, Seq::empty()),
        Some((end, instr)) => lines_at(s, end, seq![instr]),
    }
}

/// Whether nothing but spaces, tabs and ends of lines stands from `at` on.
pub open spec fn blank_from(s: Seq<char>, at: int) -> bool {
    forall|i: int| at <= i < s.len() ==> is_space(#[trigger] s[i]) || s[i] == '\n' || s[i] == '\r'
}

/// The program that the whole text holds, if it holds one and nothing else
/// but blanks behind it.
pub open spec fn parsed(s: Seq<char>) -> Option<Seq<Instruction>> {
    let (end, program) = program_at(s, 0);
    if blank_from(s, end) {
        Some(program)
    } else {
        None
    }
}

/// Whether the characters of `word` stand in `s` from `at` on.
pub open spec fn stands_at(s: Seq<char>, at: int, word: Seq<char>) -> bool {
    &&& 0 <= at
    &&& at + word.len() <= s.len()
    &&& forall|i: int| 0 <= i < word.len() ==> s[at + i] == #[trigger] word[i]
}

/// Whether the text ends at `at`, or goes on with a character that is no
/// digit.
pub open spec fn number_ends(s: Seq<char>, at: int) -> bool {
    at == s.len() || (0 <= at < s.len() && !is_digit(s[at]))
}

/// A number in decimal is one digit or more, and nothing but digits.
pub proof fn lemma_decimal_is_digits(n: nat)
    ensures
        decimal(n).len() >= 1,
        forall|i: int| 0 <= i < decimal(n).len() ==> is_digit(#[trigger] decimal(n)[i]),
    decreases n,
{
    if n >= 10 {
        lemma_decimal_is_digits(n / 10);
    }
}

/// The digits behind which the number ends are read to their end.
pub proof fn lemma_digits_are_read(s: Seq<char>, from: int, to: int)
    requires
        0 <= from <= to <= s.len(),
        forall|i: int| from <= i < to ==> is_digit(#[trigger] s[i]),
        number_ends(s, to),
    ensures
        digits_end(s, from) == to,
    decreases to - from,
{
    if from < to {
        lemma_digits_are_read(s, from + 1, to);
    }
}

/// The digits of a number in decimal write the number.
pub proof fn lemma_decimal_writes_number(s: Seq<char>, at: int, n: nat)
    requires
        stands_at(s, at, decimal(n)),
    ensures
        number_of(s, at, at + decimal(n).len()) == n,
    decreases n,
{
    let len = decimal(n).len() as int;
    if n < 10 {
        assert(s[at + 0] == decimal(n)[0]);
        assert(number_of(s, at, at) == 0);
        assert(number_of(s, at, at + 1) == number_of(s, at, at) * 10 + digit_value(s[at]));
    } else {
        let head = decimal(n / 10);
        assert(decimal(n) == head.push(digit_char((n % 10) as int)));
        assert forall|i: int| 0 <= i < head.len() implies s[at + i] == #[trigger] head[i] by {
            assert(s[at + i] == decimal(n)[i]);
        }
        lemma_decimal_writes_number(s, at, n / 10);
        assert(s[at + (len - 1)] == decimal(n)[len - 1]);
        assert(number_of(s, at, at + len) == number_of(s, at, at + len - 1) * 10 + digit_value(
            s[at + len - 1],
        ));
    }
}

/// A value written in decimal is read back as the value, with all of its
/// digits.
pub proof fn lemma_value_reads_back(s: Seq<char>, at: int, n: u32)
    requires
        stands_at(s, at, decimal(n as nat)),
        number_ends(s, at + decimal(n as nat).len()),
    ensures
        value_at(s, at) == Some((at + decimal(n as nat).len(), n)),
{
    let text = decimal(n as nat);
    lemma_decimal_is_digits(n as nat);
    assert forall|i: int| at <= i < at + text.len() implies is_digit(#[trigger] s[i]) by {
        assert(s[at + (i - at)] == text[i - at]);
    }
    lemma_digits_are_read(s, at, at + text.len());
    lemma_decimal_writes_number(s, at, n as nat);
}

/// An operand written as text is read back as the operand, with all of its
/// text.
pub proof fn lemma_field_reads_back(s: Seq<char>, at: int, f: Field)
    requires
        stands_at(s, at, field_text(f)),
        number_ends(s, at + field_text(f).len()),
    ensures
        field_at(s, at) == Some((at + field_text(f).len(), f)),
{
    let digits = decimal(f.value as nat);
    lemma_decimal_is_digits(f.value as nat);
    assert(s[at + 0] == field_text(f)[0]);
    assert(mode_at(s, at) == Some(f.mode));
    assert forall|i: int| 0 <= i < digits.len() implies s[at + 1 + i] == #[trigger] digits[i] by {
        assert(s[at + (i + 1)] == field_text(f)[i + 1]);
    }
    assert(is_digit(digits[0]));
    assert(s[at + 1 + 0] == digits[0]);
    assert(after_spaces(s, at + 1) == at + 1);
    lemma_value_reads_back(s, at + 1, f.value);
}

/// An opcode written with its modifier is read back as the two, with all of
/// the text, where a space follows it.
pub proof fn lemma_opfield_reads_back(s: Seq<char>, at: int, op: OpField)
    requires
        stands_at(s, at, opfield_text(op)),
        at + opfield_text(op).len() < s.len(),
        s[at + opfield_text(op).len()] == ' ',
    ensures
        opfield_at(s, at) == Some((at + opfield_text(op).len(), op)),
{
    let text = opfield_text(op);
    let name = opmode_text(op.mode);
    assert(s[at + 0] == text[0]);
    assert(s[at + 1] == text[1]);
    assert(s[at + 2] == text[2]);
    assert(s[at + 3] == text[3]);
    assert(s[at + 4] == text[4]);
    assert(opcode_at(s, at) == Some(op.code));
    if name.len() == 2 {
        assert(s[at + 5] == text[5]);
    }
    assert(opmode_at(s, at + 4) == Some((at + 4 + name.len(), op.mode)));
}

/// A second operand written behind a comma and a space is read back as the
/// operand, with all of its text.
pub proof fn lemma_b_field_reads_back(s: Seq<char>, at: int, f: Field)
    requires
        0 <= at,
        at + 2 <= s.len(),
        s[at] == ',',
        s[at + 1] == ' ',
        stands_at(s, at + 2, field_text(f)),
        number_ends(s, at + 2 + field_text(f).len()),
    ensures
        b_field_at(s, at) == (at + 2 + field_text(f).len(), Some(f)),
{
    lemma_decimal_is_digits(f.value as nat);
    assert(s[at + 2 + 0] == field_text(f)[0]);
    assert(!is_space(s[at + 2]));
    assert(after_spaces(s, at + 2) == at + 2);
    assert(after_spaces(s, at + 1) == at + 2);
    lemma_field_reads_back(s, at + 2, f);
}

/// Where the parts of the text of an instruction stand in it: the opcode
/// with its modifier, a space, the first operand, a comma and a space, the
/// second operand.
pub proof fn lemma_text_parts(instr: Instruction)
    ensures
        ({
            let s = instruction_text(instr);
            let at_a = opfield_text(instr.op).len() as int + 1;
            let behind_a = at_a + field_text(instr.a).len() as int;
            &&& stands_at(s, 0, opfield_text(instr.op))
            &&& s[at_a - 1] == ' '
            &&& stands_at(s, at_a, field_text(instr.a))
            &&& s[behind_a] == ','
            &&& s[behind_a + 1] == ' '
            &&& stands_at(s, behind_a + 2, field_text(instr.b))
            &&& s.len() == behind_a + 2 + field_text(instr.b).len()
        }),
{
    let s = instruction_text(instr);
    let op = opfield_text(instr.op);
    let a = field_text(instr.a);
    let b = field_text(instr.b);
    let front = op + seq![' '] + a;
    assert(s == front + seq![',', ' '] + b);
    assert forall|i: int| 0 <= i < op.len() implies s[0 + i] == #[trigger] op[i] by {
        assert(front[i] == op[i]);
    }
    assert forall|i: int| 0 <= i < a.len() implies s[op.len() + 1 + i] == #[trigger] a[i] by {
        assert(front[op.len() + 1 + i] == a[i]);
    }
    assert forall|i: int| 0 <= i < b.len() implies s[front.len() + 2 + i] == #[trigger] b[i] by {
    }
    assert(s[op.len() as int] == front[op.len() as int]);
}

/// An instruction written as text is read back as the instruction, with all
/// of the text.
pub proof fn lemma_instruction_reads_back(instr: Instruction)
    ensures
        instruction_at(instruction_text(instr), 0) == Some(
            (instruction_text(instr).len() as int, instr),
        ),
{
    let s = instruction_text(instr);
    let at_a = opfield_text(instr.op).len() as int + 1;
    let behind_a = at_a + field_text(instr.a).len() as int;
    lemma_text_parts(instr);
    lemma_decimal_is_digits(instr.a.value as nat);
    assert(opfield_at(s, 0) == Some((at_a - 1, instr.op))) by {
        lemma_opfield_reads_back(s, 0, instr.op);
    }
    assert(after_spaces(s, at_a - 1) == at_a) by {
        assert(s[at_a + 0] == field_text(instr.a)[0]);
        assert(!is_space(s[at_a]));
        assert(after_spaces(s, at_a) == at_a);
    }
    assert(field_at(s, at_a) == Some((behind_a, instr.a))) by {
        lemma_field_reads_back(s, at_a, instr.a);
    }
    assert(after_spaces(s, behind_a) == behind_a);
    assert(b_field_at(s, behind_a) == (s.len() as int, Some(instr.b))) by {
        lemma_b_field_reads_back(s, behind_a, instr.b);
    }
}

/// The text of an instruction, read as a program, is the instruction alone.
pub proof fn lemma_text_is_a_program(instr: Instruction)
    ensures
        parsed(instruction_text(instr)) == Some(seq![instr]),
{
    let s = instruction_text(instr);
    lemma_instruction_reads_back(instr);
    assert(line_end_at(s, s.len() as int) is None);
    assert(lines_at(s, s.len() as int, seq![instr]) == (s.len() as int, seq![instr]));
}

/// The characters of the text.
fn chars_of(input: &str) -> (r: Vec<char>)
    ensures
        r@ == input@,
{
    let mut r: Vec<char> = Vec::new();
    for c in it: input.chars()
        invariant
            r@ == it.seq().subrange(0, it.index()),
    {
        r.push(c);
    }
    r
}

/// The upper-case form of a letter of `a` to `z`; any other character
/// itself.
fn upper_of(c: char) -> (r: char)
    ensures
        r == upper(c),
{
    if c >= 'a' && c <= 'z' {
        ((c as u8) - 32) as char
    } else {
        c
    }
}

/// The position behind the spaces and tabs that stand at `at`.
fn skip_spaces(s: &Vec<char>, at: usize) -> (end: usize)
    requires
        at <= s@.len(),
    ensures
        end == after_spaces(s@, at as int),
        at <= end <= s.len(),
{
    let mut i: usize = at;
    while i < s.len() && (s[i] == ' ' || s[i] == '\t')
        invariant
            at <= i <= s@.len(),
            after_spaces(s@, i as int) == after_spaces(s@, at as int),
        decreases s@.len() - i,
    {
        i = i + 1;
    }
    i
}

/// Reads an opcode at `at`.
fn read_opcode(s: &Vec<char>, at: usize) -> (r: Option<OpCode>)
    requires
        at <= s@.len(),
    ensures
        r == opcode_at(s@, at as int),
        r is Some ==> at + 3 <= s.len(),
{
    if s.len() - at < 3 {
        return None;
    }
    match (upper_of(s[at]), upper_of(s[at + 1]), upper_of(s[at + 2])) {
        ('D', 'A', 'T') => Some(OpCode::Dat),
        ('M', 'O', 'V') => Some(OpCode::Mov),
        ('A', 'D', 'D') => Some(OpCode::Add),
        ('S', 'U', 'B') => Some(OpCode::Sub),
        ('M', 'U', 'L') => Some(OpCode::Mul),
        ('D', 'I', 'V') => Some(OpCode::Div),
        ('M', 'O', 'D') => Some(OpCode::Mod),
        ('J', 'M', 'P') => Some(OpCode::Jmp),
        ('J', 'M', 'Z') => Some(OpCode::Jmz),
        ('J', 'M', 'N') => Some(OpCode::Jmn),
        ('D', 'J', 'N') => Some(OpCode::Djn),
        ('S', 'P', 'L') => Some(OpCode::Spl),
        ('C', 'M', 'P') => Some(OpCode::Cmp),
        ('S', 'E', 'Q') => Some(OpCode::SkipEq),
        ('S', 'N', 'E') => Some(OpCode::Sne),
        ('S', 'L', 'T') => Some(OpCode::Slt),
        ('L', 'D', 'P') => Some(OpCode::Ldp),
        ('S', 'T', 'P') => Some(OpCode::Stp),
        ('N', 'O', 'P') => Some(OpCode::Nop),
        _ => None,
    }
}

/// Reads a modifier at `at`.
fn read_opmode(s: &Vec<char>, at: usize) -> (r: Option<(usize, OpMode)>)
    requires
        at <= s@.len(),
    ensures
        match opmode_at(s@, at as int) {
            Some((end, mode)) => r == Some((end as usize, mode)) && at < end <= s.len(),
            None => r is None,
        },
{
    if at >= s.len() {
        return None;
    }
    let first = upper_of(s[at]);
    if s.len() - at >= 2 {
        let second = upper_of(s[at + 1]);
        if first == 'A' && second == 'B' {
            return Some((at + 2, OpMode::AB));
        }
        if first == 'B' && second == 'A' {
            return Some((at + 2, OpMode::BA));
        }
    }
    match first {
        'A' => Some((at + 1, OpMode::A)),
        'B' => Some((at + 1, OpMode::B)),
        'F' => Some((at + 1, OpMode::F)),
        'I' => Some((at + 1, OpMode::I)),
        'X' => Some((at + 1, OpMode::X)),
        _ => None,
    }
}

/// Reads the sigil of an addressing mode at `at`.
fn read_mode(s: &Vec<char>, at: usize) -> (r: Option<AddressingMode>)
    requires
        at <= s@.len(),
    ensures
        r == mode_at(s@, at as int),
        r is Some ==> at < s.len(),
{
    if at >= s.len() {
        return None;
    }
    match s[at] {
        '#' => Some(AddressingMode::Immediate),
        '$' => Some(AddressingMode::Direct),
        '*' => Some(AddressingMode::AIndirect(IncrementMode::Unchanged)),
        '@' => Some(AddressingMode::BIndirect(IncrementMode::Unchanged)),
        '{' => Some(AddressingMode::AIndirect(IncrementMode::PreDecrement)),
        '}' => Some(AddressingMode::AIndirect(IncrementMode::PostIncrement)),
        '<' => Some(AddressingMode::BIndirect(IncrementMode::PreDecrement)),
        '>' => Some(AddressingMode::BIndirect(IncrementMode::PostIncrement)),
        _ => None,
    }
}

/// Reads a value at `at`.
fn read_value(s: &Vec<char>, at: usize) -> (r: Option<(usize, u32)>)
    requires
        at <= s@.len(),
    ensures
        match value_at(s@, at as int) {
            Some((end, value)) => r == Some((end as usize, value)) && at < end <= s.len(),
            None => r is None,
        },
{
    let mut i: usize = at;
    let mut value: u64 = 0;
    let mut fits: bool = true;
    while i < s.len() && s[i] >= '0' && s[i] <= '9'
        invariant
            at <= i <= s@.len(),
            digits_end(s@, i as int) == digits_end(s@, at as int),
            fits ==> value == number_of(s@, at as int, i as int) && value <= u32::MAX,
            !fits ==> number_of(s@, at as int, i as int) > u32::MAX,
        decreases s@.len() - i,
    {
        let d: u64 = (s[i] as u32 - '0' as u32) as u64;
        if fits {
            value = value * 10 + d;
            if value > 0xffff_ffff {
                fits = false;
            }
        }
        i = i + 1;
    }
    if i > at && fits {
        Some((i, value as u32))
    } else {
        None
    }
}

/// Reads an operand at `at`.
fn read_field(s: &Vec<char>, at: usize) -> (r: Option<(usize, Field)>)
    requires
        at <= s@.len(),
    ensures
        match field_at(s@, at as int) {
            Some((end, f)) => r == Some((end as usize, f)) && at < end <= s.len(),
            None => r is None,
        },
{
    let (behind, mode): (usize, AddressingMode) = match read_mode(s, at) {
        Some(mode) => (at + 1, mode),
        None => (at, AddressingMode::Direct),
    };
    match read_value(s, skip_spaces(s, behind)) {
        Some((end, value)) => Some((end, Field { value, mode })),
        None => None,
    }
}

/// Reads a second operand at `at`, if one stands there.
fn read_b_field(s: &Vec<char>, at: usize) -> (r: (usize, Option<Field>))
    requires
        at <= s@.len(),
    ensures
        r.0 == b_field_at(s@, at as int).0,
        r.1 == b_field_at(s@, at as int).1,
        at <= r.0 <= s.len(),
{
    if at < s.len() && s[at] == ',' {
        match read_field(s, skip_spaces(s, at + 1)) {
            Some((end, f)) => (end, Some(f)),
            None => (at, None),
        }
    } else {
        (at, None)
    }
}

/// Reads an opcode with its modifier at `at`.
fn read_opfield(s: &Vec<char>, at: usize) -> (r: Option<(usize, OpField)>)
    requires
        at <= s@.len(),
    ensures
        match opfield_at(s@, at as int) {
            Some((end, op)) => r == Some((end as usize, op)) && at < end <= s.len(),
            None => r is None,
        },
{
    match read_opcode(s, at) {
        None => None,
        Some(code) => {
            let dot: usize = at + 3;
            if dot < s.len() && s[dot] == '.' {
                match read_opmode(s, dot + 1) {
                    Some((end, mode)) => Some((end, OpField { code, mode })),
                    None => Some((dot, OpField { code, mode: OpMode::I })),
                }
            } else {
                Some((dot, OpField { code, mode: OpMode::I }))
            }
        },
    }
}

/// Reads an instruction at `at`.
fn read_instruction(s: &Vec<char>, at: usize) -> (r: Option<(usize, Instruction)>)
    requires
        at <= s@.len(),
    ensures
        match instruction_at(s@, at as int) {
            Some((end, instr)) => r == Some((end as usize, instr)) && at < end <= s.len(),
            None => r is None,
        },
{
    match read_opfield(s, at) {
        None => None,
        Some((behind_op, op)) => match read_field(s, skip_spaces(s, behind_op)) {
            None => None,
            Some((behind_a, a)) => {
                let (end, b) = read_b_field(s, skip_spaces(s, behind_a));
                let b: Field = match b {
                    Some(f) => f,
                    None => Field { value: 0, mode: AddressingMode::Direct },
                };
                Some((end, Instruction { op, a, b }))
            },
        },
    }
}

/// Reads an end of line at `at`.
fn read_line_end(s: &Vec<char>, at: usize) -> (r: Option<usize>)
    requires
        at <= s@.len(),
    ensures
        match line_end_at(s@, at as int) {
            Some(end) => r == Some(end as usize) && at < end <= s.len(),
            None => r is None,
        },
{
    if at < s.len() && s[at] == '\n' {
        Some(at + 1)
    } else if s.len() - at >= 2 && s[at] == '\r' && s[at + 1] == '\n' {
        Some(at + 2)
    } else {
        None
    }
}

/// Reads the instructions at `at`, one a line, as many as can be read.
fn read_program(s: &Vec<char>, at: usize) -> (r: (usize, Vec<Instruction>))
    requires
        at <= s@.len(),
    ensures
        r.0 == program_at(s@, at as int).0,
        r.1@ == program_at(s@, at as int).1,
        at <= r.0 <= s.len(),
{
    let mut program: Vec<Instruction> = Vec::new();
    let mut pos: usize = match read_instruction(s, at) {
        None => {
            return (at, program);
        },
        Some((end, instr)) => {
            program.push(instr);
            assert(program@ =~= seq![instr]);
            end
        },
    };
    loop
        invariant
            at <= pos <= s@.len(),
            lines_at(s@, pos as int, program@) == program_at(s@, at as int),
        ensures
            at <= pos <= s@.len(),
            (pos as int, program@) == program_at(s@, at as int),
        decreases s@.len() - pos,
    {
        match read_line_end(s, pos) {
            None => {
                break ;
            },
            Some(next) => match read_instruction(s, next) {
                None => {
                    break ;
                },
                Some((end, instr)) => {
                    program.push(instr);
                    pos = end;
                },
            },
        }
    }
    (pos, program)
}

/// Whether nothing but spaces, tabs and ends of lines stands from `at` on.
fn is_blank_from(s: &Vec<char>, at: usize) -> (r: bool)
    requires
        at <= s@.len(),
    ensures
        r == blank_from(s@, at as int),
{
    let mut i: usize = at;
    while i < s.len()
        invariant
            at <= i <= s@.len(),
            forall|k: int|
                at <= k < i ==> is_space(#[trigger] s@[k]) || s@[k] == '\n' || s@[k] == '\r',
        decreases s@.len() - i,
    {
        let c = s[i];
        if !(c == ' ' || c == '\t' || c == '\n' || c == '\r') {
            return false;
        }
        i = i + 1;
    }
    true
}

/// Reads a value at the start of the text: one digit or more. Returns the
/// number of characters read and the value.
pub fn parse_field_value(input: &str) -> (r: Result<(usize, u32), ParseError>)
    ensures
        match value_at(input@, 0) {
            Some((end, value)) => r == Ok::<(usize, u32), ParseError>((end as usize, value)),
            None => r is Err,
        },
{
    let s = chars_of(input);
    match read_value(&s, 0) {
        Some(found) => Ok(found),
        None => Err(ParseError),
    }
}

/// Reads the sigil of an addressing mode at the start of the text.
pub fn parse_addressing_mode(input: &str) -> (r: Result<(usize, AddressingMode), ParseError>)
    ensures
        match mode_at(input@, 0) {
            Some(mode) => r == Ok::<(usize, AddressingMode), ParseError>((1usize, mode)),
            None => r is Err,
        },
{
    let s = chars_of(input);
    match read_mode(&s, 0) {
        Some(mode) => Ok((1, mode)),
        None => Err(ParseError),
    }
}

/// Reads an opcode at the start of the text, in either case.
pub fn parse_opcode(input: &str) -> (r: Result<(usize, OpCode), ParseError>)
    ensures
        match opcode_at(input@, 0) {
            Some(code) => r == Ok::<(usize, OpCode), ParseError>((3usize, code)),
            None => r is Err,
        },
{
    let s = chars_of(input);
    match read_opcode(&s, 0) {
        Some(code) => Ok((3, code)),
        None => Err(ParseError),
    }
}

/// Reads a modifier at the start of the text, in either case.
pub fn parse_opmode(input: &str) -> (r: Result<(usize, OpMode), ParseError>)
    ensures
        match opmode_at(input@, 0) {
            Some((end, mode)) => r == Ok::<(usize, OpMode), ParseError>((end as usize, mode)),
            None => r is Err,
        },
{
    let s = chars_of(input);
    match read_opmode(&s, 0) {
        Some(found) => Ok(found),
        None => Err(ParseError),
    }
}

/// Reads an operand at the start of the text.
pub fn parse_field(input: &str) -> (r: Result<(usize, Field), ParseError>)
    ensures
        match field_at(input@, 0) {
            Some((end, f)) => r == Ok::<(usize, Field), ParseError>((end as usize, f)),
            None => r is Err,
        },
{
    let s = chars_of(input);
    match read_field(&s, 0) {
        Some(found) => Ok(found),
        None => Err(ParseError),
    }
}

/// Reads a second operand at the start of the text, if one stands there
/// behind a comma. It never fails: where none stands there it reads nothing.
pub fn maybe_parse_b_field(input: &str) -> (r: Result<(usize, Option<Field>), ParseError>)
    ensures
        r == Ok::<(usize, Option<Field>), ParseError>(
            (b_field_at(input@, 0).0 as usize, b_field_at(input@, 0).1),
        ),
{
    let s = chars_of(input);
    Ok(read_b_field(&s, 0))
}

/// Reads an opcode with its modifier at the start of the text.
pub fn parse_opfield(input: &str) -> (r: Result<(usize, OpField), ParseError>)
    ensures
        match opfield_at(input@, 0) {
            Some((end, op)) => r == Ok::<(usize, OpField), ParseError>((end as usize, op)),
            None => r is Err,
        },
{
    let s = chars_of(input);
    match read_opfield(&s, 0) {
        Some(found) => Ok(found),
        None => Err(ParseError),
    }
}

/// Reads an instruction at the start of the text.
pub fn parse_instruction(input: &str) -> (r: Result<(usize, Instruction), ParseError>)
    ensures
        match instruction_at(input@, 0) {
            Some((end, instr)) => r == Ok::<(usize, Instruction), ParseError>((end as usize, instr)),
            None => r is Err,
        },
{
    let s = chars_of(input);
    match read_instruction(&s, 0) {
        Some(found) => Ok(found),
        None => Err(ParseError),
    }
}

/// Reads the instructions at the start of the text, one a line, as many as
/// can be read. It never fails: where none can be read the program is
/// empty.
pub fn parse_program(input: &str) -> (r: Result<(usize, Vec<Instruction>), ParseError>)
    ensures
        r matches Ok(found) && found.0 == program_at(input@, 0).0 && found.1@ == program_at(
            input@,
            0,
        ).1,
{
    let s = chars_of(input);
    Ok(read_program(&s, 0))
}

/// Reads a program that fills the text: instructions, one a line, and
/// nothing but blanks behind the last.
pub fn parse(program_str: &str) -> (r: Result<Vec<Instruction>, ParseError>)
    ensures
        match parsed(program_str@) {
            Some(program) => r matches Ok(found) && found@ == program,
            None => r is Err,
        },
{
    let s = chars_of(program_str);
    let (end, program) = read_program(&s, 0);
    if is_blank_from(&s, end) {
        Ok(program)
    } else {
        Err(ParseError)
    }
}

/// Reads a program that fills the text, as `parse` does, and appends its
/// instructions to `buf`. Text that cannot be read leaves `buf` as it was.
pub fn parse_into(program_str: &str, buf: &mut Vec<Instruction>) -> (r: Result<(), ParseError>)
    ensures
        match parsed(program_str@) {
            Some(program) => r is Ok && final(buf)@ == old(buf)@ + program,
            None => r is Err && final(buf)@ == old(buf)@,
        },
{
    match parse(program_str) {
        Ok(mut program) => {
            buf.append(&mut program);
            Ok(())
        },
        Err(e) => Err(e),
    }
}

} // verus!
