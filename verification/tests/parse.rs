use libcw::parse::{
    maybe_parse_b_field, parse, parse_addressing_mode, parse_field, parse_field_value,
    parse_instruction, parse_into, parse_opcode, parse_opfield, parse_opmode, parse_program,
    ParseError,
};
use libcw::redcode::AddressingMode::{AIndirect, BIndirect, Direct, Immediate};
use libcw::redcode::OpCode::{
    Add, Cmp, Dat, Div, Djn, Jmn, Jmp, Jmz, Ldp, Mod, Mov, Mul, Nop, SkipEq, Slt, Sne, Spl, Stp, Sub,
};
use libcw::redcode::OpMode::{A, AB, B, BA, F, I, X};
use libcw::redcode::{AddressingMode, Field, IncrementMode, Instruction, OpField, OpMode};

#[test]
fn test_parse_field_value() {
    let cases = [("123 ", 123), ("0 ", 0)];
    for (input, expected) in cases.iter() {
        assert_eq!(parse_field_value(input).unwrap().1, *expected);
    }
}

#[test]
fn test_parse_a_field() {
    let cases = [
        ("#1 ", Field { mode: Immediate, value: 1 }),
        ("2 ", Field { mode: AddressingMode::default(), value: 2 }),
    ];

    for (input, expected) in cases.iter() {
        assert_eq!(parse_field(input).unwrap().1, *expected);
    }
}

#[test]
fn test_parse_b_field() {
    let cases = [(", $222 ", Some(Field { mode: Direct, value: 222 }))];
    for (input, expected) in cases.iter() {
        assert_eq!(maybe_parse_b_field(input).unwrap().1, *expected);
    }
}

#[test]
fn test_parse_opfield() {
    let cases = [
        ("AdD.Ab ", OpField { code: Add, mode: AB }),
        ("Mov ", OpField { code: Mov, mode: OpMode::default() }),
    ];
    for (input, expected) in cases.iter() {
        assert_eq!(parse_opfield(input).unwrap().1, *expected);
    }
}

#[test]
fn test_parse_opcode() {
    let values = [
        ("dAt", Dat),
        ("mOv", Mov),
        ("aDd", Add),
        ("sUb", Sub),
        ("mUl", Mul),
        ("dIv", Div),
        ("mOd", Mod),
        ("jMp", Jmp),
        ("jMz", Jmz),
        ("jMn", Jmn),
        ("dJn", Djn),
        ("sPl", Spl),
        ("cMp", Cmp),
        ("sEq", SkipEq),
        ("sNe", Sne),
        ("sLt", Slt),
        ("lDp", Ldp),
        ("sTp", Stp),
        ("nOp", Nop),
    ];
    for (s, code) in values.iter() {
        assert_eq!(parse_opcode(s).unwrap().1, *code);
    }
}

#[test]
fn test_parse_opmode() {
    let values = [("a ", A), ("b ", B), ("Ab ", AB), ("bA ", BA), ("x ", X), ("i ", I), ("f ", F)];
    for (s, mode) in values.iter() {
        assert_eq!(parse_opmode(s).unwrap().1, *mode);
    }
}

#[test]
fn test_parse_instruction() {
    let cases = [(
        "AdD.AB #1, $1 ",
        Instruction {
            op: OpField { code: Add, mode: AB },
            a: Field { value: 1, mode: Immediate },
            b: Field { value: 1, mode: AddressingMode::default() },
        },
    )];

    for (s, mode) in cases.iter() {
        assert_eq!(parse_instruction(s).unwrap().1, *mode);
    }
}

#[test]
fn test_parse_program() {
    let program = "ADD.AB #4, 3\nMOV.I  2, @2\nJMP    2\nDAT    #0, #0\n";

    let parsed = parse_program(program).unwrap().1;
    assert_eq!(
        parsed,
        vec![
            Instruction::new(Add, AB, Immediate, 4, AddressingMode::default(), 3),
            Instruction::new(
                Mov,
                I,
                AddressingMode::default(),
                2,
                BIndirect(IncrementMode::Unchanged),
                2
            ),
            Instruction::new(
                Jmp,
                OpMode::default(),
                AddressingMode::default(),
                2,
                AddressingMode::default(),
                u32::default()
            ),
            Instruction::new(Dat, OpMode::default(), Immediate, 0, Immediate, 0),
        ]
    )
}

#[test]
fn readers_count_what_they_read() {
    assert_eq!(Ok((3, 123)), parse_field_value("123 "));
    assert_eq!(Ok((2, Field { mode: Immediate, value: 1 })), parse_field("#1 "));
    assert_eq!(Ok((4, Field { mode: Direct, value: 7 })), parse_field("$  7,"));
    assert_eq!(Ok((6, Some(Field { mode: Direct, value: 222 }))), maybe_parse_b_field(", $222 "));
    assert_eq!(Ok((0, None)), maybe_parse_b_field(" $222"));
    assert_eq!(Ok((0, None)), maybe_parse_b_field(", x"));
    assert_eq!(Ok((6, OpField { code: Add, mode: AB })), parse_opfield("AdD.Ab "));
    assert_eq!(Ok((3, OpField { code: Mov, mode: I })), parse_opfield("Mov.q"));
    assert_eq!(Ok((2, AB)), parse_opmode("abx"));
    assert_eq!(Ok((1, A)), parse_opmode("ax"));
    assert_eq!(Ok((13, Instruction::new(Add, AB, Immediate, 1, Direct, 1))), parse_instruction("AdD.AB #1, $1 "));
    let (end, program) = parse_program("JMP 2\r\nNOP 1\nxyz").unwrap();
    assert_eq!(12, end);
    assert_eq!(
        vec![
            Instruction::new(Jmp, I, Direct, 2, Direct, 0),
            Instruction::new(Nop, I, Direct, 1, Direct, 0)
        ],
        program
    );
    assert_eq!(Ok((0, vec![])), parse_program("nothing"));
}

#[test]
fn every_sigil_is_read() {
    let cases = [
        ("#", Immediate),
        ("$", Direct),
        ("*", AIndirect(IncrementMode::Unchanged)),
        ("@", BIndirect(IncrementMode::Unchanged)),
        ("{", AIndirect(IncrementMode::PreDecrement)),
        ("}", AIndirect(IncrementMode::PostIncrement)),
        ("<", BIndirect(IncrementMode::PreDecrement)),
        (">", BIndirect(IncrementMode::PostIncrement)),
    ];
    for (s, mode) in cases.iter() {
        assert_eq!(Ok((1, *mode)), parse_addressing_mode(s));
        assert_eq!(*s, mode.to_string());
    }
    assert_eq!(Err(ParseError), parse_addressing_mode("5"));
    assert_eq!(Err(ParseError), parse_addressing_mode(""));
}

#[test]
fn what_cannot_be_read_is_refused() {
    assert_eq!(Err(ParseError), parse_field_value("x1"));
    assert_eq!(Err(ParseError), parse_field_value(""));
    assert_eq!(Ok((10, 4294967295)), parse_field_value("4294967295"));
    assert_eq!(Err(ParseError), parse_field_value("4294967296"));
    assert_eq!(Err(ParseError), parse_field_value("99999999999999999999999"));
    assert_eq!(Err(ParseError), parse_field("#"));
    assert_eq!(Err(ParseError), parse_opcode("mo"));
    assert_eq!(Err(ParseError), parse_opcode("xyz"));
    assert_eq!(Err(ParseError), parse_opmode("q"));
    assert_eq!(Err(ParseError), parse_opfield("."));
    assert_eq!(Err(ParseError), parse_instruction("MOV"));
    assert_eq!(Err(ParseError), parse_instruction("MOV.I ,"));
    assert_eq!(Err(ParseError), parse("MOV $0, $1\nfoo"));
    assert_eq!(Err(ParseError), parse("foo"));
}

#[test]
fn parse_reads_a_whole_program() {
    let text = "ADD.AB #4, 3\nMOV.I  2, @2\nJMP    2\nDAT    #0, #0\n";
    let expected = vec![
        Instruction::new(Add, AB, Immediate, 4, Direct, 3),
        Instruction::new(Mov, I, Direct, 2, BIndirect(IncrementMode::Unchanged), 2),
        Instruction::new(Jmp, I, Direct, 2, Direct, 0),
        Instruction::new(Dat, I, Immediate, 0, Immediate, 0),
    ];
    assert_eq!(Ok(expected.clone()), parse(text));
    assert_eq!(Ok(vec![]), parse(""));
    assert_eq!(Ok(vec![]), parse(" \n\n"));

    let mut buf = vec![Instruction::default()];
    assert_eq!(Ok(()), parse_into(text, &mut buf));
    assert_eq!(5, buf.len());
    assert_eq!(Instruction::default(), buf[0]);
    assert_eq!(expected[3], buf[4]);
    assert_eq!(Err(ParseError), parse_into("MOV 1, 2 ; a comment", &mut buf));
    assert_eq!(5, buf.len());
}

#[test]
fn text_of_an_instruction() {
    let instr = Instruction::new(Mov, I, Direct, 0, Direct, 1);
    assert_eq!("MOV.I $0, $1", instr.to_string());
    let instr = Instruction::new(
        SkipEq,
        BA,
        AIndirect(IncrementMode::PreDecrement),
        4294967295,
        BIndirect(IncrementMode::PostIncrement),
        7990,
    );
    assert_eq!("SEQ.BA {4294967295, >7990", instr.to_string());
    assert_eq!("DAT.F #0, #0", Instruction::default().to_string());
    assert_eq!("CMP", Cmp.to_string());
    assert_eq!("X", X.to_string());
    assert_eq!("#100", Field { value: 100, mode: Immediate }.to_string());
    assert_eq!("SLT.F", OpField { code: Slt, mode: F }.to_string());
}

#[test]
fn text_reads_back_as_the_instruction() {
    let codes = [
        Dat, Mov, Add, Sub, Mul, Div, Mod, Jmp, Jmz, Jmn, Djn, Spl, Cmp, SkipEq, Sne, Slt, Ldp, Stp,
        Nop,
    ];
    let modes = [A, B, AB, BA, F, X, I];
    let addressing = [
        Immediate,
        Direct,
        AIndirect(IncrementMode::Unchanged),
        AIndirect(IncrementMode::PreDecrement),
        AIndirect(IncrementMode::PostIncrement),
        BIndirect(IncrementMode::Unchanged),
        BIndirect(IncrementMode::PreDecrement),
        BIndirect(IncrementMode::PostIncrement),
    ];
    let values = [0u32, 7, 10, 99, 100, 7999, 4294967295];
    let mut n = 0usize;
    for code in codes.iter() {
        for mode in modes.iter() {
            for a_mode in addressing.iter() {
                n += 1;
                let b_mode = addressing[n % addressing.len()];
                let a_value = values[n % values.len()];
                let b_value = values[(n / 3) % values.len()];
                let instr = Instruction::new(*code, *mode, *a_mode, a_value, b_mode, b_value);
                let text = instr.to_string();
                assert_eq!(Ok((text.len(), instr)), parse_instruction(&text));
                assert_eq!(Ok(vec![instr]), parse(&text));
            }
        }
    }
}
