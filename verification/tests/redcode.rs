use libcw::address::Address;
use libcw::redcode::AddressingMode::{AIndirect, BIndirect, Direct, Immediate};
use libcw::redcode::OpCode::{
    Add, Cmp, Dat, Div, Djn, Jmn, Jmp, Jmz, Ldp, Mod, Mov, Mul, Nop, SkipEq, Slt, Sne, Spl, Stp, Sub,
};
use libcw::redcode::{
    AddressingMode, Field, IncrementMode, Instruction, InstructionBuilder, Modifier, OpCode,
    OpField, OpMode,
};

#[test]
fn defaults() {
    assert_eq!(OpCode::Dat, OpCode::default());
    assert_eq!(OpMode::I, OpMode::default());
    assert_eq!(AddressingMode::Direct, AddressingMode::default());
    assert_eq!(Field { value: 0, mode: Direct }, Field::default());
    assert_eq!(OpField { code: Dat, mode: OpMode::F }, OpField::default());
    assert_eq!(Instruction::new(Dat, OpMode::F, Immediate, 0, Immediate, 0), Instruction::default());
    let modifier: Modifier = OpMode::X;
    assert_eq!(OpMode::X, modifier);
}

#[test]
fn only_immediate_is_immediate() {
    assert!(Immediate.is_immediate());
    assert!(!Direct.is_immediate());
    assert!(!AIndirect(IncrementMode::Unchanged).is_immediate());
    assert!(!BIndirect(IncrementMode::PostIncrement).is_immediate());
}

#[test]
fn corrected_opmode_follows_the_operands() {
    let with = |code: OpCode, a: AddressingMode, b: AddressingMode| {
        Instruction::new(code, OpMode::X, a, 1, b, 2).corrected_opmode()
    };
    for code in [Dat, Nop] {
        assert_eq!(OpMode::F, with(code, Immediate, Direct));
        assert_eq!(OpMode::F, with(code, Direct, Direct));
    }
    for code in [Mov, SkipEq, Sne, Cmp] {
        assert_eq!(OpMode::AB, with(code, Immediate, Direct));
        assert_eq!(OpMode::AB, with(code, Immediate, Immediate));
        assert_eq!(OpMode::B, with(code, Direct, Immediate));
        assert_eq!(OpMode::I, with(code, Direct, BIndirect(IncrementMode::Unchanged)));
    }
    for code in [Add, Sub, Mul, Div, Mod] {
        assert_eq!(OpMode::AB, with(code, Immediate, Direct));
        assert_eq!(OpMode::B, with(code, Direct, Immediate));
        assert_eq!(OpMode::F, with(code, Direct, Direct));
    }
    for code in [Slt, Ldp, Stp] {
        assert_eq!(OpMode::AB, with(code, Immediate, Direct));
        assert_eq!(OpMode::B, with(code, Direct, Immediate));
        assert_eq!(OpMode::B, with(code, Direct, Direct));
    }
    for code in [Jmp, Jmz, Jmn, Djn, Spl] {
        assert_eq!(OpMode::B, with(code, Immediate, Direct));
        assert_eq!(OpMode::B, with(code, Direct, Direct));
    }
}

#[test]
fn builder_builds_field_by_field() {
    assert_eq!(
        Instruction::new(Mov, OpMode::I, Direct, 0, Direct, 0),
        InstructionBuilder::new(Mov).build()
    );
    let built = InstructionBuilder::new(Add)
        .opmode(OpMode::AB)
        .a_mode(Immediate)
        .a_value(4)
        .b_mode(BIndirect(IncrementMode::PreDecrement))
        .b_value(3)
        .build();
    assert_eq!(
        Instruction::new(Add, OpMode::AB, Immediate, 4, BIndirect(IncrementMode::PreDecrement), 3),
        built
    );
    let mut builder = InstructionBuilder::new(Jmp);
    builder.a_value(9);
    builder.b_value(1);
    assert_eq!(Instruction::new(Jmp, OpMode::I, Direct, 9, Direct, 1), builder.build());
}

#[test]
fn address_arithmetic_wraps() {
    let a = Address::new(8005, 8000);
    assert_eq!(5, a.value());
    assert_eq!(8000, a.max());
    assert_eq!(7, a.add(2).value());
    assert_eq!(4, a.add(7999).value());
    assert_eq!(5, a.add(8000).value());
    assert_eq!(0, a.sub(5).value());
    assert_eq!(7999, a.sub(6).value());
    assert_eq!(7999, Address::new(0, 8000).sub(1).value());
    assert_eq!(7999, Address::new(0, 8000).sub(8001).value());
    assert_eq!(0, Address::new(0, 1).sub(1).value());
    assert_eq!(15, a.mul(3).value());
    assert_eq!(0, Address::new(4000, 8000).mul(4000).value());
    assert_eq!(2, a.div(2).unwrap().value());
    assert_eq!(1, a.rem(2).unwrap().value());
    assert!(a.div(0).is_none());
    assert!(a.rem(0).is_none());
    let top = Address::new(u32::MAX - 1, u32::MAX);
    assert_eq!(u32::MAX - 2, top.add(u32::MAX - 1).value());
    assert_eq!(1, top.mul(u32::MAX - 1).value());
    assert_eq!(0, top.sub(u32::MAX - 1).value());
}
