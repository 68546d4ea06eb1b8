use jcore::error::Exception;
use jcore::opcode::{Instruction, Op, Operand};
use jcore::register::Register;
use jcore::assembler::encode_program;

#[test]
fn nop_encoding() {
    assert_eq!(Instruction::Nop.encode(), 0x6f00_0000);
    assert_eq!(encode_program(&vec![Instruction::Nop]), vec![0x00, 0x00, 0x00, 0x6f]);
}

#[test]
fn add_register_encoding() {
    let w = Instruction::Add(Register::R0, Register::R1, Operand::Reg(Register::R2)).encode();
    assert_eq!(w, (0x10 << 24) | (0 << 19) | (1 << 14) | (2 << 9));
    assert_eq!(w, 0x1000_4400);
}

#[test]
fn push_immediate_encoding() {
    assert_eq!(Instruction::Push(Operand::Imm(7)).encode(), 0xB300_0007);
}

#[test]
fn ldr_register_encoding_follows_layout() {
    let w = Instruction::Ldr(Register::R1, Operand::Reg(Register::R2)).encode();
    assert_eq!(w, 0x3008_8000);
}

#[test]
fn arithmetic_immediate_encoding() {
    let w = Instruction::Sub(Register::R3, Register::SP, Operand::Imm(0x123)).encode();
    assert_eq!(w, 0x8000_0000 | (0x11 << 24) | (3 << 19) | (4 << 14) | 0x123);
}

#[test]
fn round_trip_every_shape() {
    let all = vec![
        Instruction::Nop,
        Instruction::Add(Register::R0, Register::R1, Operand::Reg(Register::R2)),
        Instruction::Sub(Register::FLAGS, Register::BP, Operand::Imm(0x3fff)),
        Instruction::Mul(Register::PC, Register::SP, Operand::Reg(Register::R3)),
        Instruction::Div(Register::R2, Register::R2, Operand::Imm(0)),
        Instruction::Ldr(Register::R0, Operand::Imm(0x7ffff)),
        Instruction::Ldr(Register::R3, Operand::Reg(Register::FLAGS)),
        Instruction::Push(Operand::Imm(0xff_ffff)),
        Instruction::Push(Operand::Reg(Register::BP)),
        Instruction::Pop(Operand::Reg(Register::R1)),
    ];
    for ins in all {
        assert_eq!(Instruction::decode(ins.encode()), Ok(ins));
    }
}

#[test]
fn decode_unknown_opcode() {
    assert_eq!(Instruction::decode(0), Err(Exception::InvalidOp(0)));
    assert_eq!(Instruction::decode(0xff00_0000), Err(Exception::InvalidOp(0x7f)));
}

#[test]
fn decode_bad_register() {
    assert_eq!(Instruction::decode(0x1048_0000), Err(Exception::InvalidReg(9)));
}

#[test]
fn opcode_bytes() {
    assert_eq!(Op::from_byte(0x90), Ok(Op::Add));
    assert_eq!(Op::from_byte(0x6f), Ok(Op::Nop));
    assert_eq!(Op::from_byte(0x20), Err(Exception::InvalidOp(0x20)));
    assert_eq!(Op::Pop.code(), 0x34);
    assert_eq!(Op::of(&Instruction::Ldr(Register::R0, Operand::Imm(1))), Op::Ldr);
}

#[test]
fn register_indices() {
    assert_eq!(Register::from_index(4), Ok(Register::SP));
    assert_eq!(Register::from_index(8), Err(Exception::InvalidReg(8)));
    assert_eq!(Register::FLAGS.index(), 7);
}

#[test]
fn add_line_sets_line_of_unknown_symbol() {
    let mut e = Exception::UnknownSymbol("x".to_string(), 0);
    e.add_line(5);
    assert_eq!(e, Exception::UnknownSymbol("x".to_string(), 5));
    let mut d = Exception::DivisionByZero;
    d.add_line(5);
    assert_eq!(d, Exception::DivisionByZero);
}
