use vstd::prelude::*;

use crate::error::Exception;
use crate::register::{lemma_reg_index_round_trip, reg_index, reg_of_index, Register};

verus! {

/// Operations of the machine; each has a seven-bit opcode.
#[derive(Debug, Clone, Copy, PartialEq, Eq, Structural, PartialOrd, Ord)]
pub enum Op {
    Nop,
    Add,
    Sub,
    Mul,
    Div,
    Ldr,
    Push,
    Pop,
}

/// A register operand or an immediate value.
#[derive(Debug, Clone, Copy, PartialEq, Eq, Structural, PartialOrd, Ord)]
pub enum Operand {
    Reg(Register),
    Imm(u32),
}

/// One machine instruction.
#[derive(Debug, Clone, Copy, PartialEq, Eq, Structural, PartialOrd, Ord)]
pub enum Instruction {
    Nop,
    Add(Register, Register, Operand),
    Sub(Register, Register, Operand),
    Mul(Register, Register, Operand),
    Div(Register, Register, Operand),
    Ldr(Register, Operand),
    Push(Operand),
    Pop(Operand),
}

/// Size of an encoded instruction in bytes.
pub const OP_LEN: u32 = 4;

/// The opcode of each operation.
pub open spec fn op_code(op: Op) -> u8 {
    match op {
        Op::Nop => 0x6f,
        Op::Add => 0x10,
        Op::Sub => 0x11,
        Op::Mul => 0x12,
        Op::Div => 0x13,
        Op::Ldr => 0x30,
        Op::Push => 0x33,
        Op::Pop => 0x34,
    }
}

/// The operation whose opcode is `b`.
pub open spec fn op_of_code(b: u8) -> Option<Op> {
    if b == 0x6f {
        Some(Op::Nop)
    } else if b == 0x10 {
        Some(Op::Add)
    } else if b == 0x11 {
        Some(Op::Sub)
    } else if b == 0x12 {
        Some(Op::Mul)
    } else if b == 0x13 {
        Some(Op::Div)
    } else if b == 0x30 {
        Some(Op::Ldr)
    } else if b == 0x33 {
        Some(Op::Push)
    } else if b == 0x34 {
        Some(Op::Pop)
    } else {
        None
    }
}

/// The operation an instruction performs.
pub open spec fn op_of(i: Instruction) -> Op {
    match i {
        Instruction::Nop => Op::Nop,
        Instruction::Add(..) => Op::Add,
        Instruction::Sub(..) => Op::Sub,
        Instruction::Mul(..) => Op::Mul,
        Instruction::Div(..) => Op::Div,
        Instruction::Ldr(..) => Op::Ldr,
        Instruction::Push(..) => Op::Push,
        Instruction::Pop(..) => Op::Pop,
    }
}

/// The lower-case mnemonic of each operation.
pub open spec fn op_name(op: Op) -> Seq<char> {
    match op {
        Op::Nop => seq!['n', 'o', 'p'],
        Op::Add => seq!['a', 'd', 'd'],
        Op::Sub => seq!['s', 'u', 'b'],
        Op::Mul => seq!['m', 'u', 'l'],
        Op::Div => seq!['d', 'i', 'v'],
        Op::Ldr => seq!['l', 'd', 'r'],
        Op::Push => seq!['p', 'u', 's', 'h'],
        Op::Pop => seq!['p', 'o', 'p'],
    }
}

pub open spec fn reg_bits(r: Register) -> u32 {
    reg_index(r) as u32
}

pub open spec fn op_bits(op: Op) -> u32 {
    op_code(op) as u32
}

/// The immediate flag: bit 31.
pub const IMM_FLAG: u32 = 0x8000_0000;

/// Word of an arithmetic instruction: `rd` in bits 23..19, `rs` in 18..14, then either
/// `rm` in 13..9 or an immediate or-ed into the low bits with the flag set.
pub open spec fn encode_arith(op: Op, rd: Register, rs: Register, o: Operand) -> u32 {
    let head = (op_bits(op) << 24u32) | (reg_bits(rd) << 19u32) | (reg_bits(rs) << 14u32);
    match o {
        Operand::Reg(rm) => (head | (reg_bits(rm) << 9u32)) & 0x7fff_ffffu32,
        Operand::Imm(i) => head | i | IMM_FLAG,
    }
}

/// The word an instruction encodes to.
pub open spec fn encode_spec(ins: Instruction) -> u32 {
    match ins {
        Instruction::Nop => op_bits(Op::Nop) << 24u32,
        Instruction::Add(rd, rs, o) => encode_arith(Op::Add, rd, rs, o),
        Instruction::Sub(rd, rs, o) => encode_arith(Op::Sub, rd, rs, o),
        Instruction::Mul(rd, rs, o) => encode_arith(Op::Mul, rd, rs, o),
        Instruction::Div(rd, rs, o) => encode_arith(Op::Div, rd, rs, o),
        Instruction::Ldr(rd, o) => {
            let head = (op_bits(Op::Ldr) << 24u32) | (reg_bits(rd) << 19u32);
            match o {
                Operand::Reg(rm) => head | (reg_bits(rm) << 14u32),
                Operand::Imm(i) => head | i | IMM_FLAG,
            }
        },
        Instruction::Push(o) => encode_stack(Op::Push, o),
        Instruction::Pop(o) => encode_stack(Op::Pop, o),
    }
}

/// Word of a stack instruction: a register in bits 23..19, or an immediate with the flag set.
pub open spec fn encode_stack(op: Op, o: Operand) -> u32 {
    match o {
        Operand::Reg(r) => ((op_bits(op) << 24u32) | (reg_bits(r) << 19u32)) & 0x7fff_ffffu32,
        Operand::Imm(i) => (op_bits(op) << 24u32) | i | IMM_FLAG,
    }
}

/// The register held in the five bits of `w` that start at bit `at`.
pub open spec fn reg_field(w: u32, at: u32) -> Result<Register, Exception> {
    let b = ((w >> at) & 0x1f) as u8;
    match reg_of_index(b as int) {
        Some(r) => Ok(r),
        None => Err(Exception::InvalidReg(b)),
    }
}

/// The opcode field of a word, bits 30..24.
pub open spec fn opcode_field(w: u32) -> u8 {
    (((w >> 24u32) & 0xffu32) as u8) & 0x7fu8
}

/// The third operand of a word: a register at bit `at`, or the low bits under `mask`
/// when the immediate flag is set.
pub open spec fn operand_field(w: u32, at: u32, mask: u32) -> Result<Operand, Exception> {
    if (w >> 31u32) & 1u32 == 1u32 {
        Ok(Operand::Imm(w & mask))
    } else {
        match reg_field(w, at) {
            Ok(r) => Ok(Operand::Reg(r)),
            Err(e) => Err(e),
        }
    }
}

/// The instruction a word decodes to, or the fault that decoding raises.
pub open spec fn decode_spec(w: u32) -> Result<Instruction, Exception> {
    match op_of_code(opcode_field(w)) {
        None => Err(Exception::InvalidOp(opcode_field(w))),
        Some(op) => match op {
            Op::Nop => Ok(Instruction::Nop),
            Op::Add | Op::Sub | Op::Mul | Op::Div => match reg_field(w, 19) {
                Err(e) => Err(e),
                Ok(rd) => match reg_field(w, 14) {
                    Err(e) => Err(e),
                    Ok(rs) => match operand_field(w, 9, 0x3fff) {
                        Err(e) => Err(e),
                        Ok(o) => Ok(
                            if op == Op::Add {
                                Instruction::Add(rd, rs, o)
                            } else if op == Op::Sub {
                                Instruction::Sub(rd, rs, o)
                            } else if op == Op::Mul {
                                Instruction::Mul(rd, rs, o)
                            } else {
                                Instruction::Div(rd, rs, o)
                            },
                        ),
                    },
                },
            },
            Op::Ldr => match reg_field(w, 19) {
                Err(e) => Err(e),
                Ok(rd) => match operand_field(w, 14, 0x7ffff) {
                    Err(e) => Err(e),
                    Ok(o) => Ok(Instruction::Ldr(rd, o)),
                },
            },
            Op::Push => match operand_field(w, 19, 0xffffff) {
                Err(e) => Err(e),
                Ok(o) => Ok(Instruction::Push(o)),
            },
            Op::Pop => match operand_field(w, 19, 0xffffff) {
                Err(e) => Err(e),
                Ok(o) => Ok(Instruction::Pop(o)),
            },
        },
    }
}

/// The immediate fits in the `bits` low bits.
pub open spec fn imm_fits(o: Operand, bits: u32) -> bool {
    match o {
        Operand::Reg(_) => true,
        Operand::Imm(i) => i < (1u32 << bits),
    }
}

/// Every immediate of the instruction fits the field that carries it.
pub open spec fn is_legal(ins: Instruction) -> bool {
    match ins {
        Instruction::Nop => true,
        Instruction::Add(_, _, o) | Instruction::Sub(_, _, o) | Instruction::Mul(_, _, o)
        | Instruction::Div(_, _, o) => imm_fits(o, 14),
        Instruction::Ldr(_, o) => imm_fits(o, 19),
        Instruction::Push(o) | Instruction::Pop(o) => imm_fits(o, 24),
    }
}


impl Op {
    /// The opcode byte of the operation.
    pub fn code(self) -> (r: u8)
        ensures
            r == op_code(self),
    {
        match self {
            Op::Nop => 0x6f,
            Op::Add => 0x10,
            Op::Sub => 0x11,
            Op::Mul => 0x12,
            Op::Div => 0x13,
            Op::Ldr => 0x30,
            Op::Push => 0x33,
            Op::Pop => 0x34,
        }
    }

    /// The operation whose opcode is the low seven bits of `value`;
    /// any other opcode is `InvalidOp` of those seven bits.
    pub fn from_byte(value: u8) -> (r: Result<Op, Exception>)
        ensures
            match op_of_code(value & 0x7f) {
                Some(op) => r == Ok::<Op, Exception>(op),
                None => r == Err::<Op, Exception>(Exception::InvalidOp(value & 0x7f)),
            },
    {
        let value = value & 0x7f;
        match value {
            0x6f => Ok(Op::Nop),
            0x10 => Ok(Op::Add),
            0x11 => Ok(Op::Sub),
            0x12 => Ok(Op::Mul),
            0x13 => Ok(Op::Div),
            0x30 => Ok(Op::Ldr),
            0x33 => Ok(Op::Push),
            0x34 => Ok(Op::Pop),
            _ => Err(Exception::InvalidOp(value)),
        }
    }

    /// The operation an instruction performs.
    pub fn of(ins: &Instruction) -> (r: Op)
        ensures
            r == op_of(*ins),
    {
        match ins {
            Instruction::Nop => Op::Nop,
            Instruction::Add(..) => Op::Add,
            Instruction::Sub(..) => Op::Sub,
            Instruction::Mul(..) => Op::Mul,
            Instruction::Div(..) => Op::Div,
            Instruction::Ldr(..) => Op::Ldr,
            Instruction::Push(..) => Op::Push,
            Instruction::Pop(..) => Op::Pop,
        }
    }
}

fn reg_bits_of(r: Register) -> (b: u32)
    ensures
        b == reg_bits(r),
        b < 8,
{
    r.index() as u32
}

fn decode_reg(w: u32, at: u32) -> (r: Result<Register, Exception>)
    requires
        at < 32,
    ensures
        r == reg_field(w, at),
{
    Register::from_index(((w >> at) & 0x1f) as u8)
}

fn decode_operand(w: u32, at: u32, mask: u32) -> (r: Result<Operand, Exception>)
    requires
        at < 32,
    ensures
        r == operand_field(w, at, mask),
{
    if (w >> 31u32) & 1u32 == 1u32 {
        Ok(Operand::Imm(w & mask))
    } else {
        match decode_reg(w, at) {
            Ok(r) => Ok(Operand::Reg(r)),
            Err(e) => Err(e),
        }
    }
}

fn encode_stack_op(op: Op, o: Operand) -> (w: u32)
    ensures
        w == encode_stack(op, o),
{
    let head = (op.code() as u32) << 24u32;
    match o {
        Operand::Reg(r) => (head | (reg_bits_of(r) << 19u32)) & 0x7fff_ffffu32,
        Operand::Imm(i) => head | i | IMM_FLAG,
    }
}

fn encode_arith_op(op: Op, rd: Register, rs: Register, o: Operand) -> (w: u32)
    ensures
        w == encode_arith(op, rd, rs, o),
{
    let head = ((op.code() as u32) << 24u32) | (reg_bits_of(rd) << 19u32) | (reg_bits_of(rs)
        << 14u32);
    match o {
        Operand::Reg(rm) => (head | (reg_bits_of(rm) << 9u32)) & 0x7fff_ffffu32,
        Operand::Imm(i) => head | i | IMM_FLAG,
    }
}

impl Instruction {
    /// The 32-bit word of the instruction: the immediate flag in bit 31, the opcode in
    /// bits 30..24, then the register and immediate fields of its shape.
    pub fn encode(self) -> (w: u32)
        ensures
            w == encode_spec(self),
    {
        match self {
            Instruction::Nop => (Op::Nop.code() as u32) << 24u32,
            Instruction::Add(rd, rs, o) => encode_arith_op(Op::Add, rd, rs, o),
            Instruction::Sub(rd, rs, o) => encode_arith_op(Op::Sub, rd, rs, o),
            Instruction::Mul(rd, rs, o) => encode_arith_op(Op::Mul, rd, rs, o),
            Instruction::Div(rd, rs, o) => encode_arith_op(Op::Div, rd, rs, o),
            Instruction::Ldr(rd, o) => {
                let head = ((Op::Ldr.code() as u32) << 24u32) | (reg_bits_of(rd) << 19u32);
                match o {
                    Operand::Reg(rm) => head | (reg_bits_of(rm) << 14u32),
                    Operand::Imm(i) => head | i | IMM_FLAG,
                }
            },
            Instruction::Push(o) => encode_stack_op(Op::Push, o),
            Instruction::Pop(o) => encode_stack_op(Op::Pop, o),
        }
    }

    /// The instruction a word encodes, or `InvalidOp` / `InvalidReg` for a word that
    /// holds no instruction.
    pub fn decode(w: u32) -> (r: Result<Instruction, Exception>)
        ensures
            r == decode_spec(w),
    {
        let op = Op::from_byte(((w >> 24u32) & 0xffu32) as u8);
        let op = match op {
            Ok(op) => op,
            Err(e) => return Err(e),
        };
        match op {
            Op::Nop => Ok(Instruction::Nop),
            Op::Add | Op::Sub | Op::Mul | Op::Div => {
                let rd = match decode_reg(w, 19) {
                    Ok(r) => r,
                    Err(e) => return Err(e),
                };
                let rs = match decode_reg(w, 14) {
                    Ok(r) => r,
                    Err(e) => return Err(e),
                };
                let o = match decode_operand(w, 9, 0x3fff) {
                    Ok(o) => o,
                    Err(e) => return Err(e),
                };
                Ok(
                    match op {
                        Op::Add => Instruction::Add(rd, rs, o),
                        Op::Sub => Instruction::Sub(rd, rs, o),
                        Op::Mul => Instruction::Mul(rd, rs, o),
                        _ => Instruction::Div(rd, rs, o),
                    },
                )
            },
            Op::Ldr => {
                let rd = match decode_reg(w, 19) {
                    Ok(r) => r,
                    Err(e) => return Err(e),
                };
                match decode_operand(w, 14, 0x7ffff) {
                    Ok(o) => Ok(Instruction::Ldr(rd, o)),
                    Err(e) => Err(e),
                }
            },
            Op::Push => match decode_operand(w, 19, 0xffffff) {
                Ok(o) => Ok(Instruction::Push(o)),
                Err(e) => Err(e),
            },
            Op::Pop => match decode_operand(w, 19, 0xffffff) {
                Ok(o) => Ok(Instruction::Pop(o)),
                Err(e) => Err(e),
            },
        }
    }
}


proof fn lemma_arith_reg_fields(op: u32, a: u32, b: u32, c: u32)
    requires
        op < 128,
        a < 8,
        b < 8,
        c < 8,
    ensures
        ({
            let w = (((op << 24u32) | (a << 19u32) | (b << 14u32)) | (c << 9u32)) & 0x7fff_ffffu32;
            &&& (w >> 31u32) & 1u32 == 0u32
            &&& ((((w >> 24u32) & 0xffu32) as u8) & 0x7fu8) == op as u8
            &&& (w >> 19u32) & 0x1fu32 == a
            &&& (w >> 14u32) & 0x1fu32 == b
            &&& (w >> 9u32) & 0x1fu32 == c
        }),
{
    assert({
        let w = (((op << 24u32) | (a << 19u32) | (b << 14u32)) | (c << 9u32)) & 0x7fff_ffffu32;
        &&& (w >> 31u32) & 1u32 == 0u32
        &&& ((((w >> 24u32) & 0xffu32) as u8) & 0x7fu8) == op as u8
        &&& (w >> 19u32) & 0x1fu32 == a
        &&& (w >> 14u32) & 0x1fu32 == b
        &&& (w >> 9u32) & 0x1fu32 == c
    }) by (bit_vector)
        requires
            op < 128,
            a < 8,
            b < 8,
            c < 8,
    ;
}

proof fn lemma_arith_imm_fields(op: u32, a: u32, b: u32, i: u32)
    requires
        op < 128,
        a < 8,
        b < 8,
        i < 0x4000,
    ensures
        ({
            let w = ((op << 24u32) | (a << 19u32) | (b << 14u32)) | i | 0x8000_0000u32;
            &&& (w >> 31u32) & 1u32 == 1u32
            &&& ((((w >> 24u32) & 0xffu32) as u8) & 0x7fu8) == op as u8
            &&& (w >> 19u32) & 0x1fu32 == a
            &&& (w >> 14u32) & 0x1fu32 == b
            &&& w & 0x3fffu32 == i
        }),
{
    assert({
        let w = ((op << 24u32) | (a << 19u32) | (b << 14u32)) | i | 0x8000_0000u32;
        &&& (w >> 31u32) & 1u32 == 1u32
        &&& ((((w >> 24u32) & 0xffu32) as u8) & 0x7fu8) == op as u8
        &&& (w >> 19u32) & 0x1fu32 == a
        &&& (w >> 14u32) & 0x1fu32 == b
        &&& w & 0x3fffu32 == i
    }) by (bit_vector)
        requires
            op < 128,
            a < 8,
            b < 8,
            i < 0x4000,
    ;
}

proof fn lemma_ldr_fields(op: u32, a: u32, b: u32, i: u32)
    requires
        op < 128,
        a < 8,
        b < 8,
        i < 0x8_0000,
    ensures
        ({
            let w = ((op << 24u32) | (a << 19u32)) | (b << 14u32);
            &&& (w >> 31u32) & 1u32 == 0u32
            &&& ((((w >> 24u32) & 0xffu32) as u8) & 0x7fu8) == op as u8
            &&& (w >> 19u32) & 0x1fu32 == a
            &&& (w >> 14u32) & 0x1fu32 == b
        }),
        ({
            let w = ((op << 24u32) | (a << 19u32)) | i | 0x8000_0000u32;
            &&& (w >> 31u32) & 1u32 == 1u32
            &&& ((((w >> 24u32) & 0xffu32) as u8) & 0x7fu8) == op as u8
            &&& (w >> 19u32) & 0x1fu32 == a
            &&& w & 0x7ffffu32 == i
        }),
{
    assert({
        let w = ((op << 24u32) | (a << 19u32)) | (b << 14u32);
        &&& (w >> 31u32) & 1u32 == 0u32
        &&& ((((w >> 24u32) & 0xffu32) as u8) & 0x7fu8) == op as u8
        &&& (w >> 19u32) & 0x1fu32 == a
        &&& (w >> 14u32) & 0x1fu32 == b
    }) by (bit_vector)
        requires
            op < 128,
            a < 8,
            b < 8,
    ;
    assert({
        let w = ((op << 24u32) | (a << 19u32)) | i | 0x8000_0000u32;
        &&& (w >> 31u32) & 1u32 == 1u32
        &&& ((((w >> 24u32) & 0xffu32) as u8) & 0x7fu8) == op as u8
        &&& (w >> 19u32) & 0x1fu32 == a
        &&& w & 0x7ffffu32 == i
    }) by (bit_vector)
        requires
            op < 128,
            a < 8,
            i < 0x8_0000,
    ;
}

proof fn lemma_stack_fields(op: u32, a: u32, i: u32)
    requires
        op < 128,
        a < 8,
        i < 0x100_0000,
    ensures
        ({
            let w = ((op << 24u32) | (a << 19u32)) & 0x7fff_ffffu32;
            &&& (w >> 31u32) & 1u32 == 0u32
            &&& ((((w >> 24u32) & 0xffu32) as u8) & 0x7fu8) == op as u8
            &&& (w >> 19u32) & 0x1fu32 == a
        }),
        ({
            let w = (op << 24u32) | i | 0x8000_0000u32;
            &&& (w >> 31u32) & 1u32 == 1u32
            &&& ((((w >> 24u32) & 0xffu32) as u8) & 0x7fu8) == op as u8
            &&& w & 0xffffffu32 == i
        }),
{
    assert({
        let w = ((op << 24u32) | (a << 19u32)) & 0x7fff_ffffu32;
        &&& (w >> 31u32) & 1u32 == 0u32
        &&& ((((w >> 24u32) & 0xffu32) as u8) & 0x7fu8) == op as u8
        &&& (w >> 19u32) & 0x1fu32 == a
    }) by (bit_vector)
        requires
            op < 128,
            a < 8,
    ;
    assert({
        let w = (op << 24u32) | i | 0x8000_0000u32;
        &&& (w >> 31u32) & 1u32 == 1u32
        &&& ((((w >> 24u32) & 0xffu32) as u8) & 0x7fu8) == op as u8
        &&& w & 0xffffffu32 == i
    }) by (bit_vector)
        requires
            op < 128,
            i < 0x100_0000,
    ;
}

/// Decoding the word of a legal instruction gives the instruction back.
pub proof fn lemma_decode_encode(ins: Instruction)
    requires
        is_legal(ins),
    ensures
        decode_spec(encode_spec(ins)) == Ok::<Instruction, Exception>(ins),
{
    assert((0x6fu32 << 24u32) >> 31u32 & 1u32 == 0u32 && ((((0x6fu32 << 24u32) >> 24u32)
        & 0xffu32) as u8) & 0x7fu8 == 0x6fu8) by (bit_vector);
    assert((1u32 << 14u32) == 0x4000u32 && (1u32 << 19u32) == 0x8_0000u32 && (1u32 << 24u32)
        == 0x100_0000u32) by (bit_vector);
    match ins {
        Instruction::Nop => {},
        Instruction::Add(rd, rs, o) | Instruction::Sub(rd, rs, o) | Instruction::Mul(rd, rs, o)
        | Instruction::Div(rd, rs, o) => {
            lemma_reg_index_round_trip(rd);
            lemma_reg_index_round_trip(rs);
            match o {
                Operand::Reg(rm) => {
                    lemma_reg_index_round_trip(rm);
                    lemma_arith_reg_fields(
                        op_bits(op_of(ins)),
                        reg_bits(rd),
                        reg_bits(rs),
                        reg_bits(rm),
                    );
                },
                Operand::Imm(i) => {
                    lemma_arith_imm_fields(op_bits(op_of(ins)), reg_bits(rd), reg_bits(rs), i);
                },
            }
        },
        Instruction::Ldr(rd, o) => {
            lemma_reg_index_round_trip(rd);
            match o {
                Operand::Reg(rm) => {
                    lemma_reg_index_round_trip(rm);
                    lemma_ldr_fields(op_bits(Op::Ldr), reg_bits(rd), reg_bits(rm), 0);
                },
                Operand::Imm(i) => {
                    lemma_ldr_fields(op_bits(Op::Ldr), reg_bits(rd), 0, i);
                },
            }
        },
        Instruction::Push(o) | Instruction::Pop(o) => {
            match o {
                Operand::Reg(r) => {
                    lemma_reg_index_round_trip(r);
                    lemma_stack_fields(op_bits(op_of(ins)), reg_bits(r), 0);
                },
                Operand::Imm(i) => {
                    lemma_stack_fields(op_bits(op_of(ins)), 0, i);
                },
            }
        },
    }
}

} // verus!
