use vstd::prelude::*;

use crate::error::Exception;
use crate::memory::{
    fault_addr, le32, le32_bytes, lemma_memory_len, write_bytes, Addressable, Memory, MEMORY_LEN,
};
use crate::opcode::{decode_spec, Instruction, Operand, OP_LEN};
use crate::register::{reg_index, Register, REGISTER_LEN};

verus! {

/// Index of `SP` in the register file.
pub open spec fn sp() -> int {
    4
}

/// Index of `PC` in the register file.
pub open spec fn pc() -> int {
    5
}

/// Initial value of `SP`.
pub const STACK_TOP: u32 = 0x400;

/// What a step leaves: the register file, the memory, and the outcome.
pub type Outcome = (Seq<u32>, Seq<u8>, Result<(), Exception>);

/// The little-endian word at `addr`, or the fault of the first byte outside memory.
pub open spec fn read32(mem: Seq<u8>, addr: u32) -> Result<u32, Exception> {
    if addr + 4 <= mem.len() {
        Ok(le32(mem, addr as int))
    } else {
        Err(Exception::InvalidMemoryAccess(fault_addr(addr as int, 4, mem.len() as int) as u32))
    }
}

/// The value an operand stands for.
pub open spec fn operand_value(regs: Seq<u32>, o: Operand) -> u32 {
    match o {
        Operand::Reg(r) => regs[reg_index(r) as int],
        Operand::Imm(i) => i,
    }
}

/// The register file with `r` set to `v`.
pub open spec fn with_reg(regs: Seq<u32>, r: Register, v: u32) -> Seq<u32> {
    regs.update(reg_index(r) as int, v)
}

/// The effect of one decoded instruction, with `PC` already advanced.
pub open spec fn execute_spec(ins: Instruction, regs: Seq<u32>, mem: Seq<u8>) -> Outcome {
    match ins {
        Instruction::Nop => (regs, mem, Ok(())),
        Instruction::Add(rd, rs, o) => (
            with_reg(
                regs,
                rd,
                vstd::wrapping::u32_specs::wrapping_add(
                    regs[reg_index(rs) as int],
                    operand_value(regs, o),
                ),
            ),
            mem,
            Ok(()),
        ),
        Instruction::Sub(rd, rs, o) => (
            with_reg(
                regs,
                rd,
                vstd::wrapping::u32_specs::wrapping_sub(
                    regs[reg_index(rs) as int],
                    operand_value(regs, o),
                ),
            ),
            mem,
            Ok(()),
        ),
        Instruction::Mul(rd, rs, o) => (
            with_reg(
                regs,
                rd,
                vstd::wrapping::u32_specs::wrapping_mul(
                    regs[reg_index(rs) as int],
                    operand_value(regs, o),
                ),
            ),
            mem,
            Ok(()),
        ),
        Instruction::Div(rd, rs, o) => if operand_value(regs, o) == 0 {
            (regs, mem, Err(Exception::DivisionByZero))
        } else {
            (
                with_reg(regs, rd, regs[reg_index(rs) as int] / operand_value(regs, o)),
                mem,
                Ok(()),
            )
        },
        Instruction::Ldr(rd, o) => match o {
            Operand::Reg(r) => match read32(mem, regs[reg_index(r) as int]) {
                Ok(v) => (with_reg(regs, rd, v), mem, Ok(())),
                Err(e) => (regs, mem, Err(e)),
            },
            Operand::Imm(i) => (with_reg(regs, rd, i), mem, Ok(())),
        },
        Instruction::Push(o) => {
            let top = vstd::wrapping::u32_specs::wrapping_sub(regs[sp()], 4);
            let regs2 = regs.update(sp(), top);
            let mem2 = write_bytes(mem, top as int, le32_bytes(operand_value(regs2, o)));
            if top + 4 <= mem.len() {
                (regs2, mem2, Ok(()))
            } else {
                (
                    regs2,
                    mem2,
                    Err(
                        Exception::InvalidMemoryAccess(
                            fault_addr(top as int, 4, mem.len() as int) as u32,
                        ),
                    ),
                )
            }
        },
        Instruction::Pop(o) => match o {
            Operand::Reg(r) => match read32(mem, regs[sp()]) {
                Ok(v) => (with_reg(regs.update(sp(), (regs[sp()] + 4) as u32), r, v), mem, Ok(())),
                Err(e) => (regs, mem, Err(e)),
            },
            Operand::Imm(_) => (regs, mem, Err(Exception::InvalidOp(0x34))),
        },
    }
}

/// One step: fetch the word at `PC`, advance `PC` by four, decode, execute.
pub open spec fn step_spec(regs: Seq<u32>, mem: Seq<u8>) -> Outcome {
    match read32(mem, regs[pc()]) {
        Err(e) => (regs, mem, Err(e)),
        Ok(w) => {
            let regs1 = regs.update(pc(), (regs[pc()] + 4) as u32);
            match decode_spec(w) {
                Err(e) => (regs1, mem, Err(e)),
                Ok(ins) => execute_spec(ins, regs1, mem),
            }
        },
    }
}

/// What a run of at most `fuel` steps gives: the register file after each step that
/// succeeded, the trap that ended the run if one did, and the final registers and memory.
pub open spec fn run_spec(regs: Seq<u32>, mem: Seq<u8>, fuel: nat) -> (
    Seq<Seq<u32>>,
    Option<Exception>,
    Seq<u32>,
    Seq<u8>,
)
    decreases fuel,
{
    if fuel == 0 {
        (Seq::empty(), None, regs, mem)
    } else {
        let (regs2, mem2, res) = step_spec(regs, mem);
        match res {
            Err(e) => (Seq::empty(), Some(e), regs2, mem2),
            Ok(()) => {
                let (t, trap, regs3, mem3) = run_spec(regs2, mem2, (fuel - 1) as nat);
                (seq![regs2] + t, trap, regs3, mem3)
            },
        }
    }
}

/// Each register file of `s` as a sequence.
pub open spec fn register_files(s: Seq<[u32; REGISTER_LEN]>) -> Seq<Seq<u32>> {
    s.map_values(|a: [u32; REGISTER_LEN]| a@)
}

/// The record of a run.
pub struct Trace {
    /// The register file after each step that succeeded, in order.
    pub states: Vec<[u32; REGISTER_LEN]>,
    /// The trap that ended the run; `None` when the step budget ran out first.
    pub trap: Option<Exception>,
}

impl Trace {
    /// The recorded register files as sequences.
    pub open spec fn states_view(&self) -> Seq<Seq<u32>> {
        register_files(self.states@)
    }
}

/// The machine: eight 32-bit registers and a byte-addressable memory.
#[derive(Debug)]
pub struct Machine {
    pub register: [u32; REGISTER_LEN],
    pub mem: Memory,
}

impl Machine {
    /// The register file, indexed as `reg_index` says.
    pub open spec fn regs(&self) -> Seq<u32> {
        self.register@
    }

    /// A machine with zeroed memory and registers, but `SP` at `STACK_TOP`.
    pub fn new() -> (m: Machine)
        ensures
            m.regs() == seq![0u32, 0, 0, 0, STACK_TOP, 0, 0, 0],
            m.mem.bytes() == Seq::new(MEMORY_LEN as nat, |i: int| 0u8),
    {
        let mut register = [0u32; REGISTER_LEN];
        register[Register::SP.index()] = STACK_TOP;
        let m = Machine { register, mem: Memory::new() };
        assert(m.regs() =~= seq![0u32, 0, 0, 0, STACK_TOP, 0, 0, 0]);
        m
    }

    /// The value of register `r`.
    pub fn reg(&self, r: Register) -> (v: u32)
        ensures
            v == self.regs()[reg_index(r) as int],
    {
        self.register[r.index()]
    }

    /// Sets register `r` to `v`.
    pub fn set_reg(&mut self, r: Register, v: u32)
        ensures
            final(self).regs() == with_reg(old(self).regs(), r, v),
            final(self).mem == old(self).mem,
    {
        self.register[r.index()] = v;
    }

    /// A copy of the register file.
    pub fn registers(&self) -> (r: [u32; REGISTER_LEN])
        ensures
            r@ == self.regs(),
    {
        self.register
    }

    fn operand(&self, o: Operand) -> (v: u32)
        ensures
            v == operand_value(self.regs(), o),
    {
        match o {
            Operand::Reg(r) => self.reg(r),
            Operand::Imm(i) => i,
        }
    }

    /// Executes one decoded instruction on the current state.
    pub fn execute(&mut self, ins: Instruction) -> (r: Result<(), Exception>)
        ensures
            (final(self).regs(), final(self).mem.bytes(), r) == execute_spec(
                ins,
                old(self).regs(),
                old(self).mem.bytes(),
            ),
    {
        proof {
            lemma_memory_len(&self.mem);
        }
        match ins {
            Instruction::Nop => Ok(()),
            Instruction::Add(rd, rs, o) => {
                let v = self.reg(rs).wrapping_add(self.operand(o));
                self.set_reg(rd, v);
                Ok(())
            },
            Instruction::Sub(rd, rs, o) => {
                let v = self.reg(rs).wrapping_sub(self.operand(o));
                self.set_reg(rd, v);
                Ok(())
            },
            Instruction::Mul(rd, rs, o) => {
                let v = self.reg(rs).wrapping_mul(self.operand(o));
                self.set_reg(rd, v);
                Ok(())
            },
            Instruction::Div(rd, rs, o) => {
                let div = self.operand(o);
                if div == 0 {
                    return Err(Exception::DivisionByZero);
                }
                let v = self.reg(rs) / div;
                self.set_reg(rd, v);
                Ok(())
            },
            Instruction::Ldr(rd, o) => {
                let v = match o {
                    Operand::Reg(r) => match self.mem.read_u32(self.reg(r)) {
                        Ok(v) => v,
                        Err(e) => return Err(e),
                    },
                    Operand::Imm(i) => i,
                };
                self.set_reg(rd, v);
                Ok(())
            },
            Instruction::Push(o) => {
                let top = self.reg(Register::SP).wrapping_sub(OP_LEN);
                self.set_reg(Register::SP, top);
                let v = self.operand(o);
                self.mem.write_u32(top, v)
            },
            Instruction::Pop(o) => {
                let r = match o {
                    Operand::Reg(r) => r,
                    Operand::Imm(_) => return Err(Exception::InvalidOp(0x34)),
                };
                let top = self.reg(Register::SP);
                let v = match self.mem.read_u32(top) {
                    Ok(v) => v,
                    Err(e) => return Err(e),
                };
                self.set_reg(Register::SP, top + OP_LEN);
                self.set_reg(r, v);
                Ok(())
            },
        }
    }

    /// Writes `program` into memory from address zero on, byte by byte; a program longer
    /// than memory is written as far as memory reaches and then faults.
    pub fn load(&mut self, program: &Vec<u8>) -> (r: Result<(), Exception>)
        ensures
            final(self).regs() == old(self).regs(),
            final(self).mem.bytes() == write_bytes(old(self).mem.bytes(), 0, program@),
            program@.len() <= MEMORY_LEN ==> r == Ok::<(), Exception>(()),
            program@.len() > MEMORY_LEN ==> r == Err::<(), Exception>(
                Exception::InvalidMemoryAccess(MEMORY_LEN as u32),
            ),
    {
        proof {
            lemma_memory_len(&self.mem);
        }
        let ghost b = self.mem.bytes();
        let mut k: usize = 0;
        while k < program.len()
            invariant
                k <= program@.len(),
                k <= MEMORY_LEN,
                b == old(self).mem.bytes(),
                b.len() == MEMORY_LEN,
                self.regs() == old(self).regs(),
                self.mem.bytes() == write_bytes(b, 0, program@.take(k as int)),
            decreases program@.len() - k,
        {
            proof {
                lemma_memory_len(&self.mem);
            }
            match self.mem.write(k as u32, program[k]) {
                Ok(()) => {},
                Err(e) => {
                    assert(self.mem.bytes() =~= write_bytes(b, 0, program@));
                    return Err(e);
                },
            }
            assert(self.mem.bytes() =~= write_bytes(b, 0, program@.take(k + 1)));
            k = k + 1;
        }
        assert(program@.take(k as int) =~= program@);
        Ok(())
    }

    /// Fetches the word at `PC`, advances `PC` by four, then decodes and executes it.
    pub fn step(&mut self) -> (r: Result<(), Exception>)
        ensures
            (final(self).regs(), final(self).mem.bytes(), r) == step_spec(
                old(self).regs(),
                old(self).mem.bytes(),
            ),
    {
        proof {
            lemma_memory_len(&self.mem);
        }
        let pc = self.reg(Register::PC);
        let word = match self.mem.read_u32(pc) {
            Ok(w) => w,
            Err(e) => return Err(e),
        };
        self.set_reg(Register::PC, pc + OP_LEN);
        let ins = match Instruction::decode(word) {
            Ok(i) => i,
            Err(e) => return Err(e),
        };
        self.execute(ins)
    }

    /// Steps until a trap, or until `max_steps` steps have succeeded.
    pub fn run(&mut self, max_steps: usize) -> (t: Trace)
        ensures
            ({
                let (states, trap, regs, mem) = run_spec(
                    old(self).regs(),
                    old(self).mem.bytes(),
                    max_steps as nat,
                );
                &&& t.states_view() == states
                &&& t.trap == trap
                &&& final(self).regs() == regs
                &&& final(self).mem.bytes() == mem
            }),
    {
        let ghost start_regs = self.regs();
        let ghost start_mem = self.mem.bytes();
        let mut states: Vec<[u32; REGISTER_LEN]> = Vec::new();
        let mut i: usize = 0;
        while i < max_steps
            invariant
                i <= max_steps,
                start_regs == old(self).regs(),
                start_mem == old(self).mem.bytes(),
                ({
                    let total = run_spec(start_regs, start_mem, max_steps as nat);
                    let rest = run_spec(self.regs(), self.mem.bytes(), (max_steps - i) as nat);
                    &&& total.0 == register_files(states@) + rest.0
                    &&& total.1 == rest.1
                    &&& total.2 == rest.2
                    &&& total.3 == rest.3
                }),
            decreases max_steps - i,
        {
            let ghost before = register_files(states@);
            let ghost pre_regs = self.regs();
            let ghost pre_mem = self.mem.bytes();
            let res = self.step();
            proof {
                let k = (max_steps - i) as nat;
                assert(run_spec(pre_regs, pre_mem, k) == {
                    let (regs2, mem2, res) = step_spec(pre_regs, pre_mem);
                    match res {
                        Err(e) => (Seq::empty(), Some(e), regs2, mem2),
                        Ok(()) => {
                            let (t, trap, regs3, mem3) = run_spec(regs2, mem2, (k - 1) as nat);
                            (seq![regs2] + t, trap, regs3, mem3)
                        },
                    }
                });
            }
            match res {
                Ok(()) => {},
                Err(e) => {
                    assert(before + Seq::<Seq<u32>>::empty() =~= before);
                    return Trace { states, trap: Some(e) };
                },
            }
            states.push(self.register);
            proof {
                let rest = run_spec(self.regs(), self.mem.bytes(), (max_steps - i - 1) as nat);
                assert(register_files(states@) =~= before.push(self.regs()));
                assert(before + (seq![self.regs()] + rest.0) =~= before.push(self.regs()) + rest.0);
            }
            i = i + 1;
        }
        let ghost fin = register_files(states@);
        assert(fin + Seq::<Seq<u32>>::empty() =~= fin);
        Trace { states, trap: None }
    }
}

/// Two runs from the same registers and memory, with the same step budget, give the
/// same trace, the same trap and the same final state.
pub proof fn lemma_run_deterministic(
    regs1: Seq<u32>,
    mem1: Seq<u8>,
    regs2: Seq<u32>,
    mem2: Seq<u8>,
    fuel: nat,
)
    requires
        regs1 == regs2,
        mem1 == mem2,
    ensures
        run_spec(regs1, mem1, fuel) == run_spec(regs2, mem2, fuel),
{
}

proof fn lemma_le32_of_bytes(v: u32)
    ensures
        ((v >> 0u32) & 0xffu32) as u8 as u32 | ((((v >> 8u32) & 0xffu32) as u8 as u32) << 8u32)
            | ((((v >> 16u32) & 0xffu32) as u8 as u32) << 16u32) | ((((v >> 24u32) & 0xffu32)
            as u8 as u32) << 24u32) == v,
{
    assert(((v >> 0u32) & 0xffu32) as u8 as u32 | ((((v >> 8u32) & 0xffu32) as u8 as u32) << 8u32)
        | ((((v >> 16u32) & 0xffu32) as u8 as u32) << 16u32) | ((((v >> 24u32) & 0xffu32)
        as u8 as u32) << 24u32) == v) by (bit_vector);
}

/// A push followed by a pop into a register other than `SP` leaves the pushed value in
/// that register and `SP` where it was, whenever the four bytes below `SP` are memory.
pub proof fn lemma_push_pop(regs: Seq<u32>, mem: Seq<u8>, o: Operand, r: Register)
    requires
        regs.len() == REGISTER_LEN,
        4 <= regs[sp()] <= mem.len(),
        mem.len() <= u32::MAX,
        r != Register::SP,
    ensures
        ({
            let (regs1, mem1, res1) = execute_spec(Instruction::Push(o), regs, mem);
            let (regs2, mem2, res2) = execute_spec(
                Instruction::Pop(Operand::Reg(r)),
                regs1,
                mem1,
            );
            &&& res1 == Ok::<(), Exception>(())
            &&& res2 == Ok::<(), Exception>(())
            &&& regs2[reg_index(r) as int] == operand_value(regs1, o)
            &&& regs2[sp()] == regs[sp()]
        }),
{
    let top = vstd::wrapping::u32_specs::wrapping_sub(regs[sp()], 4);
    let regs1 = regs.update(sp(), top);
    let v = operand_value(regs1, o);
    let mem1 = write_bytes(mem, top as int, le32_bytes(v));
    assert(mem1[top as int] == le32_bytes(v)[0]);
    assert(mem1[top + 1] == le32_bytes(v)[1]);
    assert(mem1[top + 2] == le32_bytes(v)[2]);
    assert(mem1[top + 3] == le32_bytes(v)[3]);
    lemma_le32_of_bytes(v);
    assert(le32(mem1, top as int) == v);
}

/// A step that decodes a division whose divisor is zero traps with `DivisionByZero`,
/// leaves memory as it was and changes no register but `PC`, which moves past it.
pub proof fn lemma_division_trap(regs: Seq<u32>, mem: Seq<u8>, rd: Register, rs: Register, o: Operand)
    requires
        regs.len() == REGISTER_LEN,
        read32(mem, regs[pc()]) is Ok,
        decode_spec(read32(mem, regs[pc()])->Ok_0) == Ok::<Instruction, Exception>(
            Instruction::Div(rd, rs, o),
        ),
        o != Operand::Reg(Register::PC),
        operand_value(regs, o) == 0,
    ensures
        step_spec(regs, mem) == (
            regs.update(pc(), (regs[pc()] + 4) as u32),
            mem,
            Err::<(), Exception>(Exception::DivisionByZero),
        ),
{
}

} // verus!
