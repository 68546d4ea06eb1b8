use jcore::assembler::assemble;
use jcore::assembler::symbols::SymbolTable;
use jcore::error::Exception;
use jcore::memory::{Addressable, Memory, Stack};
use jcore::opcode::{Instruction, Operand};
use jcore::register::Register;
use jcore::vm::Machine;

fn machine_with(source: &str) -> Machine {
    let mut table = SymbolTable::new();
    let bytes = assemble(source, &mut table).unwrap();
    let mut m = Machine::new();
    m.load(&bytes).unwrap();
    m
}

#[test]
fn stack_program_scenario() {
    let mut m = machine_with(
        "Ldr r0, #10\n Push r0\n Ldr r0, #1\n Push r0\n Pop r1\n Pop r2\n Add r0, r1, r2\n Push r0\n",
    );
    for _ in 0..8 {
        m.step().unwrap();
    }
    assert_eq!(m.reg(Register::R0), 11);
    assert_eq!(m.reg(Register::R1), 1);
    assert_eq!(m.reg(Register::R2), 10);
    assert_eq!(m.reg(Register::SP), 0x3FC);
    assert_eq!(m.mem.read_u32(0x3FC), Ok(11));
}

#[test]
fn division_by_zero_immediate() {
    let mut m = machine_with("Div r0, r1, #0");
    m.set_reg(Register::R1, 9);
    m.set_reg(Register::R0, 3);
    let before = m.registers();
    assert_eq!(m.step(), Err(Exception::DivisionByZero));
    assert_eq!(m.reg(Register::PC), 4);
    let after = m.registers();
    for i in 0..8 {
        if i != 5 {
            assert_eq!(before[i], after[i]);
        }
    }
}

#[test]
fn division_by_zero_register() {
    let mut m = machine_with("div r0, r1, r2");
    m.set_reg(Register::R1, 9);
    assert_eq!(m.step(), Err(Exception::DivisionByZero));
    assert_eq!(m.reg(Register::R0), 0);
    assert_eq!(m.reg(Register::PC), 4);
}

#[test]
fn division_truncates() {
    let mut m = machine_with("ldr r1, #7\ndiv r0, r1, #2");
    m.step().unwrap();
    m.step().unwrap();
    assert_eq!(m.reg(Register::R0), 3);
}

#[test]
fn push_then_pop_restores_value_and_sp() {
    let mut m = machine_with("push #5\npop r3");
    m.step().unwrap();
    assert_eq!(m.reg(Register::SP), 0x3FC);
    m.step().unwrap();
    assert_eq!(m.reg(Register::R3), 5);
    assert_eq!(m.reg(Register::SP), 0x400);
}

#[test]
fn arithmetic_wraps() {
    let mut m = machine_with("sub r0, r0, #1\nadd r1, r0, #2\nmul r2, r0, r0");
    m.step().unwrap();
    assert_eq!(m.reg(Register::R0), 0xFFFF_FFFF);
    m.step().unwrap();
    assert_eq!(m.reg(Register::R1), 1);
    m.step().unwrap();
    assert_eq!(m.reg(Register::R2), 1);
}

#[test]
fn ldr_from_memory_and_fault() {
    let mut m = machine_with("ldr r1, #16\nldr r0, r1\nldr r2, #10240\nldr r3, r2");
    m.mem.write_u32(16, 0xdead_beef).unwrap();
    m.step().unwrap();
    m.step().unwrap();
    assert_eq!(m.reg(Register::R0), 0xdead_beef);
    m.step().unwrap();
    assert_eq!(m.step(), Err(Exception::InvalidMemoryAccess(10240)));
}

#[test]
fn pop_immediate_is_refused() {
    let mut m = Machine::new();
    assert_eq!(m.execute(Instruction::Pop(Operand::Imm(3))), Err(Exception::InvalidOp(0x34)));
}

#[test]
fn fresh_machine_state() {
    let m = Machine::new();
    assert_eq!(m.registers(), [0, 0, 0, 0, 0x400, 0, 0, 0]);
}

#[test]
fn run_stops_at_trap_and_is_deterministic() {
    let src = "Ldr r0, #10\n Push r0\n Ldr r0, #1\n Push r0\n Pop r1\n Pop r2\n Add r0, r1, r2\n Push r0\n";
    let mut a = machine_with(src);
    let mut b = machine_with(src);
    let ta = a.run(100);
    let tb = b.run(100);
    assert_eq!(ta.states.len(), 8);
    assert_eq!(ta.trap, Some(Exception::InvalidOp(0)));
    assert_eq!(ta.states, tb.states);
    assert_eq!(ta.trap, tb.trap);
    assert_eq!(ta.states[7][0], 11);
}

#[test]
fn run_respects_step_budget() {
    let mut m = machine_with("nop\nnop\nnop");
    let t = m.run(2);
    assert_eq!(t.states.len(), 2);
    assert_eq!(t.trap, None);
    assert_eq!(m.reg(Register::PC), 8);
}

#[test]
fn memory_bounds() {
    let mut mem = Memory::new();
    assert_eq!(mem.read(10239), Ok(0));
    assert_eq!(mem.read(10240), Err(Exception::InvalidMemoryAccess(10240)));
    assert_eq!(mem.write(10240, 1), Err(Exception::InvalidMemoryAccess(10240)));
    assert_eq!(mem.read_u32(10238), Err(Exception::InvalidMemoryAccess(10240)));
    assert_eq!(mem.read_u16(10239), Err(Exception::InvalidMemoryAccess(10240)));
    assert_eq!(mem.write_u32(10238, 0x0403_0201), Err(Exception::InvalidMemoryAccess(10240)));
    assert_eq!(mem.read(10238), Ok(0x01));
    assert_eq!(mem.read(10239), Ok(0x02));
}

#[test]
fn memory_little_endian() {
    let mut mem = Memory::new();
    mem.write_u32(4, 0x1122_3344).unwrap();
    assert_eq!(mem.read(4), Ok(0x44));
    assert_eq!(mem.read(7), Ok(0x11));
    assert_eq!(mem.read_u16(4), Ok(0x3344));
    mem.write_u16(8, 0xabcd).unwrap();
    assert_eq!(mem.read(8), Ok(0xcd));
    assert_eq!(mem.read(9), Ok(0xab));
}

#[test]
fn memory_copy() {
    let mut mem = Memory::new();
    mem.write(0, 1).unwrap();
    mem.write(1, 2).unwrap();
    mem.write(2, 3).unwrap();
    assert_eq!(mem.copy(0, 100, 3), Ok(()));
    assert_eq!(mem.read(100), Ok(1));
    assert_eq!(mem.read(102), Ok(3));
    assert_eq!(mem.copy(10238, 0, 4), Err(Exception::InvalidMemoryAccess(10240)));
    assert_eq!(mem.read(1), Ok(0));
}

#[test]
fn load_too_long_program() {
    let mut m = Machine::new();
    let program = vec![1u8; 10241];
    assert_eq!(m.load(&program), Err(Exception::InvalidMemoryAccess(10240)));
    assert_eq!(m.mem.read(10239), Ok(1));
}

#[test]
fn stack_push_pop_peek() {
    let mut s: Stack<u32, 2> = Stack::new();
    assert_eq!(s.pop(), Err(Exception::StackUnderflow));
    assert_eq!(s.peek(), None);
    s.push(10).unwrap();
    s.push(20).unwrap();
    assert_eq!(s.push(30), Err(Exception::StackOverflow));
    assert_eq!(s.len(), 2);
    assert_eq!(s.peek(), Some(20));
    assert_eq!(s.peek_at(1), Some(10));
    assert_eq!(s.peek_at(2), None);
    assert_eq!(s.pop(), Ok(20));
    assert_eq!(s.pop(), Ok(10));
    assert_eq!(s.len(), 0);
}
