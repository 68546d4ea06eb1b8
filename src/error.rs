use vstd::prelude::*;

verus! {

/// Faults raised by the machine and by symbol resolution.
#[derive(Debug, Clone, PartialEq, Eq)]
pub enum Exception {
    InvalidMemoryAccess(u32),
    StackOverflow,
    StackUnderflow,
    InvalidOp(u8),
    InvalidReg(u8),
    DivisionByZero,
    UnknownSymbol(String, usize),
}

impl Exception {
    /// Attaches a source line to an `UnknownSymbol`; other faults are left as they are.
    pub fn add_line(&mut self, line: usize)
        ensures
            match *old(self) {
                Exception::UnknownSymbol(name, _) => *final(self) == Exception::UnknownSymbol(name, line),
                _ => *final(self) == *old(self),
            },
    {
        if let Exception::UnknownSymbol(_, i) = self {
            *i = line;
        }
    }
}

} // verus!
