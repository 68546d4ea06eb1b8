use vstd::prelude::*;

use crate::error::Exception;

verus! {

/// The eight machine registers; `FLAGS` is the last one.
#[derive(Debug, Clone, Copy, PartialEq, Eq, Structural, PartialOrd, Ord)]
pub enum Register {
    R0,
    R1,
    R2,
    R3,
    SP,
    PC,
    BP,
    FLAGS,
}

/// Number of registers.
pub const REGISTER_LEN: usize = 8;

/// Index of a register in the register file.
pub open spec fn reg_index(r: Register) -> nat {
    match r {
        Register::R0 => 0,
        Register::R1 => 1,
        Register::R2 => 2,
        Register::R3 => 3,
        Register::SP => 4,
        Register::PC => 5,
        Register::BP => 6,
        Register::FLAGS => 7,
    }
}

/// The register with a given index, if the index is below eight.
pub open spec fn reg_of_index(i: int) -> Option<Register> {
    if i == 0 {
        Some(Register::R0)
    } else if i == 1 {
        Some(Register::R1)
    } else if i == 2 {
        Some(Register::R2)
    } else if i == 3 {
        Some(Register::R3)
    } else if i == 4 {
        Some(Register::SP)
    } else if i == 5 {
        Some(Register::PC)
    } else if i == 6 {
        Some(Register::BP)
    } else if i == 7 {
        Some(Register::FLAGS)
    } else {
        None
    }
}

/// The lower-case spelling of each register.
pub open spec fn reg_name(r: Register) -> Seq<char> {
    match r {
        Register::R0 => seq!['r', '0'],
        Register::R1 => seq!['r', '1'],
        Register::R2 => seq!['r', '2'],
        Register::R3 => seq!['r', '3'],
        Register::SP => seq!['s', 'p'],
        Register::PC => seq!['p', 'c'],
        Register::BP => seq!['b', 'p'],
        Register::FLAGS => seq!['f', 'l', 'a', 'g', 's'],
    }
}

pub proof fn lemma_reg_index_round_trip(r: Register)
    ensures
        reg_index(r) < 8,
        reg_of_index(reg_index(r) as int) == Some(r),
{
}

impl Register {
    /// The register's index in the register file.
    pub fn index(self) -> (r: usize)
        ensures
            r == reg_index(self),
    {
        match self {
            Register::R0 => 0,
            Register::R1 => 1,
            Register::R2 => 2,
            Register::R3 => 3,
            Register::SP => 4,
            Register::PC => 5,
            Register::BP => 6,
            Register::FLAGS => 7,
        }
    }

    /// The register with index `value`; indices of eight and above are `InvalidReg`.
    pub fn from_index(value: u8) -> (r: Result<Register, Exception>)
        ensures
            match reg_of_index(value as int) {
                Some(reg) => r == Ok::<Register, Exception>(reg),
                None => r == Err::<Register, Exception>(Exception::InvalidReg(value)),
            },
    {
        match value {
            0 => Ok(Register::R0),
            1 => Ok(Register::R1),
            2 => Ok(Register::R2),
            3 => Ok(Register::R3),
            4 => Ok(Register::SP),
            5 => Ok(Register::PC),
            6 => Ok(Register::BP),
            7 => Ok(Register::FLAGS),
            _ => Err(Exception::InvalidReg(value)),
        }
    }
}

} // verus!
