//! Opcode and system-call numbering for a MIPS instruction set: pure
//! metadata with no circuit logic attached to it.

use vstd::prelude::*;

verus! {

/// The opcode classification an instruction shape carries.
pub trait OpCode {
    /// The six-bit primary opcode.
    fn op_code() -> u8;

    /// The function field, for instructions whose primary opcode is shared.
    fn funct() -> Option<u8>;
}

/// Linux system-call numbers on MIPS.
#[allow(non_camel_case_types)]
#[derive(Clone, Copy, PartialEq, Eq, Structural, Debug)]
pub enum SyscallNumber {
    MMAP,
    BRK,
    CLONE,
    EXIT,
    READ,
    WRITE,
    FCNTL,
}

impl SyscallNumber {
    /// The numeric value the kernel is called with.
    pub open spec fn number_spec(self) -> u64 {
        match self {
            SyscallNumber::MMAP => 4090,
            SyscallNumber::BRK => 4045,
            SyscallNumber::CLONE => 4120,
            SyscallNumber::EXIT => 4246,
            SyscallNumber::READ => 4003,
            SyscallNumber::WRITE => 4004,
            SyscallNumber::FCNTL => 4055,
        }
    }

    /// The numeric value the kernel is called with.
    pub fn number(&self) -> (n: u64)
        ensures
            n == self.number_spec(),
    {
        match self {
            SyscallNumber::MMAP => 4090,
            SyscallNumber::BRK => 4045,
            SyscallNumber::CLONE => 4120,
            SyscallNumber::EXIT => 4246,
            SyscallNumber::READ => 4003,
            SyscallNumber::WRITE => 4004,
            SyscallNumber::FCNTL => 4055,
        }
    }
}

} // verus!
