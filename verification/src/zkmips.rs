//! Instruction-set metadata for a MIPS arithmetization target.

pub mod instructions;
