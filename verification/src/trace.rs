//! The plain values a recording is made of: a register file and a region of guest memory.
use vstd::prelude::*;

verus! {

/// The general-purpose register file of one EL0 context.
#[derive(Debug, Clone, Copy, PartialEq, Eq)]
pub struct Regs {
    pub x: [u64; 31],
    pub pc: u64,
    pub sp_el0: u64,
    pub cpsr: u64,
}

impl Regs {
    /// Every register zero.
    pub fn zeroed() -> (r: Regs)
        ensures
            forall|i: int| 0 <= i < 31 ==> r.x@[i] == 0,
            r.pc == 0,
            r.sp_el0 == 0,
            r.cpsr == 0,
    {
        Regs { x: [0u64; 31], pc: 0, sp_el0: 0, cpsr: 0 }
    }
}

/// A run of guest memory: `bytes` at guest-physical address `ipa`.
#[derive(Debug, Clone, PartialEq, Eq)]
pub struct Region {
    pub ipa: u64,
    pub bytes: Vec<u8>,
}

} // verus!
