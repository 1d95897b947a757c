//! Plain-value model of the hypervisor interface: status codes, memory flags, register names and
//! the exit record a vCPU run hands back.
use vstd::prelude::*;

verus! {

/// A non-zero status returned by a hypervisor call.
#[derive(Debug, Clone, Copy, PartialEq, Eq)]
pub struct HvError(pub u32);

/// Map a raw hypervisor status to a `Result`: zero is success, anything else is the error code.
pub fn check(r: i32) -> (res: Result<(), HvError>)
    ensures
        r == 0 ==> res == Ok::<(), HvError>(()),
        r != 0 ==> res == Err::<(), HvError>(HvError(r as u32)),
{
    if r == 0 {
        Ok(())
    } else {
        Err(HvError(r as u32))
    }
}

/// Stage-2 permissions for a guest-physical mapping.
#[derive(Debug, Clone, Copy, PartialEq, Eq)]
pub struct MemFlags(pub u64);

/// Readable.
pub const HV_MEMORY_READ: u64 = 1;

/// Writable.
pub const HV_MEMORY_WRITE: u64 = 2;

/// Executable.
pub const HV_MEMORY_EXEC: u64 = 4;

impl MemFlags {
    /// Read, write and execute: every guest mapping the box makes.
    pub fn rwx() -> (f: MemFlags)
        ensures
            f.0 == HV_MEMORY_READ | HV_MEMORY_WRITE | HV_MEMORY_EXEC,
    {
        MemFlags(HV_MEMORY_READ | HV_MEMORY_WRITE | HV_MEMORY_EXEC)
    }
}

/// A general-purpose register name, numbered as the hypervisor numbers them.
#[derive(Debug, Clone, Copy, PartialEq, Eq)]
pub struct Reg(pub u32);

/// A system register name: its `op0:op1:CRn:CRm:op2` encoding.
#[derive(Debug, Clone, Copy, PartialEq, Eq)]
pub struct SysReg(pub u16);

/// `x0`; `x0`..`x30` are numbered contiguously from it.
pub const REG_X0: u32 = 0;

/// The frame pointer, `x29`.
pub const REG_FP: u32 = 29;

/// The link register, `x30`.
pub const REG_LR: u32 = 30;

/// The program counter.
pub const REG_PC: u32 = 31;

/// The saved program status.
pub const REG_CPSR: u32 = 34;

/// The name of general-purpose register `x<n>` (`n` up to 30 names `x0`..`x30`).
pub fn x(n: u32) -> (r: Reg)
    ensures
        r.0 == REG_X0 + n,
{
    Reg(REG_X0 + n)
}

/// What a vCPU run hands back: why it stopped, and for an exception the EL2 syndrome and the
/// faulting address.
#[derive(Debug, Clone, Copy, PartialEq, Eq)]
pub struct Exit {
    pub reason: u32,
    pub syndrome: u64,
    pub virtual_address: u64,
}

/// The exit reason of a run that ended in an exception.
pub const EXIT_EXCEPTION: u32 = 1;

/// The exit reason of a run that the virtual timer ended.
pub const EXIT_VTIMER: u32 = 2;

/// The exit reason of a run cancelled from outside.
pub const EXIT_CANCELED: u32 = 0;

} // verus!
