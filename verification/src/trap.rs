//! What the run loop decides at each vCPU exit, as pure functions of the values it reads. The
//! loop itself (running the vCPU, reading and writing its registers) belongs to the caller: it
//! performs each action and hands back the next value.
//!
//! The trampoline at `VBAR_EL1` turns every exception EL0 takes into an `hvc #0`, so an EL0 trap
//! arrives as an HVC exit and `ESR_EL1` says what it was. A few traps are emulated below the
//! record/replay loop (a timebase read, an Apple IMPDEF `MRS`, a B-key authenticate that faulted),
//! deterministically, so record and replay stay in lockstep without surfacing them.
use vstd::prelude::*;
use crate::arch::{decode_aut_rd, ec_of, ec_of_class, esr_class, is_aut_with_rd, Ec, PSTATE_C};
use crate::hv::EXIT_EXCEPTION;

verus! {

/// Why the guest stopped running.
#[derive(Debug, Clone, Copy, PartialEq, Eq)]
pub enum Stop {
    /// A syscall or Mach trap: `x16` and `x0..x7`.
    Syscall { num: u64, args: [u64; 8] },
    /// An EL0 data or instruction abort: a guest crash, with the faulting pc, syndrome and address.
    Fault { pc: u64, esr: u64, far: u64 },
    /// Anything else, carrying its syndrome.
    Other { esr: u64 },
    /// One instruction retired under a single step.
    Step,
}

/// What `run` does with one vCPU exit.
#[derive(Debug, Clone, Copy, PartialEq, Eq, Structural)]
pub enum ExitAction {
    /// Not an exception (timer, cancel): run again.
    Resume,
    /// An EL0 trap through the trampoline: read `ESR_EL1` and classify it with `trap_action`.
    ReadTrap,
    /// A software-step exit outside a single step: stepping leaked, fail loud.
    StepLeak,
    /// A stage-2 abort the hypervisor took: surface `Stop::Other` with the exit's syndrome, the
    /// faulting address being the exit's.
    Surface,
}

/// What `run` does with an EL0 trap, by its `ESR_EL1`.
#[derive(Debug, Clone, Copy, PartialEq, Eq, Structural)]
pub enum TrapAction {
    /// A syscall: read `x16` and `x0..x7` and stop with `Stop::Syscall`.
    Syscall,
    /// Try the timebase emulation; resume when it applies, else stop with `Stop::Other`.
    TryTimebase,
    /// Try the IMPDEF `MRS` emulation; resume when it applies, else stop with `Stop::Other`.
    TryUndefMrs,
    /// Try the B-key authenticate emulation; resume when it applies, else stop with `Stop::Other`.
    TryFpacAuth,
    /// An EL0 abort: read `FAR_EL1` and `ELR_EL1` and stop with `Stop::Fault`.
    Fault,
    /// Anything else: read `FAR_EL1` and stop with `Stop::Other`.
    Other,
}

/// The action for an exit with `reason` and EL2 syndrome `syndrome`, outside a single step.
pub open spec fn exit_action_of(reason: u32, syndrome: u64) -> ExitAction {
    if reason != EXIT_EXCEPTION {
        ExitAction::Resume
    } else {
        match ec_of_class(esr_class(syndrome)) {
            Ec::Hvc => ExitAction::ReadTrap,
            Ec::SoftStep => ExitAction::StepLeak,
            _ => ExitAction::Surface,
        }
    }
}

/// Classify a vCPU exit in `run`.
pub fn exit_action(reason: u32, syndrome: u64) -> (a: ExitAction)
    ensures
        a == exit_action_of(reason, syndrome),
{
    if reason != EXIT_EXCEPTION {
        return ExitAction::Resume;
    }
    match ec_of(syndrome) {
        Ec::Hvc => ExitAction::ReadTrap,
        Ec::SoftStep => ExitAction::StepLeak,
        _ => ExitAction::Surface,
    }
}

/// The trap action for an `ESR_EL1`. Bit 26 of an abort's syndrome tells a lower-EL (guest)
/// abort from a same-EL one (the trampoline itself faulted), which is surfaced as `Other`.
pub open spec fn trap_action_of(esr1: u64) -> TrapAction {
    match ec_of_class(esr_class(esr1)) {
        Ec::Svc => TrapAction::Syscall,
        Ec::SysReg => TrapAction::TryTimebase,
        Ec::Other(c) => if c == 0 {
            TrapAction::TryUndefMrs
        } else if c == 0x1C {
            TrapAction::TryFpacAuth
        } else {
            TrapAction::Other
        },
        Ec::DataAbort | Ec::InstrAbort => if (esr1 >> 26u64) & 1 == 0 {
            TrapAction::Fault
        } else {
            TrapAction::Other
        },
        _ => TrapAction::Other,
    }
}

/// Classify an EL0 trap by its `ESR_EL1`.
pub fn trap_action(esr1: u64) -> (a: TrapAction)
    ensures
        a == trap_action_of(esr1),
{
    match ec_of(esr1) {
        Ec::Svc => TrapAction::Syscall,
        Ec::SysReg => TrapAction::TryTimebase,
        Ec::Other(0) => TrapAction::TryUndefMrs,
        Ec::Other(0x1C) => TrapAction::TryFpacAuth,
        Ec::DataAbort | Ec::InstrAbort => if (esr1 >> 26) & 1 == 0 {
            TrapAction::Fault
        } else {
            TrapAction::Other
        },
        _ => TrapAction::Other,
    }
}

/// What a single step does with one vCPU exit.
#[derive(Debug, Clone, Copy, PartialEq, Eq, Structural)]
pub enum StepExitAction {
    /// Not an exception: run again.
    Resume,
    /// The step exit: read `CPSR` to tell a retired instruction from a trap.
    ReadCpsr,
    /// Any other exception (a stage-2 abort while stepping): surface `Stop::Other` with the
    /// exit's syndrome; the instruction did not retire.
    Surface,
}

/// The single-step action for an exit.
pub open spec fn step_exit_action_of(reason: u32, syndrome: u64) -> StepExitAction {
    if reason != EXIT_EXCEPTION {
        StepExitAction::Resume
    } else if ec_of_class(esr_class(syndrome)) is SoftStep {
        StepExitAction::ReadCpsr
    } else {
        StepExitAction::Surface
    }
}

/// Classify a vCPU exit during a single step.
pub fn step_exit_action(reason: u32, syndrome: u64) -> (a: StepExitAction)
    ensures
        a == step_exit_action_of(reason, syndrome),
{
    if reason != EXIT_EXCEPTION {
        return StepExitAction::Resume;
    }
    match ec_of(syndrome) {
        Ec::SoftStep => StepExitAction::ReadCpsr,
        _ => StepExitAction::Surface,
    }
}

/// After a step exit, the guest still at EL0 (`CPSR.M[3:2] == 0`) means the instruction retired
/// cleanly; at EL1 it trapped without retiring and `ESR_EL1` holds the real trap.
pub fn step_retired(cpsr: u64) -> (b: bool)
    ensures
        b == ((cpsr >> 2u64) & 3 == 0),
{
    (cpsr >> 2) & 3 == 0
}

/// The first value the synthetic timebase returns, less one stride.
pub const SYNTH_TSC_START: u64 = 0x0000_0001_0000_0000;

/// The synthetic timebase's step per read.
pub const SYNTH_TSC_STRIDE: u64 = 0x2400;

/// The syndrome names a timebase read: an `MRS` (direction bit set) of Apple's
/// `S3_4_C15_C10_6` or of `CNTVCT_EL0`/`CNTVCTSS_EL0` (`S3_3_C14_C0_{1,2}`).
pub open spec fn is_timebase_read(esr1: u64) -> bool {
    let iss = esr1 & 0x1ff_ffff;
    let crm = (iss >> 1u64) & 0xf;
    let crn = (iss >> 10u64) & 0xf;
    let op1 = (iss >> 14u64) & 0x7;
    let op2 = (iss >> 17u64) & 0x7;
    let op0 = (iss >> 20u64) & 0x3;
    let apple_tb = op0 == 3 && op1 == 4 && crn == 15 && crm == 10 && op2 == 6;
    let cntvct = op0 == 3 && op1 == 3 && crn == 14 && crm == 0 && (op2 == 1 || op2 == 2);
    iss & 1 == 1 && (apple_tb || cntvct)
}

/// For a timebase read, the destination register `Rt` (31 discards the value).
pub fn timebase_read_target(esr1: u64) -> (r: Option<u32>)
    ensures
        is_timebase_read(esr1) ==> (r matches Some(rt) && rt == ((esr1 & 0x1ff_ffff) >> 5u64) & 0x1f),
        !is_timebase_read(esr1) ==> r is None,
{
    let iss = esr1 & 0x1ff_ffff;
    let dir = iss & 1;
    let crm = (iss >> 1) & 0xf;
    let rt = ((iss >> 5) & 0x1f) as u32;
    let crn = (iss >> 10) & 0xf;
    let op1 = (iss >> 14) & 0x7;
    let op2 = (iss >> 17) & 0x7;
    let op0 = (iss >> 20) & 0x3;
    let apple_tb = op0 == 3 && op1 == 4 && crn == 15 && crm == 10 && op2 == 6;
    let cntvct = op0 == 3 && op1 == 3 && crn == 14 && crm == 0 && (op2 == 1 || op2 == 2);
    if dir != 1 || !(apple_tb || cntvct) {
        return None;
    }
    assert(((iss >> 5u64) & 0x1fu64) < 32u64) by (bit_vector);
    Some(rt)
}

/// The next synthetic timebase value: one stride on, wrapping.
pub fn next_synthetic_tsc(tsc: u64) -> (r: u64)
    ensures
        r == (tsc + SYNTH_TSC_STRIDE) % 0x1_0000_0000_0000_0000,
{
    tsc.wrapping_add(SYNTH_TSC_STRIDE)
}

/// The word is `MRS Xt, S3_6_C15_C1_5`: an Apple CPU feature register libdyld probes, which the
/// hypervisor leaves undefined.
pub open spec fn is_apple_feature_mrs(insn: u32) -> bool {
    &&& insn & 0xFFF0_0000 == 0xD530_0000
    &&& (insn >> 19u32) & 1 == 1
    &&& (insn >> 16u32) & 0x7 == 6
    &&& (insn >> 12u32) & 0xf == 15
    &&& (insn >> 8u32) & 0xf == 1
    &&& (insn >> 5u32) & 0x7 == 5
}

/// For that `MRS`, its destination register (it reads as 0; 31 discards it).
pub fn undef_mrs_target(insn: u32) -> (r: Option<u32>)
    ensures
        is_apple_feature_mrs(insn) ==> r == Some(insn & 0x1f),
        !is_apple_feature_mrs(insn) ==> r is None,
{
    if insn & 0xFFF0_0000 != 0xD530_0000 {
        return None;
    }
    let o0 = (insn >> 19) & 1;
    let op1 = (insn >> 16) & 0x7;
    let crn = (insn >> 12) & 0xf;
    let crm = (insn >> 8) & 0xf;
    let op2 = (insn >> 5) & 0x7;
    let rt = insn & 0x1f;
    if o0 == 1 && op1 == 6 && crn == 15 && crm == 1 && op2 == 5 {
        Some(rt)
    } else {
        None
    }
}

/// The canonical 47-bit VA of a signed pointer: what a successful authenticate leaves.
pub open spec fn strip47(v: u64) -> u64 {
    v & 0x0000_7FFF_FFFF_FFFF
}

/// For a faulted `AUT*` with a destination register, the register and the stripped value it is
/// given (`signed` being the register's value); `None` for any other instruction, which is
/// surfaced rather than mis-emulated.
pub fn fpac_strip(insn: u32, signed: u64) -> (r: Option<(u32, u64)>)
    ensures
        is_aut_with_rd(insn) ==> r == Some((insn & 0x1f, strip47(signed))),
        !is_aut_with_rd(insn) ==> r is None,
{
    match decode_aut_rd(insn) {
        Some(rd) => Some((rd, signed & 0x0000_7FFF_FFFF_FFFF)),
        None => None,
    }
}

/// The `CPSR` a syscall returns to: the saved `SPSR_EL1` with the carry flag set exactly when the
/// syscall failed (`x0` then holding the errno).
pub fn return_cpsr(spsr: u64, err: bool) -> (r: u64)
    ensures
        r == (spsr & !PSTATE_C) | if err { PSTATE_C } else { 0 },
{
    (spsr & !PSTATE_C) | if err { PSTATE_C } else { 0 }
}

/// What a run of one of the box's own stubs (signing, TLB flush) does with a vCPU exit.
#[derive(Debug, Clone, Copy, PartialEq, Eq, Structural)]
pub enum StubExit {
    /// Not an exception: run again.
    Again,
    /// The stub's exit: for the EL0 signing stub, read `ESR_EL1` and check it was its `svc`
    /// (`stub_svc_done`); for the EL1 flush stub, it is done.
    Hvc,
    /// Anything else: the stub faulted, which is a bug to fail loudly on.
    Fault,
}

/// Classify an exit while one of the box's stubs runs.
pub fn stub_exit(reason: u32, syndrome: u64) -> (a: StubExit)
    ensures
        a == if reason != EXIT_EXCEPTION {
            StubExit::Again
        } else if ec_of_class(esr_class(syndrome)) is Hvc {
            StubExit::Hvc
        } else {
            StubExit::Fault
        },
{
    if reason != EXIT_EXCEPTION {
        return StubExit::Again;
    }
    match ec_of(syndrome) {
        Ec::Hvc => StubExit::Hvc,
        _ => StubExit::Fault,
    }
}

/// The signing stub reached its terminating `svc` (anything else it trapped on is a fault).
pub fn stub_svc_done(esr1: u64) -> (b: bool)
    ensures
        b == (ec_of_class(esr_class(esr1)) is Svc),
{
    match ec_of(esr1) {
        Ec::Svc => true,
        _ => false,
    }
}

/// What kind of non-syscall stop a syndrome reports, for the diagnostic line.
#[derive(Debug, Clone, Copy, PartialEq, Eq, Structural)]
pub enum StopClass {
    InstructionAbort,
    DataAbort,
    SysRegTrap,
    Unknown,
    Exception,
}

impl StopClass {
    /// The class's name as the diagnostic spells it.
    pub fn name(&self) -> (r: &'static str)
        ensures
            r@ == match *self {
                StopClass::InstructionAbort => "instruction abort"@,
                StopClass::DataAbort => "data abort"@,
                StopClass::SysRegTrap => "MSR/MRS/sysreg trap"@,
                StopClass::Unknown => "unknown/uncategorized"@,
                StopClass::Exception => "exception"@,
            },
    {
        match self {
            StopClass::InstructionAbort => "instruction abort",
            StopClass::DataAbort => "data abort",
            StopClass::SysRegTrap => "MSR/MRS/sysreg trap",
            StopClass::Unknown => "unknown/uncategorized",
            StopClass::Exception => "exception",
        }
    }
}

/// The class of a stop by its exception class (`EC`, bits 31:26): either abort kind (lower or
/// same EL), a trapped system-register access, the unknown class 0, or any other exception.
pub fn stop_class(esr: u64) -> (c: StopClass)
    ensures
        c == match (esr >> 26u64) & 0x3f {
            0x20 | 0x21 => StopClass::InstructionAbort,
            0x24 | 0x25 => StopClass::DataAbort,
            0x18 => StopClass::SysRegTrap,
            0 => StopClass::Unknown,
            _ => StopClass::Exception,
        },
{
    match (esr >> 26) & 0x3f {
        0x20 | 0x21 => StopClass::InstructionAbort,
        0x24 | 0x25 => StopClass::DataAbort,
        0x18 => StopClass::SysRegTrap,
        0 => StopClass::Unknown,
        _ => StopClass::Exception,
    }
}

} // verus!
