//! The run loop's decisions at a vCPU exit: which exits resume, which trap is which, and the
//! deterministic emulations below the record/replay loop.
use retrace_box::trap::{
    exit_action, fpac_strip, next_synthetic_tsc, return_cpsr, step_exit_action, step_retired,
    timebase_read_target, trap_action, undef_mrs_target, ExitAction, StepExitAction, TrapAction,
    SYNTH_TSC_STRIDE,
};
use retrace_box::trap::{stub_exit, stub_svc_done, StubExit};
use retrace_box::trap::{stop_class, StopClass};

fn esr(ec: u64, iss: u64) -> u64 {
    (ec << 26) | iss
}

#[test]
fn only_exception_exits_are_classified() {
    assert_eq!(exit_action(2, esr(0x16, 0)), ExitAction::Resume);
    assert_eq!(exit_action(0, esr(0x16, 0)), ExitAction::Resume);
    assert_eq!(exit_action(1, esr(0x16, 0)), ExitAction::ReadTrap);
    assert_eq!(exit_action(1, esr(0x32, 0)), ExitAction::StepLeak);
    assert_eq!(exit_action(1, esr(0x24, 0)), ExitAction::Surface);
}

#[test]
fn a_single_step_reads_cpsr_only_on_the_step_exit() {
    assert_eq!(step_exit_action(1, esr(0x32, 0)), StepExitAction::ReadCpsr);
    assert_eq!(step_exit_action(1, esr(0x33, 0)), StepExitAction::ReadCpsr);
    assert_eq!(step_exit_action(1, esr(0x24, 0)), StepExitAction::Surface);
    assert_eq!(step_exit_action(2, 0), StepExitAction::Resume);
    assert!(step_retired(0x0));
    assert!(!step_retired(0x5), "EL1h: the instruction trapped and did not retire");
}

#[test]
fn el0_traps_are_told_apart_by_their_syndrome() {
    assert_eq!(trap_action(esr(0x15, 0x80)), TrapAction::Syscall);
    assert_eq!(trap_action(esr(0x18, 0)), TrapAction::TryTimebase);
    assert_eq!(trap_action(esr(0x00, 0)), TrapAction::TryUndefMrs);
    assert_eq!(trap_action(esr(0x1C, 0)), TrapAction::TryFpacAuth);
    assert_eq!(trap_action(esr(0x24, 0x7)), TrapAction::Fault, "a lower-EL data abort is the guest's");
    assert_eq!(trap_action(esr(0x20, 0)), TrapAction::Fault);
    assert_eq!(trap_action(esr(0x25, 0)), TrapAction::Other, "a same-EL abort is the trampoline's");
    assert_eq!(trap_action(esr(0x3C, 0)), TrapAction::Other);
}

fn sysreg_iss(op0: u64, op1: u64, crn: u64, crm: u64, op2: u64, rt: u64, read: bool) -> u64 {
    (op0 << 20) | (op2 << 17) | (op1 << 14) | (crn << 10) | (rt << 5) | (crm << 1) | (read as u64)
}

#[test]
fn timebase_reads_are_recognised_with_their_target() {
    let apple = esr(0x18, sysreg_iss(3, 4, 15, 10, 6, 5, true));
    assert_eq!(timebase_read_target(apple), Some(5));
    let cntvct = esr(0x18, sysreg_iss(3, 3, 14, 0, 2, 31, true));
    assert_eq!(timebase_read_target(cntvct), Some(31));
    let write = esr(0x18, sysreg_iss(3, 4, 15, 10, 6, 5, false));
    assert_eq!(timebase_read_target(write), None, "a write is not a timebase read");
    let other = esr(0x18, sysreg_iss(3, 3, 14, 0, 0, 1, true));
    assert_eq!(timebase_read_target(other), None);
}

#[test]
fn the_synthetic_timebase_steps_and_wraps() {
    assert_eq!(next_synthetic_tsc(0x1_0000_0000), 0x1_0000_0000 + SYNTH_TSC_STRIDE);
    assert_eq!(next_synthetic_tsc(u64::MAX), SYNTH_TSC_STRIDE - 1);
}

#[test]
fn the_apple_feature_mrs_reads_as_zero_into_its_target() {
    let mrs_x3 = 0xD530_0000u32 | (1 << 19) | (6 << 16) | (15 << 12) | (1 << 8) | (5 << 5) | 3;
    assert_eq!(undef_mrs_target(mrs_x3), Some(3));
    let other = 0xD530_0000u32 | (1 << 19) | (6 << 16) | (15 << 12) | (2 << 8) | (5 << 5) | 3;
    assert_eq!(undef_mrs_target(other), None);
    assert_eq!(undef_mrs_target(0xD503_201F), None, "a NOP is no MRS");
}

#[test]
fn a_faulted_authenticate_strips_to_47_bits() {
    let autia_x1_x2 = 0xDAC1_1000u32 | (2 << 5) | 1;
    assert_eq!(fpac_strip(autia_x1_x2, 0x1234_8000_dead_beef), Some((1, 0xdead_beef)));
    let autdzb_x7 = 0xDAC1_3C00u32 | (31 << 5) | 7;
    assert_eq!(fpac_strip(autdzb_x7, 0xffff_7fff_ffff_ffff), Some((7, 0x7fff_ffff_ffff)));
    assert_eq!(fpac_strip(0xD65F_0BFF, 1), None, "RETAA is no authenticate-into-register");
}

#[test]
fn a_syscall_returns_with_carry_exactly_on_failure() {
    let c = 1u64 << 29;
    assert_eq!(return_cpsr(0x6000_0000, false), 0x4000_0000);
    assert_eq!(return_cpsr(0x4000_0000, true), 0x4000_0000 | c);
    assert_eq!(return_cpsr(c, true), c);
}

#[test]
fn a_stub_run_ends_at_its_hvc_and_fails_on_anything_else() {
    assert_eq!(stub_exit(2, 0), StubExit::Again);
    assert_eq!(stub_exit(1, esr(0x16, 0)), StubExit::Hvc);
    assert_eq!(stub_exit(1, esr(0x24, 0)), StubExit::Fault);
    assert!(stub_svc_done(esr(0x15, 0)));
    assert!(!stub_svc_done(esr(0x1C, 0)), "an authentication failure is no clean finish");
}

#[test]
fn stops_are_classed_by_their_exception_class() {
    assert_eq!(stop_class(esr(0x25, 0x7)), StopClass::DataAbort);
    assert_eq!(stop_class(esr(0x20, 0)), StopClass::InstructionAbort);
    assert_eq!(stop_class(esr(0x18, 0)), StopClass::SysRegTrap);
    assert_eq!(stop_class(0), StopClass::Unknown);
    assert_eq!(stop_class(esr(0x3c, 0)).name(), "exception");
    assert_eq!(StopClass::DataAbort.name(), "data abort");
}
