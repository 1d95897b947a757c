//! AArch64 and Darwin facts shared by record and replay: syscall numbers, the per-syscall argument
//! table and its views, exception-syndrome decoding, and the signal numbering.
use vstd::prelude::*;

verus! {

pub const SYS_WRITE: u64 = 4;
pub const SYS_WRITE_NOCANCEL: u64 = 397;
pub const SYS_EXIT: u64 = 1;
pub const SVC_IMM: u64 = 0x80;
pub const SYS_CLOSE_NOCANCEL: u64 = 399;
pub const SYS_READ: u64 = 3;
pub const SYS_PREAD: u64 = 153;
pub const SYS_PREAD_NOCANCEL: u64 = 414;
pub const SYS_OPEN: u64 = 5;
pub const SYS_CLOSE: u64 = 6;
pub const SYS_MUNMAP: u64 = 73;
pub const SYS_MPROTECT: u64 = 74;
pub const SYS_FSTAT: u64 = 189;
pub const SYS_MMAP: u64 = 197;
pub const SYS_LSEEK: u64 = 199;
pub const SYS_SHARED_REGION_CHECK_NP: u64 = 294;
pub const SYS_SHARED_REGION_MAP_AND_SLIDE_2_NP: u64 = 536;
pub const SYS_DUP: u64 = 41;
pub const SYS_IOCTL: u64 = 54;
pub const SYS_DUP2: u64 = 90;
pub const SYS_FCNTL: u64 = 92;
pub const SYS_SOCKET: u64 = 97;
pub const SYS_CONNECT: u64 = 98;
pub const SYS_SENDTO: u64 = 133;
pub const SYS_FGETATTRLIST: u64 = 228;
pub const SYS_SHM_OPEN: u64 = 266;
pub const SYS_FSTAT64: u64 = 339;
pub const SYS_READ_NOCANCEL: u64 = 396;
pub const SYS_OPEN_NOCANCEL: u64 = 398;
pub const SYS_FCNTL_NOCANCEL: u64 = 406;
pub const SYS_OPENAT: u64 = 463;
pub const SYS_FSTATAT64: u64 = 470;
pub const SYS_FSTATFS64: u64 = 346;
pub const SYS_GETDIRENTRIES64: u64 = 344;
pub const SYS_RECVFROM: u64 = 29;
pub const SYS_RECVFROM_NOCANCEL: u64 = 403;
pub const SYS_SYSCTLBYNAME: u64 = 274;
pub const SYS_GETFSSTAT64: u64 = 347;
pub const SYS_MAP_WITH_LINKING_NP: u64 = 550;
pub const MWL_REGION_STRIDE: usize = 32;
pub const MWL_MAX_REGION_COUNT: u64 = 5;
pub const AT_FDCWD: i64 = -2;
pub const IOCPARM_MASK: u64 = 0x1fff;
pub const IOC_OUT: u64 = 0x4000_0000;
pub const IOC_IN: u64 = 0x8000_0000;
pub const SYS_SYSCTL: u64 = 202;
pub const SYS_GETRLIMIT: u64 = 194;
pub const CTL_KERN: u32 = 1;
pub const KERN_USRSTACK64: u32 = 59;
pub const RLIMIT_STACK: u64 = 3;
pub const RLIMIT_POSIX_FLAG: u64 = 0x1000;
pub const EINVAL: u64 = 22;
pub const LC_LOAD_DYLINKER: u32 = 0xe;
pub const FAT_MAGIC: u32 = 0xcafe_babe;
pub const FAT_MAGIC_64: u32 = 0xcafe_babf;
pub const CPU_TYPE_ARM64: u32 = 0x0100_000c;
pub const CPU_SUBTYPE_ARM64E: u32 = 2;
pub const CPU_SUBTYPE_ARM64_ALL: u32 = 0;
/// Carry bit in NZCV (SPSR_EL1 / CPSR), bit 29.
pub const PSTATE_C: u64 = 0x2000_0000;
pub const SYS_GETPID: u64 = 20;
pub const SYS_KILL: u64 = 37;
pub const SYS_SIGACTION: u64 = 46;
pub const SYS_SIGPROCMASK: u64 = 48;
pub const SYS_SIGPENDING: u64 = 52;
pub const SYS_SIGALTSTACK: u64 = 53;
pub const SYS_SIGSUSPEND: u64 = 111;
pub const SYS_SIGRETURN: u64 = 184;
pub const SYS_PTHREAD_KILL: u64 = 328;
pub const SYS_PTHREAD_SIGMASK: u64 = 329;
pub const SYS_SIGWAIT: u64 = 330;
pub const SYS_BSDTHREAD_CREATE: u64 = 360;
pub const SYS_BSDTHREAD_TERMINATE: u64 = 361;
pub const SYS_BSDTHREAD_REGISTER: u64 = 366;
pub const SYS_WORKQ_OPEN: u64 = 367;
pub const SYS_WORKQ_KERNRETURN: u64 = 368;
pub const SYS_THREAD_SELFID: u64 = 372;
pub const SYS_ULOCK_WAIT: u64 = 515;
pub const SYS_ULOCK_WAKE: u64 = 516;
pub const SYS_TERMINATE_WITH_PAYLOAD: u64 = 520;
pub const SYS_ABORT_WITH_PAYLOAD: u64 = 521;
/// Selector -36, as the two's-complement `u64` the trap carries.
pub const MACH_SEMAPHORE_WAIT: u64 = 0xffff_ffff_ffff_ffdc;
/// Selector -33, as the two's-complement `u64` the trap carries.
pub const MACH_SEMAPHORE_SIGNAL: u64 = 0xffff_ffff_ffff_ffdf;
/// Selector -10, as the two's-complement `u64` the trap carries.
pub const MACH_VM_ALLOCATE_TRAP: u64 = 0xffff_ffff_ffff_fff6;
/// Selector -12, as the two's-complement `u64` the trap carries.
pub const MACH_VM_DEALLOCATE_TRAP: u64 = 0xffff_ffff_ffff_fff4;
/// Selector -14, as the two's-complement `u64` the trap carries.
pub const MACH_VM_PROTECT_TRAP: u64 = 0xffff_ffff_ffff_fff2;
/// Selector -15, as the two's-complement `u64` the trap carries.
pub const MACH_VM_MAP_TRAP: u64 = 0xffff_ffff_ffff_fff1;
/// Selector -18, as the two's-complement `u64` the trap carries.
pub const MACH_PORT_DEALLOCATE_TRAP: u64 = 0xffff_ffff_ffff_ffee;
/// Selector -19, as the two's-complement `u64` the trap carries.
pub const MACH_PORT_MOD_REFS_TRAP: u64 = 0xffff_ffff_ffff_ffed;
/// Selector -24, as the two's-complement `u64` the trap carries.
pub const MACH_PORT_CONSTRUCT_TRAP: u64 = 0xffff_ffff_ffff_ffe8;
/// Selector -26, as the two's-complement `u64` the trap carries.
pub const MACH_REPLY_PORT_TRAP: u64 = 0xffff_ffff_ffff_ffe6;
/// Selector -27, as the two's-complement `u64` the trap carries.
pub const MACH_THREAD_SELF_TRAP: u64 = 0xffff_ffff_ffff_ffe5;
/// Selector -28, as the two's-complement `u64` the trap carries.
pub const MACH_TASK_SELF_TRAP: u64 = 0xffff_ffff_ffff_ffe4;
/// Selector -29, as the two's-complement `u64` the trap carries.
pub const MACH_HOST_SELF_TRAP: u64 = 0xffff_ffff_ffff_ffe3;
/// Selector -50, as the two's-complement `u64` the trap carries.
pub const MACH_THREAD_GET_SPECIAL_REPLY_PORT_TRAP: u64 = 0xffff_ffff_ffff_ffce;
/// Selector -70, as the two's-complement `u64` the trap carries.
pub const MACH_HOST_CREATE_MACH_VOUCHER_TRAP: u64 = 0xffff_ffff_ffff_ffba;
/// Selector -89, as the two's-complement `u64` the trap carries.
pub const MACH_TIMEBASE_INFO_TRAP: u64 = 0xffff_ffff_ffff_ffa7;
pub const NSIG: usize = 32;
pub const SIGABRT: u64 = 6;
pub const SIG_DFL: u64 = 0;
pub const SIG_IGN: u64 = 1;
pub const SIG_BLOCK: u64 = 1;
pub const SIG_UNBLOCK: u64 = 2;
pub const SIG_SETMASK: u64 = 3;
pub const SIGILL: u64 = 4;
pub const SIGTRAP: u64 = 5;
pub const SIGFPE: u64 = 8;
pub const SIGBUS: u64 = 10;
pub const SIGSEGV: u64 = 11;
pub const SEGV_MAPERR: u64 = 1;
pub const SEGV_ACCERR: u64 = 2;
pub const BUS_ADRALN: u64 = 1;
pub const BUS_ADRERR: u64 = 2;
pub const BUS_OBJERR: u64 = 3;
pub const ILL_ILLOPC: u64 = 1;
pub const TRAP_BRKPT: u64 = 1;
pub const SI_USER: u64 = 0x10001;
pub const SA_ONSTACK: u32 = 0x1;
pub const SA_RESTART: u32 = 0x2;
pub const SA_RESETHAND: u32 = 0x4;
pub const SA_NODEFER: u32 = 0x10;
pub const SA_SIGINFO: u32 = 0x40;
pub const SS_ONSTACK: u64 = 0x1;
pub const SS_DISABLE: u64 = 0x4;
pub const UC_FLAVOR: u64 = 30;

/// An exception class, decoded from `ESR_EL2[31:26]`.
#[derive(Debug, Clone, Copy, PartialEq, Eq, Structural)]
pub enum Ec {
    Svc,
    Hvc,
    SysReg,
    SoftStep,
    Breakpoint,
    Watchpoint,
    DataAbort,
    InstrAbort,
    Other(u8),
}

/// Is this syscall the guest writing to the console (fd 1 or 2), by either spelling of `write`?
pub fn is_console_write(num: u64, fd: u64) -> (b: bool)
    ensures
        b == ((num == SYS_WRITE || num == SYS_WRITE_NOCANCEL) && (fd == 1 || fd == 2)),
{
    (num == SYS_WRITE || num == SYS_WRITE_NOCANCEL) && (fd == 1 || fd == 2)
}

/// Is this the guest closing one of the three standard fds, by either spelling of `close`?
pub fn is_console_close(num: u64, fd: u64) -> (b: bool)
    ensures
        b == ((num == SYS_CLOSE || num == SYS_CLOSE_NOCANCEL) && fd <= 2),
{
    (num == SYS_CLOSE || num == SYS_CLOSE_NOCANCEL) && fd <= 2
}

/// `IOCPARM_LEN(x)`: the parameter length held in bits 16..29 of an `ioctl` request.
pub fn iocparm_len(request: u64) -> (r: u64)
    ensures
        r == (request >> 16) & IOCPARM_MASK,
        r == (request / 0x1_0000) % 0x2000,
{
    let r = (request >> 16) & IOCPARM_MASK;
    assert(((request >> 16) & 0x1fff) == (request / 0x1_0000) % 0x2000) by (bit_vector);
    r
}

/// Where a destination buffer's byte length lives for a given syscall.
#[derive(Debug, Clone, Copy, PartialEq, Eq, Structural)]
pub enum DestLen {
    /// The length is the value of register `x{n}`.
    Reg(usize),
    /// The length is a `u64` in guest memory at the address in `x{n}` (`sysctl`'s `*oldlenp`).
    DerefU64(usize),
}

/// What the kernel does with one register argument of a syscall.
#[derive(Debug, Clone, Copy, PartialEq, Eq, Structural)]
pub enum ArgKind {
    /// Not a memory reference: a count, a flag word, an offset, a signal number, a port name.
    Scalar,
    /// A guest file descriptor, rewritten to the host's before forwarding.
    Fd,
    /// A NUL-terminated path, bounded by the kernel at `PATH_MAX`.
    Path,
    /// The kernel reads a caller-sized buffer through it, with no cited cap below the window.
    Source,
    /// The kernel reads through pointers inside the pointed-to struct.
    NestedSource,
    /// The kernel writes through it, and the length is where `DestLen` says.
    Dest(DestLen),
    /// The kernel writes through pointers inside the pointed-to struct (refused by value).
    NestedDest,
    /// A pointer whose access the kernel itself bounds far inside the diff window.
    Ptr,
}

/// What a syscall's return value is.
#[derive(Debug, Clone, Copy, PartialEq, Eq, Structural)]
pub enum Ret {
    Plain,
    /// A new guest descriptor, bound to a fresh guest slot.
    Fd,
    /// Two new descriptors, in x0 and x1 (`pipe`); deliberately not bound.
    FdPair,
}

/// One syscall's argument kinds, in register order, plus its return kind.
#[derive(Debug, Clone, PartialEq, Eq)]
pub struct Shape {
    pub args: Vec<ArgKind>,
    pub ret: Ret,
}

/// The argument table as a mathematical function: `None` means the syscall is unenumerated.
/// How a fault is classified, by exception class and, for an abort, by fault status code: a
/// translation fault at any level (status 0x04..=0x07) is `SIGSEGV`/`SEGV_MAPERR` (11, 1); an
/// access-flag fault (0x08..=0x0b) `SIGSEGV`/`SEGV_ACCERR` (11, 2); a permission fault
/// (0x0c..=0x0f) `SIGBUS`/`BUS_ADRALN` (10, 1); a synchronous external abort (0x10..=0x13)
/// `SIGBUS`/`BUS_OBJERR` (10, 3); an alignment fault (0x21) `SIGBUS`/`BUS_ADRALN`; any other
/// status `SIGSEGV`/`SEGV_ACCERR`. An SP alignment fault is (10, 1), an unknown or illegal
/// instruction `SIGILL`/`ILL_ILLOPC` (4, 1), and a `BRK` `SIGTRAP`/`TRAP_BRKPT` (5, 1).
pub proof fn lemma_fault_classification(esr: u64)
    requires
        fault_class_modelled(esr),
    ensures
        ({
            let ec = (esr >> 26) & 0x3f;
            let fsc = esr & 0x3f;
            &&& (ec == 0x20 || ec == 0x24) && 0x04 <= fsc <= 0x07 ==> fault_signal(esr) == (11u64, 1u64)
            &&& (ec == 0x20 || ec == 0x24) && 0x08 <= fsc <= 0x0b ==> fault_signal(esr) == (11u64, 2u64)
            &&& (ec == 0x20 || ec == 0x24) && 0x0c <= fsc <= 0x0f ==> fault_signal(esr) == (10u64, 1u64)
            &&& (ec == 0x20 || ec == 0x24) && 0x10 <= fsc <= 0x13 ==> fault_signal(esr) == (10u64, 3u64)
            &&& (ec == 0x20 || ec == 0x24) && fsc == 0x21 ==> fault_signal(esr) == (10u64, 1u64)
            &&& (ec == 0x20 || ec == 0x24) && !(0x04 <= fsc <= 0x13 || fsc == 0x21) ==> fault_signal(esr) == (
                11u64,
                2u64,
            )
            &&& ec == 0x26 ==> fault_signal(esr) == (10u64, 1u64)
            &&& (ec == 0x00 || ec == 0x0e) ==> fault_signal(esr) == (4u64, 1u64)
            &&& ec == 0x3c ==> fault_signal(esr) == (5u64, 1u64)
        }),
{
}

/// Every `_nocancel` spelling shares its plain form's row; mach traps are keyed by the
/// two's-complement `u64` they carry.
pub open spec fn syscall_row(num: u64) -> Option<(Seq<ArgKind>, Ret)> {
    match num {
        SYS_READ | SYS_READ_NOCANCEL => Some((seq![ArgKind::Fd, ArgKind::Dest(DestLen::Reg(2)), ArgKind::Scalar], Ret::Plain)),
        SYS_PREAD | SYS_PREAD_NOCANCEL => Some((seq![ArgKind::Fd, ArgKind::Dest(DestLen::Reg(2)), ArgKind::Scalar, ArgKind::Scalar], Ret::Plain)),
        SYS_WRITE | SYS_WRITE_NOCANCEL => Some((seq![ArgKind::Fd, ArgKind::Source, ArgKind::Scalar], Ret::Plain)),
        154 | 415 => Some((seq![ArgKind::Fd, ArgKind::Source, ArgKind::Scalar, ArgKind::Scalar], Ret::Plain)),
        121 | 412 => Some((seq![ArgKind::Fd, ArgKind::NestedSource, ArgKind::Scalar], Ret::Plain)),
        541 => Some((seq![ArgKind::Fd, ArgKind::NestedSource, ArgKind::Scalar, ArgKind::Scalar], Ret::Plain)),
        120 | 411 => Some((seq![ArgKind::Fd, ArgKind::NestedDest, ArgKind::Scalar], Ret::Plain)),
        540 => Some((seq![ArgKind::Fd, ArgKind::NestedDest, ArgKind::Scalar, ArgKind::Scalar], Ret::Plain)),
        27 | 401 => Some((seq![ArgKind::Fd, ArgKind::NestedDest, ArgKind::Scalar], Ret::Plain)),
        480 => Some((seq![ArgKind::Fd, ArgKind::NestedDest, ArgKind::Scalar, ArgKind::Scalar], Ret::Plain)),
        28 | 402 => Some((seq![ArgKind::Fd, ArgKind::NestedSource, ArgKind::Scalar], Ret::Plain)),
        481 => Some((seq![ArgKind::Fd, ArgKind::NestedSource, ArgKind::Scalar, ArgKind::Scalar], Ret::Plain)),
        SYS_SENDTO | 413 => Some((seq![ArgKind::Fd, ArgKind::Source, ArgKind::Scalar, ArgKind::Scalar, ArgKind::Ptr, ArgKind::Scalar], Ret::Plain)),
        SYS_RECVFROM | SYS_RECVFROM_NOCANCEL => Some((seq![ArgKind::Fd, ArgKind::Dest(DestLen::Reg(2)), ArgKind::Scalar, ArgKind::Scalar, ArgKind::Ptr, ArgKind::Ptr], Ret::Plain)),
        SYS_CONNECT => Some((seq![ArgKind::Fd, ArgKind::Ptr, ArgKind::Scalar], Ret::Plain)),
        SYS_SOCKET => Some((seq![ArgKind::Scalar, ArgKind::Scalar, ArgKind::Scalar], Ret::Fd)),
        337 => Some((seq![ArgKind::Fd, ArgKind::Fd, ArgKind::Scalar, ArgKind::Ptr, ArgKind::NestedSource, ArgKind::Scalar], Ret::Plain)),
        65 | 405 => Some((seq![ArgKind::Source, ArgKind::Scalar, ArgKind::Scalar], Ret::Plain)),
        SYS_MMAP => Some((seq![ArgKind::Scalar, ArgKind::Scalar, ArgKind::Scalar, ArgKind::Scalar, ArgKind::Fd, ArgKind::Scalar], Ret::Plain)),
        0xffff_ffff_ffff_ffd1 => Some((seq![ArgKind::Source, ArgKind::Scalar, ArgKind::Scalar, ArgKind::Scalar, ArgKind::Scalar, ArgKind::Scalar, ArgKind::Scalar, ArgKind::Scalar], Ret::Plain)),
        SYS_CLOSE | SYS_CLOSE_NOCANCEL => Some((seq![ArgKind::Fd], Ret::Plain)),
        SYS_DUP => Some((seq![ArgKind::Fd], Ret::Fd)),
        SYS_DUP2 => Some((seq![ArgKind::Fd, ArgKind::Fd], Ret::Plain)),
        SYS_FCNTL | SYS_FCNTL_NOCANCEL => Some((seq![ArgKind::Fd, ArgKind::Scalar, ArgKind::Ptr], Ret::Plain)),
        SYS_FSTAT | SYS_FSTAT64 => Some((seq![ArgKind::Fd, ArgKind::Ptr], Ret::Plain)),
        SYS_FSTATFS64 => Some((seq![ArgKind::Fd, ArgKind::Ptr], Ret::Plain)),
        SYS_LSEEK => Some((seq![ArgKind::Fd, ArgKind::Scalar, ArgKind::Scalar], Ret::Plain)),
        SYS_IOCTL => Some((seq![ArgKind::Fd, ArgKind::Scalar, ArgKind::Ptr], Ret::Plain)),
        SYS_FGETATTRLIST => Some((seq![ArgKind::Fd, ArgKind::Ptr, ArgKind::Ptr, ArgKind::Scalar, ArgKind::Scalar], Ret::Plain)),
        SYS_GETDIRENTRIES64 => Some((seq![ArgKind::Fd, ArgKind::Dest(DestLen::Reg(2)), ArgKind::Scalar, ArgKind::Ptr], Ret::Plain)),
        SYS_OPEN | SYS_OPEN_NOCANCEL => Some((seq![ArgKind::Path, ArgKind::Scalar, ArgKind::Scalar], Ret::Fd)),
        SYS_OPENAT => Some((seq![ArgKind::Fd, ArgKind::Path, ArgKind::Scalar, ArgKind::Scalar], Ret::Fd)),
        SYS_FSTATAT64 => Some((seq![ArgKind::Fd, ArgKind::Path, ArgKind::Ptr, ArgKind::Scalar], Ret::Plain)),
        SYS_SHM_OPEN => Some((seq![ArgKind::Path, ArgKind::Scalar, ArgKind::Scalar], Ret::Fd)),
        SYS_SYSCTL => Some((seq![ArgKind::Ptr, ArgKind::Scalar, ArgKind::Dest(DestLen::DerefU64(3)), ArgKind::Ptr, ArgKind::Ptr, ArgKind::Scalar], Ret::Plain)),
        SYS_SYSCTLBYNAME => Some((seq![ArgKind::Ptr, ArgKind::Scalar, ArgKind::Dest(DestLen::DerefU64(3)), ArgKind::Ptr, ArgKind::Ptr, ArgKind::Scalar], Ret::Plain)),
        SYS_GETFSSTAT64 => Some((seq![ArgKind::Dest(DestLen::Reg(1)), ArgKind::Scalar, ArgKind::Scalar], Ret::Plain)),
        SYS_EXIT => Some((seq![ArgKind::Scalar], Ret::Plain)),
        SYS_GETPID | 24 | 25 | 39 | 43 | 47 | 81 | 327 | SYS_THREAD_SELFID | 36 => Some((seq![], Ret::Plain)),
        286 => Some((seq![ArgKind::Ptr, ArgKind::Ptr], Ret::Plain)),
        60 => Some((seq![ArgKind::Scalar], Ret::Plain)),
        38 => Some((seq![ArgKind::Scalar], Ret::Plain)),
        49 => Some((seq![ArgKind::Ptr, ArgKind::Scalar], Ret::Plain)),
        116 => Some((seq![ArgKind::Ptr, ArgKind::Ptr, ArgKind::Ptr], Ret::Plain)),
        117 => Some((seq![ArgKind::Scalar, ArgKind::Ptr], Ret::Plain)),
        SYS_GETRLIMIT | 195 => Some((seq![ArgKind::Scalar, ArgKind::Ptr], Ret::Plain)),
        500 => Some((seq![ArgKind::Ptr, ArgKind::Scalar], Ret::Plain)),
        SYS_KILL => Some((seq![ArgKind::Scalar, ArgKind::Scalar, ArgKind::Scalar], Ret::Plain)),
        SYS_SIGACTION => Some((seq![ArgKind::Scalar, ArgKind::Ptr, ArgKind::Ptr], Ret::Plain)),
        SYS_SIGPROCMASK => Some((seq![ArgKind::Scalar, ArgKind::Ptr, ArgKind::Ptr], Ret::Plain)),
        SYS_SIGPENDING => Some((seq![ArgKind::Ptr], Ret::Plain)),
        SYS_SIGALTSTACK => Some((seq![ArgKind::Ptr, ArgKind::Ptr], Ret::Plain)),
        SYS_SIGRETURN => Some((seq![ArgKind::NestedSource, ArgKind::Scalar, ArgKind::Scalar], Ret::Plain)),
        SYS_PTHREAD_KILL => Some((seq![ArgKind::Scalar, ArgKind::Scalar], Ret::Plain)),
        SYS_PTHREAD_SIGMASK => Some((seq![ArgKind::Scalar, ArgKind::Ptr, ArgKind::Ptr], Ret::Plain)),
        331 => Some((seq![ArgKind::Scalar], Ret::Plain)),
        SYS_BSDTHREAD_CREATE => Some((seq![ArgKind::Scalar, ArgKind::Scalar, ArgKind::Scalar, ArgKind::Ptr, ArgKind::Scalar], Ret::Plain)),
        SYS_BSDTHREAD_TERMINATE => Some((seq![ArgKind::Scalar, ArgKind::Scalar, ArgKind::Scalar, ArgKind::Scalar], Ret::Plain)),
        SYS_BSDTHREAD_REGISTER => Some((seq![ArgKind::Scalar, ArgKind::Scalar, ArgKind::Scalar, ArgKind::Ptr, ArgKind::Scalar, ArgKind::Scalar, ArgKind::Scalar], Ret::Plain)),
        SYS_WORKQ_OPEN => Some((seq![], Ret::Plain)),
        SYS_WORKQ_KERNRETURN => Some((seq![ArgKind::Scalar, ArgKind::Ptr, ArgKind::Scalar, ArgKind::Scalar], Ret::Plain)),
        478 => Some((seq![ArgKind::Scalar, ArgKind::Scalar, ArgKind::Scalar, ArgKind::Ptr], Ret::Plain)),
        SYS_ULOCK_WAIT => Some((seq![ArgKind::Scalar, ArgKind::Ptr, ArgKind::Scalar, ArgKind::Scalar], Ret::Plain)),
        SYS_ULOCK_WAKE => Some((seq![ArgKind::Scalar, ArgKind::Scalar, ArgKind::Scalar], Ret::Plain)),
        33 => Some((seq![ArgKind::Path, ArgKind::Scalar], Ret::Plain)),
        191 => Some((seq![ArgKind::Path, ArgKind::Scalar], Ret::Plain)),
        58 => Some((seq![ArgKind::Path, ArgKind::Ptr, ArgKind::Scalar], Ret::Plain)),
        338 | 340 => Some((seq![ArgKind::Path, ArgKind::Ptr], Ret::Plain)),
        220 => Some((seq![ArgKind::Path, ArgKind::Ptr, ArgKind::Ptr, ArgKind::Scalar, ArgKind::Scalar], Ret::Plain)),
        427 => Some((seq![ArgKind::Ptr, ArgKind::Scalar, ArgKind::Ptr, ArgKind::Scalar], Ret::Plain)),
        59 => Some((seq![ArgKind::Path, ArgKind::NestedSource, ArgKind::NestedSource], Ret::Plain)),
        13 => Some((seq![ArgKind::Fd], Ret::Plain)),
        42 => Some((seq![], Ret::FdPair)),
        362 => Some((seq![], Ret::Fd)),
        SYS_MUNMAP => Some((seq![ArgKind::Scalar, ArgKind::Scalar], Ret::Plain)),
        SYS_MPROTECT => Some((seq![ArgKind::Scalar, ArgKind::Scalar, ArgKind::Scalar], Ret::Plain)),
        75 => Some((seq![ArgKind::Scalar, ArgKind::Scalar, ArgKind::Scalar], Ret::Plain)),
        SYS_SHARED_REGION_CHECK_NP => Some((seq![ArgKind::Ptr], Ret::Plain)),
        SYS_MAP_WITH_LINKING_NP => Some((seq![ArgKind::Ptr, ArgKind::Scalar, ArgKind::Source, ArgKind::Scalar], Ret::Plain)),
        169 => Some((seq![ArgKind::Scalar, ArgKind::Scalar, ArgKind::Ptr, ArgKind::Scalar], Ret::Plain)),
        170 => Some((seq![ArgKind::Scalar, ArgKind::Scalar, ArgKind::Ptr, ArgKind::Scalar, ArgKind::Ptr], Ret::Plain)),
        483 => Some((seq![ArgKind::Scalar, ArgKind::Ptr, ArgKind::Scalar], Ret::Plain)),
        381 => Some((seq![ArgKind::Path, ArgKind::Scalar, ArgKind::Ptr], Ret::Plain)),
        0x8000_0000 => Some((seq![ArgKind::Path, ArgKind::Scalar, ArgKind::Ptr], Ret::Plain)),
        336 => Some((seq![ArgKind::Scalar, ArgKind::Scalar, ArgKind::Scalar, ArgKind::Scalar, ArgKind::Ptr, ArgKind::Scalar], Ret::Plain)),
        539 => Some((seq![ArgKind::Scalar, ArgKind::Scalar, ArgKind::Ptr], Ret::Plain)),
        244 => Some((seq![ArgKind::Ptr, ArgKind::Path, ArgKind::NestedSource, ArgKind::NestedSource, ArgKind::NestedSource], Ret::Plain)),
        MACH_VM_ALLOCATE_TRAP => Some((seq![ArgKind::Scalar, ArgKind::Ptr, ArgKind::Scalar, ArgKind::Scalar], Ret::Plain)),
        MACH_VM_DEALLOCATE_TRAP => Some((seq![ArgKind::Scalar, ArgKind::Scalar, ArgKind::Scalar], Ret::Plain)),
        MACH_VM_PROTECT_TRAP => Some((seq![ArgKind::Scalar, ArgKind::Scalar, ArgKind::Scalar, ArgKind::Scalar, ArgKind::Scalar], Ret::Plain)),
        MACH_VM_MAP_TRAP => Some((seq![ArgKind::Scalar, ArgKind::Ptr, ArgKind::Scalar, ArgKind::Scalar, ArgKind::Scalar, ArgKind::Scalar], Ret::Plain)),
        MACH_PORT_DEALLOCATE_TRAP => Some((seq![ArgKind::Scalar, ArgKind::Scalar], Ret::Plain)),
        MACH_PORT_MOD_REFS_TRAP => Some((seq![ArgKind::Scalar, ArgKind::Scalar, ArgKind::Scalar, ArgKind::Scalar], Ret::Plain)),
        MACH_PORT_CONSTRUCT_TRAP => Some((seq![ArgKind::Scalar, ArgKind::Ptr, ArgKind::Scalar, ArgKind::Ptr], Ret::Plain)),
        MACH_REPLY_PORT_TRAP | MACH_THREAD_SELF_TRAP | MACH_TASK_SELF_TRAP | MACH_HOST_SELF_TRAP | MACH_THREAD_GET_SPECIAL_REPLY_PORT_TRAP => Some((seq![], Ret::Plain)),
        MACH_SEMAPHORE_WAIT | MACH_SEMAPHORE_SIGNAL => Some((seq![ArgKind::Scalar], Ret::Plain)),
        MACH_HOST_CREATE_MACH_VOUCHER_TRAP => Some((seq![ArgKind::Scalar, ArgKind::Ptr, ArgKind::Scalar, ArgKind::Ptr], Ret::Plain)),
        MACH_TIMEBASE_INFO_TRAP => Some((seq![ArgKind::Ptr], Ret::Plain)),
        _ => None,
    }
}

/// The positions of `Fd` arguments, in increasing order.
pub open spec fn fd_positions(s: Seq<ArgKind>) -> Seq<usize>
    decreases s.len(),
{
    if s.len() == 0 {
        Seq::empty()
    } else {
        let p = fd_positions(s.drop_last());
        if s.last() == ArgKind::Fd {
            p.push((s.len() - 1) as usize)
        } else {
            p
        }
    }
}

/// The first `Dest` argument, as `(index, where its length lives)`.
pub open spec fn first_dest(s: Seq<ArgKind>) -> Option<(usize, DestLen)>
    decreases s.len(),
{
    if s.len() == 0 {
        None
    } else {
        match first_dest(s.drop_last()) {
            Some(d) => Some(d),
            None => match s.last() {
                ArgKind::Dest(l) => Some(((s.len() - 1) as usize, l)),
                _ => None,
            },
        }
    }
}

/// Some argument is read by the kernel in an amount no window bounds.
pub open spec fn has_reader(s: Seq<ArgKind>) -> bool {
    exists|i: int| 0 <= i < s.len() && (s[i] == ArgKind::Source || s[i] == ArgKind::NestedSource)
}

/// Some argument is written through a pointer nested inside a guest struct.
pub open spec fn has_nested_dest(s: Seq<ArgKind>) -> bool {
    exists|i: int| 0 <= i < s.len() && s[i] == ArgKind::NestedDest
}

impl Shape {
    /// The row this shape holds.
    pub open spec fn row(&self) -> (Seq<ArgKind>, Ret) {
        (self.args@, self.ret)
    }

    /// Which operand indices hold a guest descriptor, in increasing order.
    pub fn fd_operands(&self) -> (r: Vec<usize>)
        ensures
            r@ == fd_positions(self.args@),
    {
        let mut r: Vec<usize> = Vec::new();
        let mut i: usize = 0;
        while i < self.args.len()
            invariant
                i <= self.args@.len(),
                r@ == fd_positions(self.args@.take(i as int)),
            decreases self.args@.len() - i,
        {
            assert(self.args@.take(i as int + 1).drop_last() =~= self.args@.take(i as int));
            if self.args[i] == ArgKind::Fd {
                r.push(i);
            }
            i += 1;
        }
        assert(self.args@.take(i as int) =~= self.args@);
        r
    }

    /// The destination buffer as `(argument index, where its length lives)`: the first `Dest`.
    pub fn dest_buffer(&self) -> (r: Option<(usize, DestLen)>)
        ensures
            r == first_dest(self.args@),
    {
        let mut i: usize = 0;
        while i < self.args.len()
            invariant
                i <= self.args@.len(),
                first_dest(self.args@.take(i as int)) is None,
            decreases self.args@.len() - i,
        {
            assert(self.args@.take(i as int + 1).drop_last() =~= self.args@.take(i as int));
            match self.args[i] {
                ArgKind::Dest(len) => {
                    proof { lemma_first_dest_prefix(self.args@, i as int + 1); }
                    return Some((i, len));
                },
                _ => {},
            }
            i += 1;
        }
        assert(self.args@.take(i as int) =~= self.args@);
        None
    }

    /// Does the kernel read guest memory through this call in an amount no window bounds?
    pub fn reads_guest_buffer(&self) -> (b: bool)
        ensures
            b == has_reader(self.args@),
    {
        let mut i: usize = 0;
        while i < self.args.len()
            invariant
                i <= self.args@.len(),
                forall|j: int|
                    0 <= j < i ==> self.args@[j] != ArgKind::Source && self.args@[j]
                        != ArgKind::NestedSource,
            decreases self.args@.len() - i,
        {
            if self.args[i] == ArgKind::Source || self.args[i] == ArgKind::NestedSource {
                return true;
            }
            i += 1;
        }
        false
    }

    /// Does the kernel write through a pointer inside a guest struct? (Refused by value.)
    pub fn writes_via_nested_pointer(&self) -> (b: bool)
        ensures
            b == has_nested_dest(self.args@),
    {
        let mut i: usize = 0;
        while i < self.args.len()
            invariant
                i <= self.args@.len(),
                forall|j: int| 0 <= j < i ==> self.args@[j] != ArgKind::NestedDest,
            decreases self.args@.len() - i,
        {
            if self.args[i] == ArgKind::NestedDest {
                return true;
            }
            i += 1;
        }
        false
    }

    /// Does the return value need binding to a fresh guest fd slot?
    pub fn allocates_fd(&self) -> (b: bool)
        ensures
            b == (self.ret == Ret::Fd),
    {
        self.ret == Ret::Fd
    }
}

/// When the first `Dest` of a prefix sits at its last position, extending the prefix keeps it.
proof fn lemma_first_dest_prefix(s: Seq<ArgKind>, k: int)
    requires
        0 < k <= s.len(),
        first_dest(s.take(k - 1)) is None,
        s[k - 1] is Dest,
    ensures
        first_dest(s) == Some(((k - 1) as usize, s[k - 1]->Dest_0)),
    decreases s.len() - k,
{
    assert(s.take(k).drop_last() =~= s.take(k - 1));
    if k < s.len() {
        assert(s.take(k + 1).drop_last() =~= s.take(k));
        lemma_first_dest_extend(s, k);
    } else {
        assert(s.take(k) =~= s);
    }
}

/// Once a prefix has a first `Dest`, every longer prefix has the same one.
proof fn lemma_first_dest_extend(s: Seq<ArgKind>, k: int)
    requires
        0 < k <= s.len(),
        first_dest(s.take(k)) is Some,
    ensures
        first_dest(s) == first_dest(s.take(k)),
    decreases s.len() - k,
{
    if k < s.len() {
        assert(s.take(k + 1).drop_last() =~= s.take(k));
        lemma_first_dest_extend(s, k + 1);
    } else {
        assert(s.take(k) =~= s);
    }
}

/// The argument table. `None` means unenumerated: no guest has been measured to dispatch `num`.
pub fn arg_kinds(num: u64) -> (r: Option<Shape>)
    ensures
        match r {
            Some(s) => syscall_row(num) == Some(s.row()),
            None => syscall_row(num) is None,
        },
{
    match num {
        SYS_READ | SYS_READ_NOCANCEL => Some(Shape { args: vec![ArgKind::Fd, ArgKind::Dest(DestLen::Reg(2)), ArgKind::Scalar], ret: Ret::Plain }),
        SYS_PREAD | SYS_PREAD_NOCANCEL => Some(Shape { args: vec![ArgKind::Fd, ArgKind::Dest(DestLen::Reg(2)), ArgKind::Scalar, ArgKind::Scalar], ret: Ret::Plain }),
        SYS_WRITE | SYS_WRITE_NOCANCEL => Some(Shape { args: vec![ArgKind::Fd, ArgKind::Source, ArgKind::Scalar], ret: Ret::Plain }),
        154 | 415 => Some(Shape { args: vec![ArgKind::Fd, ArgKind::Source, ArgKind::Scalar, ArgKind::Scalar], ret: Ret::Plain }),
        121 | 412 => Some(Shape { args: vec![ArgKind::Fd, ArgKind::NestedSource, ArgKind::Scalar], ret: Ret::Plain }),
        541 => Some(Shape { args: vec![ArgKind::Fd, ArgKind::NestedSource, ArgKind::Scalar, ArgKind::Scalar], ret: Ret::Plain }),
        120 | 411 => Some(Shape { args: vec![ArgKind::Fd, ArgKind::NestedDest, ArgKind::Scalar], ret: Ret::Plain }),
        540 => Some(Shape { args: vec![ArgKind::Fd, ArgKind::NestedDest, ArgKind::Scalar, ArgKind::Scalar], ret: Ret::Plain }),
        27 | 401 => Some(Shape { args: vec![ArgKind::Fd, ArgKind::NestedDest, ArgKind::Scalar], ret: Ret::Plain }),
        480 => Some(Shape { args: vec![ArgKind::Fd, ArgKind::NestedDest, ArgKind::Scalar, ArgKind::Scalar], ret: Ret::Plain }),
        28 | 402 => Some(Shape { args: vec![ArgKind::Fd, ArgKind::NestedSource, ArgKind::Scalar], ret: Ret::Plain }),
        481 => Some(Shape { args: vec![ArgKind::Fd, ArgKind::NestedSource, ArgKind::Scalar, ArgKind::Scalar], ret: Ret::Plain }),
        SYS_SENDTO | 413 => Some(Shape { args: vec![ArgKind::Fd, ArgKind::Source, ArgKind::Scalar, ArgKind::Scalar, ArgKind::Ptr, ArgKind::Scalar], ret: Ret::Plain }),
        SYS_RECVFROM | SYS_RECVFROM_NOCANCEL => Some(Shape { args: vec![ArgKind::Fd, ArgKind::Dest(DestLen::Reg(2)), ArgKind::Scalar, ArgKind::Scalar, ArgKind::Ptr, ArgKind::Ptr], ret: Ret::Plain }),
        SYS_CONNECT => Some(Shape { args: vec![ArgKind::Fd, ArgKind::Ptr, ArgKind::Scalar], ret: Ret::Plain }),
        SYS_SOCKET => Some(Shape { args: vec![ArgKind::Scalar, ArgKind::Scalar, ArgKind::Scalar], ret: Ret::Fd }),
        337 => Some(Shape { args: vec![ArgKind::Fd, ArgKind::Fd, ArgKind::Scalar, ArgKind::Ptr, ArgKind::NestedSource, ArgKind::Scalar], ret: Ret::Plain }),
        65 | 405 => Some(Shape { args: vec![ArgKind::Source, ArgKind::Scalar, ArgKind::Scalar], ret: Ret::Plain }),
        SYS_MMAP => Some(Shape { args: vec![ArgKind::Scalar, ArgKind::Scalar, ArgKind::Scalar, ArgKind::Scalar, ArgKind::Fd, ArgKind::Scalar], ret: Ret::Plain }),
        0xffff_ffff_ffff_ffd1 => Some(Shape { args: vec![ArgKind::Source, ArgKind::Scalar, ArgKind::Scalar, ArgKind::Scalar, ArgKind::Scalar, ArgKind::Scalar, ArgKind::Scalar, ArgKind::Scalar], ret: Ret::Plain }),
        SYS_CLOSE | SYS_CLOSE_NOCANCEL => Some(Shape { args: vec![ArgKind::Fd], ret: Ret::Plain }),
        SYS_DUP => Some(Shape { args: vec![ArgKind::Fd], ret: Ret::Fd }),
        SYS_DUP2 => Some(Shape { args: vec![ArgKind::Fd, ArgKind::Fd], ret: Ret::Plain }),
        SYS_FCNTL | SYS_FCNTL_NOCANCEL => Some(Shape { args: vec![ArgKind::Fd, ArgKind::Scalar, ArgKind::Ptr], ret: Ret::Plain }),
        SYS_FSTAT | SYS_FSTAT64 => Some(Shape { args: vec![ArgKind::Fd, ArgKind::Ptr], ret: Ret::Plain }),
        SYS_FSTATFS64 => Some(Shape { args: vec![ArgKind::Fd, ArgKind::Ptr], ret: Ret::Plain }),
        SYS_LSEEK => Some(Shape { args: vec![ArgKind::Fd, ArgKind::Scalar, ArgKind::Scalar], ret: Ret::Plain }),
        SYS_IOCTL => Some(Shape { args: vec![ArgKind::Fd, ArgKind::Scalar, ArgKind::Ptr], ret: Ret::Plain }),
        SYS_FGETATTRLIST => Some(Shape { args: vec![ArgKind::Fd, ArgKind::Ptr, ArgKind::Ptr, ArgKind::Scalar, ArgKind::Scalar], ret: Ret::Plain }),
        SYS_GETDIRENTRIES64 => Some(Shape { args: vec![ArgKind::Fd, ArgKind::Dest(DestLen::Reg(2)), ArgKind::Scalar, ArgKind::Ptr], ret: Ret::Plain }),
        SYS_OPEN | SYS_OPEN_NOCANCEL => Some(Shape { args: vec![ArgKind::Path, ArgKind::Scalar, ArgKind::Scalar], ret: Ret::Fd }),
        SYS_OPENAT => Some(Shape { args: vec![ArgKind::Fd, ArgKind::Path, ArgKind::Scalar, ArgKind::Scalar], ret: Ret::Fd }),
        SYS_FSTATAT64 => Some(Shape { args: vec![ArgKind::Fd, ArgKind::Path, ArgKind::Ptr, ArgKind::Scalar], ret: Ret::Plain }),
        SYS_SHM_OPEN => Some(Shape { args: vec![ArgKind::Path, ArgKind::Scalar, ArgKind::Scalar], ret: Ret::Fd }),
        SYS_SYSCTL => Some(Shape { args: vec![ArgKind::Ptr, ArgKind::Scalar, ArgKind::Dest(DestLen::DerefU64(3)), ArgKind::Ptr, ArgKind::Ptr, ArgKind::Scalar], ret: Ret::Plain }),
        SYS_SYSCTLBYNAME => Some(Shape { args: vec![ArgKind::Ptr, ArgKind::Scalar, ArgKind::Dest(DestLen::DerefU64(3)), ArgKind::Ptr, ArgKind::Ptr, ArgKind::Scalar], ret: Ret::Plain }),
        SYS_GETFSSTAT64 => Some(Shape { args: vec![ArgKind::Dest(DestLen::Reg(1)), ArgKind::Scalar, ArgKind::Scalar], ret: Ret::Plain }),
        SYS_EXIT => Some(Shape { args: vec![ArgKind::Scalar], ret: Ret::Plain }),
        SYS_GETPID | 24 | 25 | 39 | 43 | 47 | 81 | 327 | SYS_THREAD_SELFID | 36 => Some(Shape { args: vec![], ret: Ret::Plain }),
        286 => Some(Shape { args: vec![ArgKind::Ptr, ArgKind::Ptr], ret: Ret::Plain }),
        60 => Some(Shape { args: vec![ArgKind::Scalar], ret: Ret::Plain }),
        38 => Some(Shape { args: vec![ArgKind::Scalar], ret: Ret::Plain }),
        49 => Some(Shape { args: vec![ArgKind::Ptr, ArgKind::Scalar], ret: Ret::Plain }),
        116 => Some(Shape { args: vec![ArgKind::Ptr, ArgKind::Ptr, ArgKind::Ptr], ret: Ret::Plain }),
        117 => Some(Shape { args: vec![ArgKind::Scalar, ArgKind::Ptr], ret: Ret::Plain }),
        SYS_GETRLIMIT | 195 => Some(Shape { args: vec![ArgKind::Scalar, ArgKind::Ptr], ret: Ret::Plain }),
        500 => Some(Shape { args: vec![ArgKind::Ptr, ArgKind::Scalar], ret: Ret::Plain }),
        SYS_KILL => Some(Shape { args: vec![ArgKind::Scalar, ArgKind::Scalar, ArgKind::Scalar], ret: Ret::Plain }),
        SYS_SIGACTION => Some(Shape { args: vec![ArgKind::Scalar, ArgKind::Ptr, ArgKind::Ptr], ret: Ret::Plain }),
        SYS_SIGPROCMASK => Some(Shape { args: vec![ArgKind::Scalar, ArgKind::Ptr, ArgKind::Ptr], ret: Ret::Plain }),
        SYS_SIGPENDING => Some(Shape { args: vec![ArgKind::Ptr], ret: Ret::Plain }),
        SYS_SIGALTSTACK => Some(Shape { args: vec![ArgKind::Ptr, ArgKind::Ptr], ret: Ret::Plain }),
        SYS_SIGRETURN => Some(Shape { args: vec![ArgKind::NestedSource, ArgKind::Scalar, ArgKind::Scalar], ret: Ret::Plain }),
        SYS_PTHREAD_KILL => Some(Shape { args: vec![ArgKind::Scalar, ArgKind::Scalar], ret: Ret::Plain }),
        SYS_PTHREAD_SIGMASK => Some(Shape { args: vec![ArgKind::Scalar, ArgKind::Ptr, ArgKind::Ptr], ret: Ret::Plain }),
        331 => Some(Shape { args: vec![ArgKind::Scalar], ret: Ret::Plain }),
        SYS_BSDTHREAD_CREATE => Some(Shape { args: vec![ArgKind::Scalar, ArgKind::Scalar, ArgKind::Scalar, ArgKind::Ptr, ArgKind::Scalar], ret: Ret::Plain }),
        SYS_BSDTHREAD_TERMINATE => Some(Shape { args: vec![ArgKind::Scalar, ArgKind::Scalar, ArgKind::Scalar, ArgKind::Scalar], ret: Ret::Plain }),
        SYS_BSDTHREAD_REGISTER => Some(Shape { args: vec![ArgKind::Scalar, ArgKind::Scalar, ArgKind::Scalar, ArgKind::Ptr, ArgKind::Scalar, ArgKind::Scalar, ArgKind::Scalar], ret: Ret::Plain }),
        SYS_WORKQ_OPEN => Some(Shape { args: vec![], ret: Ret::Plain }),
        SYS_WORKQ_KERNRETURN => Some(Shape { args: vec![ArgKind::Scalar, ArgKind::Ptr, ArgKind::Scalar, ArgKind::Scalar], ret: Ret::Plain }),
        478 => Some(Shape { args: vec![ArgKind::Scalar, ArgKind::Scalar, ArgKind::Scalar, ArgKind::Ptr], ret: Ret::Plain }),
        SYS_ULOCK_WAIT => Some(Shape { args: vec![ArgKind::Scalar, ArgKind::Ptr, ArgKind::Scalar, ArgKind::Scalar], ret: Ret::Plain }),
        SYS_ULOCK_WAKE => Some(Shape { args: vec![ArgKind::Scalar, ArgKind::Scalar, ArgKind::Scalar], ret: Ret::Plain }),
        33 => Some(Shape { args: vec![ArgKind::Path, ArgKind::Scalar], ret: Ret::Plain }),
        191 => Some(Shape { args: vec![ArgKind::Path, ArgKind::Scalar], ret: Ret::Plain }),
        58 => Some(Shape { args: vec![ArgKind::Path, ArgKind::Ptr, ArgKind::Scalar], ret: Ret::Plain }),
        338 | 340 => Some(Shape { args: vec![ArgKind::Path, ArgKind::Ptr], ret: Ret::Plain }),
        220 => Some(Shape { args: vec![ArgKind::Path, ArgKind::Ptr, ArgKind::Ptr, ArgKind::Scalar, ArgKind::Scalar], ret: Ret::Plain }),
        427 => Some(Shape { args: vec![ArgKind::Ptr, ArgKind::Scalar, ArgKind::Ptr, ArgKind::Scalar], ret: Ret::Plain }),
        59 => Some(Shape { args: vec![ArgKind::Path, ArgKind::NestedSource, ArgKind::NestedSource], ret: Ret::Plain }),
        13 => Some(Shape { args: vec![ArgKind::Fd], ret: Ret::Plain }),
        42 => Some(Shape { args: vec![], ret: Ret::FdPair }),
        362 => Some(Shape { args: vec![], ret: Ret::Fd }),
        SYS_MUNMAP => Some(Shape { args: vec![ArgKind::Scalar, ArgKind::Scalar], ret: Ret::Plain }),
        SYS_MPROTECT => Some(Shape { args: vec![ArgKind::Scalar, ArgKind::Scalar, ArgKind::Scalar], ret: Ret::Plain }),
        75 => Some(Shape { args: vec![ArgKind::Scalar, ArgKind::Scalar, ArgKind::Scalar], ret: Ret::Plain }),
        SYS_SHARED_REGION_CHECK_NP => Some(Shape { args: vec![ArgKind::Ptr], ret: Ret::Plain }),
        SYS_MAP_WITH_LINKING_NP => Some(Shape { args: vec![ArgKind::Ptr, ArgKind::Scalar, ArgKind::Source, ArgKind::Scalar], ret: Ret::Plain }),
        169 => Some(Shape { args: vec![ArgKind::Scalar, ArgKind::Scalar, ArgKind::Ptr, ArgKind::Scalar], ret: Ret::Plain }),
        170 => Some(Shape { args: vec![ArgKind::Scalar, ArgKind::Scalar, ArgKind::Ptr, ArgKind::Scalar, ArgKind::Ptr], ret: Ret::Plain }),
        483 => Some(Shape { args: vec![ArgKind::Scalar, ArgKind::Ptr, ArgKind::Scalar], ret: Ret::Plain }),
        381 => Some(Shape { args: vec![ArgKind::Path, ArgKind::Scalar, ArgKind::Ptr], ret: Ret::Plain }),
        0x8000_0000 => Some(Shape { args: vec![ArgKind::Path, ArgKind::Scalar, ArgKind::Ptr], ret: Ret::Plain }),
        336 => Some(Shape { args: vec![ArgKind::Scalar, ArgKind::Scalar, ArgKind::Scalar, ArgKind::Scalar, ArgKind::Ptr, ArgKind::Scalar], ret: Ret::Plain }),
        539 => Some(Shape { args: vec![ArgKind::Scalar, ArgKind::Scalar, ArgKind::Ptr], ret: Ret::Plain }),
        244 => Some(Shape { args: vec![ArgKind::Ptr, ArgKind::Path, ArgKind::NestedSource, ArgKind::NestedSource, ArgKind::NestedSource], ret: Ret::Plain }),
        MACH_VM_ALLOCATE_TRAP => Some(Shape { args: vec![ArgKind::Scalar, ArgKind::Ptr, ArgKind::Scalar, ArgKind::Scalar], ret: Ret::Plain }),
        MACH_VM_DEALLOCATE_TRAP => Some(Shape { args: vec![ArgKind::Scalar, ArgKind::Scalar, ArgKind::Scalar], ret: Ret::Plain }),
        MACH_VM_PROTECT_TRAP => Some(Shape { args: vec![ArgKind::Scalar, ArgKind::Scalar, ArgKind::Scalar, ArgKind::Scalar, ArgKind::Scalar], ret: Ret::Plain }),
        MACH_VM_MAP_TRAP => Some(Shape { args: vec![ArgKind::Scalar, ArgKind::Ptr, ArgKind::Scalar, ArgKind::Scalar, ArgKind::Scalar, ArgKind::Scalar], ret: Ret::Plain }),
        MACH_PORT_DEALLOCATE_TRAP => Some(Shape { args: vec![ArgKind::Scalar, ArgKind::Scalar], ret: Ret::Plain }),
        MACH_PORT_MOD_REFS_TRAP => Some(Shape { args: vec![ArgKind::Scalar, ArgKind::Scalar, ArgKind::Scalar, ArgKind::Scalar], ret: Ret::Plain }),
        MACH_PORT_CONSTRUCT_TRAP => Some(Shape { args: vec![ArgKind::Scalar, ArgKind::Ptr, ArgKind::Scalar, ArgKind::Ptr], ret: Ret::Plain }),
        MACH_REPLY_PORT_TRAP | MACH_THREAD_SELF_TRAP | MACH_TASK_SELF_TRAP | MACH_HOST_SELF_TRAP | MACH_THREAD_GET_SPECIAL_REPLY_PORT_TRAP => Some(Shape { args: vec![], ret: Ret::Plain }),
        MACH_SEMAPHORE_WAIT | MACH_SEMAPHORE_SIGNAL => Some(Shape { args: vec![ArgKind::Scalar], ret: Ret::Plain }),
        MACH_HOST_CREATE_MACH_VOUCHER_TRAP => Some(Shape { args: vec![ArgKind::Scalar, ArgKind::Ptr, ArgKind::Scalar, ArgKind::Ptr], ret: Ret::Plain }),
        MACH_TIMEBASE_INFO_TRAP => Some(Shape { args: vec![ArgKind::Ptr], ret: Ret::Plain }),
        _ => None,
    }
}

/// The shape of a syscall about to be forwarded. Only an enumerated syscall may be forwarded.
pub fn forwarded_shape(num: u64) -> (s: Shape)
    requires
        syscall_row(num) is Some,
    ensures
        syscall_row(num) == Some(s.row()),
{
    match arg_kinds(num) {
        Some(s) => s,
        None => {
            proof { assert(false); }
            Shape { args: Vec::new(), ret: Ret::Plain }
        },
    }
}

/// Which operand indices of `num` hold a guest file descriptor; empty for an unenumerated one.
pub fn fd_operands(num: u64) -> (r: Vec<usize>)
    ensures
        r@ == match syscall_row(num) {
            Some((a, _)) => fd_positions(a),
            None => Seq::empty(),
        },
{
    match arg_kinds(num) {
        Some(s) => s.fd_operands(),
        None => Vec::new(),
    }
}

/// Does `num`'s return value need binding to a fresh guest fd slot?
pub fn allocates_fd(num: u64) -> (b: bool)
    ensures
        b == match syscall_row(num) {
            Some((_, ret)) => ret == Ret::Fd,
            None => false,
        },
{
    match arg_kinds(num) {
        Some(s) => s.allocates_fd(),
        None => false,
    }
}

/// The destination buffer `num` fills, as `(argument index, where its length lives)`.
pub fn dest_buffer(num: u64) -> (r: Option<(usize, DestLen)>)
    ensures
        r == match syscall_row(num) {
            Some((a, _)) => first_dest(a),
            None => None,
        },
{
    match arg_kinds(num) {
        Some(s) => s.dest_buffer(),
        None => None,
    }
}

/// Refused-by-value family: a destination behind a nested guest pointer.
pub fn writes_via_nested_pointer(num: u64) -> (b: bool)
    ensures
        b == match syscall_row(num) {
            Some((a, _)) => has_nested_dest(a),
            None => false,
        },
{
    match arg_kinds(num) {
        Some(s) => s.writes_via_nested_pointer(),
        None => false,
    }
}

/// Does the host kernel read guest memory through this call, in an amount no window bounds?
pub fn reads_guest_buffer(num: u64) -> (b: bool)
    ensures
        b == match syscall_row(num) {
            Some((a, _)) => has_reader(a),
            None => false,
        },
{
    match arg_kinds(num) {
        Some(s) => s.reads_guest_buffer(),
        None => false,
    }
}

/// The exception-class field, `ESR_EL2[31:26]`.
pub open spec fn esr_class(esr: u64) -> u8 {
    ((esr >> 26) & 0x3f) as u8
}

/// The exception class a six-bit EC value names.
pub open spec fn ec_of_class(c: u8) -> Ec {
    if c == 0x15 {
        Ec::Svc
    } else if c == 0x16 {
        Ec::Hvc
    } else if c == 0x18 {
        Ec::SysReg
    } else if c == 0x32 || c == 0x33 {
        Ec::SoftStep
    } else if c == 0x30 || c == 0x31 {
        Ec::Breakpoint
    } else if c == 0x34 || c == 0x35 {
        Ec::Watchpoint
    } else if c == 0x24 || c == 0x25 {
        Ec::DataAbort
    } else if c == 0x20 || c == 0x21 {
        Ec::InstrAbort
    } else {
        Ec::Other(c)
    }
}

/// Decode the exception class of an `ESR_EL2` value.
pub fn ec_of(esr_el2: u64) -> (r: Ec)
    ensures
        r == ec_of_class(esr_class(esr_el2)),
{
    let c = ((esr_el2 >> 26) & 0x3f) as u8;
    match c {
        0x15 => Ec::Svc,
        0x16 => Ec::Hvc,
        0x18 => Ec::SysReg,
        0x32 | 0x33 => Ec::SoftStep,
        0x30 | 0x31 => Ec::Breakpoint,
        0x34 | 0x35 => Ec::Watchpoint,
        0x24 | 0x25 => Ec::DataAbort,
        0x20 | 0x21 => Ec::InstrAbort,
        other => Ec::Other(other),
    }
}

/// Is `insn` one of the AUT* instructions that authenticate into a destination register: the
/// register-modifier forms `AUTIA/AUTIB/AUTDA/AUTDB Xd, Xn` and the zero-modifier forms
/// `AUTIZA/AUTIZB/AUTDZA/AUTDZB Xd`? Bits [31:10] identify the operation.
pub open spec fn is_aut_with_rd(insn: u32) -> bool {
    let op = insn & 0xFFFF_FC00;
    op == 0xDAC1_1000 || op == 0xDAC1_1400 || op == 0xDAC1_1800 || op == 0xDAC1_1C00
        || op == 0xDAC1_3000 || op == 0xDAC1_3400 || op == 0xDAC1_3800 || op == 0xDAC1_3C00
}

/// The destination register (Rd) of an AUT*-with-destination instruction, or `None` for any
/// other instruction (combined authenticate-and-branch/load forms included).
pub fn decode_aut_rd(insn: u32) -> (r: Option<u32>)
    ensures
        r == (if is_aut_with_rd(insn) { Some(insn & 0x1F) } else { None::<u32> }),
        r matches Some(rd) ==> rd < 32,
{
    let op = insn & 0xFFFF_FC00;
    assert(insn & 0x1F < 32) by (bit_vector);
    if op == 0xDAC1_1000 || op == 0xDAC1_1400 || op == 0xDAC1_1800 || op == 0xDAC1_1C00
        || op == 0xDAC1_3000 || op == 0xDAC1_3400 || op == 0xDAC1_3800 || op == 0xDAC1_3C00 {
        Some(insn & 0x1F)
    } else {
        None
    }
}

/// A decoded AArch64 load- or store-exclusive (`LDXR`/`LDAXR`/`LDXP`/`LDAXP` and their store
/// counterparts). `size` is the element size in bytes; register 31 in a data or status position is
/// XZR/WZR and in `rn` is SP.
#[derive(Debug, Clone, Copy, PartialEq, Eq, Structural)]
pub enum ExclInsn {
    Load { size: u8, pair: bool, rt: u32, rt2: u32, rn: u32 },
    Store { size: u8, pair: bool, rs: u32, rt: u32, rt2: u32, rn: u32 },
}

/// The A64 "load/store exclusive" class: bits [29:24] are `001000` and `o2` (bit 23) is clear;
/// pairs (`o1`, bit 21) exist only for 32- and 64-bit elements (bit 31 set).
pub open spec fn is_excl_encoding(w: u32) -> bool {
    (w >> 24) & 0x3f == 0x08 && (w >> 23) & 1 == 0 && ((w >> 21) & 1 == 0 || (w >> 31) & 1 == 1)
}

/// The element size in bytes of an exclusive encoding: `1 << size` for a single register, and
/// 4 or 8 (bit 30) for a pair.
pub open spec fn excl_size(w: u32) -> u8 {
    if (w >> 21) & 1 == 1 {
        if (w >> 30) & 1 == 1 { 8 } else { 4 }
    } else {
        let sz = (w >> 30) & 3;
        if sz == 0 { 1 } else if sz == 1 { 2 } else if sz == 2 { 4 } else { 8 }
    }
}

/// What an exclusive encoding decodes to (`L`, bit 22, selects a load).
pub open spec fn excl_of(w: u32) -> Option<ExclInsn> {
    if !is_excl_encoding(w) {
        None
    } else {
        let pair = (w >> 21) & 1 == 1;
        let rt = w & 0x1f;
        let rn = (w >> 5) & 0x1f;
        let rt2 = (w >> 10) & 0x1f;
        if (w >> 22) & 1 == 1 {
            Some(ExclInsn::Load { size: excl_size(w), pair, rt, rt2, rn })
        } else {
            Some(ExclInsn::Store { size: excl_size(w), pair, rs: (w >> 16) & 0x1f, rt, rt2, rn })
        }
    }
}

/// Decode a load- or store-exclusive instruction word, or `None` for any other instruction.
pub fn decode_excl(w: u32) -> (r: Option<ExclInsn>)
    ensures
        r == excl_of(w),
        r matches Some(ExclInsn::Load { size, rt, rt2, rn, .. }) ==> rt < 32 && rt2 < 32 && rn < 32
            && (size == 1 || size == 2 || size == 4 || size == 8),
        r matches Some(ExclInsn::Store { size, rs, rt, rt2, rn, .. }) ==> rs < 32 && rt < 32 && rt2
            < 32 && rn < 32 && (size == 1 || size == 2 || size == 4 || size == 8),
{
    if !((w >> 24) & 0x3f == 0x08 && (w >> 23) & 1 == 0 && ((w >> 21) & 1 == 0 || (w >> 31) & 1
        == 1)) {
        return None;
    }
    let pair = (w >> 21) & 1 == 1;
    let size: u8 = if pair {
        if (w >> 30) & 1 == 1 { 8 } else { 4 }
    } else {
        let sz = (w >> 30) & 3;
        if sz == 0 { 1 } else if sz == 1 { 2 } else if sz == 2 { 4 } else { 8 }
    };
    let rt = w & 0x1f;
    let rn = (w >> 5) & 0x1f;
    let rt2 = (w >> 10) & 0x1f;
    let rs = (w >> 16) & 0x1f;
    assert(w & 0x1f < 32 && (w >> 5) & 0x1f < 32 && (w >> 10) & 0x1f < 32 && (w >> 16) & 0x1f < 32)
        by (bit_vector);
    if (w >> 22) & 1 == 1 {
        Some(ExclInsn::Load { size, pair, rt, rt2, rn })
    } else {
        Some(ExclInsn::Store { size, pair, rs, rt, rt2, rn })
    }
}

/// An instruction past which execution cannot fall through to the next one with the exclusive
/// monitor intact: an unconditional branch (`B`, `BL`, `BR`, `BLR`, `RET`, `ERET`, ...), an
/// exception-generating instruction (`SVC`, `HVC`, `SMC`, `BRK`, ...), or `CLREX`.
pub open spec fn is_barrier_word(w: u32) -> bool {
    w & 0x7C00_0000 == 0x1400_0000 || w & 0xFE00_0000 == 0xD600_0000 || w & 0xFF00_0000
        == 0xD400_0000 || w & 0xFFFF_F0FF == 0xD503_305F
}

/// Does `w` end fall-through from the instructions before it, for the exclusive-monitor scan?
pub fn is_fallthrough_barrier(w: u32) -> (b: bool)
    ensures
        b == is_barrier_word(w),
{
    w & 0x7C00_0000 == 0x1400_0000 || w & 0xFE00_0000 == 0xD600_0000 || w & 0xFF00_0000
        == 0xD400_0000 || w & 0xFFFF_F0FF == 0xD503_305F
}

/// The seven mach semaphore traps, selectors `-39..=-33`.
pub open spec fn is_semaphore_selector(num: u64) -> bool {
    -39 <= (#[verifier::truncate] (num as i64)) <= -33
}

/// Is `num` any of the seven mach semaphore traps?
pub fn is_mach_semaphore_trap(num: u64) -> (b: bool)
    ensures
        b == is_semaphore_selector(num),
        b == (0xffff_ffff_ffff_ffd9 <= num && num <= 0xffff_ffff_ffff_ffdf),
{
    assert((0xffff_ffff_ffff_ffd9 <= num && num <= 0xffff_ffff_ffff_ffdf) == (-39 <= (
    #[verifier::truncate] (num as i64)) <= -33)) by (bit_vector);
    0xffff_ffff_ffff_ffd9 <= num && num <= 0xffff_ffff_ffff_ffdf
}

/// The kernel's default disposition for a signal nobody has installed a handler for.
#[derive(Debug, Clone, Copy, PartialEq, Eq, Structural)]
pub enum DefaultAction {
    Terminate,
    Ignore,
}

/// The kernel's default disposition for `sig`: `SIGURG` (16), `SIGCHLD` (20) and `SIGWINCH` (28)
/// are ignored, everything else terminates.
pub fn default_action(sig: u64) -> (r: DefaultAction)
    ensures
        r == (if sig == 16 || sig == 20 || sig == 28 {
            DefaultAction::Ignore
        } else {
            DefaultAction::Terminate
        }),
{
    match sig {
        16 | 20 | 28 => DefaultAction::Ignore,
        _ => DefaultAction::Terminate,
    }
}

/// The signal syscalls that are serviced against the guest's tables and never forwarded.
pub open spec fn is_signal_num(num: u64) -> bool {
    num == SYS_KILL || num == SYS_SIGACTION || num == SYS_SIGPROCMASK || num == SYS_SIGPENDING
        || num == SYS_SIGALTSTACK || num == SYS_SIGSUSPEND || num == SYS_SIGRETURN || num
        == SYS_PTHREAD_KILL || num == SYS_PTHREAD_SIGMASK || num == SYS_SIGWAIT || num
        == SYS_TERMINATE_WITH_PAYLOAD || num == SYS_ABORT_WITH_PAYLOAD
}

/// Is `num` one of the signal syscalls that must never be issued in the recorder's own process?
/// `getpid` is deliberately not one of them: it keeps forwarding.
pub fn is_signal_syscall(num: u64) -> (b: bool)
    ensures
        b == is_signal_num(num),
{
    match num {
        SYS_KILL | SYS_SIGACTION | SYS_SIGPROCMASK | SYS_SIGPENDING | SYS_SIGALTSTACK
        | SYS_SIGSUSPEND | SYS_SIGRETURN | SYS_PTHREAD_KILL | SYS_PTHREAD_SIGMASK | SYS_SIGWAIT
        | SYS_TERMINATE_WITH_PAYLOAD | SYS_ABORT_WITH_PAYLOAD => true,
        _ => false,
    }
}

/// The exception classes a guest fault can be named by: instruction and data aborts (0x20,
/// 0x24), SP alignment (0x26), unknown reason and illegal execution state (0x00, 0x0e), and `BRK`
/// (0x3c).
pub open spec fn fault_class_modelled(esr: u64) -> bool {
    let ec = (esr >> 26) & 0x3f;
    ec == 0x20 || ec == 0x24 || ec == 0x26 || ec == 0x00 || ec == 0x0e || ec == 0x3c
}

/// The `(signal, si_code)` a Darwin kernel delivers for a fault with this syndrome. For an abort
/// the fault status code (`ISS[5:0]`) decides: translation faults are `SEGV_MAPERR`, access-flag
/// faults `SEGV_ACCERR`, permission faults `SIGBUS`/`BUS_ADRALN` (Darwin maps a protection failure
/// to `SIGBUS`), synchronous external aborts `BUS_OBJERR`, alignment faults `BUS_ADRALN`, and any
/// other status `SEGV_ACCERR`.
pub open spec fn fault_signal(esr: u64) -> (u64, u64) {
    let ec = (esr >> 26) & 0x3f;
    let fsc = esr & 0x3f;
    if ec == 0x20 || ec == 0x24 {
        if 0x04 <= fsc <= 0x07 {
            (SIGSEGV, SEGV_MAPERR)
        } else if 0x08 <= fsc <= 0x0b {
            (SIGSEGV, SEGV_ACCERR)
        } else if 0x0c <= fsc <= 0x0f {
            (SIGBUS, BUS_ADRALN)
        } else if 0x10 <= fsc <= 0x13 {
            (SIGBUS, BUS_OBJERR)
        } else if fsc == 0x21 {
            (SIGBUS, BUS_ADRALN)
        } else {
            (SIGSEGV, SEGV_ACCERR)
        }
    } else if ec == 0x26 {
        (SIGBUS, BUS_ADRALN)
    } else if ec == 0x00 || ec == 0x0e {
        (SIGILL, ILL_ILLOPC)
    } else {
        (SIGTRAP, TRAP_BRKPT)
    }
}

/// Classify a guest fault into the `(signal, si_code)` a real kernel would deliver. Only the
/// modelled exception classes may be classified: any other class cannot be named as a signal.
pub fn signal_of_esr(esr: u64) -> (r: (u64, u64))
    requires
        fault_class_modelled(esr),
    ensures
        r == fault_signal(esr),
{
    let ec = (esr >> 26) & 0x3f;
    if ec == 0x20 || ec == 0x24 {
        let fsc = esr & 0x3f;
        if 0x04 <= fsc && fsc <= 0x07 {
            (SIGSEGV, SEGV_MAPERR)
        } else if 0x08 <= fsc && fsc <= 0x0b {
            (SIGSEGV, SEGV_ACCERR)
        } else if 0x0c <= fsc && fsc <= 0x0f {
            (SIGBUS, BUS_ADRALN)
        } else if 0x10 <= fsc && fsc <= 0x13 {
            (SIGBUS, BUS_OBJERR)
        } else if fsc == 0x21 {
            (SIGBUS, BUS_ADRALN)
        } else {
            (SIGSEGV, SEGV_ACCERR)
        }
    } else if ec == 0x26 {
        (SIGBUS, BUS_ADRALN)
    } else if ec == 0x00 || ec == 0x0e {
        (SIGILL, ILL_ILLOPC)
    } else {
        (SIGTRAP, TRAP_BRKPT)
    }
}

/// Every `_nocancel` spelling shares its plain form's row, so no table view can list one
/// spelling and miss the other.
pub proof fn lemma_nocancel_rows_match_plain_rows()
    ensures
        syscall_row(SYS_READ_NOCANCEL) == syscall_row(SYS_READ),
        syscall_row(SYS_WRITE_NOCANCEL) == syscall_row(SYS_WRITE),
        syscall_row(SYS_OPEN_NOCANCEL) == syscall_row(SYS_OPEN),
        syscall_row(SYS_CLOSE_NOCANCEL) == syscall_row(SYS_CLOSE),
        syscall_row(SYS_FCNTL_NOCANCEL) == syscall_row(SYS_FCNTL),
        syscall_row(SYS_PREAD_NOCANCEL) == syscall_row(SYS_PREAD),
        syscall_row(SYS_RECVFROM_NOCANCEL) == syscall_row(SYS_RECVFROM),
        syscall_row(413) == syscall_row(SYS_SENDTO),
        syscall_row(415) == syscall_row(154),
        syscall_row(412) == syscall_row(121),
        syscall_row(411) == syscall_row(120),
        syscall_row(401) == syscall_row(27),
        syscall_row(402) == syscall_row(28),
        syscall_row(405) == syscall_row(65),
{
}

/// No row has more than eight arguments (x0..x7), and none has more than one `Dest` argument:
/// the forwarded-count clamp and the diff window consult the single destination `dest_buffer`
/// returns, so a second one would be picked silently.
pub proof fn lemma_rows_fit_the_register_file(num: u64)
    ensures
        syscall_row(num) matches Some((a, _)) ==> {
            &&& a.len() <= 8
            &&& forall|i: int, j: int|
                0 <= i < j < a.len() ==> !(a[i] is Dest && a[j] is Dest)
        },
{
}


/// The descriptor operands of a row are exactly its `Fd` arguments, in ascending order and each
/// once.
pub proof fn lemma_fd_positions_are_exactly_the_fd_arguments(s: Seq<ArgKind>)
    requires
        s.len() <= usize::MAX,
    ensures
        forall|i: int| 0 <= i < fd_positions(s).len() ==> {
            &&& (#[trigger] fd_positions(s)[i]) < s.len()
            &&& s[fd_positions(s)[i] as int] == ArgKind::Fd
        },
        forall|i: int, j: int| 0 <= i < j < fd_positions(s).len() ==> fd_positions(s)[i] < fd_positions(s)[j],
        forall|k: int| 0 <= k < s.len() && s[k] == ArgKind::Fd ==> fd_positions(s).contains(k as usize),
    decreases s.len(),
{
    if s.len() > 0 {
        let t = s.drop_last();
        lemma_fd_positions_are_exactly_the_fd_arguments(t);
        let p = fd_positions(t);
        assert forall|i: int| 0 <= i < p.len() implies p[i] < t.len() && #[trigger] s[p[i] as int] == ArgKind::Fd by {
            assert(s[p[i] as int] == t[p[i] as int]);
        }
        assert forall|k: int| 0 <= k < s.len() && s[k] == ArgKind::Fd implies fd_positions(s).contains(k as usize) by {
            if k < t.len() {
                assert(t[k] == s[k]);
                let w = choose|w: int| 0 <= w < p.len() && p[w] == k as usize;
                if s.last() == ArgKind::Fd {
                    assert(fd_positions(s)[w] == k as usize);
                } else {
                    assert(fd_positions(s)[w] == k as usize);
                }
            } else {
                assert(fd_positions(s) == p.push((s.len() - 1) as usize));
                assert(fd_positions(s)[p.len() as int] == k as usize);
            }
        }
    }
}

/// The destination a row names is its first `Dest` argument, and a row names none exactly when
/// it has no `Dest` argument.
pub proof fn lemma_first_dest_is_the_first_destination(s: Seq<ArgKind>)
    requires
        s.len() <= usize::MAX,
    ensures
        first_dest(s) matches Some((i, l)) ==> {
            &&& i < s.len()
            &&& s[i as int] == ArgKind::Dest(l)
            &&& forall|j: int| 0 <= j < i ==> !(#[trigger] s[j] is Dest)
        },
        first_dest(s) is None <==> forall|j: int| 0 <= j < s.len() ==> !(#[trigger] s[j] is Dest),
    decreases s.len(),
{
    if s.len() > 0 {
        let t = s.drop_last();
        lemma_first_dest_is_the_first_destination(t);
        assert forall|j: int| 0 <= j < t.len() implies #[trigger] t[j] == s[j] by {}
        let n = s.len() - 1;
        match first_dest(t) {
            Some((i, l)) => {
                assert(first_dest(s) == Some((i, l)));
                assert(s[i as int] == ArgKind::Dest(l));
                assert forall|j: int| 0 <= j < i implies !(#[trigger] s[j] is Dest) by {
                    assert(t[j] == s[j]);
                }
                assert(!(forall|j: int| 0 <= j < s.len() ==> !(#[trigger] s[j] is Dest)));
            },
            None => {
                match s.last() {
                    ArgKind::Dest(l) => {
                        assert(first_dest(s) == Some((n as usize, l)));
                        assert(s[n] == ArgKind::Dest(l));
                        assert forall|j: int| 0 <= j < n implies !(#[trigger] s[j] is Dest) by {
                            assert(t[j] == s[j]);
                        }
                        assert(!(forall|j: int| 0 <= j < s.len() ==> !(#[trigger] s[j] is Dest)));
                    },
                    _ => {
                        assert(first_dest(s) is None);
                        assert forall|j: int| 0 <= j < s.len() implies !(#[trigger] s[j] is Dest) by {
                            if j < n {
                                assert(t[j] == s[j]);
                            }
                        }
                    },
                }
            },
        }
    }
}

/// The syscalls whose prototype takes a file descriptor (or a socket, or a directory descriptor)
/// as its first parameter, by number: `read` 3, `write` 4, `close` 6, `fchdir` 13, `recvmsg` 27,
/// `sendmsg` 28, `recvfrom` 29, `dup` 41, `ioctl` 54, `dup2` 90, `fcntl` 92, `connect` 98,
/// `readv` 120, `writev` 121, `sendto` 133, `pread` 153, `pwrite` 154, `fstat` 189, `lseek` 199,
/// `fgetattrlist` 228, `sendfile` 337, `fstat64` 339, `getdirentries64` 344, `fstatfs64` 346,
/// their `_nocancel` spellings 396..=415, `openat` 463, `fstatat64` 470, `recvmsg_x` 480,
/// `sendmsg_x` 481, `preadv` 540 and `pwritev` 541.
pub open spec fn fd_first_prototype(num: u64) -> bool {
    num == 3 || num == 4 || num == 6 || num == 13 || num == 27 || num == 28 || num == 29 || num == 41
        || num == 54 || num == 90 || num == 92 || num == 98 || num == 120 || num == 121 || num == 133
        || num == 153 || num == 154 || num == 189 || num == 199 || num == 228 || num == 337 || num == 339
        || num == 344 || num == 346 || num == 396 || num == 397 || num == 399 || num == 401 || num == 402
        || num == 403 || num == 406 || num == 411 || num == 412 || num == 413 || num == 414 || num == 415
        || num == 463 || num == 470 || num == 480 || num == 481 || num == 540 || num == 541
}

/// Every syscall whose first parameter is a descriptor has a row whose first argument is a guest
/// descriptor, so argument 0 is among its descriptor operands: it is checked for `EBADF` and
/// translated, never forwarded as a plain number. Descriptors in other positions are too: the
/// second of `dup2` and `sendfile`, and the fifth of `mmap`.
pub proof fn lemma_descriptor_parameters_are_fd_operands(num: u64)
    ensures
        fd_first_prototype(num) ==> (syscall_row(num) matches Some((a, _)) && a.len() >= 1 && a[0] == ArgKind::Fd
            && fd_positions(a).contains(0usize)),
        num == SYS_DUP2 || num == 337 ==> (syscall_row(num) matches Some((a, _)) && a.len() >= 2 && a[1] == ArgKind::Fd
            && fd_positions(a).contains(1usize)),
        num == SYS_MMAP ==> (syscall_row(num) matches Some((a, _)) && a.len() >= 5 && a[4] == ArgKind::Fd
            && fd_positions(a).contains(4usize)),
{
    lemma_rows_fit_the_register_file(num);
    if let Some((a, _)) = syscall_row(num) {
        lemma_fd_positions_are_exactly_the_fd_arguments(a);
    }
}

} // verus!
