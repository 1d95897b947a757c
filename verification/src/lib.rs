//! Verified core of a deterministic record/replay box for AArch64 guests.
pub mod arch;
pub mod aspace;
pub mod cache;
pub mod debug;
pub mod deliver;
pub mod excl;
pub mod fdtable;
pub mod hv;
pub mod layout;
pub mod le;
pub mod loader;
pub mod pac;
pub mod pagetable;
pub mod pager;
pub mod sig;
pub mod state;
pub mod syscall;
pub mod thread;
pub mod trace;
pub mod trap;
