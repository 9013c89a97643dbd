//! The kernel's logic.

pub mod arch;
pub mod boot_args;
pub mod device_tree;
pub mod device_tree_laws;
pub mod drivers;
pub mod exec;
pub mod fs;
pub mod heap;
pub mod heap_laws;
pub mod ipc;
pub mod mach;
pub mod mm;
pub mod sched;
pub mod start;
pub mod start_laws;
pub mod syscall;
pub mod util;
