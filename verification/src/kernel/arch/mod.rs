//! What depends on the AArch64 architecture.

pub mod context;
pub mod entry_laws;
pub mod exception;
pub mod gic;
pub mod machine;
pub mod mmu;
pub mod report_laws;
pub mod smp;
pub mod syscall;
pub mod translate;
pub mod uart;
pub mod uart_laws;
