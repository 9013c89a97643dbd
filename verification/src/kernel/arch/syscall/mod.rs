//! System calls and traps from user code.

pub mod call_laws;
pub mod dispatch;
pub mod file_laws;
pub mod files;
pub mod info;
pub mod mach;
pub mod memory;
pub mod output;
