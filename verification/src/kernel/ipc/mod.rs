//! Communication by messages.

pub mod mach_msg;
pub mod mach_port;
pub mod rights;
