//! System calls, apart from any architecture.

pub mod context;
pub mod dispatch;
pub mod mach;
pub mod mach_laws;
pub mod platform;
pub mod route_laws;
