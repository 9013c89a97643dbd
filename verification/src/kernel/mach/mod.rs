//! Mach objects.

pub mod task;
