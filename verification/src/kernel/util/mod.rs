//! Small helpers.

pub mod bitfield;
pub mod error;
