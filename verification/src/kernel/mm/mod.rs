//! Memory management.

pub mod area_laws;
pub mod frame;
pub mod mapping;
pub mod vma;
