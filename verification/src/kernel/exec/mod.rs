//! Running user programs.

pub mod dyld;
pub mod dyld_laws;
pub mod loader;
pub mod loader_laws;
pub mod success_laws;
