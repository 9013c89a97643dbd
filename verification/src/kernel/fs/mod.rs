//! File systems.

pub mod query_laws;
pub mod xnrsfs;
pub mod xnrsfs_laws;
