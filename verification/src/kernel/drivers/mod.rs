//! Device drivers.

pub mod blk;
pub mod start_laws;
pub mod transport;
