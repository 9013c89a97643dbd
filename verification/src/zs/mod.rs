//! A compressed object store: objects are packed, compressed where that helps,
//! into the slots of 4 KiB pages.

pub mod class;
pub mod lz4;
pub mod page;
pub mod store;
