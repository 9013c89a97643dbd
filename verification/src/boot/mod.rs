//! The boot loader's logic.

pub mod adt;
pub mod device_tree;
pub mod device_tree_laws;
pub mod handover_laws;
pub mod image;
pub mod image_laws;
pub mod kernel_image;
pub mod plan;
pub mod plan_laws;
