pub mod align;
pub mod bits;
pub mod boot;
pub mod bytes;
pub mod kernel;
pub mod loader;
pub mod mem;
pub mod text;
pub mod xtask;
pub mod zs;
