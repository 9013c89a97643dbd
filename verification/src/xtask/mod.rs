//! Building disk images.

pub mod artifact;
pub mod artifact_laws;
pub mod commands;
pub mod convert_laws;
pub mod elf;
pub mod macho;
pub mod macho_laws;
pub mod partition;
pub mod rootfs;
pub mod seek_laws;
