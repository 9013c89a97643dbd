//! Mach-O images: FAT slices, segments, sections, the load commands that matter
//! for dynamic linking, and chained fixups.

pub mod fat;
pub mod fat_laws;
pub mod fixup;
pub mod fixup_laws;
pub mod image;
pub mod load_cmd;
pub mod parse;
pub mod parse_laws;
pub mod records;
