//! File systems.

pub mod cursor_laws;
pub mod dir;
pub mod fat32;
pub mod fat_laws;
pub mod fat_write;
pub mod file_laws;
pub mod layout_laws;
pub mod mount;
pub mod name_laws;
pub mod path_laws;
pub mod sysfile;
