//! Userland: program images, user memory, signals, system calls.

pub mod argv_laws;
pub mod build_laws;
pub mod call_laws;
pub mod elf;
pub mod elf_laws;
pub mod exec;
pub mod signal;
pub mod signal_laws;
pub mod start_laws;
pub mod syscall;
pub mod task;
pub mod uaccess;
