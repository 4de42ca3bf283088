//! The verified core of GLM OS: protocol codecs, socket tables, file system,
//! memory management, scheduling and the desktop, written as functions over
//! explicit state so that every rule of the kernel has a stated contract.

pub mod boot;
pub mod bytes;
pub mod console;
pub mod cpu;
pub mod disk;
pub mod fs;
pub mod gui;
pub mod io;
pub mod ipc;
pub mod kernel;
pub mod limine_reqs;
pub mod mem;
pub mod net;
pub mod pixels;
pub mod ring;
pub mod sched;
pub mod seqs;
pub mod shell;
pub mod sync;
pub mod term;
pub mod text;
pub mod user;
pub mod words;
