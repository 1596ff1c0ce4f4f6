//! System calls.

pub mod process;
