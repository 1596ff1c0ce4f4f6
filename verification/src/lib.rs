//! A model of the process-management core of a small RISC-V teaching kernel:
//! the FIFO ready queue, the per-hart processor state, the task
//! table with parent/child links, per-task page mappings, and the process
//! system calls that act on them.

pub mod config;
pub mod mm;
pub mod syscall;
pub mod task;
