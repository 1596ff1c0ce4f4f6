//! Task management: task control blocks, the FIFO ready queue,
//! the processor state, and the task table that ties them together.

pub mod kernel;
pub mod manager;
pub mod processor;
#[allow(clippy::module_inception)]
pub mod task;

pub use kernel::Kernel;
pub use manager::TaskManager;
pub use processor::Processor;
pub use task::{AppImage, TaskControlBlock, TaskStatus, TrapContext};
