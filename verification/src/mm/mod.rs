//! Memory management: page permissions and the per-task page mappings.

pub mod memory_set;

pub use memory_set::{MapPermission, MemorySet};
