//! Constants of the kernel.
use vstd::prelude::*;

verus! {

/// Size of a page, in bytes.
pub const PAGE_SIZE: usize = 4096;

/// Number of distinct system call ids whose use is counted per task.
pub const MAX_SYSCALL_NUM: usize = 500;

} // verus!
