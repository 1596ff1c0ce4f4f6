# rcore_os

A verified model of the process-management core of a small RISC-V teaching
kernel, written in Verus.

- `src/mm`: per-task page mappings (`MemorySet`) and page permissions.
- `src/task`: task control blocks, the FIFO ready queue
  (`TaskManager`), the processor state (`Processor`), and `Kernel`, the task
  table with the invariant that every operation keeps.
- `src/syscall/process.rs`: the process system calls (`exit`, `yield`,
  `getpid`, `fork`, `exec`, `waitpid`, `get_time`, `task_info`, `mmap`,
  `munmap`, `sbrk`, `spawn`, `set_priority`) as functions of the kernel state,
  with the laws that relate them.
- `app/`: the global kernel instance, the clock, and the system-call entry
  points that write results to user memory.
- `tests/`: executable scenarios.
