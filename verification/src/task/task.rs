//! Types related to task management.
use vstd::prelude::*;

use crate::config::MAX_SYSCALL_NUM;
use crate::mm::{MapPermission, MemorySet};

verus! {

/// The status of a task.
#[derive(Clone, Copy, PartialEq, Eq, Structural, Debug)]
pub enum TaskStatus {
    /// uninitialized: the entry holds no task
    UnInit,
    /// ready to run
    Ready,
    /// running
    Running,
    /// exited, waiting for its parent to collect the exit code
    Exited,
}

/// The user registers saved on entry to the kernel.
#[derive(Clone, Copy)]
pub struct TrapContext {
    /// General purpose registers `x0`..`x31`.
    pub x: [usize; 32],
    /// Address at which user execution resumes.
    pub sepc: usize,
}

/// `cx` is the context in which a freshly loaded program starts: all
/// registers zero but the stack pointer `x2`, which is `sp`, resuming at `entry`.
pub open spec fn is_init_context(cx: TrapContext, entry: usize, sp: usize) -> bool {
    &&& cx.sepc == entry
    &&& cx.x@[2] == sp
    &&& forall|i: int| 0 <= i < 32 && i != 2 ==> cx.x@[i] == 0
}

impl TrapContext {
    /// The context in which a freshly loaded program starts.
    pub fn app_init_context(entry: usize, sp: usize) -> (cx: Self)
        ensures
            is_init_context(cx, entry, sp),
    {
        let mut x = [0usize; 32];
        x[2] = sp;
        TrapContext { x, sepc: entry }
    }
}

/// What loading a program yields: its address space, the top of its user
/// stack (which is also the bottom of its heap) and its entry point.
pub struct AppImage {
    pub memory_set: MemorySet,
    pub user_sp: usize,
    pub entry_point: usize,
}

/// The task control block (TCB) of a task.
pub struct TaskControlBlock {
    /// Process id; also the task's index in the task table.
    pub pid: usize,
    /// The process that forked this one, if any.
    pub parent: Option<usize>,
    /// Pids of the children not yet collected by `waitpid`.
    pub children: Vec<usize>,
    /// The task status in its lifecycle
    pub task_status: TaskStatus,
    /// Exit code, meaningful once the task has exited.
    pub exit_code: i32,
    /// Scheduling progress: grows by `pass` each time the task is dispatched.
    pub stride: usize,
    /// Amount added to `stride` each time the task is scheduled.
    pub pass: usize,
    /// Time (ms) at which the task was first scheduled; 0 before that.
    pub first_time_run: usize,
    /// Number of calls of each system call made by the task.
    pub syscall_times: [u32; MAX_SYSCALL_NUM],
    /// Page mappings of the task's address space.
    pub memory_set: MemorySet,
    /// Lowest address of the heap.
    pub heap_bottom: usize,
    /// Current end of the heap.
    pub program_brk: usize,
    /// Saved user registers.
    pub trap_cx: TrapContext,
}

/// A count of zero for every system call.
pub open spec fn no_syscalls(times: [u32; MAX_SYSCALL_NUM]) -> bool {
    forall|i: int| 0 <= i < MAX_SYSCALL_NUM ==> times@[i] == 0
}

/// The end of a heap with end `brk` and bottom `bottom` once moved by `size`
/// bytes, addresses compared as signed values; `None` where it would end below
/// the bottom.
pub open spec fn brk_after(brk: usize, bottom: usize, size: int) -> Option<usize> {
    let new_brk = brk as isize + size;
    if new_brk < bottom as isize {
        None
    } else {
        Some(new_brk as usize)
    }
}

/// `t` is the vacant entry of the task table for pid `pid`: no task, no
/// links, nothing mapped, all counters and registers zero.
pub open spec fn is_vacant(t: TaskControlBlock, pid: usize) -> bool {
    &&& t.pid == pid
    &&& t.parent.is_none()
    &&& t.children@.len() == 0
    &&& t.task_status == TaskStatus::UnInit
    &&& t.exit_code == 0
    &&& t.stride == 0
    &&& t.pass == 0
    &&& t.first_time_run == 0
    &&& no_syscalls(t.syscall_times)
    &&& t.memory_set@ == Map::<usize, MapPermission>::empty()
    &&& t.heap_bottom == 0
    &&& t.program_brk == 0
    &&& is_init_context(t.trap_cx, 0, 0)
}

/// A fresh program starts at `entry` with stack pointer `sp` in `x2` and
/// every other register zero.
pub proof fn lemma_init_context_meaning(cx: TrapContext, entry: usize, sp: usize)
    requires
        is_init_context(cx, entry, sp),
    ensures
        cx.sepc == entry,
        cx.x[2] == sp,
        cx.x[10] == 0,
        forall|i: int| 0 <= i < 32 && i != 2 ==> #[trigger] cx.x@[i] == 0,
{
}

/// A released entry holds no task: it is not running, ready or exited, has
/// no parent and no children, and maps no page.
pub proof fn lemma_vacant_meaning(t: TaskControlBlock, pid: usize)
    requires
        is_vacant(t, pid),
    ensures
        t.pid == pid,
        t.task_status == TaskStatus::UnInit,
        t.parent.is_none(),
        t.children@.len() == 0,
        forall|v: usize| !#[trigger] t.memory_set@.contains_key(v),
{
}

impl TaskControlBlock {
    /// The vacant entry for pid `pid`, left behind by a released task.
    pub fn vacant(pid: usize) -> (tcb: Self)
        ensures
            is_vacant(tcb, pid),
    {
        TaskControlBlock {
            pid,
            parent: None,
            children: Vec::new(),
            task_status: TaskStatus::UnInit,
            exit_code: 0,
            stride: 0,
            pass: 0,
            first_time_run: 0,
            syscall_times: [0u32; MAX_SYSCALL_NUM],
            memory_set: MemorySet::new_bare(),
            heap_bottom: 0,
            program_brk: 0,
            trap_cx: TrapContext::app_init_context(0, 0),
        }
    }

    /// A ready task with pid `pid` running the program `image`, scheduled with
    /// stride step `pass`, with no parent and no children.
    pub fn new(image: AppImage, pid: usize, pass: usize) -> (tcb: Self)
        ensures
            tcb.pid == pid,
            tcb.parent.is_none(),
            tcb.children@.len() == 0,
            tcb.task_status == TaskStatus::Ready,
            tcb.exit_code == 0,
            tcb.stride == 0,
            tcb.pass == pass,
            tcb.first_time_run == 0,
            no_syscalls(tcb.syscall_times),
            tcb.memory_set@ == image.memory_set@,
            tcb.heap_bottom == image.user_sp,
            tcb.program_brk == image.user_sp,
            is_init_context(tcb.trap_cx, image.entry_point, image.user_sp),
    {
        let trap_cx = TrapContext::app_init_context(image.entry_point, image.user_sp);
        TaskControlBlock {
            pid,
            parent: None,
            children: Vec::new(),
            task_status: TaskStatus::Ready,
            exit_code: 0,
            stride: 0,
            pass,
            first_time_run: 0,
            syscall_times: [0u32; MAX_SYSCALL_NUM],
            memory_set: image.memory_set,
            heap_bottom: image.user_sp,
            program_brk: image.user_sp,
            trap_cx,
        }
    }

    /// Whether the task has exited and awaits collection by its parent.
    pub fn is_zombie(&self) -> (b: bool)
        ensures
            b == (self.task_status == TaskStatus::Exited),
    {
        self.task_status == TaskStatus::Exited
    }

    /// Moves the end of the heap by `size` bytes, the addresses taken as
    /// signed. Refused, with `None` and nothing changed, where the heap would
    /// end below its bottom (see `brk_after`); otherwise returns the previous
    /// end.
    pub fn change_program_brk(&mut self, size: i32) -> (res: Option<usize>)
        requires
            isize::MIN <= old(self).program_brk as isize + size <= isize::MAX,
        ensures
            match brk_after(old(self).program_brk, old(self).heap_bottom, size as int) {
                None => res.is_none() && *final(self) == *old(self),
                Some(b) => {
                    &&& res == Some(old(self).program_brk)
                    &&& *final(self) == TaskControlBlock { program_brk: b, ..*old(self) }
                },
            },
    {
        let old_break = self.program_brk;
        let new_brk: isize = self.program_brk as isize + size as isize;
        if new_brk < self.heap_bottom as isize {
            return None;
        }
        self.program_brk = new_brk as usize;
        Some(old_break)
    }
}

} // verus!
