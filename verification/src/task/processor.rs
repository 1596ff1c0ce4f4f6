//! The processor: which task runs now, and dispatching the next one.
use vstd::prelude::*;

use crate::config::{MAX_SYSCALL_NUM, PAGE_SIZE};
use crate::mm::memory_set::{
    map_range, page_ceil, page_floor, range_mapped, range_unmapped, unmap_range,
};
use crate::mm::MapPermission;
use crate::task::kernel::Kernel;
use crate::task::manager::{fetch_task, front_stride_fits};
use crate::task::task::{TaskControlBlock, TaskStatus, TrapContext};

verus! {

/// What the processor is executing.
pub struct Processor {
    /// Pid of the task currently executing, if any.
    current: Option<usize>,
}

impl View for Processor {
    type V = Option<usize>;

    closed spec fn view(&self) -> Option<usize> {
        self.current
    }
}

impl Processor {
    /// A processor executing no task.
    pub fn new() -> (p: Self)
        ensures
            p@.is_none(),
    {
        Processor { current: None }
    }

    /// The current task, leaving no current task behind.
    pub fn take_current(&mut self) -> (c: Option<usize>)
        ensures
            c == old(self)@,
            final(self)@.is_none(),
    {
        self.current.take()
    }

    /// The current task.
    pub fn current(&self) -> (c: Option<usize>)
        ensures
            c == self@,
    {
        self.current
    }
}

/// `t` as it is once dispatched at time `now_ms`: its pass added to its
/// stride, running, and with its first run time set if it had none.
pub open spec fn dispatched(t: TaskControlBlock, now_ms: usize) -> TaskControlBlock {
    TaskControlBlock {
        stride: (t.stride + t.pass) as usize,
        task_status: TaskStatus::Running,
        first_time_run: if t.first_time_run == 0 {
            now_ms
        } else {
            t.first_time_run
        },
        ..t
    }
}

/// What dispatching does to a task at time `now_ms`, whatever its pid,
/// parent or other fields: it runs, its pass is added to its stride, a task
/// that never ran gets `now_ms` as its first run time and one that ran keeps
/// its own; nothing else changes.
pub proof fn lemma_dispatched_meaning(t: TaskControlBlock, now_ms: usize)
    requires
        t.stride + t.pass <= usize::MAX,
    ensures
        dispatched(t, now_ms).task_status == TaskStatus::Running,
        dispatched(t, now_ms).stride == t.stride + t.pass,
        t.first_time_run == 0 ==> dispatched(t, now_ms).first_time_run == now_ms,
        t.first_time_run != 0 ==> dispatched(t, now_ms).first_time_run == t.first_time_run,
        dispatched(t, now_ms).pid == t.pid,
        dispatched(t, now_ms).parent == t.parent,
        dispatched(t, now_ms).children == t.children,
        dispatched(t, now_ms).exit_code == t.exit_code,
        dispatched(t, now_ms).pass == t.pass,
        dispatched(t, now_ms).syscall_times == t.syscall_times,
        dispatched(t, now_ms).memory_set == t.memory_set,
        dispatched(t, now_ms).heap_bottom == t.heap_bottom,
        dispatched(t, now_ms).program_brk == t.program_brk,
        dispatched(t, now_ms).trap_cx == t.trap_cx,
{
}

/// The pages that an area `[start_va, end_va)` touches: from the page that
/// holds `start_va` up to, and including, the page that holds the last byte
/// before `end_va`.
pub proof fn lemma_page_bounds(va: usize)
    ensures
        page_floor(va as int) * 4096 <= va < page_floor(va as int) * 4096 + 4096,
        va <= page_ceil(va as int) * 4096 < va + 4096,
{
}

/// Takes the current task off the processor, leaving no current task.
pub fn take_current_task(kernel: &mut Kernel) -> (c: Option<usize>)
    ensures
        c == old(kernel).processor@,
        final(kernel).processor@.is_none(),
        final(kernel).tasks@ == old(kernel).tasks@,
        final(kernel).manager@ == old(kernel).manager@,
{
    kernel.processor.take_current()
}

/// The pid of the current task.
pub fn current_task(kernel: &Kernel) -> (c: Option<usize>)
    ensures
        c == kernel.processor@,
{
    kernel.processor.current()
}

/// One round of the scheduling loop, at time `now_ms`: takes the task at the
/// front of the ready queue (see `TaskManager::fetch`), marks it running,
/// records `now_ms` as its first run time if it never ran, and makes it the
/// current task. Returns its pid, or `None`, changing nothing, when no task is
/// ready.
pub fn run_tasks_once(kernel: &mut Kernel, now_ms: usize) -> (res: Option<usize>)
    requires
        old(kernel).wf(),
        old(kernel).processor@.is_none(),
        front_stride_fits(old(kernel).manager@, old(kernel).tasks@),
    ensures
        final(kernel).wf(),
        res.is_none() <==> old(kernel).manager@.len() == 0,
        res.is_none() ==> final(kernel).tasks@ == old(kernel).tasks@ && final(kernel).manager@
            == old(kernel).manager@ && final(kernel).processor@ == old(kernel).processor@,
        res matches Some(pid) ==> {
            &&& pid == old(kernel).manager@[0]
            &&& final(kernel).processor@ == Some(pid)
            &&& final(kernel).manager@ == old(kernel).manager@.drop_first()
            &&& final(kernel).tasks@ == old(kernel).tasks@.update(
                pid as int,
                dispatched(old(kernel).tasks@[pid as int], now_ms),
            )
        },
{
    let res = fetch_task(kernel);
    match res {
        Some(pid) => {
            let ghost t0 = kernel.tasks@[pid as int];
            let ghost tasks1 = kernel.tasks@;
            kernel.tasks[pid].task_status = TaskStatus::Running;
            if kernel.tasks[pid].first_time_run == 0 {
                kernel.tasks[pid].first_time_run = now_ms;
            }
            kernel.processor.current = Some(pid);
            assert(kernel.tasks@ =~= tasks1.update(pid as int, TaskControlBlock {
                task_status: TaskStatus::Running,
                first_time_run: if t0.first_time_run == 0 { now_ms } else { t0.first_time_run },
                ..t0
            }));
            Some(pid)
        },
        None => None,
    }
}

/// Mutable access to the current task's saved user registers.
pub fn current_trap_cx(kernel: &mut Kernel) -> (cx: &mut TrapContext)
    requires
        old(kernel).running(),
    ensures
        *cx == old(kernel).cur_task().trap_cx,
        final(kernel).processor@ == old(kernel).processor@,
        final(kernel).manager@ == old(kernel).manager@,
        final(kernel).tasks@ == old(kernel).tasks@.update(
            old(kernel).cur() as int,
            TaskControlBlock { trap_cx: *final(cx), ..old(kernel).cur_task() },
        ),
        final(kernel).running(),
{
    let c = kernel.processor.current().unwrap();
    &mut kernel.tasks[c].trap_cx
}

/// Counts one more call of system call `syscall_id` by the current task.
pub fn syscall_counter(kernel: &mut Kernel, syscall_id: usize)
    requires
        old(kernel).running(),
        syscall_id < MAX_SYSCALL_NUM,
        old(kernel).cur_task().syscall_times@[syscall_id as int] < u32::MAX,
    ensures
        final(kernel).running(),
        final(kernel).processor@ == old(kernel).processor@,
        final(kernel).manager@ == old(kernel).manager@,
        final(kernel).tasks@ == old(kernel).tasks@.update(
            old(kernel).cur() as int,
            TaskControlBlock {
                syscall_times: final(kernel).cur_task().syscall_times,
                ..old(kernel).cur_task()
            },
        ),
        final(kernel).cur_task().syscall_times@ == old(kernel).cur_task().syscall_times@.update(
            syscall_id as int,
            (old(kernel).cur_task().syscall_times@[syscall_id as int] + 1) as u32,
        ),
{
    let c = kernel.processor.current().unwrap();
    kernel.tasks[c].syscall_times[syscall_id] = kernel.tasks[c].syscall_times[syscall_id] + 1;
    assert(kernel.cur_task().syscall_times@ =~= old(kernel).cur_task().syscall_times@.update(
        syscall_id as int,
        (old(kernel).cur_task().syscall_times@[syscall_id as int] + 1) as u32,
    ));
}

/// Time (ms) at which the current task was first scheduled.
pub fn get_first_time_run(kernel: &Kernel) -> (t: usize)
    requires
        kernel.running(),
    ensures
        t == kernel.cur_task().first_time_run,
{
    let c = kernel.processor.current().unwrap();
    kernel.tasks[c].first_time_run
}

/// The current task's count of calls of each system call.
pub fn get_syscall_times(kernel: &Kernel) -> (times: [u32; MAX_SYSCALL_NUM])
    requires
        kernel.running(),
    ensures
        times == kernel.cur_task().syscall_times,
{
    let c = kernel.processor.current().unwrap();
    kernel.tasks[c].syscall_times
}

/// Maps, in the current task's address space, every page that meets
/// `[start_va, end_va)`, with `perm`; none of them may be mapped yet.
pub fn insert_framed_area(kernel: &mut Kernel, start_va: usize, end_va: usize, perm: MapPermission)
    requires
        old(kernel).running(),
        range_unmapped(
            old(kernel).cur_task().memory_set@,
            page_floor(start_va as int),
            page_ceil(end_va as int),
        ),
    ensures
        final(kernel).running(),
        final(kernel).processor@ == old(kernel).processor@,
        final(kernel).manager@ == old(kernel).manager@,
        final(kernel).tasks@ == old(kernel).tasks@.update(
            old(kernel).cur() as int,
            TaskControlBlock { memory_set: final(kernel).cur_task().memory_set, ..old(kernel).cur_task() },
        ),
        final(kernel).cur_task().memory_set@ == map_range(
            old(kernel).cur_task().memory_set@,
            page_floor(start_va as int),
            page_ceil(end_va as int),
            perm,
        ),
{
    let c = kernel.processor.current().unwrap();
    let start_vpn = start_va / PAGE_SIZE;
    let end_vpn = if end_va % PAGE_SIZE == 0 {
        end_va / PAGE_SIZE
    } else {
        end_va / PAGE_SIZE + 1
    };
    assert(end_vpn == page_ceil(end_va as int));
    kernel.tasks[c].memory_set.insert_framed_area(start_vpn, end_vpn, perm);
}

/// Unmaps, in the current task's address space, every page that meets
/// `[start_va, end_va)`; all of them must be mapped.
pub fn remove_framed_area(kernel: &mut Kernel, start_va: usize, end_va: usize)
    requires
        old(kernel).running(),
        range_mapped(
            old(kernel).cur_task().memory_set@,
            page_floor(start_va as int),
            page_ceil(end_va as int),
        ),
    ensures
        final(kernel).running(),
        final(kernel).processor@ == old(kernel).processor@,
        final(kernel).manager@ == old(kernel).manager@,
        final(kernel).tasks@ == old(kernel).tasks@.update(
            old(kernel).cur() as int,
            TaskControlBlock { memory_set: final(kernel).cur_task().memory_set, ..old(kernel).cur_task() },
        ),
        final(kernel).cur_task().memory_set@ == unmap_range(
            old(kernel).cur_task().memory_set@,
            page_floor(start_va as int),
            page_ceil(end_va as int),
        ),
{
    let c = kernel.processor.current().unwrap();
    let start_vpn = start_va / PAGE_SIZE;
    let end_vpn = if end_va % PAGE_SIZE == 0 {
        end_va / PAGE_SIZE
    } else {
        end_va / PAGE_SIZE + 1
    };
    assert(end_vpn == page_ceil(end_va as int));
    kernel.tasks[c].memory_set.remove_framed_area(start_vpn, end_vpn);
}

} // verus!
