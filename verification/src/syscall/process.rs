//! Process management syscalls
use vstd::prelude::*;

use crate::config::{MAX_SYSCALL_NUM, PAGE_SIZE};
use crate::mm::memory_set::{
    map_range, page_ceil, page_floor, range_mapped, range_unmapped, unmap_range,
};
use crate::mm::MapPermission;
use crate::task::kernel::{placed, same_links, task_ok, with_parent, Kernel};
use crate::task::manager::add_task;
use crate::task::processor::{get_first_time_run, get_syscall_times, insert_framed_area, remove_framed_area};
use crate::task::task::{brk_after, is_vacant, AppImage, TaskControlBlock, TaskStatus};

verus! {

/// A time split into seconds and microseconds.
#[derive(Clone, Copy, PartialEq, Eq, Structural, Debug)]
pub struct TimeVal {
    pub sec: usize,
    pub usec: usize,
}

/// Task information
pub struct TaskInfo {
    /// Task status in it's life cycle
    pub status: TaskStatus,
    /// The numbers of syscall called by task
    pub syscall_times: [u32; MAX_SYSCALL_NUM],
    /// Total running time of task
    pub time: usize,
}

/// task exits and submit an exit code: see `Kernel::exit_current_and_run_next`.
pub fn sys_exit(kernel: &mut Kernel, exit_code: i32)
    requires
        old(kernel).running(),
    ensures
        final(kernel).wf(),
        final(kernel).processor@.is_none(),
        final(kernel).manager@ == old(kernel).manager@,
        final(kernel).tasks@.len() == old(kernel).tasks@.len(),
        ({
            let c = old(kernel).cur() as int;
            let ot = old(kernel).tasks@;
            let nt = final(kernel).tasks@;
            let ch = ot[c].children@;
            &&& nt[c] == TaskControlBlock {
                task_status: TaskStatus::Exited,
                exit_code,
                children: nt[c].children,
                memory_set: nt[c].memory_set,
                ..ot[c]
            }
            &&& nt[c].memory_set@ == Map::<usize, MapPermission>::empty()
            &&& c != 0 ==> {
                &&& nt[c].children@.len() == 0
                &&& nt[0] == TaskControlBlock { children: nt[0].children, ..ot[0] }
                &&& nt[0].children@ == ot[0].children@ + ch
            }
            &&& c == 0 ==> nt[c].children@ == ch
            &&& forall|p: int|
                0 <= p < ot.len() && p != c && p != 0 ==> #[trigger] nt[p] == (if c != 0 && ch.contains(
                    p as usize,
                ) {
                    with_parent(ot[p], 0)
                } else {
                    ot[p]
                })
        }),
{
    kernel.exit_current_and_run_next(exit_code);
}

/// current task gives up resources for other tasks: it goes back, ready, to
/// the end of the ready queue. Returns 0.
pub fn sys_yield(kernel: &mut Kernel) -> (r: isize)
    requires
        old(kernel).running(),
    ensures
        r == 0,
        final(kernel).wf(),
        final(kernel).processor@.is_none(),
        final(kernel).manager@ == old(kernel).manager@.push(old(kernel).cur()),
        final(kernel).tasks@ == old(kernel).tasks@.update(
            old(kernel).cur() as int,
            TaskControlBlock { task_status: TaskStatus::Ready, ..old(kernel).cur_task() },
        ),
{
    kernel.suspend_current_and_run_next();
    0
}

/// The pid of the current task.
pub fn sys_getpid(kernel: &Kernel) -> (r: isize)
    requires
        kernel.running(),
    ensures
        r == kernel.cur(),
        r == kernel.cur_task().pid,
{
    let c = kernel.processor.current().unwrap();
    c as isize
}

/// Forks the current task (see `Kernel::fork`, which picks the child's pid);
/// the child sees 0 in its return-value register `x10` and is queued at the
/// end of the ready queue. Returns the child's pid.
pub fn sys_fork(kernel: &mut Kernel) -> (r: isize)
    requires
        old(kernel).running(),
        old(kernel).tasks@.len() < isize::MAX,
    ensures
        final(kernel).running(),
        0 <= r <= old(kernel).tasks@.len(),
        forall|j: int| 0 <= j < r ==> #[trigger] old(kernel).tasks@[j].task_status != TaskStatus::UnInit,
        r < old(kernel).tasks@.len() ==> old(kernel).tasks@[r as int].task_status == TaskStatus::UnInit,
        final(kernel).processor@ == old(kernel).processor@,
        final(kernel).manager@ == old(kernel).manager@.push(r as usize),
        final(kernel).tasks@ == placed(
            old(kernel).tasks@.update(
                old(kernel).cur() as int,
                TaskControlBlock { children: final(kernel).cur_task().children, ..old(kernel).cur_task() },
            ),
            r as int,
            final(kernel).tasks@[r as int],
        ),
        final(kernel).cur_task().children@ == old(kernel).cur_task().children@.push(r as usize),
        ({
            let p = old(kernel).cur_task();
            let t = final(kernel).tasks@[r as int];
            &&& t == TaskControlBlock {
                pid: r as usize,
                parent: Some(old(kernel).cur()),
                children: t.children,
                task_status: TaskStatus::Ready,
                exit_code: 0,
                stride: 0,
                pass: p.pass,
                first_time_run: 0,
                syscall_times: t.syscall_times,
                memory_set: t.memory_set,
                heap_bottom: p.heap_bottom,
                program_brk: p.program_brk,
                trap_cx: t.trap_cx,
            }
            &&& t.children@.len() == 0
            &&& crate::task::task::no_syscalls(t.syscall_times)
            &&& t.memory_set@ == p.memory_set@
            &&& t.trap_cx.sepc == p.trap_cx.sepc
            &&& t.trap_cx.x@ == p.trap_cx.x@.update(10, 0)
        }),
{
    let child = kernel.fork();
    let ghost k1 = *kernel;
    kernel.tasks[child].trap_cx.x[10] = 0;
    proof {
        assert(kernel.tasks@[child as int].trap_cx.x@ =~= k1.tasks@[child as int].trap_cx.x@.update(10, 0));
        assert forall|p: int| 0 <= p < k1.tasks@.len() implies same_links(
            #[trigger] kernel.tasks@[p],
            k1.tasks@[p],
        ) && kernel.tasks@[p].program_brk as isize >= kernel.tasks@[p].heap_bottom as isize by {
            assert(task_ok(k1.tasks@[p], p, k1.processor@));
        }
        Kernel::lemma_wf_kept(k1, *kernel);
        assert(kernel.tasks@ =~= placed(
            old(kernel).tasks@.update(
                old(kernel).cur() as int,
                TaskControlBlock { children: kernel.cur_task().children, ..old(kernel).cur_task() },
            ),
            child as int,
            kernel.tasks@[child as int],
        ));
        let q = kernel.manager@;
        assert(!q.contains(child)) by {
            if q.contains(child) {
                let j = choose|j: int| 0 <= j < q.len() && q[j] == child;
                assert(old(kernel).tasks@[q[j] as int].task_status == TaskStatus::Ready);
                assert(q[j] < old(kernel).tasks@.len());
            }
        }
    }
    add_task(kernel, child);
    child as isize
}

/// Replaces the current task's program by the program found for the
/// requested path (`Kernel::exec`) and returns 0; returns -1, changing
/// nothing, when no program was found.
pub fn sys_exec(kernel: &mut Kernel, app: Option<AppImage>) -> (r: isize)
    requires
        old(kernel).running(),
    ensures
        final(kernel).running(),
        final(kernel).processor@ == old(kernel).processor@,
        final(kernel).manager@ == old(kernel).manager@,
        app.is_none() ==> r == -1 && final(kernel).tasks@ == old(kernel).tasks@,
        app matches Some(image) ==> {
            &&& r == 0
            &&& final(kernel).tasks@ == old(kernel).tasks@.update(
                old(kernel).cur() as int,
                TaskControlBlock {
                    memory_set: final(kernel).cur_task().memory_set,
                    heap_bottom: image.user_sp,
                    program_brk: image.user_sp,
                    trap_cx: final(kernel).cur_task().trap_cx,
                    ..old(kernel).cur_task()
                },
            )
            &&& final(kernel).cur_task().memory_set@ == image.memory_set@
            &&& crate::task::task::is_init_context(
                final(kernel).cur_task().trap_cx,
                image.entry_point,
                image.user_sp,
            )
        },
{
    match app {
        Some(image) => {
            kernel.exec(image);
            0
        },
        None => -1,
    }
}

/// Child `child` is selected by the pid argument `pid` of `waitpid`: -1
/// selects every child.
pub open spec fn pid_selects(pid: isize, child: usize) -> bool {
    pid == -1 || pid as usize == child
}

/// Some child in `children` is selected by `pid`.
pub open spec fn has_selected(children: Seq<usize>, pid: isize) -> bool {
    exists|k: int| 0 <= k < children.len() && #[trigger] pid_selects(pid, children[k])
}

/// Position `k` of `children` holds an exited child selected by `pid`.
pub open spec fn collectable(
    children: Seq<usize>,
    tasks: Seq<TaskControlBlock>,
    pid: isize,
    k: int,
) -> bool {
    &&& 0 <= k < children.len()
    &&& pid_selects(pid, children[k])
    &&& tasks[children[k] as int].task_status == TaskStatus::Exited
}

/// Position `k` is the first one in `children` that holds an exited child
/// selected by `pid`.
pub open spec fn first_collectable(
    children: Seq<usize>,
    tasks: Seq<TaskControlBlock>,
    pid: isize,
    k: int,
) -> bool {
    &&& collectable(children, tasks, pid, k)
    &&& forall|j: int| 0 <= j < k ==> !#[trigger] collectable(children, tasks, pid, j)
}

/// Waits for a child of the current task selected by `pid` (-1: any child).
/// Returns (-1, None) when no child is selected; (-2, None) when selected
/// children exist but none has exited; otherwise removes the first exited
/// selected child from the children, releases its entry of the task table
/// (which becomes vacant, its pid free for a later `fork`), and returns its
/// pid and its exit code, which the caller stores at the user's exit-code
/// address.
pub fn sys_waitpid(kernel: &mut Kernel, pid: isize) -> (r: (isize, Option<i32>))
    requires
        old(kernel).running(),
    ensures
        final(kernel).running(),
        final(kernel).processor@ == old(kernel).processor@,
        final(kernel).manager@ == old(kernel).manager@,
        ({
            let ch = old(kernel).cur_task().children@;
            let ts = old(kernel).tasks@;
            &&& !has_selected(ch, pid) ==> r == (-1isize, None::<i32>) && final(kernel).tasks@ == ts
            &&& has_selected(ch, pid) && (forall|k: int| !#[trigger] collectable(ch, ts, pid, k)) ==> r == (
                -2isize,
                None::<i32>,
            ) && final(kernel).tasks@ == ts
            &&& (exists|k: int| #[trigger] collectable(ch, ts, pid, k)) ==> exists|k: int|
                {
                    &&& first_collectable(ch, ts, pid, k)
                    &&& r == (ch[k] as isize, Some(ts[ch[k] as int].exit_code))
                    &&& final(kernel).cur_task().children@ == ch.remove(k)
                    &&& is_vacant(final(kernel).tasks@[ch[k] as int], ch[k])
                    &&& final(kernel).tasks@ == ts.update(
                        old(kernel).cur() as int,
                        TaskControlBlock {
                            children: final(kernel).cur_task().children,
                            ..old(kernel).cur_task()
                        },
                    ).update(ch[k] as int, final(kernel).tasks@[ch[k] as int])
                }
        }),
{
    let c = kernel.processor.current().unwrap();
    let ghost ch = kernel.cur_task().children@;
    let ghost ts = kernel.tasks@;
    let n = kernel.tasks[c].children.len();
    let mut any = false;
    let mut i: usize = 0;
    while i < n
        invariant
            *kernel == *old(kernel),
            kernel.running(),
            kernel.processor@ == Some(c),
            ch == kernel.cur_task().children@,
            n == ch.len(),
            i <= n,
            any <==> exists|k: int| 0 <= k < i && #[trigger] pid_selects(pid, ch[k]),
        decreases n - i,
    {
        let child = kernel.tasks[c].children[i];
        if pid == -1 || pid as usize == child {
            assert(pid_selects(pid, ch[i as int]));
            any = true;
        }
        i = i + 1;
    }
    if !any {
        return (-1, None);
    }
    let mut found: Option<usize> = None;
    let mut j: usize = 0;
    while j < n
        invariant_except_break
            found.is_none(),
        invariant
            *kernel == *old(kernel),
            kernel.running(),
            kernel.processor@ == Some(c),
            ch == kernel.cur_task().children@,
            ts == kernel.tasks@,
            n == ch.len(),
            j <= n,
            found.is_none() ==> forall|k: int| 0 <= k < j ==> !#[trigger] collectable(ch, ts, pid, k),
            found matches Some(k) ==> first_collectable(ch, ts, pid, k as int),
        ensures
            found.is_none() ==> forall|k: int| 0 <= k < n ==> !#[trigger] collectable(ch, ts, pid, k),
            found matches Some(k) ==> first_collectable(ch, ts, pid, k as int),
        decreases n - j,
    {
        let child = kernel.tasks[c].children[j];
        if (pid == -1 || pid as usize == child) && kernel.tasks[child].is_zombie() {
            found = Some(j);
            break;
        }
        j = j + 1;
    }
    match found {
        None => {
            assert forall|k: int| !#[trigger] collectable(ch, ts, pid, k) by {
                if 0 <= k < n {
                } 
            }
            (-2, None)
        },
        Some(idx) => {
            let child = kernel.tasks[c].children.remove(idx);
            let exit_code = kernel.tasks[child].exit_code;
            proof {
                let t = kernel.tasks@;
                assert forall|p: int, k: int|
                    0 <= p < t.len() && 0 <= k < t[p].children@.len() implies {
                        &&& #[trigger] t[p].children@[k] < t.len()
                        &&& t[t[p].children@[k] as int].parent == Some(p as usize)
                    } by {
                    if p == c as int {
                        if k < idx {
                            assert(t[p].children@[k] == ch[k]);
                        } else {
                            assert(t[p].children@[k] == ch[k + 1]);
                        }
                    } else {
                        assert(t[p] == ts[p]);
                    }
                }
                assert forall|p: int| 0 <= p < t.len() implies #[trigger] t[p].children@.no_duplicates() by {
                    if p == c as int {
                        assert forall|a: int, b: int| 0 <= a < b < t[p].children@.len() implies
                            t[p].children@[a] != t[p].children@[b] by {
                            let a0 = if a < idx { a } else { a + 1 };
                            let b0 = if b < idx { b } else { b + 1 };
                            assert(t[p].children@[a] == ch[a0]);
                            assert(t[p].children@[b] == ch[b0]);
                            assert(ts[p].children@.no_duplicates());
                        }
                    } else {
                        assert(t[p] == ts[p]);
                    }
                }
            }
            let ghost t1 = kernel.tasks@;
            kernel.tasks[child] = TaskControlBlock::vacant(child);
            proof {
                let t = kernel.tasks@;
                let cur = c as int;
                let z = child as int;
                assert(ts[z].parent == Some(c));
                assert(task_ok(ts[cur], cur, kernel.processor@));
                assert(task_ok(ts[cur], cur, kernel.processor@));
                assert(z != cur);
                assert(z != 0);
                assert forall|p: int| 0 <= p < t.len() implies task_ok(#[trigger] t[p], p, kernel.processor@) by {
                    if p != z {
                        assert(t[p] == t1[p]);
                        if p != cur {
                            assert(t1[p] == ts[p]);
                            assert(task_ok(ts[p], p, kernel.processor@));
                        } else {
                            assert(task_ok(ts[p], p, kernel.processor@));
                        }
                    }
                }
                assert(!t1[cur].children@.contains(child)) by {
                    if t1[cur].children@.contains(child) {
                        let a = choose|a: int| 0 <= a < t1[cur].children@.len() && t1[cur].children@[a] == child;
                        let a0 = if a < idx { a } else { a + 1 };
                        assert(ch[a0] == child);
                        assert(ch[idx as int] == child);
                    }
                }
                assert forall|p: int, k: int|
                    0 <= p < t.len() && 0 <= k < t[p].children@.len() implies {
                        &&& #[trigger] t[p].children@[k] < t.len()
                        &&& t[t[p].children@[k] as int].parent == Some(p as usize)
                    } by {
                    assert(p != z);
                    assert(t[p] == t1[p]);
                    let d = t1[p].children@[k];
                    assert(d < t1.len() && t1[d as int].parent == Some(p as usize));
                    if d == child {
                        assert(p == cur);
                        assert(t1[cur].children@.contains(child));
                    }
                }
                let q = kernel.manager@;
                assert forall|i: int| 0 <= i < q.len() implies #[trigger] t[q[i] as int].task_status
                    == TaskStatus::Ready by {
                    assert(t1[q[i] as int].task_status == TaskStatus::Ready);
                }
                assert(!q.contains(child)) by {
                    if q.contains(child) {
                        let i = choose|i: int| 0 <= i < q.len() && q[i] == child;
                        assert(t1[q[i] as int].task_status == TaskStatus::Ready);
                    }
                }
            }
            (child as isize, Some(exit_code))
        },
    }
}

/// The time `us` (microseconds) split into whole seconds and the remaining
/// microseconds.
pub fn sys_get_time(us: usize) -> (tv: TimeVal)
    ensures
        tv.sec == us / 1_000_000,
        tv.usec == us % 1_000_000,
        tv.sec * 1_000_000 + tv.usec == us,
        tv.usec < 1_000_000,
{
    TimeVal { sec: us / 1_000_000, usec: us % 1_000_000 }
}

/// Information on the current task at time `now_ms`: running, its count of
/// each system call, and the time elapsed since it was first scheduled.
pub fn sys_task_info(kernel: &Kernel, now_ms: usize) -> (ti: TaskInfo)
    requires
        kernel.running(),
        now_ms >= kernel.cur_task().first_time_run,
    ensures
        ti.status == TaskStatus::Running,
        ti.syscall_times == kernel.cur_task().syscall_times,
        ti.time == now_ms - kernel.cur_task().first_time_run,
{
    TaskInfo {
        status: TaskStatus::Running,
        syscall_times: get_syscall_times(kernel),
        time: now_ms - get_first_time_run(kernel),
    }
}

/// On a heap that ends at or above its bottom, moving the end by `size` and
/// then by `-size` brings it back where it was, and the second move is never
/// refused.
pub proof fn lemma_sbrk_undo(brk: usize, bottom: usize, size: int)
    requires
        brk as isize >= bottom as isize,
        brk_after(brk, bottom, size) is Some,
        isize::MIN <= brk as isize + size <= isize::MAX,
    ensures
        brk_after(brk_after(brk, bottom, size)->Some_0, bottom, -size) == Some(brk),
{
    let n = brk as isize + size;
    let b = brk_after(brk, bottom, size)->Some_0;
    assert(b == n as usize);
    let ni = n as isize;
    assert(ni == n);
    assert((ni as usize) as isize == ni) by (bit_vector);
    assert((brk as isize) as usize == brk) by (bit_vector);
    assert(b as isize == n);
    assert(b as isize + (-size) == brk as isize);
}

/// Waiting for one given pid that names an exited child collects exactly that
/// child: some position is collectable, and the first collectable one holds
/// that pid.
pub proof fn lemma_waitpid_collects_named_child(
    children: Seq<usize>,
    tasks: Seq<TaskControlBlock>,
    pid: isize,
    i: int,
)
    requires
        pid >= 0,
        0 <= i < children.len(),
        children[i] == pid as usize,
        tasks[children[i] as int].task_status == TaskStatus::Exited,
    ensures
        exists|k: int| #[trigger] collectable(children, tasks, pid, k),
        forall|k: int| #[trigger] first_collectable(children, tasks, pid, k) ==> children[k] == pid as usize,
{
    assert(collectable(children, tasks, pid, i));
}

/// The pid that `getpid` reports is the pid recorded in the running task's
/// entry: a child created by `fork` reports, once dispatched, the pid that
/// `fork` returned.
pub proof fn lemma_getpid_is_task_pid(kernel: Kernel)
    requires
        kernel.running(),
    ensures
        kernel.cur_task().pid == kernel.cur(),
{
    assert(task_ok(kernel.tasks@[kernel.cur() as int], kernel.cur() as int, kernel.processor@));
}

/// Once a child has been collected, waiting for its pid again finds no such
/// child: a task lists each child once, so removing it leaves none selected.
pub proof fn lemma_collected_child_not_waitable(children: Seq<usize>, k: int)
    requires
        children.no_duplicates(),
        0 <= k < children.len(),
        children[k] <= isize::MAX,
    ensures
        !has_selected(children.remove(k), children[k] as isize),
{
    let rest = children.remove(k);
    let pid = children[k] as isize;
    if has_selected(rest, pid) {
        let j = choose|j: int| 0 <= j < rest.len() && #[trigger] pid_selects(pid, rest[j]);
        let j0 = if j < k { j } else { j + 1 };
        assert(rest[j] == children[j0]);
        assert(children[j0] == children[k]);
    }
}

/// change data segment size: moves the current task's heap end by `size`
/// bytes and returns the previous end, or -1, changing nothing, where the
/// heap would end below its bottom.
pub fn sys_sbrk(kernel: &mut Kernel, size: i32) -> (r: isize)
    requires
        old(kernel).running(),
        isize::MIN <= old(kernel).cur_task().program_brk as isize + size <= isize::MAX,
    ensures
        final(kernel).running(),
        final(kernel).processor@ == old(kernel).processor@,
        final(kernel).manager@ == old(kernel).manager@,
        ({
            let t = old(kernel).cur_task();
            match brk_after(t.program_brk, t.heap_bottom, size as int) {
                None => r == -1 && final(kernel).tasks@ == old(kernel).tasks@,
                Some(b) => {
                    &&& r == t.program_brk as isize
                    &&& final(kernel).tasks@ == old(kernel).tasks@.update(
                        old(kernel).cur() as int,
                        TaskControlBlock { program_brk: b, ..t },
                    )
                },
            }
        }),
{
    let c = kernel.processor.current().unwrap();
    let res = kernel.tasks[c].change_program_brk(size);
    proof {
        let t0 = old(kernel).tasks@[c as int];
        let nb = t0.program_brk as isize + size;
        let nbi = nb as isize;
        assert(nbi == nb);
        assert((nbi as usize) as isize == nbi) by (bit_vector);
        assert forall|p: int| 0 <= p < old(kernel).tasks@.len() implies same_links(
            #[trigger] kernel.tasks@[p],
            old(kernel).tasks@[p],
        ) && kernel.tasks@[p].program_brk as isize >= kernel.tasks@[p].heap_bottom as isize by {
            assert(task_ok(old(kernel).tasks@[p], p, old(kernel).processor@));
        }
        Kernel::lemma_wf_kept(*old(kernel), *kernel);
        if res.is_none() {
            assert(kernel.tasks@ =~= old(kernel).tasks@);
        }
    }
    match res {
        Some(old_brk) => old_brk as isize,
        None => -1,
    }
}

/// Spawning a program directly is not supported: always -1.
pub fn sys_spawn(_path: usize) -> (r: isize)
    ensures
        r == -1,
{
    -1
}

/// Setting a task's priority is not supported: always -1.
pub fn sys_set_priority(_prio: isize) -> (r: isize)
    ensures
        r == -1,
{
    -1
}

// ---------------------------------------------------------------- mmap / munmap

/// A protection argument of `mmap` is accepted: only its three low bits
/// (read, write, execute) may be set, and at least one of them must be.
pub open spec fn port_valid(port: usize) -> bool {
    1 <= port <= 7
}

/// The rights that the protection argument `port` asks for: bit 0 read,
/// bit 1 write, bit 2 execute; user access always.
pub open spec fn port_perm(port: usize) -> MapPermission {
    MapPermission { r: port % 2 == 1, w: (port / 2) % 2 == 1, x: (port / 4) % 2 == 1, u: true }
}

/// First page number of the range `[start, start + len)`.
pub open spec fn first_vpn(start: usize) -> int {
    start as int / PAGE_SIZE as int
}

/// One past the last page number of `[start, start + len)`, for a
/// page-aligned `start`.
pub open spec fn end_vpn(start: usize, len: usize) -> int {
    first_vpn(start) + (len + PAGE_SIZE - 1) / PAGE_SIZE as int
}

/// What `mmap(start, len, port)` answers on an address space with mappings
/// `m`, and the mappings after it: refused with -1 where `start` is not
/// page-aligned, `port` is not accepted, or a page of the range is mapped
/// already; otherwise 0, with every page of the range mapped as `port` asks.
pub open spec fn mmap_spec(m: Map<usize, MapPermission>, start: usize, len: usize, port: usize) -> (
    isize,
    Map<usize, MapPermission>,
) {
    if start % PAGE_SIZE != 0 || !port_valid(port) || !range_unmapped(
        m,
        first_vpn(start),
        end_vpn(start, len),
    ) {
        (-1isize, m)
    } else {
        (0isize, map_range(m, first_vpn(start), end_vpn(start, len), port_perm(port)))
    }
}

/// What `munmap(start, len)` answers on an address space with mappings `m`,
/// and the mappings after it: refused with -1 where `start` is not
/// page-aligned or a page of the range is not mapped; otherwise 0, with every
/// page of the range unmapped.
pub open spec fn munmap_spec(m: Map<usize, MapPermission>, start: usize, len: usize) -> (
    isize,
    Map<usize, MapPermission>,
) {
    if start % PAGE_SIZE != 0 || !range_mapped(m, first_vpn(start), end_vpn(start, len)) {
        (-1isize, m)
    } else {
        (0isize, unmap_range(m, first_vpn(start), end_vpn(start, len)))
    }
}

/// A protection argument is accepted exactly when no bit but the three low
/// ones is set and one of those is.
pub proof fn lemma_port_valid_iff_low_bits(port: usize)
    ensures
        port_valid(port) <==> (port & !0x7usize == 0 && port & 0x7usize != 0),
{
    assert(port & !0x7usize == 0 <==> port <= 7) by (bit_vector);
    assert(port <= 7 ==> (port & 0x7usize == port)) by (bit_vector);
}

/// The rights asked for by `port` are its three low bits.
pub proof fn lemma_port_perm_bits(port: usize)
    ensures
        port_perm(port) == (MapPermission {
            r: port & 0x1usize != 0,
            w: port & 0x2usize != 0,
            x: port & 0x4usize != 0,
            u: true,
        }),
{
    assert((port % 2 == 1) == (port & 0x1usize != 0)) by (bit_vector);
    assert(((port / 2) % 2 == 1) == (port & 0x2usize != 0)) by (bit_vector);
    assert(((port / 4) % 2 == 1) == (port & 0x4usize != 0)) by (bit_vector);
}

/// Unmapping exactly the range that a successful `mmap` mapped gives back the
/// mappings from before the `mmap`, and succeeds; mapping the range again
/// then succeeds as the first time.
pub proof fn lemma_munmap_undoes_mmap(
    m: Map<usize, MapPermission>,
    start: usize,
    len: usize,
    port: usize,
)
    requires
        mmap_spec(m, start, len, port).0 == 0,
    ensures
        munmap_spec(mmap_spec(m, start, len, port).1, start, len) == (0isize, m),
        mmap_spec(munmap_spec(mmap_spec(m, start, len, port).1, start, len).1, start, len, port)
            == mmap_spec(m, start, len, port),
{
    let lo = first_vpn(start);
    let hi = end_vpn(start, len);
    let m1 = mmap_spec(m, start, len, port).1;
    assert(range_mapped(m1, lo, hi));
    assert(unmap_range(m1, lo, hi) =~= m);
}

/// The page ranges `[lo1, hi1)` and `[lo2, hi2)` share a page.
pub open spec fn ranges_meet(lo1: int, hi1: int, lo2: int, hi2: int) -> bool {
    lo1 < hi2 && lo2 < hi1 && lo1 < hi1 && lo2 < hi2
}

/// Once `mmap` has mapped a range of at least one byte, a later `mmap` of an
/// aligned range that shares a page with it is refused, whatever its
/// protection, and changes nothing.
pub proof fn lemma_mmap_overlap_refused(
    m: Map<usize, MapPermission>,
    start: usize,
    len: usize,
    port: usize,
    start2: usize,
    len2: usize,
    port2: usize,
)
    requires
        mmap_spec(m, start, len, port).0 == 0,
        ranges_meet(first_vpn(start), end_vpn(start, len), first_vpn(start2), end_vpn(start2, len2)),
    ensures
        mmap_spec(mmap_spec(m, start, len, port).1, start2, len2, port2) == (
            -1isize,
            mmap_spec(m, start, len, port).1,
        ),
{
    let m1 = mmap_spec(m, start, len, port).1;
    let v = if first_vpn(start) < first_vpn(start2) { first_vpn(start2) } else { first_vpn(start) };
    assert(0 <= v <= usize::MAX);
    assert(m1.contains_key(v as usize));
}

/// Once `munmap` has unmapped a range of at least one byte, a second
/// `munmap` of the same range is refused and changes nothing.
pub proof fn lemma_munmap_twice_refused(m: Map<usize, MapPermission>, start: usize, len: usize)
    requires
        munmap_spec(m, start, len).0 == 0,
        len > 0,
    ensures
        munmap_spec(munmap_spec(m, start, len).1, start, len) == (
            -1isize,
            munmap_spec(m, start, len).1,
        ),
{
    let lo = first_vpn(start);
    let m1 = munmap_spec(m, start, len).1;
    assert((len + PAGE_SIZE - 1) / PAGE_SIZE as int >= 1);
    assert(lo <= usize::MAX);
    assert(!m1.contains_key(lo as usize));
}

/// A call that changes only the current task's address space leaves the
/// queue, the processor, every other task and every other field of the
/// current task as they were.
pub proof fn lemma_only_memory_changed_meaning(old: Kernel, new: Kernel)
    requires
        old.running(),
        only_memory_changed(old, new),
    ensures
        new.manager@ == old.manager@,
        new.processor@ == old.processor@,
        new.tasks@.len() == old.tasks@.len(),
        forall|p: int| 0 <= p < old.tasks@.len() && p != old.cur() ==> #[trigger] new.tasks@[p] == old.tasks@[p],
        new.cur_task().pid == old.cur_task().pid,
        new.cur_task().parent == old.cur_task().parent,
        new.cur_task().children == old.cur_task().children,
        new.cur_task().task_status == old.cur_task().task_status,
        new.cur_task().program_brk == old.cur_task().program_brk,
        new.cur_task().trap_cx == old.cur_task().trap_cx,
        new.cur_task().syscall_times == old.cur_task().syscall_times,
{
}

/// What `munmap` does, in terms of the pages of the range
/// `[start / 4096, (start + len + 4095) / 4096)`: an unaligned start is refused
/// whatever the length; for an aligned start the call succeeds exactly when
/// every page of the range (the first, the last and all between) is mapped,
/// and then unmaps those pages and no other; a refusal changes nothing.
pub proof fn lemma_munmap_meaning(m: Map<usize, MapPermission>, start: usize, len: usize)
    requires
        start + len <= usize::MAX,
    ensures
        start % 4096 != 0 ==> munmap_spec(m, start, len) == (-1isize, m),
        start % 4096 == 0 ==> ({
            let lo = start as int / 4096;
            let hi = (start + len + 4095) / 4096;
            let (r, m2) = munmap_spec(m, start, len);
            &&& r == 0 || r == -1
            &&& r == 0 <==> (forall|v: usize| lo <= v < hi ==> #[trigger] m.contains_key(v))
            &&& r == -1 ==> m2 == m
            &&& r == 0 ==> forall|v: usize|
                #![trigger m2.contains_key(v)]
                (m2.contains_key(v) <==> m.contains_key(v) && !(lo <= v < hi)) && (
                m2.contains_key(v) ==> m2[v] == m[v])
        }),
{
    if start % 4096 == 0 {
        lemma_aligned_page_ceil(start, len);
    }
}

/// What `mmap` does, in terms of the pages of the range
/// `[start / 4096, (start + len + 4095) / 4096)`: an unaligned start or a
/// protection outside `1..=7` is refused; otherwise the call succeeds exactly
/// when no page of the range is mapped, and then maps every page of the range
/// with read, write and execute rights taken from bits 0, 1 and 2 of `port`
/// and user access, leaving every other page as it was; a refusal changes
/// nothing.
pub proof fn lemma_mmap_meaning(m: Map<usize, MapPermission>, start: usize, len: usize, port: usize)
    requires
        start + len <= usize::MAX,
    ensures
        start % 4096 != 0 || port == 0 || port > 7 ==> mmap_spec(m, start, len, port) == (-1isize, m),
        start % 4096 == 0 && 1 <= port <= 7 ==> ({
            let lo = start as int / 4096;
            let hi = (start + len + 4095) / 4096;
            let (r, m2) = mmap_spec(m, start, len, port);
            &&& r == 0 || r == -1
            &&& r == 0 <==> (forall|v: usize| lo <= v < hi ==> !#[trigger] m.contains_key(v))
            &&& r == -1 ==> m2 == m
            &&& r == 0 ==> forall|v: usize|
                #![trigger m2.contains_key(v)]
                (m2.contains_key(v) <==> m.contains_key(v) || lo <= v < hi) && (lo <= v < hi
                    ==> m2[v] == (MapPermission {
                    r: port & 1 != 0,
                    w: port & 2 != 0,
                    x: port & 4 != 0,
                    u: true,
                })) && (!(lo <= v < hi) && m.contains_key(v) ==> m2[v] == m[v])
        }),
{
    lemma_port_perm_bits(port);
    if start % 4096 == 0 {
        lemma_aligned_page_ceil(start, len);
    }
}

/// Which children a pid argument of `waitpid` selects: all of them for -1,
/// otherwise the child whose pid it is.
pub proof fn lemma_pid_selects_meaning(pid: isize, child: usize)
    requires
        child <= isize::MAX,
    ensures
        pid_selects(pid, child) <==> (pid == -1 || pid == child as isize),
{
    assert(((pid as usize) as isize) == pid) by (bit_vector);
    let ci = child as isize;
    assert(ci as int == child as int);
}

/// `waitpid` finds a selected child exactly when some child is the pid asked
/// for, or any child is there when -1 is asked for.
pub proof fn lemma_has_selected_meaning(children: Seq<usize>, pid: isize)
    requires
        forall|k: int| 0 <= k < children.len() ==> #[trigger] children[k] <= isize::MAX,
    ensures
        has_selected(children, pid) <==> (pid == -1 && children.len() > 0) || (exists|k: int|
            0 <= k < children.len() && #[trigger] children[k] as isize == pid),
{
    if has_selected(children, pid) {
        let k = choose|k: int| 0 <= k < children.len() && #[trigger] pid_selects(pid, children[k]);
        lemma_pid_selects_meaning(pid, children[k]);
    }
    if pid == -1 && children.len() > 0 {
        assert(pid_selects(pid, children[0]));
    }
    if exists|k: int| 0 <= k < children.len() && #[trigger] children[k] as isize == pid {
        let k = choose|k: int| 0 <= k < children.len() && #[trigger] children[k] as isize == pid;
        lemma_pid_selects_meaning(pid, children[k]);
        assert(pid_selects(pid, children[k]));
    }
}

/// The child that `waitpid` collects: it is selected by `pid`, it has exited,
/// and every earlier child in the list is unselected or still alive.
pub proof fn lemma_first_collectable_meaning(
    children: Seq<usize>,
    tasks: Seq<TaskControlBlock>,
    pid: isize,
    k: int,
)
    ensures
        first_collectable(children, tasks, pid, k) <==> {
            &&& 0 <= k < children.len()
            &&& (pid == -1 || pid as usize == children[k])
            &&& tasks[children[k] as int].task_status == TaskStatus::Exited
            &&& forall|j: int|
                0 <= j < k ==> !((pid == -1 || pid as usize == #[trigger] children[j])
                    && tasks[children[j] as int].task_status == TaskStatus::Exited)
        },
{
    if first_collectable(children, tasks, pid, k) {
        assert forall|j: int|
            0 <= j < k implies !((pid == -1 || pid as usize == #[trigger] children[j])
                && tasks[children[j] as int].task_status == TaskStatus::Exited) by {
            assert(!collectable(children, tasks, pid, j));
        }
    }
}

/// What `sbrk` does to a heap end `brk` with bottom `bottom`: it is refused
/// exactly when the end would fall below the bottom, whatever the size of the
/// move; otherwise the new end is `brk + size`.
pub proof fn lemma_sbrk_meaning(brk: usize, bottom: usize, size: int)
    requires
        isize::MIN <= brk as isize + size <= isize::MAX,
    ensures
        brk_after(brk, bottom, size).is_none() <==> brk as isize + size < bottom as isize,
        brk_after(brk, bottom, size) matches Some(b) ==> b as isize == brk as isize + size,
        brk as isize >= 0 && size >= 0 && brk as isize + size >= bottom as isize ==> brk_after(
            brk,
            bottom,
            size,
        ) == Some((brk + size) as usize),
{
    let n = brk as isize + size;
    let ni = n as isize;
    assert(ni == n);
    assert((ni as usize) as isize == ni) by (bit_vector);
    if brk as isize >= 0 && size >= 0 {
        let bi = brk as isize;
        assert(bi >= 0 ==> bi as usize == brk) by (bit_vector)
            requires
                bi == brk as isize,
        ;
        assert(ni >= 0 ==> (ni as usize) as int == ni as int) by (bit_vector);
    }
}

/// Only the current task's address space differs between `old` and `new`.
pub open spec fn only_memory_changed(old: Kernel, new: Kernel) -> bool {
    &&& new.processor@ == old.processor@
    &&& new.manager@ == old.manager@
    &&& new.tasks@ == old.tasks@.update(
        old.cur() as int,
        TaskControlBlock { memory_set: new.cur_task().memory_set, ..old.cur_task() },
    )
}

proof fn lemma_aligned_page_ceil(start: usize, len: usize)
    requires
        start % PAGE_SIZE == 0,
        start + len <= usize::MAX,
    ensures
        page_floor(start as int) == first_vpn(start),
        page_ceil(start + len) == end_vpn(start, len),
        end_vpn(start, len) <= usize::MAX,
{
    let s = start as int;
    let l = len as int;
    assert((s + l + 4095) / 4096 == s / 4096 + (l + 4095) / 4096) by (nonlinear_arith)
        requires
            s % 4096 == 0,
            s >= 0,
            l >= 0,
    ;
    assert(s / 4096 + (l + 4095) / 4096 <= usize::MAX) by (nonlinear_arith)
        requires
            s % 4096 == 0,
            s >= 0,
            l >= 0,
            s + l <= usize::MAX,
            (s + l + 4095) / 4096 == s / 4096 + (l + 4095) / 4096,
    ;
}

/// Maps the pages of `[start, start + len)` in the current task's address
/// space with the rights that `port` asks for; returns 0, or -1 when refused
/// (see `mmap_spec`).
pub fn sys_mmap(kernel: &mut Kernel, start: usize, len: usize, port: usize) -> (r: isize)
    requires
        old(kernel).running(),
        start + len <= usize::MAX,
        start % PAGE_SIZE == 0 && port_valid(port) ==> len + PAGE_SIZE <= usize::MAX,
    ensures
        final(kernel).running(),
        only_memory_changed(*old(kernel), *final(kernel)),
        (r, final(kernel).cur_task().memory_set@) == mmap_spec(
            old(kernel).cur_task().memory_set@,
            start,
            len,
            port,
        ),
{
    if start % PAGE_SIZE != 0 {
        assert(kernel.tasks@ =~= old(kernel).tasks@.update(old(kernel).cur() as int, old(kernel).cur_task()));
        return -1;
    }
    proof {
        lemma_port_valid_iff_low_bits(port);
        lemma_port_perm_bits(port);
    }
    if port & !0x7 != 0 || port & 0x7 == 0 {
        assert(kernel.tasks@ =~= old(kernel).tasks@.update(old(kernel).cur() as int, old(kernel).cur_task()));
        return -1;
    }
    proof {
        lemma_aligned_page_ceil(start, len);
    }
    let c = kernel.processor.current().unwrap();
    let count = (len + PAGE_SIZE - 1) / PAGE_SIZE;
    let first = start / PAGE_SIZE;
    let ghost m = kernel.cur_task().memory_set@;
    let mut i: usize = 0;
    while i < count
        invariant
            *kernel == *old(kernel),
            kernel.running(),
            kernel.processor@ == Some(c),
            m == kernel.cur_task().memory_set@,
            first == first_vpn(start),
            first + count == end_vpn(start, len),
            end_vpn(start, len) <= usize::MAX,
            i <= count,
            range_unmapped(m, first as int, first + i),
        decreases count - i,
    {
        if kernel.tasks[c].memory_set.translate(first + i).is_some() {
            assert(kernel.tasks@ =~= old(kernel).tasks@.update(old(kernel).cur() as int, old(kernel).cur_task()));
            return -1;
        }
        i = i + 1;
    }
    let perm = MapPermission { r: port & 0x1 != 0, w: port & 0x2 != 0, x: port & 0x4 != 0, u: true };
    insert_framed_area(kernel, start, start + len, perm);
    0
}

/// Unmaps the pages of `[start, start + len)` in the current task's address
/// space; returns 0, or -1 when refused (see `munmap_spec`).
pub fn sys_munmap(kernel: &mut Kernel, start: usize, len: usize) -> (r: isize)
    requires
        old(kernel).running(),
        start + len <= usize::MAX,
        start % PAGE_SIZE == 0 ==> len + PAGE_SIZE <= usize::MAX,
    ensures
        final(kernel).running(),
        only_memory_changed(*old(kernel), *final(kernel)),
        (r, final(kernel).cur_task().memory_set@) == munmap_spec(
            old(kernel).cur_task().memory_set@,
            start,
            len,
        ),
{
    if start % PAGE_SIZE != 0 {
        assert(kernel.tasks@ =~= old(kernel).tasks@.update(old(kernel).cur() as int, old(kernel).cur_task()));
        return -1;
    }
    proof {
        lemma_aligned_page_ceil(start, len);
    }
    let c = kernel.processor.current().unwrap();
    let count = (len + PAGE_SIZE - 1) / PAGE_SIZE;
    let first = start / PAGE_SIZE;
    let ghost m = kernel.cur_task().memory_set@;
    let mut i: usize = 0;
    while i < count
        invariant
            *kernel == *old(kernel),
            kernel.running(),
            kernel.processor@ == Some(c),
            m == kernel.cur_task().memory_set@,
            first == first_vpn(start),
            first + count == end_vpn(start, len),
            end_vpn(start, len) <= usize::MAX,
            i <= count,
            range_mapped(m, first as int, first + i),
        decreases count - i,
    {
        if kernel.tasks[c].memory_set.translate(first + i).is_none() {
            assert(kernel.tasks@ =~= old(kernel).tasks@.update(old(kernel).cur() as int, old(kernel).cur_task()));
            return -1;
        }
        i = i + 1;
    }
    remove_framed_area(kernel, start, start + len);
    0
}

} // verus!
