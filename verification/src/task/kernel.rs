//! The task table and the scheduler state, with the invariant that ties them.
use vstd::prelude::*;

use crate::task::manager::{queue_in_table, TaskManager};
use crate::task::processor::Processor;
use crate::mm::MapPermission;
use crate::task::task::{is_init_context, no_syscalls, AppImage, TaskControlBlock, TaskStatus, TrapContext};

verus! {

/// What each entry `t` of the table, at index `p`, keeps: it holds pid `p`;
/// it lists no child twice and is not its own parent; a vacant entry has no
/// links; only the current task runs; and its heap ends at or above its bottom
/// (addresses compared as signed values).
pub open spec fn task_ok(t: TaskControlBlock, p: int, current: Option<usize>) -> bool {
    &&& t.pid == p
    &&& t.children@.no_duplicates()
    &&& t.parent != Some(p as usize)
    &&& t.task_status == TaskStatus::UnInit ==> t.parent.is_none() && t.children@.len() == 0
    &&& t.task_status == TaskStatus::Running ==> current == Some(p as usize)
    &&& t.program_brk as isize >= t.heap_bottom as isize
}

/// Every entry of the table is as `task_ok` says.
pub open spec fn tasks_ok(tasks: Seq<TaskControlBlock>, current: Option<usize>) -> bool {
    forall|p: int| 0 <= p < tasks.len() ==> task_ok(#[trigger] tasks[p], p, current)
}

/// The initial process, pid 0, is present and has no parent.
pub open spec fn init_ok(tasks: Seq<TaskControlBlock>) -> bool {
    &&& tasks.len() >= 1
    &&& tasks[0].parent.is_none()
    &&& tasks[0].task_status != TaskStatus::UnInit
}

/// Every child pid indexes the table, and that child names its parent back.
pub open spec fn children_valid(tasks: Seq<TaskControlBlock>) -> bool {
    forall|p: int, k: int|
        0 <= p < tasks.len() && 0 <= k < tasks[p].children@.len() ==> {
            &&& #[trigger] tasks[p].children@[k] < tasks.len()
            &&& tasks[tasks[p].children@[k] as int].parent == Some(p as usize)
        }
}

/// `s` with `t` placed at index `i`: over the entry there, or appended when
/// `i` is the length of `s`.
pub open spec fn placed(s: Seq<TaskControlBlock>, i: int, t: TaskControlBlock) -> Seq<TaskControlBlock> {
    if i < s.len() {
        s.update(i, t)
    } else {
        s.push(t)
    }
}

/// `a` and `b` agree on everything the kernel invariant looks at: pid,
/// parent, children and status.
pub open spec fn same_links(a: TaskControlBlock, b: TaskControlBlock) -> bool {
    &&& a.pid == b.pid
    &&& a.parent == b.parent
    &&& a.children == b.children
    &&& a.task_status == b.task_status
}

/// The ready queue holds distinct pids of ready tasks.
pub open spec fn queue_valid(q: Seq<usize>, tasks: Seq<TaskControlBlock>) -> bool {
    &&& queue_in_table(q, tasks)
    &&& q.no_duplicates()
    &&& forall|i: int| 0 <= i < q.len() ==> #[trigger] tasks[q[i] as int].task_status == TaskStatus::Ready
}

/// The current task, if any, is a running task that is not queued.
pub open spec fn current_valid(
    current: Option<usize>,
    q: Seq<usize>,
    tasks: Seq<TaskControlBlock>,
) -> bool {
    current matches Some(c) ==> {
        &&& c < tasks.len()
        &&& tasks[c as int].task_status == TaskStatus::Running
        &&& !q.contains(c)
    }
}

/// A table whose entries keep their pid, parent, children and status, and
/// whose heaps stay at or above their bottoms, keeps `tasks_ok`, `init_ok` and
/// `children_valid`.
pub proof fn lemma_table_kept(
    o: Seq<TaskControlBlock>,
    t: Seq<TaskControlBlock>,
    current: Option<usize>,
)
    requires
        tasks_ok(o, current),
        init_ok(o),
        children_valid(o),
        t.len() == o.len(),
        forall|p: int| 0 <= p < o.len() ==> same_links(#[trigger] t[p], o[p]),
        forall|p: int| 0 <= p < o.len() ==> #[trigger] t[p].program_brk as isize >= t[p].heap_bottom as isize,
    ensures
        tasks_ok(t, current),
        init_ok(t),
        children_valid(t),
{
    assert forall|p: int| 0 <= p < t.len() implies task_ok(#[trigger] t[p], p, current) by {
        assert(same_links(t[p], o[p]));
        assert(task_ok(o[p], p, current));
    }
    assert(same_links(t[0], o[0]));
    assert forall|p: int, k: int|
        0 <= p < t.len() && 0 <= k < t[p].children@.len() implies {
            &&& #[trigger] t[p].children@[k] < t.len()
            &&& t[t[p].children@[k] as int].parent == Some(p as usize)
        } by {
        assert(same_links(t[p], o[p]));
        assert(o[p].children@[k] < t.len());
        assert(same_links(t[o[p].children@[k] as int], o[o[p].children@[k] as int]));
    }
}

/// `t` with `parent` as its parent.
pub open spec fn with_parent(t: TaskControlBlock, parent: usize) -> TaskControlBlock {
    TaskControlBlock { parent: Some(parent), ..t }
}

/// The state left by `exit_current_and_run_next` keeps the invariant.
proof fn lemma_exit_keeps_wf(old: Kernel, new: Kernel, exit_code: i32)
    requires
        old.running(),
        new.processor@.is_none(),
        new.manager@ == old.manager@,
        new.tasks@.len() == old.tasks@.len(),
        ({
            let c = old.cur() as int;
            let ot = old.tasks@;
            let nt = new.tasks@;
            let ch = ot[c].children@;
            &&& nt[c] == TaskControlBlock {
                task_status: TaskStatus::Exited,
                exit_code,
                children: nt[c].children,
                memory_set: nt[c].memory_set,
                ..ot[c]
            }
            &&& c != 0 ==> {
                &&& nt[c].children@.len() == 0
                &&& nt[0] == TaskControlBlock { children: nt[0].children, ..ot[0] }
                &&& nt[0].children@ == ot[0].children@ + ch
            }
            &&& c == 0 ==> nt[c].children@ == ch
            &&& forall|p: int|
                0 <= p < ot.len() && p != c && p != 0 ==> #[trigger] nt[p] == (if c != 0 && ch.contains(
                    p as usize,
                ) {
                    with_parent(ot[p], 0)
                } else {
                    ot[p]
                })
        }),
    ensures
        new.wf(),
{
    let c = old.cur() as int;
    let ot = old.tasks@;
    let nt = new.tasks@;
    let ch = ot[c].children@;
    let o0 = ot[0].children@;
    assert(task_ok(ot[c], c, old.processor@));
    assert(task_ok(ot[0], 0, old.processor@));
    // the exiting task's children, and those of the initial process
    assert forall|j: int| 0 <= j < ch.len() implies #[trigger] ch[j] < ot.len() && ch[j] != 0 && ch[j] != c
        && ot[ch[j] as int].parent == Some(c as usize) by {
        assert(ot[c].children@[j] == ch[j]);
    }
    assert forall|j: int| 0 <= j < o0.len() implies #[trigger] o0[j] < ot.len() && o0[j] != 0
        && ot[o0[j] as int].parent == Some(0usize) by {
        assert(ot[0].children@[j] == o0[j]);
    }
    // entries other than c and 0 keep their links but the parent
    assert forall|p: int| 0 <= p < ot.len() && p != c && p != 0 implies {
        &&& #[trigger] nt[p].pid == ot[p].pid
        &&& nt[p].children == ot[p].children
        &&& nt[p].task_status == ot[p].task_status
        &&& nt[p].program_brk == ot[p].program_brk
        &&& nt[p].heap_bottom == ot[p].heap_bottom
        &&& (nt[p].parent == ot[p].parent || (c != 0 && ch.contains(p as usize) && nt[p].parent == Some(0usize)))
        &&& (c != 0 && ch.contains(p as usize) ==> nt[p].parent == Some(0usize))
        &&& (!(c != 0 && ch.contains(p as usize)) ==> nt[p].parent == ot[p].parent)
    } by {
        assert(nt[p] == (if c != 0 && ch.contains(p as usize) {
            with_parent(ot[p], 0)
        } else {
            ot[p]
        }));
    }
    if c != 0 {
        assert(!o0.contains(c as usize) || ot[c].parent == Some(0usize));
        assert forall|a: int, b: int| 0 <= a < o0.len() && 0 <= b < ch.len() implies o0[a] != ch[b] by {
            assert(ot[o0[a] as int].parent == Some(0usize));
            assert(ot[ch[b] as int].parent == Some(c as usize));
        }
        assert((o0 + ch).no_duplicates()) by {
            assert(o0.no_duplicates());
            assert(ch.no_duplicates());
            assert forall|a: int, b: int| 0 <= a < b < (o0 + ch).len() implies (o0 + ch)[a] != (o0 + ch)[b] by {
                if b < o0.len() {
                } else if a >= o0.len() {
                    assert((o0 + ch)[a] == ch[a - o0.len()]);
                    assert((o0 + ch)[b] == ch[b - o0.len()]);
                } else {
                    assert((o0 + ch)[b] == ch[b - o0.len()]);
                }
            }
        }
    }
    assert forall|p: int| 0 <= p < nt.len() implies task_ok(#[trigger] nt[p], p, new.processor@) by {
        assert(task_ok(ot[p], p, old.processor@));
        if p == c {
        } else if p == 0 {
        } else {
            if c != 0 && ch.contains(p as usize) {
                let j = choose|j: int| 0 <= j < ch.len() && ch[j] == p as usize;
                assert(ot[ch[j] as int].parent == Some(c as usize));
            }
        }
    }
    assert forall|p: int, k: int|
        0 <= p < nt.len() && 0 <= k < nt[p].children@.len() implies {
            &&& #[trigger] nt[p].children@[k] < nt.len()
            &&& nt[nt[p].children@[k] as int].parent == Some(p as usize)
        } by {
        if p == c && c != 0 {
        } else if p == 0 && c != 0 {
            let e = nt[0].children@[k];
            if k < o0.len() {
                assert(e == o0[k]);
                assert(ot[e as int].parent == Some(0usize));
                if e as int != c {
                    assert(!ch.contains(e)) by {
                        if ch.contains(e) {
                            let j = choose|j: int| 0 <= j < ch.len() && ch[j] == e;
                            assert(ot[ch[j] as int].parent == Some(c as usize));
                        }
                    }
                }
            } else {
                assert(e == ch[k - o0.len()]);
                assert(ch.contains(e));
            }
        } else {
            assert(nt[p].children@ == ot[p].children@);
            let e = ot[p].children@[k];
            assert(nt[p].children@[k] == e);
            assert(e < ot.len() && ot[e as int].parent == Some(p as usize));
            assert(e as int != 0) by {
                if e == 0 {
                    assert(ot[0].parent.is_none());
                }
            }
            if e as int != c {
                if c != 0 && ch.contains(e) {
                    let j = choose|j: int| 0 <= j < ch.len() && ch[j] == e;
                    assert(ot[ch[j] as int].parent == Some(c as usize));
                }
            }
        }
    }
    let q = new.manager@;
    assert forall|i: int| 0 <= i < q.len() implies #[trigger] nt[q[i] as int].task_status == TaskStatus::Ready by {
        assert(ot[q[i] as int].task_status == TaskStatus::Ready);
        assert(q[i] != c);
    }
}

/// Handing a task to a new parent changes its parent and nothing else.
pub proof fn lemma_with_parent_meaning(t: TaskControlBlock, parent: usize)
    ensures
        with_parent(t, parent).parent == Some(parent),
        with_parent(t, parent) == (TaskControlBlock { parent: Some(parent), ..t }),
        with_parent(t, parent).children == t.children,
        with_parent(t, parent).task_status == t.task_status,
        with_parent(t, parent).pid == t.pid,
{
}

/// Placing an entry at index `i` of a table puts it there and leaves every
/// other entry; the table grows only when `i` is its length.
pub proof fn lemma_placed_meaning(s: Seq<TaskControlBlock>, i: int, t: TaskControlBlock)
    requires
        0 <= i <= s.len(),
    ensures
        placed(s, i, t)[i] == t,
        placed(s, i, t).len() == (if i < s.len() { s.len() } else { s.len() + 1 }),
        forall|j: int| 0 <= j < s.len() && j != i ==> #[trigger] placed(s, i, t)[j] == s[j],
{
}

/// The whole state of task management: the task table, indexed by pid, the
/// ready queue and the processor.
pub struct Kernel {
    pub tasks: Vec<TaskControlBlock>,
    pub manager: TaskManager,
    pub processor: Processor,
}

impl Kernel {
    /// The invariant kept by every operation.
    pub open spec fn wf(&self) -> bool {
        &&& self.tasks@.len() <= isize::MAX
        &&& tasks_ok(self.tasks@, self.processor@)
        &&& init_ok(self.tasks@)
        &&& children_valid(self.tasks@)
        &&& queue_valid(self.manager@, self.tasks@)
        &&& current_valid(self.processor@, self.manager@, self.tasks@)
    }

    /// Pid of the current task.
    pub open spec fn cur(&self) -> usize {
        self.processor@->Some_0
    }

    /// The current task's control block.
    pub open spec fn cur_task(&self) -> TaskControlBlock {
        self.tasks@[self.cur() as int]
    }

    /// A change to the tasks that leaves every task's pid, parent, children
    /// and status, the queue and the processor as they were, and every heap
    /// at or above its bottom, keeps the invariant.
    pub proof fn lemma_wf_kept(old: Kernel, new: Kernel)
        requires
            old.wf(),
            new.manager@ == old.manager@,
            new.processor@ == old.processor@,
            new.tasks@.len() == old.tasks@.len(),
            forall|p: int| 0 <= p < old.tasks@.len() ==> same_links(#[trigger] new.tasks@[p], old.tasks@[p]),
            forall|p: int| 0 <= p < old.tasks@.len() ==> #[trigger] new.tasks@[p].program_brk as isize
                >= new.tasks@[p].heap_bottom as isize,
        ensures
            new.wf(),
    {
        lemma_table_kept(old.tasks@, new.tasks@, old.processor@);
        let t = new.tasks@;
        let o = old.tasks@;
        let q = new.manager@;
        assert forall|i: int| 0 <= i < q.len() implies #[trigger] t[q[i] as int].task_status
            == TaskStatus::Ready by {
            assert(same_links(t[q[i] as int], o[q[i] as int]));
        }
        match new.processor@ {
            Some(c) => {
                assert(same_links(t[c as int], o[c as int]));
            },
            None => {},
        }
    }

    /// The invariant holds and a task is running.
    pub open spec fn running(&self) -> bool {
        self.wf() && self.processor@.is_some()
    }

    /// A kernel whose only task is the ready initial process, pid 0, running
    /// `init`, scheduled with stride step `pass`.
    pub fn new(init: AppImage, pass: usize) -> (k: Self)
        ensures
            k.wf(),
            k.tasks@.len() == 1,
            k.manager@ == seq![0usize],
            k.processor@.is_none(),
            k.tasks@[0].pid == 0,
            k.tasks@[0].parent.is_none(),
            k.tasks@[0].children@.len() == 0,
            k.tasks@[0].task_status == TaskStatus::Ready,
            k.tasks@[0].exit_code == 0,
            k.tasks@[0].stride == 0,
            k.tasks@[0].pass == pass,
            k.tasks@[0].first_time_run == 0,
            no_syscalls(k.tasks@[0].syscall_times),
            k.tasks@[0].memory_set@ == init.memory_set@,
            k.tasks@[0].heap_bottom == init.user_sp,
            k.tasks@[0].program_brk == init.user_sp,
            is_init_context(k.tasks@[0].trap_cx, init.entry_point, init.user_sp),
    {
        let tcb = TaskControlBlock::new(init, 0, pass);
        let mut tasks: Vec<TaskControlBlock> = Vec::new();
        tasks.push(tcb);
        let mut manager = TaskManager::new();
        manager.add(0);
        let k = Kernel { tasks, manager, processor: Processor::new() };
        assert(k.manager@ =~= seq![0usize]);
        k
    }

    /// Puts the current task back at the end of the ready queue, ready, and
    /// leaves the processor without a current task.
    pub fn suspend_current_and_run_next(&mut self)
        requires
            old(self).running(),
        ensures
            final(self).wf(),
            final(self).processor@.is_none(),
            final(self).manager@ == old(self).manager@.push(old(self).cur()),
            final(self).tasks@ == old(self).tasks@.update(
                old(self).cur() as int,
                TaskControlBlock { task_status: TaskStatus::Ready, ..old(self).cur_task() },
            ),
    {
        let c = self.processor.take_current().unwrap();
        self.tasks[c].task_status = TaskStatus::Ready;
        self.manager.add(c);
        proof {
            let q0 = old(self).manager@;
            let q = self.manager@;
            assert forall|i: int, j: int| 0 <= i < j < q.len() implies q[i] != q[j] by {
                if j == q.len() - 1 {
                    assert(q0[i] == q[i]);
                }
            }
            assert forall|i: int| 0 <= i < q.len() implies #[trigger] q[i] < self.tasks@.len()
                && self.tasks@[q[i] as int].task_status == TaskStatus::Ready by {
                if i < q.len() - 1 {
                    assert(q0[i] == q[i]);
                }
            }
        }
    }

    /// Ends the current task: it is marked exited with `exit_code`, its pages
    /// are released, and, unless it is the initial process (pid 0), its
    /// children are handed to the initial process, appended in their order to
    /// its children. Leaves the processor without a current task.
    pub fn exit_current_and_run_next(&mut self, exit_code: i32)
        requires
            old(self).running(),
        ensures
            final(self).wf(),
            final(self).processor@.is_none(),
            final(self).manager@ == old(self).manager@,
            final(self).tasks@.len() == old(self).tasks@.len(),
            ({
                let c = old(self).cur() as int;
                let ot = old(self).tasks@;
                let nt = final(self).tasks@;
                let ch = ot[c].children@;
                &&& nt[c] == TaskControlBlock {
                    task_status: TaskStatus::Exited,
                    exit_code,
                    children: nt[c].children,
                    memory_set: nt[c].memory_set,
                    ..ot[c]
                }
                &&& nt[c].memory_set@ == Map::<usize, MapPermission>::empty()
                &&& c != 0 ==> {
                    &&& nt[c].children@.len() == 0
                    &&& nt[0] == TaskControlBlock { children: nt[0].children, ..ot[0] }
                    &&& nt[0].children@ == ot[0].children@ + ch
                }
                &&& c == 0 ==> nt[c].children@ == ch
                &&& forall|p: int|
                    0 <= p < ot.len() && p != c && p != 0 ==> #[trigger] nt[p] == (if c != 0
                        && ch.contains(p as usize) {
                        with_parent(ot[p], 0)
                    } else {
                        ot[p]
                    })
            }),
    {
        let c = self.processor.take_current().unwrap();
        let ghost ot = self.tasks@;
        let ghost ch = ot[c as int].children@;
        let ghost cur = c as int;
        proof {
            assert(task_ok(ot[cur], cur, old(self).processor@));
            assert forall|j: int| 0 <= j < ch.len() implies #[trigger] ch[j] < ot.len() && ch[j] != 0
                && ch[j] != c && ot[ch[j] as int].parent == Some(c) by {
                assert(ot[cur].children@[j] == ch[j]);
            }
        }
        if c != 0 {
            let n = self.tasks[c].children.len();
            let mut i: usize = 0;
            while i < n
                invariant
                    self.tasks@.len() == ot.len(),
                    ot.len() <= isize::MAX,
                    self.processor@.is_none(),
                    self.manager@ == old(self).manager@,
                    c != 0,
                    cur == c as int,
                    c < ot.len(),
                    ch == ot[cur].children@,
                    n == ch.len(),
                    i <= n,
                    ch.no_duplicates(),
                    forall|j: int| 0 <= j < ch.len() ==> #[trigger] ch[j] < ot.len() && ch[j] != 0
                        && ch[j] != c,
                    self.tasks@[cur] == ot[cur],
                    self.tasks@[0] == (TaskControlBlock { children: self.tasks@[0].children, ..ot[0] }),
                    self.tasks@[0].children@ == ot[0].children@ + ch.take(i as int),
                    forall|p: int|
                        0 <= p < ot.len() && p != cur && p != 0 ==> #[trigger] self.tasks@[p] == (if ch.take(
                            i as int,
                        ).contains(p as usize) {
                            with_parent(ot[p], 0)
                        } else {
                            ot[p]
                        }),
                decreases n - i,
            {
                let k = self.tasks[c].children[i];
                let ghost before = self.tasks@;
                proof {
                    assert(k == ch[i as int]);
                    assert(!ch.take(i as int).contains(k)) by {
                        if ch.take(i as int).contains(k) {
                            let j = choose|j: int| 0 <= j < i && ch.take(i as int)[j] == k;
                            assert(ch[j] == ch[i as int]);
                        }
                    }
                    assert(before[k as int] == ot[k as int]);
                }
                self.tasks[k].parent = Some(0);
                self.tasks[0].children.push(k);
                proof {
                    let ni = (i + 1) as int;
                    assert(ch.take(ni) =~= ch.take(i as int).push(k));
                    assert(self.tasks@[0].children@ =~= ot[0].children@ + ch.take(ni));
                    assert(self.tasks@[k as int] == with_parent(ot[k as int], 0));
                    assert forall|p: int|
                        0 <= p < ot.len() && p != cur && p != 0 implies #[trigger] self.tasks@[p] == (if ch.take(
                            ni,
                        ).contains(p as usize) {
                            with_parent(ot[p], 0)
                        } else {
                            ot[p]
                        }) by {
                        if p != k as int {
                            assert(self.tasks@[p] == before[p]);
                            let pu = p as usize;
                            assert(pu as int == p);
                            assert(ch.take(ni).contains(pu) == ch.take(i as int).contains(pu)) by {
                                if ch.take(ni).contains(pu) {
                                    let j = choose|j: int| 0 <= j < ni && ch.take(ni)[j] == pu;
                                    assert(ch.take(ni)[j] == ch[j]);
                                    if j < i {
                                        assert(ch.take(i as int)[j] == ch[j]);
                                    } else {
                                        assert(ch[j] == k);
                                    }
                                }
                                if ch.take(i as int).contains(pu) {
                                    let j = choose|j: int| 0 <= j < i && ch.take(i as int)[j] == pu;
                                    assert(ch.take(i as int)[j] == ch[j]);
                                    assert(ch.take(ni)[j] == ch[j]);
                                }
                            }
                        } else {
                            assert(ch.take(ni)[i as int] == k);
                        }
                    }
                }
                i = i + 1;
            }
            self.tasks[c].children = Vec::new();
            proof {
                assert(ch.take(n as int) =~= ch);
            }
        }
        self.tasks[c].task_status = TaskStatus::Exited;
        self.tasks[c].exit_code = exit_code;
        self.tasks[c].memory_set.recycle_data_pages();
        proof {
            lemma_exit_keeps_wf(*old(self), *self, exit_code);
        }
    }

    /// Creates a child of the current task: a copy of its address space,
    /// heap, registers and pass, with stride 0, no children, no system calls
    /// counted, never run, ready but not yet queued. Its pid is the lowest
    /// one whose entry is vacant, or the next index of the table when none
    /// is. Returns the child's pid.
    pub fn fork(&mut self) -> (child: usize)
        requires
            old(self).running(),
            old(self).tasks@.len() < isize::MAX,
        ensures
            final(self).wf(),
            child <= old(self).tasks@.len(),
            forall|j: int| 0 <= j < child ==> #[trigger] old(self).tasks@[j].task_status != TaskStatus::UnInit,
            child < old(self).tasks@.len() ==> old(self).tasks@[child as int].task_status == TaskStatus::UnInit,
            final(self).processor@ == old(self).processor@,
            final(self).manager@ == old(self).manager@,
            final(self).tasks@ == placed(
                old(self).tasks@.update(
                    old(self).cur() as int,
                    TaskControlBlock {
                        children: final(self).cur_task().children,
                        ..old(self).cur_task()
                    },
                ),
                child as int,
                final(self).tasks@[child as int],
            ),
            final(self).cur_task().children@ == old(self).cur_task().children@.push(child),
            ({
                let p = old(self).cur_task();
                let t = final(self).tasks@[child as int];
                &&& t == TaskControlBlock {
                    pid: child,
                    parent: Some(old(self).cur()),
                    children: t.children,
                    task_status: TaskStatus::Ready,
                    exit_code: 0,
                    stride: 0,
                    pass: p.pass,
                    first_time_run: 0,
                    syscall_times: t.syscall_times,
                    memory_set: t.memory_set,
                    heap_bottom: p.heap_bottom,
                    program_brk: p.program_brk,
                    trap_cx: p.trap_cx,
                }
                &&& t.children@.len() == 0
                &&& no_syscalls(t.syscall_times)
                &&& t.memory_set@ == p.memory_set@
            }),
    {
        let c = self.processor.current().unwrap();
        let n = self.tasks.len();
        let mut child: usize = 0;
        while child < n && self.tasks[child].task_status != TaskStatus::UnInit
            invariant
                n == self.tasks@.len(),
                child <= n,
                forall|j: int| 0 <= j < child ==> #[trigger] self.tasks@[j].task_status != TaskStatus::UnInit,
            decreases n - child,
        {
            child = child + 1;
        }
        let ghost o = self.tasks@;
        let ghost cur = c as int;
        proof {
            assert(task_ok(o[cur], cur, self.processor@));
            assert(o[cur].task_status == TaskStatus::Running);
        }
        let memory_set = self.tasks[c].memory_set.duplicate();
        let tcb = TaskControlBlock {
            pid: child,
            parent: Some(c),
            children: Vec::new(),
            task_status: TaskStatus::Ready,
            exit_code: 0,
            stride: 0,
            pass: self.tasks[c].pass,
            first_time_run: 0,
            syscall_times: [0u32; crate::config::MAX_SYSCALL_NUM],
            memory_set,
            heap_bottom: self.tasks[c].heap_bottom,
            program_brk: self.tasks[c].program_brk,
            trap_cx: self.tasks[c].trap_cx,
        };
        self.tasks[c].children.push(child);
        let ghost mid = self.tasks@;
        if child < n {
            self.tasks[child] = tcb;
        } else {
            self.tasks.push(tcb);
        }
        proof {
            let ts = self.tasks@;
            let m = ts.len();
            let z = child as int;
            assert(z != cur);
            // the new pid is referenced nowhere yet
            assert forall|p: int, k: int|
                0 <= p < n && 0 <= k < o[p].children@.len() implies #[trigger] o[p].children@[k] != child by {
                if z < n as int {
                    assert(task_ok(o[z], z, self.processor@));
                    assert(o[o[p].children@[k] as int].parent == Some(p as usize));
                }
            }
            let ch0 = o[cur].children@;
            assert(!ch0.contains(child)) by {
                if ch0.contains(child) {
                    let j = choose|j: int| 0 <= j < ch0.len() && ch0[j] == child;
                    assert(ch0[j] != child);
                }
            }
            assert(ts[cur].children@ == ch0.push(child));
            assert forall|p: int| 0 <= p < m implies task_ok(#[trigger] ts[p], p, self.processor@) by {
                if p == z {
                } else if p == cur {
                    assert(task_ok(o[p], p, self.processor@));
                    assert(ch0.no_duplicates());
                } else {
                    assert(ts[p] == o[p]);
                    assert(task_ok(o[p], p, self.processor@));
                }
            }
            if z == 0 {
                assert(o[0].task_status != TaskStatus::UnInit);
            }
            assert forall|p: int, k: int|
                0 <= p < m && 0 <= k < ts[p].children@.len() implies {
                    &&& #[trigger] ts[p].children@[k] < m
                    &&& ts[ts[p].children@[k] as int].parent == Some(p as usize)
                } by {
                if p == z {
                } else if p == cur {
                    if k < ts[p].children@.len() - 1 {
                        assert(ts[p].children@[k] == ch0[k]);
                        assert(ch0[k] != child);
                    }
                } else {
                    assert(ts[p] == o[p]);
                    assert(o[p].children@[k] != child);
                    if o[p].children@[k] == c {
                        assert(o[cur].parent == Some(p as usize));
                    }
                }
            }
            let q = self.manager@;
            assert forall|i: int| 0 <= i < q.len() implies #[trigger] ts[q[i] as int].task_status
                == TaskStatus::Ready by {
                assert(o[q[i] as int].task_status == TaskStatus::Ready);
                if q[i] == child {
                    assert(o[z].task_status == TaskStatus::UnInit);
                }
            }
            if child < n {
                assert(ts =~= placed(o.update(cur, TaskControlBlock { children: ts[cur].children, ..o[cur] }), z, ts[z]));
            } else {
                assert(ts =~= placed(o.update(cur, TaskControlBlock { children: ts[cur].children, ..o[cur] }), z, ts[z]));
            }
        }
        child
    }

    /// Replaces the current task's program by `image`: its address space,
    /// its heap (empty, at the image's stack top) and its registers.
    pub fn exec(&mut self, image: AppImage)
        requires
            old(self).running(),
        ensures
            final(self).wf(),
            final(self).processor@ == old(self).processor@,
            final(self).manager@ == old(self).manager@,
            final(self).tasks@ == old(self).tasks@.update(
                old(self).cur() as int,
                TaskControlBlock {
                    memory_set: final(self).cur_task().memory_set,
                    heap_bottom: image.user_sp,
                    program_brk: image.user_sp,
                    trap_cx: final(self).cur_task().trap_cx,
                    ..old(self).cur_task()
                },
            ),
            final(self).cur_task().memory_set@ == image.memory_set@,
            is_init_context(final(self).cur_task().trap_cx, image.entry_point, image.user_sp),
    {
        let c = self.processor.current().unwrap();
        let trap_cx = TrapContext::app_init_context(image.entry_point, image.user_sp);
        self.tasks[c].memory_set = image.memory_set;
        self.tasks[c].heap_bottom = image.user_sp;
        self.tasks[c].program_brk = image.user_sp;
        self.tasks[c].trap_cx = trap_cx;
    }
}

} // verus!
