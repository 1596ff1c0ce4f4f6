//! The ready queue: a simple FIFO scheduler.
use std::collections::VecDeque;
use vstd::prelude::*;

use crate::task::kernel::{lemma_table_kept, same_links, task_ok, Kernel};
use crate::task::task::{TaskControlBlock, TaskStatus};

verus! {

/// Every pid in the queue `q` indexes the task table `tasks`.
pub open spec fn queue_in_table(q: Seq<usize>, tasks: Seq<TaskControlBlock>) -> bool {
    forall|i: int| 0 <= i < q.len() ==> #[trigger] q[i] < tasks.len()
}

/// The task at the front of the queue, if any, can have its pass added to its
/// stride without overflow.
pub open spec fn front_stride_fits(q: Seq<usize>, tasks: Seq<TaskControlBlock>) -> bool {
    q.len() > 0 ==> tasks[q[0] as int].stride + tasks[q[0] as int].pass <= usize::MAX
}

/// `t` with its stride replaced by `stride`.
pub open spec fn with_stride(t: TaskControlBlock, stride: usize) -> TaskControlBlock {
    TaskControlBlock { stride, ..t }
}

/// `t` with its pass added to its stride: the bookkeeping done for a task
/// each time it is taken out of the ready queue.
pub open spec fn stride_advanced(t: TaskControlBlock) -> TaskControlBlock {
    with_stride(t, (t.stride + t.pass) as usize)
}

/// Taking a task out of the ready queue adds its pass to its stride and
/// changes nothing else of it.
pub proof fn lemma_stride_advanced_meaning(t: TaskControlBlock)
    requires
        t.stride + t.pass <= usize::MAX,
    ensures
        stride_advanced(t).stride == t.stride + t.pass,
        stride_advanced(t) == (TaskControlBlock { stride: stride_advanced(t).stride, ..t }),
{
}

/// First in, first out: after `pid` is added to queue `q`, the next fetch
/// takes the front of `q`, or `pid` itself when `q` was empty, and leaves the
/// rest of `q` followed by `pid`.
pub proof fn lemma_fetch_after_add(q: Seq<usize>, pid: usize)
    ensures
        q.len() == 0 ==> q.push(pid)[0] == pid && q.push(pid).drop_first() == Seq::<usize>::empty(),
        q.len() > 0 ==> q.push(pid)[0] == q[0] && q.push(pid).drop_first() == q.drop_first().push(pid),
{
    assert(q.len() == 0 ==> q.push(pid).drop_first() =~= Seq::<usize>::empty());
    assert(q.len() > 0 ==> q.push(pid).drop_first() =~= q.drop_first().push(pid));
}

/// The queue of ready tasks, by pid, in the order in which they were added.
pub struct TaskManager {
    ready_queue: VecDeque<usize>,
}

impl View for TaskManager {
    type V = Seq<usize>;

    closed spec fn view(&self) -> Seq<usize> {
        self.ready_queue@
    }
}

impl TaskManager {
    /// An empty ready queue.
    pub fn new() -> (m: Self)
        ensures
            m@ == Seq::<usize>::empty(),
    {
        TaskManager { ready_queue: VecDeque::new() }
    }

    /// Adds `pid` at the back of the ready queue.
    pub fn add(&mut self, pid: usize)
        ensures
            final(self)@ == old(self)@.push(pid),
    {
        self.ready_queue.push_back(pid);
    }

    /// The queued pids, front first.
    pub fn ready_pids(&self) -> (v: Vec<usize>)
        ensures
            v@ == self@,
    {
        let mut v: Vec<usize> = Vec::new();
        let mut i: usize = 0;
        while i < self.ready_queue.len()
            invariant
                i <= self@.len(),
                v@ == self@.take(i as int),
            decreases self@.len() - i,
        {
            v.push(self.ready_queue[i]);
            i = i + 1;
            assert(v@ =~= self@.take(i as int));
        }
        assert(self@.take(i as int) =~= self@);
        v
    }

    /// Takes the task at the front of the ready queue (the one added
    /// earliest), adds its pass to its stride, and returns its pid; the other
    /// tasks stay queued in their order. `None` when the queue is empty.
    pub fn fetch(&mut self, tasks: &mut Vec<TaskControlBlock>) -> (res: Option<usize>)
        requires
            queue_in_table(old(self)@, old(tasks)@),
            front_stride_fits(old(self)@, old(tasks)@),
        ensures
            res.is_none() <==> old(self)@.len() == 0,
            res.is_none() ==> final(self)@ == old(self)@ && final(tasks)@ == old(tasks)@,
            res matches Some(pid) ==> {
                &&& pid == old(self)@[0]
                &&& final(self)@ == old(self)@.drop_first()
                &&& final(tasks)@ == old(tasks)@.update(
                    pid as int,
                    stride_advanced(old(tasks)@[pid as int]),
                )
            },
    {
        match self.ready_queue.pop_front() {
            Some(pid) => {
                let ghost t0 = tasks@[pid as int];
                tasks[pid].stride = tasks[pid].stride + tasks[pid].pass;
                assert(tasks@[pid as int] == stride_advanced(t0));
                Some(pid)
            },
            None => None,
        }
    }
}

/// Adds task `pid` at the back of the ready queue. Where the task is ready,
/// not queued yet and the kernel invariant held, it still holds.
pub fn add_task(kernel: &mut Kernel, pid: usize)
    requires
        pid < old(kernel).tasks@.len(),
    ensures
        final(kernel).manager@ == old(kernel).manager@.push(pid),
        final(kernel).tasks@ == old(kernel).tasks@,
        final(kernel).processor@ == old(kernel).processor@,
        old(kernel).wf() && old(kernel).tasks@[pid as int].task_status == TaskStatus::Ready
            && !old(kernel).manager@.contains(pid) ==> final(kernel).wf(),
{
    kernel.manager.add(pid);
    proof {
        let q0 = old(kernel).manager@;
        let q = kernel.manager@;
        if old(kernel).wf() && old(kernel).tasks@[pid as int].task_status == TaskStatus::Ready
            && !q0.contains(pid) {
            assert forall|i: int, j: int| 0 <= i < j < q.len() implies q[i] != q[j] by {
                if j == q.len() - 1 {
                    assert(q0[i] == q[i]);
                }
            }
            assert forall|i: int| 0 <= i < q.len() implies #[trigger] q[i] < kernel.tasks@.len()
                && kernel.tasks@[q[i] as int].task_status == TaskStatus::Ready by {
                if i < q.len() - 1 {
                    assert(q0[i] == q[i]);
                }
            }
            match kernel.processor@ {
                Some(c) => {
                    if q.contains(c) {
                        let j = choose|j: int| 0 <= j < q.len() && q[j] == c;
                        if j < q.len() - 1 {
                            assert(q0[j] == c);
                        }
                    }
                },
                None => {},
            }
        }
    }
}

/// Takes the next task out of the ready queue; see `TaskManager::fetch`.
pub fn fetch_task(kernel: &mut Kernel) -> (res: Option<usize>)
    requires
        queue_in_table(old(kernel).manager@, old(kernel).tasks@),
        front_stride_fits(old(kernel).manager@, old(kernel).tasks@),
    ensures
        old(kernel).wf() ==> final(kernel).wf(),
        final(kernel).processor@ == old(kernel).processor@,
        res.is_none() <==> old(kernel).manager@.len() == 0,
        res.is_none() ==> final(kernel).manager@ == old(kernel).manager@ && final(kernel).tasks@
            == old(kernel).tasks@,
        res matches Some(pid) ==> {
            &&& pid == old(kernel).manager@[0]
            &&& final(kernel).manager@ == old(kernel).manager@.drop_first()
            &&& final(kernel).tasks@ == old(kernel).tasks@.update(
                pid as int,
                stride_advanced(old(kernel).tasks@[pid as int]),
            )
        },
{
    let res = kernel.manager.fetch(&mut kernel.tasks);
    proof {
        if let Some(pid) = res {
            let q0 = old(kernel).manager@;
            if old(kernel).wf() {
                assert forall|p: int| 0 <= p < old(kernel).tasks@.len() implies same_links(
                    #[trigger] kernel.tasks@[p],
                    old(kernel).tasks@[p],
                ) && kernel.tasks@[p].program_brk as isize >= kernel.tasks@[p].heap_bottom as isize by {
                    assert(task_ok(old(kernel).tasks@[p], p, old(kernel).processor@));
                }
                lemma_table_kept(old(kernel).tasks@, kernel.tasks@, kernel.processor@);
                assert forall|k: int| 0 <= k < kernel.manager@.len() implies kernel.manager@[k]
                    == q0[k + 1] && q0[k + 1] != pid by {}
                assert(!kernel.manager@.contains(pid)) by {
                    if kernel.manager@.contains(pid) {
                        let j = choose|j: int| 0 <= j < kernel.manager@.len() && kernel.manager@[j] == pid;
                        assert(q0[j + 1] == pid);
                    }
                }
            }
        }
    }
    res
}

} // verus!
