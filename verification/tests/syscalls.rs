use rcore_os::config::{MAX_SYSCALL_NUM, PAGE_SIZE};
use rcore_os::mm::{MapPermission, MemorySet};
use rcore_os::syscall::process::{
    sys_exec, sys_exit, sys_fork, sys_get_time, sys_getpid, sys_sbrk, sys_set_priority,
    sys_spawn, sys_task_info, sys_waitpid, sys_yield,
};
use rcore_os::task::processor::{
    current_trap_cx, get_first_time_run, get_syscall_times, run_tasks_once, syscall_counter,
};
use rcore_os::task::{AppImage, Kernel, TaskStatus};

fn image(entry: usize, sp: usize) -> AppImage {
    let mut ms = MemorySet::new_bare();
    ms.map_one(entry / PAGE_SIZE, MapPermission { r: true, w: false, x: true, u: true });
    AppImage { memory_set: ms, user_sp: sp, entry_point: entry }
}

fn running_kernel() -> Kernel {
    let mut k = Kernel::new(image(0x1000, 0x8000), 16);
    assert_eq!(run_tasks_once(&mut k, 100), Some(0));
    k
}

#[test]
fn getpid_in_forked_child() {
    let mut k = running_kernel();
    let child = sys_fork(&mut k);
    assert_eq!(sys_yield(&mut k), 0);
    assert_eq!(run_tasks_once(&mut k, 120), Some(child as usize));
    assert_eq!(sys_getpid(&k), child);
    assert_eq!(sys_yield(&mut k), 0);
    assert_eq!(run_tasks_once(&mut k, 130), Some(0));
    assert_eq!(sys_getpid(&k), 0);
}

#[test]
fn getpid_of_current() {
    let k = running_kernel();
    assert_eq!(sys_getpid(&k), 0);
}

#[test]
fn yield_requeues_current() {
    let mut k = running_kernel();
    assert_eq!(sys_yield(&mut k), 0);
    assert_eq!(k.processor.current(), None);
    assert_eq!(k.manager.ready_pids(), vec![0]);
    assert_eq!(k.tasks[0].task_status, TaskStatus::Ready);
}

#[test]
fn fork_creates_queued_child_returning_zero() {
    let mut k = running_kernel();
    current_trap_cx(&mut k).x[10] = 77;
    assert_eq!(sys_fork(&mut k), 1);
    assert_eq!(k.tasks.len(), 2);
    assert_eq!(k.tasks[0].children, vec![1]);
    let child = &k.tasks[1];
    assert_eq!(child.pid, 1);
    assert_eq!(child.parent, Some(0));
    assert_eq!(child.task_status, TaskStatus::Ready);
    assert_eq!(child.trap_cx.x[10], 0);
    assert_eq!(child.trap_cx.sepc, 0x1000);
    assert_eq!(child.pass, 16);
    assert_eq!(child.stride, 0);
    assert!(child.memory_set.translate(1).is_some());
    assert_eq!(k.tasks[0].trap_cx.x[10], 77);
    assert_eq!(k.manager.ready_pids(), vec![1]);
    assert_eq!(sys_getpid(&k), 0);
    // the child's address space is a copy, not a share
    k.tasks[1].memory_set.unmap_one(1);
    assert!(k.tasks[0].memory_set.translate(1).is_some());
}

#[test]
fn exit_then_waitpid_collects_exit_code() {
    let mut k = running_kernel();
    assert_eq!(sys_fork(&mut k), 1);
    assert_eq!(sys_fork(&mut k), 2);
    // no such child
    assert_eq!(sys_waitpid(&mut k, 5), (-1, None));
    // children exist but none has exited
    assert_eq!(sys_waitpid(&mut k, -1), (-2, None));
    assert_eq!(sys_waitpid(&mut k, 2), (-2, None));
    // run child 2 and let it exit (queue: 1, 2, then the parent)
    assert_eq!(sys_yield(&mut k), 0);
    assert_eq!(run_tasks_once(&mut k, 200), Some(1));
    assert_eq!(sys_yield(&mut k), 0);
    assert_eq!(run_tasks_once(&mut k, 210), Some(2));
    sys_exit(&mut k, 42);
    assert_eq!(k.manager.ready_pids(), vec![0, 1]);
    assert_eq!(k.processor.current(), None);
    assert_eq!(k.tasks[2].task_status, TaskStatus::Exited);
    // back to the parent
    let next = run_tasks_once(&mut k, 220).unwrap();
    assert_eq!(next, 0);
    assert_eq!(sys_waitpid(&mut k, 1), (-2, None));
    assert_eq!(sys_waitpid(&mut k, -1), (2, Some(42)));
    assert_eq!(k.tasks[0].children, vec![1]);
    // collected once: waiting for it again finds no such child
    assert_eq!(sys_waitpid(&mut k, 2), (-1, None));
    // its entry is released and its pid is given to the next child
    let freed = &k.tasks[2];
    assert_eq!(freed.task_status, TaskStatus::UnInit);
    assert_eq!(freed.parent, None);
    assert!(freed.memory_set.translate(1).is_none());
    assert_eq!(sys_fork(&mut k), 2);
    assert_eq!(k.tasks[2].parent, Some(0));
    assert_eq!(k.tasks[2].task_status, TaskStatus::Ready);
    assert_eq!(k.tasks[0].children, vec![1, 2]);
    assert_eq!(k.tasks.len(), 3);
}

#[test]
fn exit_hands_children_to_initproc() {
    let mut k = running_kernel();
    assert_eq!(sys_fork(&mut k), 1);
    assert_eq!(sys_yield(&mut k), 0);
    assert_eq!(run_tasks_once(&mut k, 10), Some(1));
    assert_eq!(sys_fork(&mut k), 2);
    assert_eq!(sys_fork(&mut k), 3);
    assert_eq!(k.tasks[1].children, vec![2, 3]);
    sys_exit(&mut k, 5);
    assert_eq!(k.tasks[1].task_status, TaskStatus::Exited);
    assert_eq!(k.tasks[1].exit_code, 5);
    assert!(k.tasks[1].children.is_empty());
    assert!(k.tasks[1].memory_set.translate(1).is_none());
    assert_eq!(k.tasks[0].children, vec![1, 2, 3]);
    assert_eq!(k.tasks[2].parent, Some(0));
    assert_eq!(k.tasks[3].parent, Some(0));
    // back to the initial process, which collects the exited task
    assert_eq!(run_tasks_once(&mut k, 20), Some(0));
    assert_eq!(sys_waitpid(&mut k, -1), (1, Some(5)));
    assert_eq!(k.tasks[0].children, vec![2, 3]);
    assert_eq!(k.tasks[1].task_status, TaskStatus::UnInit);
    assert_eq!(sys_fork(&mut k), 1);
}

#[test]
fn initproc_exit_keeps_its_children() {
    let mut k = running_kernel();
    assert_eq!(sys_fork(&mut k), 1);
    sys_exit(&mut k, 0);
    assert_eq!(k.tasks[0].task_status, TaskStatus::Exited);
    assert_eq!(k.tasks[0].children, vec![1]);
    assert_eq!(k.tasks[1].parent, Some(0));
}

#[test]
fn waitpid_any_takes_first_exited_child() {
    let mut k = running_kernel();
    for _ in 0..3 {
        sys_fork(&mut k);
    }
    k.tasks[3].task_status = TaskStatus::Exited;
    k.tasks[3].exit_code = -3;
    k.tasks[2].task_status = TaskStatus::Exited;
    k.tasks[2].exit_code = -2;
    assert_eq!(sys_waitpid(&mut k, -1), (2, Some(-2)));
    assert_eq!(sys_waitpid(&mut k, -1), (3, Some(-3)));
    assert_eq!(sys_waitpid(&mut k, -1), (-2, None));
    assert_eq!(k.tasks[0].children, vec![1]);
}

#[test]
fn waitpid_without_children() {
    let mut k = running_kernel();
    assert_eq!(sys_waitpid(&mut k, -1), (-1, None));
    assert_eq!(sys_waitpid(&mut k, 0), (-1, None));
    assert_eq!(sys_waitpid(&mut k, -7), (-1, None));
}

#[test]
fn exec_replaces_program() {
    let mut k = running_kernel();
    assert_eq!(sys_exec(&mut k, None), -1);
    assert_eq!(k.tasks[0].trap_cx.sepc, 0x1000);
    current_trap_cx(&mut k).x[5] = 9;
    assert_eq!(sys_exec(&mut k, Some(image(0x5000, 0x20000))), 0);
    let t = &k.tasks[0];
    assert_eq!(t.trap_cx.sepc, 0x5000);
    assert_eq!(t.trap_cx.x[2], 0x20000);
    assert_eq!(t.trap_cx.x[5], 0);
    assert_eq!(t.heap_bottom, 0x20000);
    assert_eq!(t.program_brk, 0x20000);
    assert!(t.memory_set.translate(5).is_some());
    assert!(t.memory_set.translate(1).is_none());
    assert_eq!(t.pid, 0);
}

#[test]
fn get_time_splits_microseconds() {
    let tv = sys_get_time(1_500_000);
    assert_eq!((tv.sec, tv.usec), (1, 500_000));
    let tv = sys_get_time(999_999);
    assert_eq!((tv.sec, tv.usec), (0, 999_999));
    let tv = sys_get_time(0);
    assert_eq!((tv.sec, tv.usec), (0, 0));
    let tv = sys_get_time(12_000_007);
    assert_eq!(tv.sec * 1_000_000 + tv.usec, 12_000_007);
}

#[test]
fn task_info_reports_counts_and_elapsed_time() {
    let mut k = running_kernel();
    syscall_counter(&mut k, 64);
    syscall_counter(&mut k, 64);
    syscall_counter(&mut k, 410);
    assert_eq!(get_first_time_run(&k), 100);
    let times = get_syscall_times(&k);
    assert_eq!(times.len(), MAX_SYSCALL_NUM);
    assert_eq!(times[64], 2);
    assert_eq!(times[410], 1);
    assert_eq!(times[93], 0);
    let ti = sys_task_info(&k, 350);
    assert_eq!(ti.status, TaskStatus::Running);
    assert_eq!(ti.time, 250);
    assert_eq!(ti.syscall_times[64], 2);
    assert_eq!(ti.syscall_times[410], 1);
}

#[test]
fn sbrk_moves_heap_end() {
    let mut k = running_kernel();
    assert_eq!(sys_sbrk(&mut k, 4096), 0x8000);
    assert_eq!(k.tasks[0].program_brk, 0x9000);
    assert_eq!(sys_sbrk(&mut k, -100), 0x9000);
    assert_eq!(k.tasks[0].program_brk, 0x9000 - 100);
    // below the heap bottom: refused
    assert_eq!(sys_sbrk(&mut k, -5000), -1);
    assert_eq!(k.tasks[0].program_brk, 0x9000 - 100);
    assert_eq!(sys_sbrk(&mut k, 0), (0x9000 - 100) as isize);
}

#[test]
fn sbrk_can_be_undone() {
    let mut k = running_kernel();
    let before = k.tasks[0].program_brk;
    assert_eq!(sys_sbrk(&mut k, 12345), before as isize);
    assert_eq!(sys_sbrk(&mut k, -12345), (before + 12345) as isize);
    assert_eq!(k.tasks[0].program_brk, before);
}

#[test]
fn spawn_and_set_priority_are_refused() {
    assert_eq!(sys_spawn(0x1234), -1);
    assert_eq!(sys_set_priority(16), -1);
    assert_eq!(sys_set_priority(-1), -1);
}
