use rcore_os::mm::{MapPermission, MemorySet};
use rcore_os::task::manager::{add_task, fetch_task};
use rcore_os::task::processor::{current_task, run_tasks_once, take_current_task};
use rcore_os::task::{AppImage, Kernel, Processor, TaskControlBlock, TaskManager, TaskStatus};

fn image(entry: usize, sp: usize) -> AppImage {
    let mut ms = MemorySet::new_bare();
    ms.map_one(entry / 4096, MapPermission { r: true, w: false, x: true, u: true });
    AppImage { memory_set: ms, user_sp: sp, entry_point: entry }
}

fn boot(pass: usize) -> Kernel {
    Kernel::new(image(0x1000, 0x8000), pass)
}

#[test]
fn new_kernel_queues_initproc() {
    let k = boot(10);
    assert_eq!(k.tasks.len(), 1);
    assert_eq!(k.manager.ready_pids(), vec![0]);
    assert_eq!(current_task(&k), None);
    let t = &k.tasks[0];
    assert_eq!(t.pid, 0);
    assert_eq!(t.task_status, TaskStatus::Ready);
    assert_eq!(t.trap_cx.sepc, 0x1000);
    assert_eq!(t.trap_cx.x[2], 0x8000);
    assert_eq!(t.heap_bottom, 0x8000);
    assert_eq!(t.program_brk, 0x8000);
    assert!(t.memory_set.translate(1).is_some());
}

#[test]
fn run_tasks_once_dispatches_and_records_first_run() {
    let mut k = boot(10);
    assert_eq!(run_tasks_once(&mut k, 250), Some(0));
    assert_eq!(current_task(&k), Some(0));
    assert_eq!(k.tasks[0].task_status, TaskStatus::Running);
    assert_eq!(k.tasks[0].first_time_run, 250);
    assert_eq!(k.tasks[0].stride, 10);
    assert!(k.manager.ready_pids().is_empty());
    // a second dispatch keeps the first run time
    k.suspend_current_and_run_next();
    assert_eq!(run_tasks_once(&mut k, 900), Some(0));
    assert_eq!(k.tasks[0].first_time_run, 250);
    assert_eq!(k.tasks[0].stride, 20);
}

#[test]
fn run_tasks_once_on_empty_queue() {
    let mut k = boot(10);
    assert_eq!(run_tasks_once(&mut k, 1), Some(0));
    k.exit_current_and_run_next(0);
    assert_eq!(run_tasks_once(&mut k, 2), None);
    assert_eq!(current_task(&k), None);
}

#[test]
fn fetch_is_first_in_first_out() {
    let mut tasks: Vec<TaskControlBlock> = Vec::new();
    let strides = [30usize, 10, 20, 10];
    for (pid, s) in strides.iter().enumerate() {
        let mut t = TaskControlBlock::new(image(0x1000, 0x8000), pid, 7);
        t.stride = *s;
        tasks.push(t);
    }
    let mut m = TaskManager::new();
    for pid in [2usize, 0, 3, 1] {
        m.add(pid);
    }
    assert_eq!(m.ready_pids().len(), 4);
    assert_eq!(m.fetch(&mut tasks), Some(2));
    assert_eq!(tasks[2].stride, 27);
    assert_eq!(m.ready_pids(), vec![0, 3, 1]);
    assert_eq!(m.fetch(&mut tasks), Some(0));
    assert_eq!(tasks[0].stride, 37);
    assert_eq!(m.fetch(&mut tasks), Some(3));
    assert_eq!(m.fetch(&mut tasks), Some(1));
    assert_eq!(m.fetch(&mut tasks), None);
    assert_eq!(tasks[1].stride, 17);
    assert_eq!(tasks[3].stride, 17);
}

#[test]
fn round_robin_regardless_of_pass() {
    let mut tasks: Vec<TaskControlBlock> = Vec::new();
    tasks.push(TaskControlBlock::new(image(0x1000, 0x8000), 0, 1));
    tasks.push(TaskControlBlock::new(image(0x1000, 0x8000), 1, 3));
    let mut m = TaskManager::new();
    m.add(0);
    m.add(1);
    let mut order = Vec::new();
    for _ in 0..6 {
        let pid = m.fetch(&mut tasks).unwrap();
        order.push(pid);
        m.add(pid);
    }
    assert_eq!(order, vec![0, 1, 0, 1, 0, 1]);
    assert_eq!(tasks[0].stride, 3);
    assert_eq!(tasks[1].stride, 9);
}

#[test]
fn add_and_fetch_task_on_kernel() {
    let mut k = boot(5);
    assert_eq!(fetch_task(&mut k), Some(0));
    assert_eq!(k.tasks[0].stride, 5);
    assert!(!k.manager.ready_pids().contains(&0));
    add_task(&mut k, 0);
    assert!(k.manager.ready_pids().contains(&0));
    assert_eq!(k.manager.ready_pids(), vec![0]);
}

#[test]
fn processor_take_and_current() {
    let mut p = Processor::new();
    assert_eq!(p.current(), None);
    assert_eq!(p.take_current(), None);
    let mut k = boot(1);
    run_tasks_once(&mut k, 3);
    assert_eq!(k.processor.current(), Some(0));
    assert_eq!(take_current_task(&mut k), Some(0));
    assert_eq!(k.processor.current(), None);
}

#[test]
fn is_zombie_after_exit() {
    let mut k = boot(1);
    run_tasks_once(&mut k, 3);
    assert!(!k.tasks[0].is_zombie());
    k.exit_current_and_run_next(4);
    assert!(k.tasks[0].is_zombie());
    assert_eq!(k.tasks[0].exit_code, 4);
}
