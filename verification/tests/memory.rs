use rcore_os::config::PAGE_SIZE;
use rcore_os::mm::{MapPermission, MemorySet};
use rcore_os::syscall::process::{sys_mmap, sys_munmap};
use rcore_os::task::processor::{insert_framed_area, remove_framed_area, run_tasks_once};
use rcore_os::task::{AppImage, Kernel};

const RX: MapPermission = MapPermission { r: true, w: false, x: true, u: true };

fn running_kernel() -> Kernel {
    let mut ms = MemorySet::new_bare();
    ms.map_one(1, RX);
    let mut k = Kernel::new(AppImage { memory_set: ms, user_sp: 0x8000, entry_point: 0x1000 }, 16);
    assert_eq!(run_tasks_once(&mut k, 0), Some(0));
    k
}

fn perm_at(k: &Kernel, vpn: usize) -> Option<MapPermission> {
    k.tasks[0].memory_set.translate(vpn)
}

#[test]
fn memory_set_basics() {
    let mut ms = MemorySet::new_bare();
    assert_eq!(ms.translate(3), None);
    ms.map_one(3, RX);
    assert_eq!(ms.translate(3), Some(RX));
    let copy = ms.duplicate();
    ms.unmap_one(3);
    assert_eq!(ms.translate(3), None);
    assert_eq!(copy.translate(3), Some(RX));
    ms.insert_framed_area(10, 13, RX);
    assert_eq!(ms.translate(9), None);
    assert_eq!(ms.translate(10), Some(RX));
    assert_eq!(ms.translate(12), Some(RX));
    assert_eq!(ms.translate(13), None);
    ms.remove_framed_area(10, 12);
    assert_eq!(ms.translate(11), None);
    assert_eq!(ms.translate(12), Some(RX));
}

#[test]
fn mmap_maps_pages_with_requested_rights() {
    let mut k = running_kernel();
    assert_eq!(sys_mmap(&mut k, 0x10000, 2 * PAGE_SIZE + 1, 0b011), 0);
    let rw = MapPermission { r: true, w: true, x: false, u: true };
    assert_eq!(perm_at(&k, 0x10), Some(rw));
    assert_eq!(perm_at(&k, 0x11), Some(rw));
    assert_eq!(perm_at(&k, 0x12), Some(rw));
    assert_eq!(perm_at(&k, 0x13), None);
    assert_eq!(perm_at(&k, 1), Some(RX));
}

#[test]
fn mmap_refuses_unaligned_start() {
    let mut k = running_kernel();
    assert_eq!(sys_mmap(&mut k, 0x10001, PAGE_SIZE, 1), -1);
    assert_eq!(perm_at(&k, 0x10), None);
}

#[test]
fn mmap_refuses_bad_port() {
    let mut k = running_kernel();
    assert_eq!(sys_mmap(&mut k, 0x10000, PAGE_SIZE, 0), -1);
    assert_eq!(sys_mmap(&mut k, 0x10000, PAGE_SIZE, 8), -1);
    assert_eq!(sys_mmap(&mut k, 0x10000, PAGE_SIZE, 0b1001), -1);
    assert_eq!(perm_at(&k, 0x10), None);
    for port in 1..=7usize {
        assert_eq!(sys_mmap(&mut k, 0x100000 * port, PAGE_SIZE, port), 0);
        let p = perm_at(&k, 0x100 * port).unwrap();
        assert_eq!((p.r, p.w, p.x, p.u), (port & 1 != 0, port & 2 != 0, port & 4 != 0, true));
    }
}

#[test]
fn mmap_refuses_overlap_and_changes_nothing() {
    let mut k = running_kernel();
    assert_eq!(sys_mmap(&mut k, 0x12000, PAGE_SIZE, 1), 0);
    assert_eq!(sys_mmap(&mut k, 0x10000, 4 * PAGE_SIZE, 3), -1);
    assert_eq!(perm_at(&k, 0x10), None);
    assert_eq!(perm_at(&k, 0x11), None);
    let r = MapPermission { r: true, w: false, x: false, u: true };
    assert_eq!(perm_at(&k, 0x12), Some(r));
    // mapping the same range twice fails
    assert_eq!(sys_mmap(&mut k, 0x12000, PAGE_SIZE, 1), -1);
}

#[test]
fn mmap_zero_length() {
    let mut k = running_kernel();
    assert_eq!(sys_mmap(&mut k, 0x10000, 0, 1), 0);
    assert_eq!(perm_at(&k, 0x10), None);
    assert_eq!(sys_mmap(&mut k, 0x1000, 0, 1), 0);
}

#[test]
fn munmap_undoes_mmap() {
    let mut k = running_kernel();
    assert_eq!(sys_mmap(&mut k, 0x20000, 3 * PAGE_SIZE, 7), 0);
    assert_eq!(sys_munmap(&mut k, 0x20000, 3 * PAGE_SIZE), 0);
    for vpn in 0x20..0x23 {
        assert_eq!(perm_at(&k, vpn), None);
    }
    assert_eq!(perm_at(&k, 1), Some(RX));
    // nothing mapped any more: refused
    assert_eq!(sys_munmap(&mut k, 0x20000, 3 * PAGE_SIZE), -1);
}

#[test]
fn munmap_refuses_partly_unmapped_or_unaligned() {
    let mut k = running_kernel();
    assert_eq!(sys_mmap(&mut k, 0x20000, 2 * PAGE_SIZE, 1), 0);
    assert_eq!(sys_munmap(&mut k, 0x20000, 3 * PAGE_SIZE), -1);
    assert!(perm_at(&k, 0x20).is_some());
    assert!(perm_at(&k, 0x21).is_some());
    assert_eq!(sys_munmap(&mut k, 0x20800, PAGE_SIZE), -1);
    assert_eq!(sys_munmap(&mut k, 0x21000, 1), 0);
    assert!(perm_at(&k, 0x20).is_some());
    assert!(perm_at(&k, 0x21).is_none());
}

#[test]
fn framed_area_covers_partial_pages() {
    let mut k = running_kernel();
    insert_framed_area(&mut k, 0x30800, 0x32001, RX);
    assert_eq!(perm_at(&k, 0x2f), None);
    assert_eq!(perm_at(&k, 0x30), Some(RX));
    assert_eq!(perm_at(&k, 0x32), Some(RX));
    assert_eq!(perm_at(&k, 0x33), None);
    remove_framed_area(&mut k, 0x31000, 0x32000);
    assert_eq!(perm_at(&k, 0x30), Some(RX));
    assert_eq!(perm_at(&k, 0x31), None);
    assert_eq!(perm_at(&k, 0x32), Some(RX));
}

#[test]
fn refusals_before_the_page_count_need_no_bound_on_len() {
    let mut k = running_kernel();
    assert_eq!(sys_mmap(&mut k, 0, usize::MAX, 8), -1);
    assert_eq!(sys_mmap(&mut k, 1, usize::MAX - 1, 3), -1);
    assert_eq!(sys_munmap(&mut k, 1, usize::MAX - 1), -1);
    assert_eq!(perm_at(&k, 1), Some(RX));
}
