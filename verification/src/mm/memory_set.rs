//! The mappings of a user address space, at page granularity.
use std::collections::HashMap;
use vstd::prelude::*;

use crate::config::PAGE_SIZE;

verus! {

broadcast use vstd::std_specs::hash::group_hash_axioms;

/// Access rights of a mapped page: readable, writable, executable, and
/// accessible from user mode.
#[derive(Clone, Copy, PartialEq, Eq, Structural, Debug)]
pub struct MapPermission {
    pub r: bool,
    pub w: bool,
    pub x: bool,
    pub u: bool,
}

/// Number of the page that holds address `va`.
pub open spec fn page_floor(va: int) -> int {
    va / (PAGE_SIZE as int)
}

/// Number of the first page that starts at or after address `va`.
pub open spec fn page_ceil(va: int) -> int {
    (va + PAGE_SIZE - 1) / (PAGE_SIZE as int)
}

/// Every page number in `[lo, hi)` is mapped in `m`.
pub open spec fn range_mapped(m: Map<usize, MapPermission>, lo: int, hi: int) -> bool {
    forall|vpn: usize| lo <= vpn < hi ==> #[trigger] m.contains_key(vpn)
}

/// No page number in `[lo, hi)` is mapped in `m`.
pub open spec fn range_unmapped(m: Map<usize, MapPermission>, lo: int, hi: int) -> bool {
    forall|vpn: usize| lo <= vpn < hi ==> !#[trigger] m.contains_key(vpn)
}

/// `m` with every page number in `[lo, hi)` mapped with `perm`.
pub open spec fn map_range(
    m: Map<usize, MapPermission>,
    lo: int,
    hi: int,
    perm: MapPermission,
) -> Map<usize, MapPermission> {
    Map::new(
        |vpn: usize| m.contains_key(vpn) || (lo <= vpn < hi),
        |vpn: usize|
            if lo <= vpn < hi {
                perm
            } else {
                m[vpn]
            },
    )
}

/// `m` without any page number in `[lo, hi)`.
pub open spec fn unmap_range(m: Map<usize, MapPermission>, lo: int, hi: int) -> Map<
    usize,
    MapPermission,
> {
    Map::new(|vpn: usize| m.contains_key(vpn) && !(lo <= vpn < hi), |vpn: usize| m[vpn])
}

/// The page mappings of one address space: each mapped virtual page number
/// with its access rights.
pub struct MemorySet {
    page_table: HashMap<usize, MapPermission>,
}

impl View for MemorySet {
    type V = Map<usize, MapPermission>;

    closed spec fn view(&self) -> Map<usize, MapPermission> {
        self.page_table@
    }
}

impl MemorySet {
    /// An address space with nothing mapped.
    pub fn new_bare() -> (ms: Self)
        ensures
            ms@ == Map::<usize, MapPermission>::empty(),
    {
        MemorySet { page_table: HashMap::new() }
    }

    /// A second address space with the same mappings.
    pub fn duplicate(&self) -> (ms: Self)
        ensures
            ms@ == self@,
    {
        MemorySet { page_table: self.page_table.clone() }
    }

    /// Unmaps every page.
    pub fn recycle_data_pages(&mut self)
        ensures
            final(self)@ == Map::<usize, MapPermission>::empty(),
    {
        self.page_table.clear();
    }

    /// The rights of page `vpn`, or `None` where it is not mapped.
    pub fn translate(&self, vpn: usize) -> (res: Option<MapPermission>)
        ensures
            res == (if self@.contains_key(vpn) {
                Some(self@[vpn])
            } else {
                None::<MapPermission>
            }),
    {
        match self.page_table.get(&vpn) {
            Some(p) => Some(*p),
            None => None,
        }
    }

    /// Maps page `vpn`, which must not be mapped yet.
    pub fn map_one(&mut self, vpn: usize, perm: MapPermission)
        requires
            !old(self)@.contains_key(vpn),
        ensures
            final(self)@ == old(self)@.insert(vpn, perm),
    {
        self.page_table.insert(vpn, perm);
    }

    /// Unmaps page `vpn`, which must be mapped.
    pub fn unmap_one(&mut self, vpn: usize)
        requires
            old(self)@.contains_key(vpn),
        ensures
            final(self)@ == old(self)@.remove(vpn),
    {
        self.page_table.remove(&vpn);
    }

    /// Maps every page number in `[start_vpn, end_vpn)` with `perm`; none of
    /// them may be mapped yet.
    pub fn insert_framed_area(&mut self, start_vpn: usize, end_vpn: usize, perm: MapPermission)
        requires
            range_unmapped(old(self)@, start_vpn as int, end_vpn as int),
        ensures
            final(self)@ == map_range(old(self)@, start_vpn as int, end_vpn as int, perm),
    {
        let ghost m0 = self@;
        let mut vpn = start_vpn;
        if start_vpn < end_vpn {
            while vpn < end_vpn
                invariant
                    start_vpn <= vpn <= end_vpn,
                    self@ == map_range(m0, start_vpn as int, vpn as int, perm),
                    range_unmapped(m0, start_vpn as int, end_vpn as int),
                decreases end_vpn - vpn,
            {
                assert(!self@.contains_key(vpn));
                self.map_one(vpn, perm);
                assert(self@ =~= map_range(m0, start_vpn as int, vpn + 1, perm));
                vpn = vpn + 1;
            }
        }
        assert(self@ =~= map_range(m0, start_vpn as int, end_vpn as int, perm));
    }

    /// Unmaps every page number in `[start_vpn, end_vpn)`; all of them must be
    /// mapped.
    pub fn remove_framed_area(&mut self, start_vpn: usize, end_vpn: usize)
        requires
            range_mapped(old(self)@, start_vpn as int, end_vpn as int),
        ensures
            final(self)@ == unmap_range(old(self)@, start_vpn as int, end_vpn as int),
    {
        let ghost m0 = self@;
        let mut vpn = start_vpn;
        if start_vpn < end_vpn {
            while vpn < end_vpn
                invariant
                    start_vpn <= vpn <= end_vpn,
                    self@ == unmap_range(m0, start_vpn as int, vpn as int),
                    range_mapped(m0, start_vpn as int, end_vpn as int),
                decreases end_vpn - vpn,
            {
                assert(m0.contains_key(vpn));
                self.unmap_one(vpn);
                assert(self@ =~= unmap_range(m0, start_vpn as int, vpn + 1));
                vpn = vpn + 1;
            }
        }
        assert(self@ =~= unmap_range(m0, start_vpn as int, end_vpn as int));
    }
}

} // verus!
