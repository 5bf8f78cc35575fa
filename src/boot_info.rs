use vstd::prelude::*;
use crate::memory_map::MemoryMap;

verus! {

/// What the boot loader hands to the kernel: the physical address of the
/// level-4 page table, the memory map, and a view of the loaded package.
pub struct BootInfo<'data> {
    pub p4_table_addr: u64,
    pub memory_map: MemoryMap,
    pub package: &'data [u8],
}

impl<'data> BootInfo<'data> {
    pub fn new(p4_table_addr: u64, memory_map: MemoryMap, package: &'data [u8]) -> (r: Self)
        ensures
            r.p4_table_addr == p4_table_addr,
            r.memory_map == memory_map,
            r.package@ == package@,
    {
        BootInfo { p4_table_addr, memory_map, package }
    }
}

} // verus!
