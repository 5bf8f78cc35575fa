//! Builds the physical memory map that a boot loader hands to its kernel:
//! typed frame ranges, kept sorted in a fixed-capacity map, with overlaps
//! between firmware regions resolved before handoff.
use vstd::prelude::*;

pub mod boot_info;
pub mod ingest;
pub mod memory_map;
pub mod normalize;
pub mod region;

pub use boot_info::BootInfo;
pub use ingest::create_from_descriptors;
pub use memory_map::MemoryMap;
pub use region::{E820MemoryRegion, FrameRange, MapError, MemoryRegion, MemoryRegionType};

verus! {

} // verus!
