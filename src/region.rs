use vstd::prelude::*;
use x86_64::structures::paging::{PhysFrame, Size4KiB};
use x86_64::PhysAddr;

verus! {

/// Size of a physical frame in bytes.
pub const FRAME_SIZE: u64 = 4096;

/// First physical address that x86_64 does not accept (bits 52 and up must be clear).
pub const PHYS_ADDR_LIMIT: u64 = 0x10_0000_0000_0000;

/// How a region of physical memory is used.
#[derive(Debug, Clone, Copy, PartialEq, Eq, Structural)]
pub enum MemoryRegionType {
    /// free RAM
    Usable,
    /// used RAM
    InUse,
    /// unusable
    Reserved,
    /// ACPI reclaimable memory
    AcpiReclaimable,
    /// ACPI NVS memory
    AcpiNvs,
    /// Area containing bad memory
    BadMemory,
    /// kernel memory
    Kernel,
    /// kernel stack memory
    KernelStack,
    /// memory used by page tables
    PageTable,
    /// memory used by the bootloader
    Bootloader,
    /// frame at address zero
    FrameZero,
    /// an empty region with size 0
    Empty,
    /// used for storing the boot information
    BootInfo,
    /// used for storing the supplied package
    Package,
}

/// Position of a region type in declaration order; breaks ties between equal ranges.
pub open spec fn type_rank(t: MemoryRegionType) -> nat {
    match t {
        MemoryRegionType::Usable => 0,
        MemoryRegionType::InUse => 1,
        MemoryRegionType::Reserved => 2,
        MemoryRegionType::AcpiReclaimable => 3,
        MemoryRegionType::AcpiNvs => 4,
        MemoryRegionType::BadMemory => 5,
        MemoryRegionType::Kernel => 6,
        MemoryRegionType::KernelStack => 7,
        MemoryRegionType::PageTable => 8,
        MemoryRegionType::Bootloader => 9,
        MemoryRegionType::FrameZero => 10,
        MemoryRegionType::Empty => 11,
        MemoryRegionType::BootInfo => 12,
        MemoryRegionType::Package => 13,
    }
}

impl MemoryRegionType {
    /// Position of the type in declaration order.
    pub fn rank(&self) -> (r: u8)
        ensures
            r as nat == type_rank(*self),
    {
        match self {
            MemoryRegionType::Usable => 0,
            MemoryRegionType::InUse => 1,
            MemoryRegionType::Reserved => 2,
            MemoryRegionType::AcpiReclaimable => 3,
            MemoryRegionType::AcpiNvs => 4,
            MemoryRegionType::BadMemory => 5,
            MemoryRegionType::Kernel => 6,
            MemoryRegionType::KernelStack => 7,
            MemoryRegionType::PageTable => 8,
            MemoryRegionType::Bootloader => 9,
            MemoryRegionType::FrameZero => 10,
            MemoryRegionType::Empty => 11,
            MemoryRegionType::BootInfo => 12,
            MemoryRegionType::Package => 13,
        }
    }
}

/// A half-open range `[start, end)` of 4 KiB frame numbers.
#[derive(Debug, Clone, Copy, PartialEq, Eq, Structural)]
pub struct FrameRange {
    pub start: u64,
    pub end: u64,
}

impl FrameRange {
    /// Whether the range holds no frame.
    pub open spec fn spec_is_empty(&self) -> bool {
        self.start >= self.end
    }

    #[verifier::when_used_as_spec(spec_is_empty)]
    pub fn is_empty(&self) -> (r: bool)
        ensures
            r == self.spec_is_empty(),
    {
        self.start >= self.end
    }
}

/// A typed range of physical frames.
#[derive(Debug, Clone, Copy, PartialEq, Eq, Structural)]
pub struct MemoryRegion {
    pub range: FrameRange,
    pub region_type: MemoryRegionType,
}

/// The sentinel that fills unused slots of a memory map.
pub open spec fn empty_region() -> MemoryRegion {
    MemoryRegion { range: FrameRange { start: 0, end: 0 }, region_type: MemoryRegionType::Empty }
}

impl MemoryRegion {
    /// The unused-slot sentinel: no frames at address zero, typed `Empty`.
    pub fn empty() -> (r: MemoryRegion)
        ensures
            r == empty_region(),
    {
        MemoryRegion { range: FrameRange { start: 0, end: 0 }, region_type: MemoryRegionType::Empty }
    }
}

/// A raw firmware (E820) memory descriptor, laid out as the firmware writes it.
#[derive(Debug, Clone, Copy, PartialEq, Eq, Structural)]
pub struct E820MemoryRegion {
    pub start_addr: u64,
    pub len: u64,
    pub region_type: u32,
    pub acpi_extended_attributes: u32,
}

/// The region type that a firmware type code stands for, if any.
pub open spec fn type_of_code(code: u32) -> Option<MemoryRegionType> {
    if code == 1 {
        Some(MemoryRegionType::Usable)
    } else if code == 2 {
        Some(MemoryRegionType::Reserved)
    } else if code == 3 {
        Some(MemoryRegionType::AcpiReclaimable)
    } else if code == 4 {
        Some(MemoryRegionType::AcpiNvs)
    } else if code == 5 {
        Some(MemoryRegionType::BadMemory)
    } else {
        None
    }
}

/// Whether every address the descriptor covers is a valid physical address.
pub open spec fn descriptor_in_range(d: E820MemoryRegion) -> bool {
    (d.start_addr as int + d.len as int) < (PHYS_ADDR_LIMIT as int)
}

impl E820MemoryRegion {
    /// Whether every address the descriptor covers is a valid physical address.
    pub fn is_in_range(&self) -> (r: bool)
        ensures
            r == descriptor_in_range(*self),
    {
        self.start_addr < PHYS_ADDR_LIMIT && self.len < PHYS_ADDR_LIMIT - self.start_addr
    }
}

/// The frames that a descriptor covers: the frame holding its start up to the
/// frame holding its end address, exclusive (a trailing partial frame is dropped).
pub open spec fn frames_of(d: E820MemoryRegion) -> FrameRange {
    FrameRange {
        start: (d.start_addr as int / FRAME_SIZE as int) as u64,
        end: ((d.start_addr as int + d.len as int) / FRAME_SIZE as int) as u64,
    }
}

/// Relies on x86_64's `PhysFrame::containing_address` for 4 KiB frames: the
/// start address of the frame that holds `addr` (`addr` rounded down to 4096).
/// `PhysAddr::new` panics when a bit from 52 up is set, hence the bound.
#[verifier::external_body]
fn frame_start_address(addr: u64) -> (r: u64)
    requires
        addr < PHYS_ADDR_LIMIT,
    ensures
        r == addr - addr % 4096,
{
    PhysFrame::<Size4KiB>::containing_address(PhysAddr::new(addr)).start_address().as_u64()
}

/// The frame number of the frame that holds `addr`.
fn frame_number(addr: u64) -> (r: u64)
    requires
        addr < PHYS_ADDR_LIMIT,
    ensures
        r as int == addr as int / FRAME_SIZE as int,
{
    let a = frame_start_address(addr);
    proof {
        assert((addr - addr % 4096) / 4096 == addr / 4096) by (nonlinear_arith);
    }
    a / FRAME_SIZE
}

/// Why a memory map could not be built.
#[derive(Debug, Clone, Copy, PartialEq, Eq, Structural)]
pub enum MapError {
    /// A firmware descriptor carried a type code outside 1 to 5.
    UnknownRegionType(u32),
    /// Two regions that are not both usable claim the same frames.
    UnresolvedOverlap(MemoryRegion, MemoryRegion),
    /// The map already held as many regions as it has slots.
    CapacityExceeded(MemoryRegion),
}

impl MemoryRegion {
    /// Converts a firmware descriptor: codes 1 to 5 name the type, and the
    /// range runs from the frame of the start address to the frame of the end
    /// address. Any other code is refused.
    pub fn from_descriptor(d: E820MemoryRegion) -> (r: Result<MemoryRegion, MapError>)
        requires
            descriptor_in_range(d),
        ensures
            match type_of_code(d.region_type) {
                Some(t) => r == Ok::<MemoryRegion, MapError>(
                    MemoryRegion { range: frames_of(d), region_type: t },
                ),
                None => r == Err::<MemoryRegion, MapError>(MapError::UnknownRegionType(d.region_type)),
            },
    {
        let region_type = match d.region_type {
            1 => MemoryRegionType::Usable,
            2 => MemoryRegionType::Reserved,
            3 => MemoryRegionType::AcpiReclaimable,
            4 => MemoryRegionType::AcpiNvs,
            5 => MemoryRegionType::BadMemory,
            t => {
                return Err(MapError::UnknownRegionType(t));
            },
        };
        let start = frame_number(d.start_addr);
        let end = frame_number(d.start_addr + d.len);
        Ok(MemoryRegion { range: FrameRange { start, end }, region_type })
    }
}

} // verus!
