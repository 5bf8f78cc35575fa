use bootinfo::{
    create_from_descriptors, BootInfo, E820MemoryRegion, FrameRange, MapError, MemoryMap,
    MemoryRegion, MemoryRegionType,
};

fn region(start: u64, end: u64, region_type: MemoryRegionType) -> MemoryRegion {
    MemoryRegion { range: FrameRange { start, end }, region_type }
}

fn descriptor(start_addr: u64, len: u64, region_type: u32) -> E820MemoryRegion {
    E820MemoryRegion { start_addr, len, region_type, acpi_extended_attributes: 0 }
}

fn is_strictly_ascending(regions: &[MemoryRegion]) -> bool {
    regions.windows(2).all(|w| {
        (w[0].range.start, w[0].range.end) < (w[1].range.start, w[1].range.end)
    })
}

#[test]
fn empty_region_is_sentinel() {
    let e = MemoryRegion::empty();
    assert_eq!(e.range, FrameRange { start: 0, end: 0 });
    assert_eq!(e.region_type, MemoryRegionType::Empty);
    assert!(e.range.is_empty());
}

#[test]
fn new_map_has_no_live_regions() {
    let m = MemoryMap::new();
    assert_eq!(m.len(), 0);
    assert!(m.regions().is_empty());
}

#[test]
fn insertions_out_of_order_come_out_sorted() {
    let mut m = MemoryMap::new();
    m.add_region(region(50, 60, MemoryRegionType::Kernel)).unwrap();
    m.add_region(region(10, 20, MemoryRegionType::Usable)).unwrap();
    m.add_region(region(10, 15, MemoryRegionType::Reserved)).unwrap();
    m.add_region(region(30, 40, MemoryRegionType::PageTable)).unwrap();
    m.sort();
    assert_eq!(
        m.regions(),
        &[
            region(10, 15, MemoryRegionType::Reserved),
            region(10, 20, MemoryRegionType::Usable),
            region(30, 40, MemoryRegionType::PageTable),
            region(50, 60, MemoryRegionType::Kernel),
        ]
    );
    assert!(is_strictly_ascending(m.regions()));
}

#[test]
fn empty_insertion_is_not_live() {
    let mut m = MemoryMap::new();
    m.add_region(region(5, 5, MemoryRegionType::Usable)).unwrap();
    assert_eq!(m.len(), 0);
    m.add_region(region(9, 3, MemoryRegionType::Usable)).unwrap();
    assert_eq!(m.len(), 0);
    m.add_region(region(1, 2, MemoryRegionType::Usable)).unwrap();
    assert_eq!(m.regions(), &[region(1, 2, MemoryRegionType::Usable)]);
}

#[test]
fn equal_ranges_put_usable_first() {
    let mut m = MemoryMap::new();
    m.add_region(region(0, 5, MemoryRegionType::Reserved)).unwrap();
    m.add_region(region(0, 5, MemoryRegionType::Usable)).unwrap();
    assert_eq!(
        m.regions(),
        &[region(0, 5, MemoryRegionType::Usable), region(0, 5, MemoryRegionType::Reserved)]
    );
}

#[test]
fn thirty_third_region_is_rejected() {
    let mut m = MemoryMap::new();
    for i in 0..32u64 {
        assert_eq!(m.add_region(region(i * 2, i * 2 + 1, MemoryRegionType::Usable)), Ok(()));
    }
    assert_eq!(m.len(), 32);
    let before: Vec<MemoryRegion> = m.regions().to_vec();
    let extra = region(100, 101, MemoryRegionType::Reserved);
    assert_eq!(m.add_region(extra), Err(MapError::CapacityExceeded(extra)));
    assert_eq!(m.len(), 32);
    assert_eq!(m.regions(), &before[..]);
    assert!(is_strictly_ascending(m.regions()));
}

#[test]
fn usable_region_is_trimmed() {
    let mut m = MemoryMap::new();
    m.add_region(region(0, 10, MemoryRegionType::Usable)).unwrap();
    m.add_region(region(8, 20, MemoryRegionType::Reserved)).unwrap();
    assert_eq!(m.resolve_overlaps(), Ok(()));
    assert_eq!(
        m.regions(),
        &[region(0, 8, MemoryRegionType::Usable), region(8, 20, MemoryRegionType::Reserved)]
    );
}

#[test]
fn non_usable_overlap_is_fatal() {
    let mut m = MemoryMap::new();
    let a = region(0, 10, MemoryRegionType::Reserved);
    let b = region(5, 15, MemoryRegionType::AcpiNvs);
    m.add_region(a).unwrap();
    m.add_region(b).unwrap();
    assert_eq!(m.resolve_overlaps(), Err(MapError::UnresolvedOverlap(a, b)));
    assert_eq!(m.regions(), &[a, b]);
}

#[test]
fn normalizing_twice_changes_nothing() {
    let mut m = MemoryMap::new();
    m.add_region(region(0, 10, MemoryRegionType::Usable)).unwrap();
    m.add_region(region(8, 20, MemoryRegionType::Usable)).unwrap();
    m.add_region(region(15, 30, MemoryRegionType::Reserved)).unwrap();
    assert_eq!(m.resolve_overlaps(), Ok(()));
    let once: Vec<MemoryRegion> = m.regions().to_vec();
    assert_eq!(
        once,
        vec![
            region(0, 8, MemoryRegionType::Usable),
            region(8, 15, MemoryRegionType::Usable),
            region(15, 30, MemoryRegionType::Reserved),
        ]
    );
    assert_eq!(m.resolve_overlaps(), Ok(()));
    assert_eq!(m.regions(), &once[..]);
}

#[test]
fn unknown_type_code_is_refused() {
    let d = descriptor(0, 0x1000, 9);
    assert_eq!(MemoryRegion::from_descriptor(d), Err(MapError::UnknownRegionType(9)));
    assert_eq!(create_from_descriptors(&[d]).err(), Some(MapError::UnknownRegionType(9)));
}

#[test]
fn unknown_type_is_reported_before_capacity() {
    let mut ds: Vec<E820MemoryRegion> = (0..40u64).map(|i| descriptor(i * 0x2000, 0x1000, 1)).collect();
    ds.push(descriptor(0x100_0000, 0x1000, 0));
    assert_eq!(create_from_descriptors(&ds).err(), Some(MapError::UnknownRegionType(0)));
}

#[test]
fn known_codes_convert() {
    let expected = [
        MemoryRegionType::Usable,
        MemoryRegionType::Reserved,
        MemoryRegionType::AcpiReclaimable,
        MemoryRegionType::AcpiNvs,
        MemoryRegionType::BadMemory,
    ];
    for (code, t) in (1u32..=5).zip(expected.iter()) {
        let r = MemoryRegion::from_descriptor(descriptor(0x2000, 0x3000, code)).unwrap();
        assert_eq!(r, region(2, 5, *t));
    }
}

#[test]
fn conversion_rounds_down_to_frames() {
    let r = MemoryRegion::from_descriptor(descriptor(0x1234, 0x2000, 1)).unwrap();
    assert_eq!(r.range, FrameRange { start: 1, end: 3 });
    let partial = MemoryRegion::from_descriptor(descriptor(0x5000, 0xfff, 2)).unwrap();
    assert_eq!(partial.range, FrameRange { start: 5, end: 5 });
    assert!(partial.range.is_empty());
}

#[test]
fn descriptors_round_trip() {
    let ds = [descriptor(0, 0x1000, 1), descriptor(0x1000, 0x2000, 2), descriptor(0x3000, 0x1000, 1)];
    let m = create_from_descriptors(&ds).unwrap();
    assert_eq!(
        m.regions(),
        &[
            region(0, 1, MemoryRegionType::Usable),
            region(1, 3, MemoryRegionType::Reserved),
            region(3, 4, MemoryRegionType::Usable),
        ]
    );
}

#[test]
fn descriptors_in_any_order_are_sorted_and_trimmed() {
    let ds = [descriptor(0x8000, 0xc000, 2), descriptor(0, 0xa000, 1)];
    let m = create_from_descriptors(&ds).unwrap();
    assert_eq!(
        m.regions(),
        &[region(0, 8, MemoryRegionType::Usable), region(8, 20, MemoryRegionType::Reserved)]
    );
}

#[test]
fn overlapping_firmware_regions_are_fatal() {
    let ds = [descriptor(0, 0xa000, 2), descriptor(0x5000, 0xa000, 4)];
    assert_eq!(
        create_from_descriptors(&ds).err(),
        Some(MapError::UnresolvedOverlap(
            region(0, 10, MemoryRegionType::Reserved),
            region(5, 15, MemoryRegionType::AcpiNvs)
        ))
    );
}

#[test]
fn too_many_descriptors_exceed_capacity() {
    let ds: Vec<E820MemoryRegion> = (0..33u64).map(|i| descriptor(i * 0x2000, 0x1000, 1)).collect();
    assert_eq!(
        create_from_descriptors(&ds).err(),
        Some(MapError::CapacityExceeded(region(64, 65, MemoryRegionType::Usable)))
    );
    let fits: Vec<E820MemoryRegion> = (0..32u64).map(|i| descriptor(i * 0x2000, 0x1000, 1)).collect();
    assert_eq!(create_from_descriptors(&fits).unwrap().len(), 32);
}

#[test]
fn empty_descriptors_free_their_slot() {
    let mut ds: Vec<E820MemoryRegion> = (0..32u64).map(|i| descriptor(i * 0x2000, 0x1000, 1)).collect();
    ds.insert(3, descriptor(0x100_0000, 0x10, 1));
    assert_eq!(create_from_descriptors(&ds).unwrap().len(), 32);
}

#[test]
fn no_descriptors_give_an_empty_map() {
    assert_eq!(create_from_descriptors(&[]).unwrap().len(), 0);
}

#[test]
fn boot_info_keeps_its_parts() {
    let mut m = MemoryMap::new();
    m.add_region(region(1, 2, MemoryRegionType::BootInfo)).unwrap();
    let package = [1u8, 2, 3];
    let info = BootInfo::new(0x1000, m, &package);
    assert_eq!(info.p4_table_addr, 0x1000);
    assert_eq!(info.memory_map.regions(), &[region(1, 2, MemoryRegionType::BootInfo)]);
    assert_eq!(info.package, &[1u8, 2, 3]);
}

#[test]
fn descriptor_range_check() {
    assert!(descriptor(0, 0x1000, 1).is_in_range());
    assert!(descriptor(0xf_ffff_ffff_f000, 0xfff, 1).is_in_range());
    assert!(!descriptor(0xf_ffff_ffff_f000, 0x1000, 1).is_in_range());
    assert!(!descriptor(u64::MAX, 1, 1).is_in_range());
}
