//! Tests of the memory map and the frame allocator: construction from
//! probe entries, region claims, and the conservation of frames.

use bootcore::memory_map::{MemoryMap, MemoryMapError, MemoryRegion, MemoryRegionType, FrameRange, RawMemoryRegion};
use bootcore::frame_allocator::FrameAllocator;

fn raw(base: u64, length: u64, kind: u32) -> RawMemoryRegion {
    RawMemoryRegion { base_addr: base, length, region_type: kind }
}

fn region(start_frame: u64, end_frame: u64, kind: MemoryRegionType) -> MemoryRegion {
    MemoryRegion {
        range: FrameRange { start_frame_number: start_frame, end_frame_number: end_frame },
        region_type: kind,
    }
}

fn total_frames(map: &MemoryMap) -> u64 {
    let mut total = 0;
    for i in 0..map.len() {
        let r = map.get(i);
        total += r.range.end_frame_number - r.range.start_frame_number;
    }
    total
}

fn assert_sorted_disjoint(map: &MemoryMap) {
    for i in 1..map.len() {
        let a = map.get(i - 1);
        let b = map.get(i);
        assert!(a.range.end_frame_number <= b.range.start_frame_number);
        assert!(a.range.start_frame_number < a.range.end_frame_number);
    }
}

#[test]
fn from_raw_aligns_and_sorts() {
    // Unaligned boundary at 0x9FC00: the usable range shrinks to whole
    // frames, the reserved range grows to cover the remainder.
    let entries = vec![
        raw(0x100000, 0x1F00000, 1),
        raw(0x0, 0x9FC00, 1),
        raw(0x9FC00, 0x60400, 2),
    ];
    let map = MemoryMap::from_raw(&entries).unwrap();
    assert_eq!(map.len(), 3);
    assert_eq!(map.get(0), region(0x0, 0x9F, MemoryRegionType::Usable));
    assert_eq!(map.get(1), region(0x9F, 0x100, MemoryRegionType::Reserved));
    assert_eq!(map.get(2), region(0x100, 0x2000, MemoryRegionType::Usable));
    assert_sorted_disjoint(&map);
}

#[test]
fn from_raw_rejects_overlap() {
    let entries = vec![raw(0x0, 0x10000, 1), raw(0x8000, 0x10000, 2)];
    assert_eq!(MemoryMap::from_raw(&entries).unwrap_err(), MemoryMapError::RegionOverlap);
}

#[test]
fn from_raw_rejects_wrapping_range() {
    let entries = vec![raw(u64::MAX - 0x1000, 0x2000, 2)];
    assert_eq!(MemoryMap::from_raw(&entries).unwrap_err(), MemoryMapError::InvalidRange);
}

#[test]
fn from_raw_skips_empty_entries() {
    // A usable range shorter than one frame covers no whole frame.
    let entries = vec![raw(0x1000, 0x2000, 1), raw(0x4100, 0x200, 1)];
    let map = MemoryMap::from_raw(&entries).unwrap();
    assert_eq!(map.len(), 1);
    assert_eq!(map.get(0), region(1, 3, MemoryRegionType::Usable));
}

#[test]
fn mark_preserves_total_frames() {
    // A sequence of claims never creates or destroys a frame.
    let entries = vec![raw(0x0, 0x9F000, 1), raw(0x100000, 0x1F00000, 1)];
    let map = MemoryMap::from_raw(&entries).unwrap();
    let before = total_frames(&map);
    let mut fa = FrameAllocator::new(map);
    fa.mark_allocated_region(region(0, 1, MemoryRegionType::FrameZero)).unwrap();
    fa.mark_allocated_region(region(0x400, 0x410, MemoryRegionType::Kernel)).unwrap();
    fa.mark_allocated_region(region(0x10, 0x20, MemoryRegionType::Bootloader)).unwrap();
    fa.mark_allocated_region(region(0x70, 0x80, MemoryRegionType::PageTable)).unwrap();
    assert_eq!(total_frames(&fa.memory_map), before);
    assert_sorted_disjoint(&fa.memory_map);
}

#[test]
fn mark_splits_around_the_claim() {
    let entries = vec![raw(0x0, 0x10000, 1)];
    let map = MemoryMap::from_raw(&entries).unwrap();
    let mut fa = FrameAllocator::new(map);
    fa.mark_allocated_region(region(0x4, 0x8, MemoryRegionType::Kernel)).unwrap();
    assert_eq!(fa.memory_map.len(), 3);
    assert_eq!(fa.memory_map.get(0), region(0x0, 0x4, MemoryRegionType::Usable));
    assert_eq!(fa.memory_map.get(1), region(0x4, 0x8, MemoryRegionType::Kernel));
    assert_eq!(fa.memory_map.get(2), region(0x8, 0x10, MemoryRegionType::Usable));
}

#[test]
fn mark_conflicting_kind_is_rejected() {
    let entries = vec![raw(0x0, 0x10000, 1)];
    let map = MemoryMap::from_raw(&entries).unwrap();
    let mut fa = FrameAllocator::new(map);
    fa.mark_allocated_region(region(0x4, 0x8, MemoryRegionType::Kernel)).unwrap();
    let err = fa
        .mark_allocated_region(region(0x6, 0xA, MemoryRegionType::Bootloader))
        .unwrap_err();
    assert_eq!(err, MemoryMapError::RegionConflict);
    // Re-marking the same range with the same kind is allowed.
    fa.mark_allocated_region(region(0x4, 0x8, MemoryRegionType::Kernel)).unwrap();
}

#[test]
fn allocate_returns_lowest_usable_frame() {
    let entries = vec![raw(0x0, 0x9F000, 1), raw(0x100000, 0x100000, 1)];
    let map = MemoryMap::from_raw(&entries).unwrap();
    let mut fa = FrameAllocator::new(map);
    fa.mark_allocated_region(region(0, 1, MemoryRegionType::FrameZero)).unwrap();
    // Frame 0 is no longer usable, so the next allocation returns 1.
    let f = fa.allocate_frame(MemoryRegionType::PageTable).unwrap();
    assert_eq!(f, 1);
    let g = fa.allocate_frame(MemoryRegionType::PageTable).unwrap();
    assert_eq!(g, 2);
    assert_sorted_disjoint(&fa.memory_map);
}

#[test]
fn allocate_fails_without_usable_memory() {
    let entries = vec![raw(0x0, 0x10000, 2)];
    let map = MemoryMap::from_raw(&entries).unwrap();
    let mut fa = FrameAllocator::new(map);
    let err = fa.allocate_frame(MemoryRegionType::PageTable).unwrap_err();
    assert_eq!(err, MemoryMapError::NoUsableFrame);
}

#[test]
fn add_region_keeps_order() {
    let mut map = MemoryMap::new();
    map.add_region(region(0x100, 0x200, MemoryRegionType::Usable)).unwrap();
    map.add_region(region(0x0, 0x80, MemoryRegionType::Reserved)).unwrap();
    map.add_region(region(0x300, 0x400, MemoryRegionType::Usable)).unwrap();
    assert_eq!(map.get(0).range.start_frame_number, 0x0);
    assert_eq!(map.get(1).range.start_frame_number, 0x100);
    assert_eq!(map.get(2).range.start_frame_number, 0x300);
    let err = map.add_region(region(0x180, 0x190, MemoryRegionType::Reserved)).unwrap_err();
    assert_eq!(err, MemoryMapError::RegionOverlap);
}

#[test]
fn too_many_regions_fill_the_map() {
    // 65 disjoint usable ranges: one more than the map can hold.
    let mut entries = Vec::new();
    for i in 0..65u64 {
        entries.push(raw(i * 0x10000, 0x1000, 1));
    }
    assert_eq!(MemoryMap::from_raw(&entries).unwrap_err(), MemoryMapError::MapFull);
}
