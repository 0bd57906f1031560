//! Tests of the page-table model: mapping, unmapping, the error on a
//! second unmap, and segment mapping with its zero-filled tail.

use bootcore::page_table::{
    PageTable, PageTableFlags, PageTableError, map_segment, map_kernel, segment_bytes,
};
use bootcore::elf::ElfSegment;
use bootcore::memory_map::{MemoryMap, MemoryRegionType, RawMemoryRegion};
use bootcore::frame_allocator::FrameAllocator;

fn flags_rw() -> PageTableFlags {
    PageTableFlags { writable: true, no_execute: true }
}

fn segment(vaddr: u64, offset: u64, filesz: u64, memsz: u64, w: bool, x: bool) -> ElfSegment {
    ElfSegment {
        virtual_address: vaddr,
        offset,
        file_size: filesz,
        memory_size: memsz,
        readable: true,
        writable: w,
        executable: x,
        alignment: 0x1000,
    }
}

fn usable_map(bytes: u64) -> FrameAllocator {
    let entries = vec![RawMemoryRegion { base_addr: 0, length: bytes, region_type: 1 }];
    FrameAllocator::new(MemoryMap::from_raw(&entries).unwrap())
}

#[test]
fn map_translate_unmap() {
    let mut pt = PageTable::new();
    pt.map_to(0x1000, 0x5000, flags_rw()).unwrap();
    let m = pt.translate(0x1000).unwrap();
    assert_eq!(m.frame, 0x5000);
    assert!(m.flags.writable && m.flags.no_execute);
    assert!(pt.translate(0x2000).is_none());
    let removed = pt.unmap(0x1000).unwrap();
    assert_eq!(removed.frame, 0x5000);
    assert!(pt.translate(0x1000).is_none());
}

#[test]
fn double_map_is_rejected() {
    let mut pt = PageTable::new();
    pt.map_to(0x1000, 0x5000, flags_rw()).unwrap();
    let err = pt.map_to(0x1000, 0x6000, flags_rw()).unwrap_err();
    assert_eq!(err, PageTableError::AlreadyMapped);
}

#[test]
fn second_unmap_is_rejected() {
    // Unmapping is no silent no-op: once the page is gone, a second
    // unmap is an error.
    let mut pt = PageTable::new();
    pt.identity_map(0x3000, flags_rw()).unwrap();
    pt.unmap(0x3000).unwrap();
    let err = pt.unmap(0x3000).unwrap_err();
    assert_eq!(err, PageTableError::NotMapped);
}

#[test]
fn segment_bytes_zero_fills_the_tail() {
    let mut image = vec![0u8; 0x100];
    for i in 0..0x40 {
        image[0x20 + i] = (i + 1) as u8;
    }
    let seg = segment(0x1000, 0x20, 0x40, 0x80, true, false);
    let data = segment_bytes(&image, seg);
    assert_eq!(data.len(), 0x80);
    for i in 0..0x40 {
        assert_eq!(data[i], (i + 1) as u8);
    }
    for i in 0x40..0x80 {
        assert_eq!(data[i], 0);
    }
}

#[test]
fn map_segment_uses_image_frames_then_fresh_ones() {
    let mut pt = PageTable::new();
    let mut fa = usable_map(0x100000);
    let image = vec![0xabu8; 0x3000];
    // Two pages of file data, one page of zero tail.
    let seg = segment(0xffff_8000_0000_0000, 0x1000, 0x2000, 0x3000, true, false);
    map_segment(seg, 0x40_0000, &image, &mut pt, &mut fa).unwrap();
    let first = pt.translate(0xffff_8000_0000_0000).unwrap();
    assert_eq!(first.frame, 0x40_1000);
    assert!(first.flags.writable && first.flags.no_execute);
    let second = pt.translate(0xffff_8000_0000_1000).unwrap();
    assert_eq!(second.frame, 0x40_2000);
    // The tail page got a freshly allocated frame, not an image frame.
    let tail = pt.translate(0xffff_8000_0000_2000).unwrap();
    assert!(tail.frame < 0x40_0000);
}

#[test]
fn map_kernel_returns_highest_mapped_address() {
    let mut pt = PageTable::new();
    let mut fa = usable_map(0x100000);
    let image = vec![0u8; 0x4000];
    let segments = vec![
        segment(0xffff_8000_0000_0000, 0x1000, 0x1000, 0x1000, false, true),
        segment(0xffff_8000_0000_4000, 0x2000, 0x800, 0x2800, true, false),
    ];
    let loaded = map_kernel(0x40_0000, &image, &segments, &mut pt, &mut fa).unwrap();
    assert_eq!(loaded.stack_top, 0xffff_8000_0000_7000);
    assert_eq!(loaded.segments.len(), 2);
    assert_eq!(loaded.segments[1].data.len(), 0x2800);
    // Executable code is mapped executable, data is not.
    let code = pt.translate(0xffff_8000_0000_0000).unwrap();
    assert!(!code.flags.no_execute && !code.flags.writable);
    let data = pt.translate(0xffff_8000_0000_4000).unwrap();
    assert!(data.flags.no_execute && data.flags.writable);
}

#[test]
fn frame_exhaustion_fails_the_mapping() {
    let mut pt = PageTable::new();
    // No usable memory at all: the zero tail has nowhere to go.
    let entries = vec![RawMemoryRegion { base_addr: 0, length: 0x100000, region_type: 2 }];
    let mut fa = FrameAllocator::new(MemoryMap::from_raw(&entries).unwrap());
    let image = vec![0u8; 0x3000];
    let seg = segment(0xffff_8000_0000_0000, 0x1000, 0x1000, 0x2000, true, false);
    let err = map_segment(seg, 0x40_0000, &image, &mut pt, &mut fa).unwrap_err();
    assert_eq!(err, PageTableError::FrameAllocation);
}

#[test]
fn inconsistent_segment_sizes_are_rejected() {
    let mut pt = PageTable::new();
    let mut fa = usable_map(0x100000);
    let image = vec![0u8; 0x3000];
    let seg = segment(0xffff_8000_0000_0000, 0x1000, 0x2000, 0x1000, true, false);
    let err = map_kernel(0x40_0000, &image, &vec![seg], &mut pt, &mut fa).unwrap_err();
    assert_eq!(err, PageTableError::BadSegment);
}
