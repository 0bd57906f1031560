//! End-to-end test of the boot path on the reference machine layout.

use bootcore::boot_flow::{load_elf, IdentityMappedAddr, RECURSIVE_TABLE_ADDR, VGA_VIRT_ADDR};
use bootcore::bootinfo::boot_info_from_bytes;
use bootcore::bringup::LAPIC_BASE;
use bootcore::memory_map::{MemoryRegionType, RawMemoryRegion};
use bootcore::page_table::{PageTable, PageTableFlags};

fn put_u16(image: &mut Vec<u8>, off: usize, x: u16) {
    image[off] = (x & 0xff) as u8;
    image[off + 1] = (x >> 8) as u8;
}

fn put_u32(image: &mut Vec<u8>, off: usize, x: u32) {
    for k in 0..4 {
        image[off + k] = ((x >> (8 * k)) & 0xff) as u8;
    }
}

fn put_u64(image: &mut Vec<u8>, off: usize, x: u64) {
    for k in 0..8 {
        image[off + k] = ((x >> (8 * k)) & 0xff) as u8;
    }
}

/// The kernel image of the scenario: one writable, non-executable
/// segment of 0x8000 bytes at a high half address, with 0x6000 bytes of
/// file data.
fn sample_kernel() -> Vec<u8> {
    let mut image = vec![0u8; 0x10000];
    image[0] = 0x7f;
    image[1] = 0x45;
    image[2] = 0x4c;
    image[3] = 0x46;
    image[4] = 2;
    image[5] = 1;
    put_u16(&mut image, 18, 62);
    put_u64(&mut image, 24, 0xffff_8000_0000_0000);
    put_u64(&mut image, 32, 64);
    put_u16(&mut image, 54, 56);
    put_u16(&mut image, 56, 1);
    // One loadable segment: read + write, not executable.
    put_u32(&mut image, 64, 1);
    put_u32(&mut image, 68, 0x6);
    put_u64(&mut image, 72, 0x1000); // file offset
    put_u64(&mut image, 80, 0xffff_8000_0000_0000); // virtual address
    put_u64(&mut image, 96, 0x6000); // file size
    put_u64(&mut image, 104, 0x8000); // memory size
    put_u64(&mut image, 112, 0x1000);
    // Recognizable file content.
    for i in 0..0x6000u64 {
        image[(0x1000 + i) as usize] = (i % 251) as u8;
    }
    image
}

#[test]
fn boots_the_reference_machine() {
    // Memory map: usable below 0x9FC00, reserved to 1 MiB, usable to
    // 32 MiB; kernel image at physical [0x400000, 0x410000).
    let raw = vec![
        RawMemoryRegion { base_addr: 0x0, length: 0x9FC00, region_type: 1 },
        RawMemoryRegion { base_addr: 0x9FC00, length: 0x100000 - 0x9FC00, region_type: 2 },
        RawMemoryRegion { base_addr: 0x100000, length: 0x2000000 - 0x100000, region_type: 1 },
    ];
    let image = sample_kernel();
    // The active table still identity-maps the image's pages.
    let mut pt = PageTable::new();
    for f in 0x400..0x410u64 {
        pt.identity_map(f * 0x1000, PageTableFlags { writable: false, no_execute: false })
            .unwrap();
    }
    let responsive = vec![true, true, false, true];
    let setup = load_elf(
        IdentityMappedAddr(0x400000),
        &image,
        &raw,
        0x70000,
        0x80000,
        0x10000,
        0x20000,
        pt,
        &responsive,
        false,
    ).unwrap();

    // The final map holds a kernel region exactly covering the image.
    let map = &setup.boot_info.memory_map;
    let mut found = false;
    for i in 0..map.len() {
        let r = map.get(i);
        if r.region_type == MemoryRegionType::Kernel && r.range.start_frame_number >= 0x400 {
            // The image itself, as opposed to the freshly allocated
            // frames of the zero tail lower in memory.
            assert_eq!(r.range.start_frame_number, 0x400);
            assert_eq!(r.range.end_frame_number, 0x410);
            found = true;
        }
    }
    assert!(found);
    // The map is sorted and overlap-free.
    for i in 1..map.len() {
        assert!(map.get(i - 1).range.end_frame_number <= map.get(i).range.start_frame_number);
    }

    // The mapped segment reads back the file bytes, then zeroes.
    assert_eq!(setup.loaded.len(), 1);
    let data = &setup.loaded[0].data;
    assert_eq!(setup.loaded[0].virtual_address, 0xffff_8000_0000_0000);
    assert_eq!(data.len(), 0x8000);
    for i in 0..0x6000usize {
        assert_eq!(data[i], (i % 251) as u8);
    }
    for i in 0x6000..0x8000usize {
        assert_eq!(data[i], 0);
    }

    // Entry point, stack top, and handoff constants.
    assert_eq!(setup.entry_point, 0xffff_8000_0000_0000);
    assert_eq!(setup.stack_top, 0xffff_8000_0000_8000);
    assert_eq!(setup.boot_info.recursive_page_table_addr, RECURSIVE_TABLE_ADDR);

    // Segment pages map to the image frames with the declared bits.
    let first = setup.page_table.translate(0xffff_8000_0000_0000).unwrap();
    assert_eq!(first.frame, 0x401000);
    assert!(first.flags.writable && first.flags.no_execute);
    // The image's identity mapping is gone.
    assert!(setup.page_table.translate(0x400000).is_none());
    // The video page is mapped; the bring-up pages are not.
    assert!(setup.page_table.translate(VGA_VIRT_ADDR).is_some());
    assert!(setup.page_table.translate(0).is_none());
    assert!(setup.page_table.translate(LAPIC_BASE).is_none());

    // Three processors run: the primary plus processors 1 and 3.
    assert_eq!(setup.bringup.acknowledged, 3);

    // The handoff bytes read back as the same structure.
    let back = boot_info_from_bytes(&setup.boot_info_bytes).unwrap();
    assert_eq!(back.memory_map.len(), map.len());
    for i in 0..map.len() {
        assert_eq!(back.memory_map.get(i), map.get(i));
    }
}
