//! Tests of the boot information structure and its fixed byte layout:
//! the byte-for-byte round trip of the handoff contract.

use bootcore::bootinfo::{BootInfo, VbeModeInfo, boot_info_from_bytes, BOOT_INFO_BYTES};
use bootcore::memory_map::{MemoryMap, MemoryRegion, MemoryRegionType, FrameRange};

fn sample_map() -> MemoryMap {
    let mut map = MemoryMap::new();
    map.add_region(MemoryRegion {
        range: FrameRange { start_frame_number: 0, end_frame_number: 0x9f },
        region_type: MemoryRegionType::Usable,
    }).unwrap();
    map.add_region(MemoryRegion {
        range: FrameRange { start_frame_number: 0x9f, end_frame_number: 0x100 },
        region_type: MemoryRegionType::Reserved,
    }).unwrap();
    map.add_region(MemoryRegion {
        range: FrameRange { start_frame_number: 0x400, end_frame_number: 0x410 },
        region_type: MemoryRegionType::Kernel,
    }).unwrap();
    map
}

#[test]
fn boot_info_round_trips_byte_for_byte() {
    let mut info = BootInfo::new(sample_map(), 0xffff_ffff_ffff_f000, 0xffff_fc00_0000_0000);
    info.vbe_info = VbeModeInfo {
        attributes: 0x99, win_a: 1, win_b: 2, granularity: 3, window_size: 4,
        segment_a: 5, segment_b: 6, _1: 0xdead_beef, pitch: 1024, width: 1280,
        height: 800, w_char: 8, y_char: 16, planes: 1, bpp: 32, banks: 1,
        memory_model: 6, bank_size: 0, image_pages: 1, _2: 0, red_mask: 8,
        red_position: 16, green_mask: 8, green_position: 8, blue_mask: 8,
        blue_position: 0, rsv_mask: 8, rsv_position: 24, directcolor_attributes: 0,
        framebuffer: 0xfd00_0000,
    };
    let bytes = info.to_bytes();
    assert_eq!(bytes.len(), BOOT_INFO_BYTES);
    let back = boot_info_from_bytes(&bytes).unwrap();
    assert_eq!(back.recursive_page_table_addr, 0xffff_ffff_ffff_f000);
    assert_eq!(back.physical_memory_offset, 0xffff_fc00_0000_0000);
    assert_eq!(back.vbe_info, info.vbe_info);
    assert_eq!(back.memory_map.len(), 3);
    for i in 0..3 {
        assert_eq!(back.memory_map.get(i), info.memory_map.get(i));
    }
    // And the re-serialization is identical, byte for byte.
    let again = back.to_bytes();
    assert_eq!(again, bytes);
}

#[test]
fn fixed_offsets_of_the_layout() {
    let info = BootInfo::new(sample_map(), 0x1122_3344_5566_7788, 0xaabb_ccdd_eeff_0011);
    let bytes = info.to_bytes();
    // Region count, little-endian, at the start.
    assert_eq!(bytes[0], 3);
    for k in 1..8 {
        assert_eq!(bytes[k], 0);
    }
    // First region: start frame 0, end frame 0x9f, kind code 0.
    assert_eq!(bytes[8], 0);
    assert_eq!(bytes[16], 0x9f);
    assert_eq!(bytes[24], 0);
    // Third region is the kernel: kind code 6 at its slot.
    assert_eq!(bytes[8 + 2 * 20 + 16], 6);
    // The page-table address and the offset at their fixed offsets.
    assert_eq!(bytes[1288], 0x88);
    assert_eq!(bytes[1295], 0x11);
    assert_eq!(bytes[1296], 0x11);
    assert_eq!(bytes[1303], 0xaa);
}

#[test]
fn wrong_length_is_rejected() {
    let bytes = vec![0u8; BOOT_INFO_BYTES - 1];
    assert!(boot_info_from_bytes(&bytes).is_none());
}

#[test]
fn oversized_region_count_is_rejected() {
    let mut bytes = BootInfo::new(sample_map(), 0, 0).to_bytes();
    bytes[0] = 65;
    assert!(boot_info_from_bytes(&bytes).is_none());
}

#[test]
fn unknown_kind_code_is_rejected() {
    let mut bytes = BootInfo::new(sample_map(), 0, 0).to_bytes();
    bytes[24] = 200;
    assert!(boot_info_from_bytes(&bytes).is_none());
}

#[test]
fn unsorted_map_bytes_are_rejected() {
    let mut bytes = BootInfo::new(sample_map(), 0, 0).to_bytes();
    // Make the first region end after the second one starts.
    bytes[16] = 0xff;
    bytes[17] = 0x01;
    assert!(boot_info_from_bytes(&bytes).is_none());
}
