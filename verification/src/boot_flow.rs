//! The boot path: from the raw probe data and the loaded kernel image to
//! a ready address space, woken processors, and the serialized boot
//! information.
//!
//! `load_elf` makes every decision of the boot flow on plain values:
//! it builds the memory map, claims the regions the loader already uses,
//! tears down the image's identity mapping, maps the kernel segments, the
//! boot-information page and the video page, temporarily identity-maps
//! the pages the wake-up protocol touches and removes them again before
//! handoff, and assembles the final structure.  The privileged stores and
//! the final jump are left to the thin hardware layer, which only carries
//! out what is decided and proved here.

use vstd::prelude::*;
use crate::memory_map::{
    MemoryMap, MemoryMapError, MemoryRegion, MemoryRegionType, FrameRange, RawMemoryRegion,
    PAGE_SIZE, MAX_FRAME_NUMBER, MAX_MEMORY_MAP_SIZE,
    raw_ok, raw_disjoint, raw_count, raw_total_frames, raw_frame_kind,
    frame_kind, total_frames,
};
use crate::frame_allocator::{FrameAllocator, mark_result};
use crate::elf::{
    parse_kernel, spec_entry_point, spec_segments, header_ok, ph_table_ok, ElfError,
    MAX_SEGMENTS,
};
use crate::page_table::{
    PageTable, PageTableFlags, PageTableError, map_kernel, spec_stack_top, LoadedSegment,
    seg_page, seg_flags,
};
use crate::bringup::{wake_secondaries, count_range, BringUpReport, LAPIC_BASE};
use crate::bootinfo::{
    BootInfo, spec_boot_info_bytes, BOOT_INFO_ADDR, PHYSICAL_MEMORY_OFFSET,
};

verus! {

/// Virtual address of the recursively mapped top-level page table: the
/// page reached by taking the recursive entry at every level.  The boot
/// path keeps the recursive entry in place and always reports this
/// address to the kernel; it never tears the entry down before handoff.
pub const RECURSIVE_TABLE_ADDR: u64 = 0xffff_ffff_ffff_f000;

/// Virtual address the video memory is mapped at for the kernel.
pub const VGA_VIRT_ADDR: u64 = 0xffff_ff00_f000_0000;

/// Physical address of the text-mode video memory.
pub const VGA_PHYS_ADDR: u64 = 0xb8000;

/// A physical address that the active page table maps at the same
/// virtual address.
pub struct IdentityMappedAddr(pub u64);

impl IdentityMappedAddr {
    /// The physical address.
    pub fn phys(&self) -> (r: u64)
        ensures r == self.0,
    {
        self.0
    }

    /// The virtual address, equal to the physical one.
    pub fn virt(&self) -> (r: u64)
        ensures r == self.0,
    {
        self.0
    }

    /// The address as a plain integer.
    pub fn as_u64(&self) -> (r: u64)
        ensures r == self.0,
    {
        self.0
    }
}

/// Any fatal error of the boot path.
#[derive(Clone, Copy, PartialEq, Eq, Structural, Debug)]
pub enum BootError {
    /// The memory map could not be built or a region claim failed.
    MemoryMap(MemoryMapError),
    /// The kernel image is not a usable ELF executable.
    Elf(ElfError),
    /// A page could not be mapped or unmapped.
    Mapping(PageTableError),
}

/// Everything the hardware layer needs to finish the boot: the mappings
/// to install, the bytes of the boot information page, the entry point
/// and the stack top, and how many processors answered.
pub struct BootSetup {
    /// The final boot information structure.
    pub boot_info: BootInfo,
    /// The structure serialized into its fixed layout.
    pub boot_info_bytes: Vec<u8>,
    /// The final page table: all mappings the kernel starts with.
    pub page_table: PageTable,
    /// What each mapped segment's memory must read as.
    pub loaded: Vec<LoadedSegment>,
    /// Virtual address of the kernel entry point.
    pub entry_point: u64,
    /// Initial kernel stack top.
    pub stack_top: u64,
    /// The outcome of multiprocessor bring-up.
    pub bringup: BringUpReport,
}

/// The frames covering `[start, end)`, rounded outward.
fn frames_covering(start: u64, end: u64) -> (r: FrameRange)
    requires
        start < end,
        end <= 0xffff_ffff_ffff_f000u64,
    ensures
        r.start_frame_number == start / PAGE_SIZE,
        r.end_frame_number == ((end - 1) as int / (PAGE_SIZE as int) + 1) as u64,
        r.valid(),
{
    FrameRange {
        start_frame_number: start / PAGE_SIZE,
        end_frame_number: (end - 1) / PAGE_SIZE + 1,
    }
}

/// The raw probe entries form an acceptable memory map: addressable,
/// overlap-free, and within the map's capacity.
pub open spec fn probe_ok(raw: Seq<RawMemoryRegion>) -> bool {
    &&& raw_ok(raw)
    &&& raw_disjoint(raw)
    &&& raw_count(raw) <= MAX_MEMORY_MAP_SIZE
}

/// The kernel image is a usable ELF executable: a 64-bit little-endian
/// x86-64 header, an in-bounds program header table, and at most
/// `MAX_SEGMENTS` loadable segments.
pub open spec fn image_ok(image: Seq<u8>) -> bool {
    &&& header_ok(image)
    &&& ph_table_ok(image)
    &&& spec_segments(image).len() <= MAX_SEGMENTS
}

/// `p` is one of the pages of the identity mapping that covered the raw
/// kernel image.
pub open spec fn image_identity_page(kernel_start: u64, kernel_size: int, p: u64) -> bool {
    &&& (p as int) % (PAGE_SIZE as int) == 0
    &&& (kernel_start / PAGE_SIZE) * (PAGE_SIZE as int) <= p
    &&& p < ((kernel_start + kernel_size - 1) / (PAGE_SIZE as int) + 1) * (PAGE_SIZE as int)
}

/// Drives the whole boot path on plain values.  The raw probe entries
/// become the memory map; the zero frame, the loader's code, the kernel
/// image and the loader page tables are claimed in the map; the image's
/// identity mapping is torn down; the kernel segments, the
/// boot-information page and the video page are mapped; the wake-up
/// pages are identity-mapped only for bring-up and removed again; and
/// the final structure is assembled from the sorted map.  Every failure
/// is fatal and reported; on success the entry point and stack top are
/// exactly what the image declares, the handoff bytes are exactly the
/// fixed layout of the final structure, and the temporary bring-up pages
/// are no longer mapped.
#[verifier::rlimit(100)]
pub fn load_elf(
    kernel_start: IdentityMappedAddr,
    kernel_image: &Vec<u8>,
    raw_memory_map: &Vec<RawMemoryRegion>,
    page_table_start: u64,
    page_table_end: u64,
    bootloader_start: u64,
    bootloader_end: u64,
    mut page_table: PageTable,
    responsive: &Vec<bool>,
    map_physical_memory: bool,
) -> (r: Result<BootSetup, BootError>)
    requires
        page_table.wf(),
        kernel_image@.len() <= usize::MAX,
        1 <= responsive@.len() <= 128,
    ensures
        r.is_ok() ==> probe_ok(raw_memory_map@) && image_ok(kernel_image@),
        (r matches Err(BootError::Elf(_)))
            <==> (probe_ok(raw_memory_map@) && !image_ok(kernel_image@)),
        !probe_ok(raw_memory_map@) ==> (r matches Err(BootError::MemoryMap(_))),
        r.is_ok() ==> {
            let setup = r.unwrap();
            let segs = spec_segments(kernel_image@);
            &&& setup.boot_info.wf()
            &&& setup.entry_point == spec_entry_point(kernel_image@)
            &&& setup.stack_top == spec_stack_top(segs)
            &&& setup.boot_info_bytes@ == spec_boot_info_bytes(setup.boot_info)
            &&& setup.boot_info.recursive_page_table_addr == RECURSIVE_TABLE_ADDR
            &&& setup.boot_info.physical_memory_offset == PHYSICAL_MEMORY_OFFSET
            &&& setup.page_table.wf()
            &&& !setup.page_table@.contains_key(0)
            &&& !setup.page_table@.contains_key(LAPIC_BASE)
            &&& setup.bringup.acknowledged
                    == 1 + count_range(responsive@, 1, responsive@.len() as int)
            // The handed-over map holds every frame the probe reported,
            // and a frame changes kind only when it was usable.
            &&& total_frames(setup.boot_info.memory_map@)
                    == raw_total_frames(raw_memory_map@)
            &&& forall|x: int| #[trigger] frame_kind(setup.boot_info.memory_map@, x)
                    == raw_frame_kind(raw_memory_map@, x)
                    || raw_frame_kind(raw_memory_map@, x) == Some(MemoryRegionType::Usable)
            // Every usable frame of the image's range that no earlier
            // claim took is handed over as kernel memory.
            &&& forall|x: int| kernel_start.0 / PAGE_SIZE <= x
                    < (kernel_start.0 + kernel_image@.len() - 1) / (PAGE_SIZE as int) + 1
                    && raw_frame_kind(raw_memory_map@, x) == Some(MemoryRegionType::Usable)
                    && x != 0
                    && !(bootloader_start / PAGE_SIZE <= x
                        < (bootloader_end - 1) / (PAGE_SIZE as int) + 1)
                    ==> #[trigger] frame_kind(setup.boot_info.memory_map@, x)
                        == Some(MemoryRegionType::Kernel)
            // Exactly the loadable segments are loaded, in file order:
            // their file bytes followed by zeros, each page mapped with
            // the segment's permission bits.
            &&& setup.loaded@.len() == segs.len()
            &&& forall|i: int| 0 <= i < segs.len() ==> {
                    let seg = #[trigger] segs[i];
                    let ls = setup.loaded@[i];
                    &&& ls.virtual_address == seg.virtual_address
                    &&& ls.data@.len() == seg.memory_size
                    &&& (forall|b: int| 0 <= b < seg.file_size
                            ==> ls.data@[b] == kernel_image@[seg.offset + b])
                    &&& (forall|b: int| seg.file_size <= b < seg.memory_size
                            ==> ls.data@[b] == 0)
                    &&& (seg.memory_size > 0 ==> forall|p: u64|
                            (#[trigger] seg_page(seg, p)) && p != 0 && p != LAPIC_BASE
                            ==> setup.page_table@.contains_key(p)
                                && setup.page_table@[p].flags == seg_flags(seg))
                }
            // The image's identity mapping is gone: none of its pages
            // survives to handoff unless a segment or a fixed mapping
            // legitimately claims that address.
            &&& forall|p: u64| #[trigger] image_identity_page(kernel_start.0,
                        kernel_image@.len() as int, p)
                    && (forall|i: int| 0 <= i < segs.len()
                        ==> !seg_page(#[trigger] segs[i], p))
                    && p != BOOT_INFO_ADDR && p != VGA_VIRT_ADDR
                    && p < PHYSICAL_MEMORY_OFFSET
                    ==> !setup.page_table@.contains_key(p)
        },
{
    // Build the memory map from the firmware probe.
    let memory_map = match MemoryMap::from_raw(raw_memory_map) {
        Ok(m) => m,
        Err(e) => {
            return Err(BootError::MemoryMap(e));
        }
    };
    let ghost m0 = memory_map@;

    // Extract the kernel's entry point and loadable segments.
    let info = match parse_kernel(kernel_image) {
        Ok(info) => info,
        Err(e) => {
            return Err(BootError::Elf(e));
        }
    };
    let entry_point = info.entry_point;
    let ghost segs = spec_segments(kernel_image@);

    // Claim what is already in use: the zero frame, the loader itself,
    // the kernel image, and the loader's page tables.
    let mut frame_allocator = FrameAllocator::new(memory_map);
    let kernel_size = kernel_image.len() as u64;
    let addr_limit: u64 = 0xffff_ffff_ffff_f000;
    if kernel_size == 0
        || kernel_size > addr_limit
        || kernel_start.0 > addr_limit - kernel_size
        || bootloader_start >= bootloader_end
        || bootloader_end > addr_limit
        || page_table_start >= page_table_end
        || page_table_end > addr_limit
    {
        return Err(BootError::MemoryMap(MemoryMapError::InvalidRange));
    }
    let zero_region = MemoryRegion {
        range: FrameRange { start_frame_number: 0, end_frame_number: 1 },
        region_type: MemoryRegionType::FrameZero,
    };
    let loader_region = MemoryRegion {
        range: frames_covering(bootloader_start, bootloader_end),
        region_type: MemoryRegionType::Bootloader,
    };
    let kernel_region = MemoryRegion {
        range: frames_covering(kernel_start.0, kernel_start.0 + kernel_size),
        region_type: MemoryRegionType::Kernel,
    };
    let tables_region = MemoryRegion {
        range: frames_covering(page_table_start, page_table_end),
        region_type: MemoryRegionType::PageTable,
    };
    if let Err(e) = frame_allocator.mark_allocated_region(zero_region) {
        return Err(BootError::MemoryMap(e));
    }
    let ghost m1 = frame_allocator.memory_map@;
    if let Err(e) = frame_allocator.mark_allocated_region(loader_region) {
        return Err(BootError::MemoryMap(e));
    }
    let ghost m2 = frame_allocator.memory_map@;
    if let Err(e) = frame_allocator.mark_allocated_region(kernel_region) {
        return Err(BootError::MemoryMap(e));
    }
    let ghost m3 = frame_allocator.memory_map@;
    if let Err(e) = frame_allocator.mark_allocated_region(tables_region) {
        return Err(BootError::MemoryMap(e));
    }
    let ghost m4 = frame_allocator.memory_map@;

    // Tear down the identity mapping of the raw kernel image: only the
    // layout the kernel chose may stay reachable.
    let image_frames = frames_covering(kernel_start.0, kernel_start.0 + kernel_size);
    let ghost pt_in = page_table@;
    let mut f = image_frames.start_frame_number;
    while f < image_frames.end_frame_number
        invariant
            page_table.wf(),
            probe_ok(raw_memory_map@),
            image_ok(kernel_image@),
            image_frames.end_frame_number < MAX_FRAME_NUMBER,
            image_frames.start_frame_number <= f <= image_frames.end_frame_number,
            forall|p: u64| #[trigger] page_table@.contains_key(p)
                ==> pt_in.contains_key(p)
                    && !((p as int) % (PAGE_SIZE as int) == 0
                        && image_frames.start_frame_number * PAGE_SIZE <= p
                        && p < f * PAGE_SIZE),
            forall|p: u64| #[trigger] pt_in.contains_key(p)
                && !((p as int) % (PAGE_SIZE as int) == 0
                    && image_frames.start_frame_number * PAGE_SIZE <= p
                    && p < f * PAGE_SIZE)
                ==> page_table@.contains_key(p) && page_table@[p] == pt_in[p],
        decreases image_frames.end_frame_number - f,
    {
        proof {
            assert((f * PAGE_SIZE) as int % (PAGE_SIZE as int) == 0);
        }
        let ghost before = page_table@;
        match page_table.unmap(f * PAGE_SIZE) {
            Ok(_) => {}
            Err(e) => {
                return Err(BootError::Mapping(e));
            }
        }
        proof {
            assert forall|p: u64| #[trigger] page_table@.contains_key(p)
                implies pt_in.contains_key(p)
                    && !((p as int) % (PAGE_SIZE as int) == 0
                        && image_frames.start_frame_number * PAGE_SIZE <= p
                        && p < (f + 1) * PAGE_SIZE) by {
                assert(before.contains_key(p) && p != f * PAGE_SIZE);
                if (p as int) % (PAGE_SIZE as int) == 0
                    && f * PAGE_SIZE <= p && p < (f + 1) * PAGE_SIZE {
                    assert(p == f * PAGE_SIZE);
                }
            }
        }
        f += 1;
    }
    let ghost pt_u = page_table@;

    // Map the kernel segments.
    let loaded_kernel = match map_kernel(
        kernel_start.0,
        kernel_image,
        &info.segments,
        &mut page_table,
        &mut frame_allocator,
    ) {
        Ok(lk) => lk,
        Err(e) => {
            return Err(BootError::Mapping(e));
        }
    };
    let stack_top = loaded_kernel.stack_top;
    let ghost pt_k = page_table@;
    let ghost m_k = frame_allocator.memory_map@;

    // Map one fresh frame for the boot information page.
    let frame_number = match frame_allocator.allocate_frame(MemoryRegionType::BootInfo) {
        Ok(f) => f,
        Err(e) => {
            return Err(BootError::MemoryMap(e));
        }
    };
    let ghost m_a = frame_allocator.memory_map@;
    proof {
        assert((BOOT_INFO_ADDR as int) % (PAGE_SIZE as int) == 0);
        assert(((frame_number * PAGE_SIZE) as int) % (PAGE_SIZE as int) == 0);
    }
    let res = page_table.map_to(
        BOOT_INFO_ADDR,
        frame_number * PAGE_SIZE,
        PageTableFlags { writable: true, no_execute: false },
    );
    if let Err(e) = res {
        return Err(BootError::Mapping(e));
    }
    let ghost pt_b = page_table@;

    // Optionally map all probed physical memory at the fixed offset, so
    // the kernel can reach any physical address by addition.
    if map_physical_memory {
        let n = frame_allocator.memory_map.len();
        let mut max_frame: u64 = 0;
        let mut i: usize = 0;
        while i < n
            invariant
                i <= n,
                frame_allocator.wf(),
                n == frame_allocator.memory_map@.len(),
                max_frame < MAX_FRAME_NUMBER,
            decreases n - i,
        {
            let region = frame_allocator.memory_map.get(i);
            proof {
                assert(frame_allocator.memory_map@[i as int].range.valid());
            }
            if region.range.end_frame_number > max_frame {
                max_frame = region.range.end_frame_number;
            }
            i += 1;
        }
        if max_frame > 0x4000_0000u64 {
            return Err(BootError::MemoryMap(MemoryMapError::InvalidRange));
        }
        let mut f: u64 = 0;
        while f < max_frame
            invariant
                page_table.wf(),
                probe_ok(raw_memory_map@),
                image_ok(kernel_image@),
                max_frame <= 0x4000_0000u64,
                f <= max_frame,
                forall|p: u64| #[trigger] pt_b.contains_key(p)
                    ==> page_table@.contains_key(p) && page_table@[p] == pt_b[p],
                forall|p: u64| #[trigger] page_table@.contains_key(p)
                    ==> pt_b.contains_key(p) || p >= PHYSICAL_MEMORY_OFFSET,
            decreases max_frame - f,
        {
            proof {
                assert(f * PAGE_SIZE <= 0x3ff_ffff_f000u64) by (nonlinear_arith)
                    requires f <= 0x3fff_ffffu64 && PAGE_SIZE == 4096;
                assert(((f * PAGE_SIZE) as int) % (PAGE_SIZE as int) == 0);
            }
            let frame_addr: u64 = f * PAGE_SIZE;

            let page_addr: u64 = PHYSICAL_MEMORY_OFFSET + frame_addr;
            proof {
                assert((page_addr as int) % (PAGE_SIZE as int) == 0);
            }
            let res = page_table.map_to(
                page_addr,
                frame_addr,
                PageTableFlags { writable: true, no_execute: false },
            );
            if let Err(e) = res {
                return Err(BootError::Mapping(e));
            }
            f += 1;
        }
    }
    proof {
        assert forall|p: u64| #[trigger] pt_b.contains_key(p)
            implies page_table@.contains_key(p) && page_table@[p] == pt_b[p] by {}
        assert forall|p: u64| #[trigger] page_table@.contains_key(p)
            implies pt_b.contains_key(p) || p >= PHYSICAL_MEMORY_OFFSET by {}
    }
    let ghost pt_o = page_table@;

    // Map the video memory where the kernel expects it.
    proof {
        assert((VGA_VIRT_ADDR as int) % (PAGE_SIZE as int) == 0);
        assert((VGA_PHYS_ADDR as int) % (PAGE_SIZE as int) == 0);
    }
    let res = page_table.map_to(
        VGA_VIRT_ADDR,
        VGA_PHYS_ADDR,
        PageTableFlags { writable: true, no_execute: false },
    );
    if let Err(e) = res {
        return Err(BootError::Mapping(e));
    }
    let ghost pt_v = page_table@;

    // Identity-map the wake-up pages only for bring-up, wake the other
    // processors, and remove both mappings again: they must never stay
    // mapped past handoff.
    proof {
        assert((LAPIC_BASE as int) % (PAGE_SIZE as int) == 0);
    }
    let res = page_table.identity_map(0, PageTableFlags { writable: true, no_execute: false });
    if let Err(e) = res {
        return Err(BootError::Mapping(e));
    }
    let res = page_table.identity_map(
        LAPIC_BASE,
        PageTableFlags { writable: true, no_execute: false },
    );
    if let Err(e) = res {
        return Err(BootError::Mapping(e));
    }
    let ghost pt_i = page_table@;
    let bringup = wake_secondaries(responsive);
    let res = page_table.unmap(0);
    if let Err(e) = res {
        return Err(BootError::Mapping(e));
    }
    let res = page_table.unmap(LAPIC_BASE);
    if let Err(e) = res {
        return Err(BootError::Mapping(e));
    }
    let ghost pt_f = page_table@;

    proof {
        // A frame's kind changes only away from usable, and the frames
        // of the image range that were usable and unclaimed are kernel
        // memory now.
        assert forall|x: int| true
            implies #[trigger] frame_kind(m_a, x) == raw_frame_kind(raw_memory_map@, x)
                || raw_frame_kind(raw_memory_map@, x) == Some(MemoryRegionType::Usable) by {
            assert(frame_kind(m0, x) == raw_frame_kind(raw_memory_map@, x));
            assert(frame_kind(m1, x) == mark_result(frame_kind(m0, x), zero_region, x));
            assert(frame_kind(m2, x) == mark_result(frame_kind(m1, x), loader_region, x));
            assert(frame_kind(m3, x) == mark_result(frame_kind(m2, x), kernel_region, x));
            assert(frame_kind(m4, x) == mark_result(frame_kind(m3, x), tables_region, x));
            assert(frame_kind(m_k, x) == frame_kind(m4, x)
                || (frame_kind(m4, x) == Some(MemoryRegionType::Usable)
                    && frame_kind(m_k, x) == Some(MemoryRegionType::Kernel)));
            assert(frame_kind(m_a, x) == if x == frame_number as int {
                Some(MemoryRegionType::BootInfo)
            } else {
                frame_kind(m_k, x)
            });
        }
        assert forall|x: int| kernel_region.range.spec_contains(x)
            && raw_frame_kind(raw_memory_map@, x) == Some(MemoryRegionType::Usable)
            && x != 0
            && !loader_region.range.spec_contains(x)
            implies #[trigger] frame_kind(m_a, x) == Some(MemoryRegionType::Kernel) by {
            assert(frame_kind(m0, x) == raw_frame_kind(raw_memory_map@, x));
            assert(frame_kind(m1, x) == mark_result(frame_kind(m0, x), zero_region, x));
            assert(frame_kind(m2, x) == mark_result(frame_kind(m1, x), loader_region, x));
            assert(frame_kind(m3, x) == mark_result(frame_kind(m2, x), kernel_region, x));
            assert(frame_kind(m4, x) == mark_result(frame_kind(m3, x), tables_region, x));
            assert(frame_kind(m3, x) == Some(MemoryRegionType::Kernel));
            assert(frame_kind(m_k, x) == Some(MemoryRegionType::Kernel));
            if x == frame_number as int {
                assert(frame_kind(m_k, x) == Some(MemoryRegionType::Usable));
            }
            assert(frame_kind(m_a, x) == Some(MemoryRegionType::Kernel));
        }
        // Everything the kernel mapper established survives to the final
        // table, except the two bring-up pages.
        assert forall|p: u64| #[trigger] pt_k.contains_key(p) && p != 0 && p != LAPIC_BASE
            implies pt_f.contains_key(p) && pt_f[p] == pt_k[p] by {
            assert(p != BOOT_INFO_ADDR);
            assert(pt_b.contains_key(p) && pt_b[p] == pt_k[p]);
            assert(pt_o.contains_key(p) && pt_o[p] == pt_b[p]);
            assert(p != VGA_VIRT_ADDR);
            assert(pt_v.contains_key(p) && pt_v[p] == pt_o[p]);
            assert(pt_i.contains_key(p) && pt_i[p] == pt_v[p]);
        }
        // No page of the image's identity mapping survives unless a
        // segment or a fixed mapping claims that address.
        assert forall|p: u64| #[trigger] image_identity_page(kernel_start.0,
                kernel_image@.len() as int, p)
            && (forall|i: int| 0 <= i < segs.len() ==> !seg_page(#[trigger] segs[i], p))
            && p != BOOT_INFO_ADDR && p != VGA_VIRT_ADDR
            && p < PHYSICAL_MEMORY_OFFSET
            implies !pt_f.contains_key(p) by {
            assert(!pt_u.contains_key(p));
            if pt_k.contains_key(p) {
                let i = choose|i: int| 0 <= i < info.segments@.len()
                    && seg_page(#[trigger] info.segments@[i], p);
                assert(seg_page(segs[i], p));
            }
            assert(!pt_k.contains_key(p));
            if pt_f.contains_key(p) {
                assert(pt_i.contains_key(p) && p != 0 && p != LAPIC_BASE);
                assert(pt_v.contains_key(p));
                assert(pt_o.contains_key(p));
                assert(pt_b.contains_key(p));
                assert(pt_k.contains_key(p));
            }
        }
        // The loadable segments' pages, as the mapper left them.
        assert forall|i: int| 0 <= i < segs.len() implies {
            let seg = #[trigger] segs[i];
            seg.memory_size > 0 ==> forall|p: u64|
                (#[trigger] seg_page(seg, p)) && p != 0 && p != LAPIC_BASE
                ==> pt_f.contains_key(p) && pt_f[p].flags == seg_flags(seg)
        } by {
            let seg = segs[i];
            assert(info.segments@[i] == seg);
            if seg.memory_size > 0 {
                assert forall|p: u64| (#[trigger] seg_page(seg, p)) && p != 0
                    && p != LAPIC_BASE
                    implies pt_f.contains_key(p) && pt_f[p].flags == seg_flags(seg) by {
                    assert(pt_k.contains_key(p) && pt_k[p].flags == seg_flags(seg));
                }
            }
        }
        assert(total_frames(m_a) == raw_total_frames(raw_memory_map@));
    }

    // Assemble and serialize the handoff structure; the map is sorted
    // and overlap-free by its invariant.
    let boot_info = BootInfo::new(
        frame_allocator.memory_map,
        RECURSIVE_TABLE_ADDR,
        PHYSICAL_MEMORY_OFFSET,
    );
    let boot_info_bytes = boot_info.to_bytes();
    Ok(BootSetup {
        boot_info,
        boot_info_bytes,
        page_table,
        loaded: loaded_kernel.segments,
        entry_point,
        stack_top,
        bringup,
    })
}

} // verus!
