//! The boot information structure handed from the loader to the kernel,
//! and its fixed byte layout.
//!
//! The structure crosses the loader/kernel compilation boundary, so its
//! layout is a bit-exact contract: every field has a fixed offset and
//! little-endian encoding, with no padding left to chance.  `to_bytes`
//! produces exactly that layout and `from_bytes` accepts exactly the
//! byte strings `to_bytes` can produce, so the structure round-trips
//! byte for byte.

use vstd::prelude::*;
use crate::memory_map::{
    MemoryMap, MemoryRegion, MemoryRegionType, FrameRange, MAX_MEMORY_MAP_SIZE,
};

verus! {

/// Fixed virtual and physical address of the boot information page.
pub const BOOT_INFO_ADDR: u64 = 0xb0_071f_0000;

/// Offset into the virtual address space where physical memory is
/// mapped: physical addresses become virtual ones by adding it.
pub const PHYSICAL_MEMORY_OFFSET: u64 = 0xffff_fc00_0000_0000;

/// Size in bytes of the serialized boot information structure.
pub const BOOT_INFO_BYTES: usize = 1348;

/// The video mode information block, as the firmware reports it.
#[derive(Clone, Copy, PartialEq, Eq, Structural, Debug)]
pub struct VbeModeInfo {
    /// Mode attribute bits.
    pub attributes: u16,
    /// Window A attributes.
    pub win_a: u8,
    /// Window B attributes.
    pub win_b: u8,
    /// Window granularity.
    pub granularity: u16,
    /// Window size.
    pub window_size: u16,
    /// Segment of window A.
    pub segment_a: u16,
    /// Segment of window B.
    pub segment_b: u16,
    /// Reserved by the firmware interface.
    pub _1: u32,
    /// Bytes per scanline.
    pub pitch: u16,
    /// Horizontal resolution in pixels.
    pub width: u16,
    /// Vertical resolution in pixels.
    pub height: u16,
    /// Character cell width.
    pub w_char: u8,
    /// Character cell height.
    pub y_char: u8,
    /// Number of memory planes.
    pub planes: u8,
    /// Bits per pixel.
    pub bpp: u8,
    /// Number of banks.
    pub banks: u8,
    /// Memory model type.
    pub memory_model: u8,
    /// Bank size in kilobytes.
    pub bank_size: u8,
    /// Number of image pages.
    pub image_pages: u8,
    /// Reserved by the firmware interface.
    pub _2: u8,
    /// Size of the red mask.
    pub red_mask: u8,
    /// Bit position of the red mask.
    pub red_position: u8,
    /// Size of the green mask.
    pub green_mask: u8,
    /// Bit position of the green mask.
    pub green_position: u8,
    /// Size of the blue mask.
    pub blue_mask: u8,
    /// Bit position of the blue mask.
    pub blue_position: u8,
    /// Size of the reserved mask.
    pub rsv_mask: u8,
    /// Bit position of the reserved mask.
    pub rsv_position: u8,
    /// Direct color mode attributes.
    pub directcolor_attributes: u8,
    /// Physical address of the framebuffer.
    pub framebuffer: u32,
}

impl VbeModeInfo {
    /// A zeroed block, for when no video mode was set up.
    pub fn zeroed() -> (r: VbeModeInfo)
        ensures r == VbeModeInfo::spec_zeroed(),
    {
        VbeModeInfo {
            attributes: 0, win_a: 0, win_b: 0, granularity: 0, window_size: 0,
            segment_a: 0, segment_b: 0, _1: 0, pitch: 0, width: 0, height: 0,
            w_char: 0, y_char: 0, planes: 0, bpp: 0, banks: 0, memory_model: 0,
            bank_size: 0, image_pages: 0, _2: 0, red_mask: 0, red_position: 0,
            green_mask: 0, green_position: 0, blue_mask: 0, blue_position: 0,
            rsv_mask: 0, rsv_position: 0, directcolor_attributes: 0, framebuffer: 0,
        }
    }

    /// The zeroed block.
    pub open spec fn spec_zeroed() -> VbeModeInfo {
        VbeModeInfo {
            attributes: 0, win_a: 0, win_b: 0, granularity: 0, window_size: 0,
            segment_a: 0, segment_b: 0, _1: 0, pitch: 0, width: 0, height: 0,
            w_char: 0, y_char: 0, planes: 0, bpp: 0, banks: 0, memory_model: 0,
            bank_size: 0, image_pages: 0, _2: 0, red_mask: 0, red_position: 0,
            green_mask: 0, green_position: 0, blue_mask: 0, blue_position: 0,
            rsv_mask: 0, rsv_position: 0, directcolor_attributes: 0, framebuffer: 0,
        }
    }
}

/// The information the bootloader passes to the kernel.
pub struct BootInfo {
    /// The machine's physical memory regions, with everything the
    /// bootloader claimed already marked.
    pub memory_map: MemoryMap,
    /// Virtual address of the recursively mapped top page table.
    pub recursive_page_table_addr: u64,
    /// Offset of the physical memory mapping.
    pub physical_memory_offset: u64,
    /// The video mode information.
    pub vbe_info: VbeModeInfo,
}

impl BootInfo {
    /// The memory map is well-formed.
    pub open spec fn wf(self) -> bool {
        self.memory_map.wf()
    }

    /// Assembles the structure; the video block starts zeroed and is
    /// filled in by the video setup.
    pub fn new(memory_map: MemoryMap, recursive_page_table_addr: u64, physical_memory_offset: u64)
        -> (r: BootInfo)
        requires memory_map.wf(),
        ensures
            r.wf(),
            r.memory_map@ == memory_map@,
            r.recursive_page_table_addr == recursive_page_table_addr,
            r.physical_memory_offset == physical_memory_offset,
            r.vbe_info == VbeModeInfo::spec_zeroed(),
    {
        BootInfo {
            memory_map,
            recursive_page_table_addr,
            physical_memory_offset,
            vbe_info: VbeModeInfo::zeroed(),
        }
    }
}

/// The handoff memory map is sorted ascending by start frame and no two
/// of its regions overlap, in whatever order the firmware reported the
/// probe entries: the map's invariant holds them sorted at all times.
pub proof fn lemma_handoff_map_sorted(bi: BootInfo)
    requires
        bi.wf(),
    ensures
        forall|i: int, j: int| #![trigger bi.memory_map@[i], bi.memory_map@[j]]
            0 <= i < j < bi.memory_map@.len()
            ==> bi.memory_map@[i].range.end_frame_number
                <= bi.memory_map@[j].range.start_frame_number,
        forall|i: int, j: int| #![trigger bi.memory_map@[i], bi.memory_map@[j]]
            0 <= i < j < bi.memory_map@.len()
            ==> !crate::memory_map::ranges_overlap(
                bi.memory_map@[i].range, bi.memory_map@[j].range),
{
    crate::memory_map::lemma_wf_disjoint(bi.memory_map);
}

/// Byte `k` of the little-endian encoding of a 64-bit value.
pub open spec fn u64_byte(x: u64, k: int) -> u8 {
    if k == 0 { (x & 0xff) as u8 }
    else if k == 1 { ((x >> 8) & 0xff) as u8 }
    else if k == 2 { ((x >> 16) & 0xff) as u8 }
    else if k == 3 { ((x >> 24) & 0xff) as u8 }
    else if k == 4 { ((x >> 32) & 0xff) as u8 }
    else if k == 5 { ((x >> 40) & 0xff) as u8 }
    else if k == 6 { ((x >> 48) & 0xff) as u8 }
    else { ((x >> 56) & 0xff) as u8 }
}

/// Byte `k` of the little-endian encoding of a 32-bit value.
pub open spec fn u32_byte(x: u32, k: int) -> u8 {
    if k == 0 { (x & 0xff) as u8 }
    else if k == 1 { ((x >> 8) & 0xff) as u8 }
    else if k == 2 { ((x >> 16) & 0xff) as u8 }
    else { ((x >> 24) & 0xff) as u8 }
}

/// Byte `k` of the little-endian encoding of a 16-bit value.
pub open spec fn u16_byte(x: u16, k: int) -> u8 {
    if k == 0 { (x & 0xff) as u8 } else { ((x >> 8) & 0xff) as u8 }
}

/// The 64-bit little-endian value starting at offset `i`.
pub open spec fn spec_u64_at(s: Seq<u8>, i: int) -> u64 {
    (s[i] as u64)
        | ((s[i + 1] as u64) << 8)
        | ((s[i + 2] as u64) << 16)
        | ((s[i + 3] as u64) << 24)
        | ((s[i + 4] as u64) << 32)
        | ((s[i + 5] as u64) << 40)
        | ((s[i + 6] as u64) << 48)
        | ((s[i + 7] as u64) << 56)
}

/// The 32-bit little-endian value starting at offset `i`.
pub open spec fn spec_u32_at(s: Seq<u8>, i: int) -> u32 {
    (s[i] as u32)
        | ((s[i + 1] as u32) << 8)
        | ((s[i + 2] as u32) << 16)
        | ((s[i + 3] as u32) << 24)
}

/// The 16-bit little-endian value starting at offset `i`.
pub open spec fn spec_u16_at(s: Seq<u8>, i: int) -> u16 {
    (s[i] as u16) | ((s[i + 1] as u16) << 8)
}

/// Reading eight encoded bytes gives back the encoded value.
pub proof fn lemma_u64_at_round(s: Seq<u8>, i: int, x: u64)
    requires forall|k: int| 0 <= k < 8 ==> s[i + k] == u64_byte(x, k),
    ensures spec_u64_at(s, i) == x,
{
    assert(s[i + 0] == u64_byte(x, 0));
    assert(s[i + 1] == u64_byte(x, 1));
    assert(s[i + 2] == u64_byte(x, 2));
    assert(s[i + 3] == u64_byte(x, 3));
    assert(s[i + 4] == u64_byte(x, 4));
    assert(s[i + 5] == u64_byte(x, 5));
    assert(s[i + 6] == u64_byte(x, 6));
    assert(s[i + 7] == u64_byte(x, 7));
    assert(s[i + 0] == (x & 0xff) as u8);
    assert(s[i + 1] == ((x >> 8) & 0xff) as u8);
    assert(s[i + 2] == ((x >> 16) & 0xff) as u8);
    assert(s[i + 3] == ((x >> 24) & 0xff) as u8);
    assert(s[i + 4] == ((x >> 32) & 0xff) as u8);
    assert(s[i + 5] == ((x >> 40) & 0xff) as u8);
    assert(s[i + 6] == ((x >> 48) & 0xff) as u8);
    assert(s[i + 7] == ((x >> 56) & 0xff) as u8);
    assert((((x & 0xff) as u8) as u64)
        | ((((x >> 8) & 0xff) as u8 as u64) << 8)
        | ((((x >> 16) & 0xff) as u8 as u64) << 16)
        | ((((x >> 24) & 0xff) as u8 as u64) << 24)
        | ((((x >> 32) & 0xff) as u8 as u64) << 32)
        | ((((x >> 40) & 0xff) as u8 as u64) << 40)
        | ((((x >> 48) & 0xff) as u8 as u64) << 48)
        | ((((x >> 56) & 0xff) as u8 as u64) << 56) == x) by (bit_vector);
}

/// Reading four encoded bytes gives back the encoded value.
pub proof fn lemma_u32_at_round(s: Seq<u8>, i: int, x: u32)
    requires forall|k: int| 0 <= k < 4 ==> s[i + k] == u32_byte(x, k),
    ensures spec_u32_at(s, i) == x,
{
    assert(s[i + 0] == u32_byte(x, 0));
    assert(s[i + 1] == u32_byte(x, 1));
    assert(s[i + 2] == u32_byte(x, 2));
    assert(s[i + 3] == u32_byte(x, 3));
    assert(s[i + 0] == (x & 0xff) as u8);
    assert(s[i + 1] == ((x >> 8) & 0xff) as u8);
    assert(s[i + 2] == ((x >> 16) & 0xff) as u8);
    assert(s[i + 3] == ((x >> 24) & 0xff) as u8);
    assert((((x & 0xff) as u8) as u32)
        | ((((x >> 8) & 0xff) as u8 as u32) << 8)
        | ((((x >> 16) & 0xff) as u8 as u32) << 16)
        | ((((x >> 24) & 0xff) as u8 as u32) << 24) == x) by (bit_vector);
}

/// Reading two encoded bytes gives back the encoded value.
pub proof fn lemma_u16_at_round(s: Seq<u8>, i: int, x: u16)
    requires forall|k: int| 0 <= k < 2 ==> s[i + k] == u16_byte(x, k),
    ensures spec_u16_at(s, i) == x,
{
    assert(s[i + 0] == u16_byte(x, 0));
    assert(s[i + 1] == u16_byte(x, 1));
    assert(s[i + 0] == (x & 0xff) as u8);
    assert(s[i + 1] == ((x >> 8) & 0xff) as u8);
    assert((((x & 0xff) as u8) as u16) | ((((x >> 8) & 0xff) as u8 as u16) << 8) == x)
        by (bit_vector);
}

/// The code a region kind is serialized as.
pub open spec fn spec_kind_code(t: MemoryRegionType) -> u32 {
    match t {
        MemoryRegionType::Usable => 0,
        MemoryRegionType::Reserved => 1,
        MemoryRegionType::AcpiReclaimable => 2,
        MemoryRegionType::AcpiNvs => 3,
        MemoryRegionType::BadMemory => 4,
        MemoryRegionType::FrameZero => 5,
        MemoryRegionType::Kernel => 6,
        MemoryRegionType::KernelStack => 7,
        MemoryRegionType::PageTable => 8,
        MemoryRegionType::Bootloader => 9,
        MemoryRegionType::BootInfo => 10,
        MemoryRegionType::Unknown => 11,
    }
}

/// The region kind a code stands for, if any.
pub open spec fn spec_kind_of_code(c: u32) -> Option<MemoryRegionType> {
    if c == 0 { Some(MemoryRegionType::Usable) }
    else if c == 1 { Some(MemoryRegionType::Reserved) }
    else if c == 2 { Some(MemoryRegionType::AcpiReclaimable) }
    else if c == 3 { Some(MemoryRegionType::AcpiNvs) }
    else if c == 4 { Some(MemoryRegionType::BadMemory) }
    else if c == 5 { Some(MemoryRegionType::FrameZero) }
    else if c == 6 { Some(MemoryRegionType::Kernel) }
    else if c == 7 { Some(MemoryRegionType::KernelStack) }
    else if c == 8 { Some(MemoryRegionType::PageTable) }
    else if c == 9 { Some(MemoryRegionType::Bootloader) }
    else if c == 10 { Some(MemoryRegionType::BootInfo) }
    else if c == 11 { Some(MemoryRegionType::Unknown) }
    else { None }
}

/// The code of a region kind.
pub fn kind_code(t: MemoryRegionType) -> (r: u32)
    ensures r == spec_kind_code(t),
{
    match t {
        MemoryRegionType::Usable => 0,
        MemoryRegionType::Reserved => 1,
        MemoryRegionType::AcpiReclaimable => 2,
        MemoryRegionType::AcpiNvs => 3,
        MemoryRegionType::BadMemory => 4,
        MemoryRegionType::FrameZero => 5,
        MemoryRegionType::Kernel => 6,
        MemoryRegionType::KernelStack => 7,
        MemoryRegionType::PageTable => 8,
        MemoryRegionType::Bootloader => 9,
        MemoryRegionType::BootInfo => 10,
        MemoryRegionType::Unknown => 11,
    }
}

/// The region kind of a code, if the code is one a kind serializes to.
pub fn kind_of_code(c: u32) -> (r: Option<MemoryRegionType>)
    ensures r == spec_kind_of_code(c),
{
    if c == 0 { Some(MemoryRegionType::Usable) }
    else if c == 1 { Some(MemoryRegionType::Reserved) }
    else if c == 2 { Some(MemoryRegionType::AcpiReclaimable) }
    else if c == 3 { Some(MemoryRegionType::AcpiNvs) }
    else if c == 4 { Some(MemoryRegionType::BadMemory) }
    else if c == 5 { Some(MemoryRegionType::FrameZero) }
    else if c == 6 { Some(MemoryRegionType::Kernel) }
    else if c == 7 { Some(MemoryRegionType::KernelStack) }
    else if c == 8 { Some(MemoryRegionType::PageTable) }
    else if c == 9 { Some(MemoryRegionType::Bootloader) }
    else if c == 10 { Some(MemoryRegionType::BootInfo) }
    else if c == 11 { Some(MemoryRegionType::Unknown) }
    else { None }
}

/// Region slot `j` of the map: the region itself, or an all-zero slot
/// past the end.
pub open spec fn region_or_empty(s: Seq<MemoryRegion>, j: int) -> MemoryRegion {
    if 0 <= j < s.len() {
        s[j]
    } else {
        MemoryRegion {
            range: FrameRange { start_frame_number: 0, end_frame_number: 0 },
            region_type: MemoryRegionType::Usable,
        }
    }
}

/// Byte `o` of a serialized region: start frame, end frame, kind code.
pub open spec fn region_byte(r: MemoryRegion, o: int) -> u8 {
    if o < 8 { u64_byte(r.range.start_frame_number, o) }
    else if o < 16 { u64_byte(r.range.end_frame_number, o - 8) }
    else { u32_byte(spec_kind_code(r.region_type), o - 16) }
}

/// Byte `o` of the serialized video block.
pub open spec fn vbe_byte(v: VbeModeInfo, o: int) -> u8 {
    if o < 2 { u16_byte(v.attributes, o) }
    else if o == 2 { v.win_a }
    else if o == 3 { v.win_b }
    else if o < 6 { u16_byte(v.granularity, o - 4) }
    else if o < 8 { u16_byte(v.window_size, o - 6) }
    else if o < 10 { u16_byte(v.segment_a, o - 8) }
    else if o < 12 { u16_byte(v.segment_b, o - 10) }
    else if o < 16 { u32_byte(v._1, o - 12) }
    else if o < 18 { u16_byte(v.pitch, o - 16) }
    else if o < 20 { u16_byte(v.width, o - 18) }
    else if o < 22 { u16_byte(v.height, o - 20) }
    else if o == 22 { v.w_char }
    else if o == 23 { v.y_char }
    else if o == 24 { v.planes }
    else if o == 25 { v.bpp }
    else if o == 26 { v.banks }
    else if o == 27 { v.memory_model }
    else if o == 28 { v.bank_size }
    else if o == 29 { v.image_pages }
    else if o == 30 { v._2 }
    else if o == 31 { v.red_mask }
    else if o == 32 { v.red_position }
    else if o == 33 { v.green_mask }
    else if o == 34 { v.green_position }
    else if o == 35 { v.blue_mask }
    else if o == 36 { v.blue_position }
    else if o == 37 { v.rsv_mask }
    else if o == 38 { v.rsv_position }
    else if o == 39 { v.directcolor_attributes }
    else { u32_byte(v.framebuffer, o - 40) }
}

/// Byte `k` of the serialized boot information structure: the region
/// count, 64 region slots, the page-table address, the physical memory
/// offset, and the video block.
pub open spec fn boot_info_byte(bi: BootInfo, k: int) -> u8 {
    if k < 8 { u64_byte(bi.memory_map@.len() as u64, k) }
    else if k < 1288 { region_byte(region_or_empty(bi.memory_map@, (k - 8) / 20), (k - 8) % 20) }
    else if k < 1296 { u64_byte(bi.recursive_page_table_addr, k - 1288) }
    else if k < 1304 { u64_byte(bi.physical_memory_offset, k - 1296) }
    else { vbe_byte(bi.vbe_info, k - 1304) }
}

/// The full serialized boot information structure.
pub open spec fn spec_boot_info_bytes(bi: BootInfo) -> Seq<u8> {
    Seq::new(BOOT_INFO_BYTES as nat, |k: int| boot_info_byte(bi, k))
}

/// Appends the little-endian encoding of a 64-bit value.
fn push_u64_le(out: &mut Vec<u8>, x: u64)
    ensures
        final(out)@.len() == old(out)@.len() + 8,
        forall|k: int| 0 <= k < old(out)@.len() ==> final(out)@[k] == old(out)@[k],
        forall|k: int| 0 <= k < 8 ==> final(out)@[old(out)@.len() + k] == u64_byte(x, k),
{
    out.push((x & 0xff) as u8);
    out.push(((x >> 8) & 0xff) as u8);
    out.push(((x >> 16) & 0xff) as u8);
    out.push(((x >> 24) & 0xff) as u8);
    out.push(((x >> 32) & 0xff) as u8);
    out.push(((x >> 40) & 0xff) as u8);
    out.push(((x >> 48) & 0xff) as u8);
    out.push(((x >> 56) & 0xff) as u8);
}

/// Appends the little-endian encoding of a 32-bit value.
fn push_u32_le(out: &mut Vec<u8>, x: u32)
    ensures
        final(out)@.len() == old(out)@.len() + 4,
        forall|k: int| 0 <= k < old(out)@.len() ==> final(out)@[k] == old(out)@[k],
        forall|k: int| 0 <= k < 4 ==> final(out)@[old(out)@.len() + k] == u32_byte(x, k),
{
    out.push((x & 0xff) as u8);
    out.push(((x >> 8) & 0xff) as u8);
    out.push(((x >> 16) & 0xff) as u8);
    out.push(((x >> 24) & 0xff) as u8);
}

/// Appends the little-endian encoding of a 16-bit value.
fn push_u16_le(out: &mut Vec<u8>, x: u16)
    ensures
        final(out)@.len() == old(out)@.len() + 2,
        forall|k: int| 0 <= k < old(out)@.len() ==> final(out)@[k] == old(out)@[k],
        forall|k: int| 0 <= k < 2 ==> final(out)@[old(out)@.len() + k] == u16_byte(x, k),
{
    out.push((x & 0xff) as u8);
    out.push(((x >> 8) & 0xff) as u8);
}

impl BootInfo {
    /// Serializes the structure into its fixed byte layout.
    pub fn to_bytes(&self) -> (r: Vec<u8>)
        requires self.wf(),
        ensures r@ == spec_boot_info_bytes(*self),
    {
        let mut out: Vec<u8> = Vec::new();
        push_u64_le(&mut out, self.memory_map.regions.len() as u64);
        let mut j: usize = 0;
        while j < MAX_MEMORY_MAP_SIZE
            invariant
                j <= MAX_MEMORY_MAP_SIZE,
                self.wf(),
                out@.len() == 8 + 20 * j,
                forall|k: int| 0 <= k < out@.len() ==> out@[k] == boot_info_byte(*self, k),
            decreases MAX_MEMORY_MAP_SIZE - j,
        {
            let region = if j < self.memory_map.regions.len() {
                self.memory_map.regions[j]
            } else {
                MemoryRegion {
                    range: FrameRange { start_frame_number: 0, end_frame_number: 0 },
                    region_type: MemoryRegionType::Usable,
                }
            };
            proof {
                assert(region == region_or_empty(self.memory_map@, j as int));
            }
            let ghost base = out@.len() as int;
            push_u64_le(&mut out, region.range.start_frame_number);
            push_u64_le(&mut out, region.range.end_frame_number);
            push_u32_le(&mut out, kind_code(region.region_type));
            proof {
                assert forall|k: int| 0 <= k < out@.len()
                    implies out@[k] == boot_info_byte(*self, k) by {
                    if k >= base {
                        let o = k - base;
                        assert((k - 8) / 20 == j as int);
                        assert((k - 8) % 20 == o);
                    }
                }
            }
            j += 1;
        }
        push_u64_le(&mut out, self.recursive_page_table_addr);
        push_u64_le(&mut out, self.physical_memory_offset);
        let v = self.vbe_info;
        push_u16_le(&mut out, v.attributes);
        out.push(v.win_a);
        out.push(v.win_b);
        push_u16_le(&mut out, v.granularity);
        push_u16_le(&mut out, v.window_size);
        push_u16_le(&mut out, v.segment_a);
        push_u16_le(&mut out, v.segment_b);
        push_u32_le(&mut out, v._1);
        push_u16_le(&mut out, v.pitch);
        push_u16_le(&mut out, v.width);
        push_u16_le(&mut out, v.height);
        out.push(v.w_char);
        out.push(v.y_char);
        out.push(v.planes);
        out.push(v.bpp);
        out.push(v.banks);
        out.push(v.memory_model);
        out.push(v.bank_size);
        out.push(v.image_pages);
        out.push(v._2);
        out.push(v.red_mask);
        out.push(v.red_position);
        out.push(v.green_mask);
        out.push(v.green_position);
        out.push(v.blue_mask);
        out.push(v.blue_position);
        out.push(v.rsv_mask);
        out.push(v.rsv_position);
        out.push(v.directcolor_attributes);
        push_u32_le(&mut out, v.framebuffer);
        proof {
            assert(out@.len() == BOOT_INFO_BYTES);
            assert(out@ =~= spec_boot_info_bytes(*self));
        }
        out
    }
}

/// The three fields of region slot `j` sit at their fixed offsets.
pub open spec fn region_fields_at(bytes: Seq<u8>, s: Seq<MemoryRegion>, j: int) -> bool {
    &&& spec_u64_at(bytes, 8 + 20 * j) == region_or_empty(s, j).range.start_frame_number
    &&& spec_u64_at(bytes, 16 + 20 * j) == region_or_empty(s, j).range.end_frame_number
    &&& spec_u32_at(bytes, 24 + 20 * j) == spec_kind_code(region_or_empty(s, j).region_type)
}

/// Every field of the structure can be read back from its serialization
/// at its fixed offset.
#[verifier::rlimit(100)]
pub proof fn lemma_fields_from_bytes(bi: BootInfo, bytes: Seq<u8>)
    requires
        bytes == spec_boot_info_bytes(bi),
    ensures
        spec_u64_at(bytes, 0) == bi.memory_map@.len() as u64,
        forall|j: int| 0 <= j < 64 ==> #[trigger] region_fields_at(bytes, bi.memory_map@, j),
        spec_u64_at(bytes, 1288) == bi.recursive_page_table_addr,
        spec_u64_at(bytes, 1296) == bi.physical_memory_offset,
        spec_u16_at(bytes, 1304) == bi.vbe_info.attributes,
        bytes[1306] == bi.vbe_info.win_a,
        bytes[1307] == bi.vbe_info.win_b,
        spec_u16_at(bytes, 1308) == bi.vbe_info.granularity,
        spec_u16_at(bytes, 1310) == bi.vbe_info.window_size,
        spec_u16_at(bytes, 1312) == bi.vbe_info.segment_a,
        spec_u16_at(bytes, 1314) == bi.vbe_info.segment_b,
        spec_u32_at(bytes, 1316) == bi.vbe_info._1,
        spec_u16_at(bytes, 1320) == bi.vbe_info.pitch,
        spec_u16_at(bytes, 1322) == bi.vbe_info.width,
        spec_u16_at(bytes, 1324) == bi.vbe_info.height,
        bytes[1326] == bi.vbe_info.w_char,
        bytes[1327] == bi.vbe_info.y_char,
        bytes[1328] == bi.vbe_info.planes,
        bytes[1329] == bi.vbe_info.bpp,
        bytes[1330] == bi.vbe_info.banks,
        bytes[1331] == bi.vbe_info.memory_model,
        bytes[1332] == bi.vbe_info.bank_size,
        bytes[1333] == bi.vbe_info.image_pages,
        bytes[1334] == bi.vbe_info._2,
        bytes[1335] == bi.vbe_info.red_mask,
        bytes[1336] == bi.vbe_info.red_position,
        bytes[1337] == bi.vbe_info.green_mask,
        bytes[1338] == bi.vbe_info.green_position,
        bytes[1339] == bi.vbe_info.blue_mask,
        bytes[1340] == bi.vbe_info.blue_position,
        bytes[1341] == bi.vbe_info.rsv_mask,
        bytes[1342] == bi.vbe_info.rsv_position,
        bytes[1343] == bi.vbe_info.directcolor_attributes,
        spec_u32_at(bytes, 1344) == bi.vbe_info.framebuffer,
{
    assert forall|k: int| 0 <= k < 8
        implies #[trigger] bytes[0 + k] == u64_byte(bi.memory_map@.len() as u64, k) by {}
    lemma_u64_at_round(bytes, 0, bi.memory_map@.len() as u64);
    assert forall|j: int| 0 <= j < 64
        implies #[trigger] region_fields_at(bytes, bi.memory_map@, j) by {
        let region = region_or_empty(bi.memory_map@, j);
        assert forall|k: int| 0 <= k < 8
            implies #[trigger] bytes[8 + 20 * j + k]
                == u64_byte(region.range.start_frame_number, k) by {
            assert((8 + 20 * j + k - 8) / 20 == j);
            assert((8 + 20 * j + k - 8) % 20 == k);
        }
        lemma_u64_at_round(bytes, 8 + 20 * j, region.range.start_frame_number);
        assert forall|k: int| 0 <= k < 8
            implies #[trigger] bytes[16 + 20 * j + k]
                == u64_byte(region.range.end_frame_number, k) by {
            assert((16 + 20 * j + k - 8) / 20 == j);
            assert((16 + 20 * j + k - 8) % 20 == 8 + k);
        }
        lemma_u64_at_round(bytes, 16 + 20 * j, region.range.end_frame_number);
        assert forall|k: int| 0 <= k < 4
            implies #[trigger] bytes[24 + 20 * j + k]
                == u32_byte(spec_kind_code(region.region_type), k) by {
            assert((24 + 20 * j + k - 8) / 20 == j);
            assert((24 + 20 * j + k - 8) % 20 == 16 + k);
        }
        lemma_u32_at_round(bytes, 24 + 20 * j, spec_kind_code(region.region_type));
    }
    assert forall|k: int| 0 <= k < 8
        implies #[trigger] bytes[1288 + k] == u64_byte(bi.recursive_page_table_addr, k) by {}
    lemma_u64_at_round(bytes, 1288, bi.recursive_page_table_addr);
    assert forall|k: int| 0 <= k < 8
        implies #[trigger] bytes[1296 + k] == u64_byte(bi.physical_memory_offset, k) by {}
    lemma_u64_at_round(bytes, 1296, bi.physical_memory_offset);
    let v = bi.vbe_info;
    assert forall|k: int| 0 <= k < 2 implies #[trigger] bytes[1304 + k] == u16_byte(v.attributes, k) by {}
    lemma_u16_at_round(bytes, 1304, v.attributes);
    assert forall|k: int| 0 <= k < 2 implies #[trigger] bytes[1308 + k] == u16_byte(v.granularity, k) by {}
    lemma_u16_at_round(bytes, 1308, v.granularity);
    assert forall|k: int| 0 <= k < 2 implies #[trigger] bytes[1310 + k] == u16_byte(v.window_size, k) by {}
    lemma_u16_at_round(bytes, 1310, v.window_size);
    assert forall|k: int| 0 <= k < 2 implies #[trigger] bytes[1312 + k] == u16_byte(v.segment_a, k) by {}
    lemma_u16_at_round(bytes, 1312, v.segment_a);
    assert forall|k: int| 0 <= k < 2 implies #[trigger] bytes[1314 + k] == u16_byte(v.segment_b, k) by {}
    lemma_u16_at_round(bytes, 1314, v.segment_b);
    assert forall|k: int| 0 <= k < 4 implies #[trigger] bytes[1316 + k] == u32_byte(v._1, k) by {}
    lemma_u32_at_round(bytes, 1316, v._1);
    assert forall|k: int| 0 <= k < 2 implies #[trigger] bytes[1320 + k] == u16_byte(v.pitch, k) by {}
    lemma_u16_at_round(bytes, 1320, v.pitch);
    assert forall|k: int| 0 <= k < 2 implies #[trigger] bytes[1322 + k] == u16_byte(v.width, k) by {}
    lemma_u16_at_round(bytes, 1322, v.width);
    assert forall|k: int| 0 <= k < 2 implies #[trigger] bytes[1324 + k] == u16_byte(v.height, k) by {}
    lemma_u16_at_round(bytes, 1324, v.height);
    assert forall|k: int| 0 <= k < 4 implies #[trigger] bytes[1344 + k] == u32_byte(v.framebuffer, k) by {}
    lemma_u32_at_round(bytes, 1344, v.framebuffer);
}

/// A kind code decodes back to its kind.
pub proof fn lemma_kind_code_round(t: MemoryRegionType)
    ensures spec_kind_of_code(spec_kind_code(t)) == Some(t),
{
}

/// Serialization is injective: equal byte strings mean equal fields.
#[verifier::rlimit(100)]
pub proof fn lemma_boot_info_bytes_injective(a: BootInfo, b: BootInfo)
    requires
        a.wf(),
        b.wf(),
        spec_boot_info_bytes(a) == spec_boot_info_bytes(b),
    ensures
        a.memory_map@ == b.memory_map@,
        a.recursive_page_table_addr == b.recursive_page_table_addr,
        a.physical_memory_offset == b.physical_memory_offset,
        a.vbe_info == b.vbe_info,
{
    let bytes = spec_boot_info_bytes(a);
    lemma_fields_from_bytes(a, bytes);
    lemma_fields_from_bytes(b, bytes);
    assert(a.memory_map@.len() == b.memory_map@.len());
    assert forall|j: int| 0 <= j < a.memory_map@.len()
        implies a.memory_map@[j] == b.memory_map@[j] by {
        assert(region_fields_at(bytes, a.memory_map@, j));
        assert(region_fields_at(bytes, b.memory_map@, j));
        lemma_kind_code_round(a.memory_map@[j].region_type);
        lemma_kind_code_round(b.memory_map@[j].region_type);
    }
    assert(a.memory_map@ =~= b.memory_map@);
}

/// The 64-bit little-endian value at offset `i` of the buffer.
fn read_u64_at(b: &Vec<u8>, i: usize) -> (r: u64)
    requires i + 8 <= b@.len(),
    ensures r == spec_u64_at(b@, i as int),
{
    let _n = b.len();
    (b[i] as u64)
        | ((b[i + 1] as u64) << 8)
        | ((b[i + 2] as u64) << 16)
        | ((b[i + 3] as u64) << 24)
        | ((b[i + 4] as u64) << 32)
        | ((b[i + 5] as u64) << 40)
        | ((b[i + 6] as u64) << 48)
        | ((b[i + 7] as u64) << 56)
}

/// The 32-bit little-endian value at offset `i` of the buffer.
fn read_u32_at(b: &Vec<u8>, i: usize) -> (r: u32)
    requires i + 4 <= b@.len(),
    ensures r == spec_u32_at(b@, i as int),
{
    let _n = b.len();
    (b[i] as u32)
        | ((b[i + 1] as u32) << 8)
        | ((b[i + 2] as u32) << 16)
        | ((b[i + 3] as u32) << 24)
}

/// The 16-bit little-endian value at offset `i` of the buffer.
fn read_u16_at(b: &Vec<u8>, i: usize) -> (r: u16)
    requires i + 2 <= b@.len(),
    ensures r == spec_u16_at(b@, i as int),
{
    let _n = b.len();
    (b[i] as u16) | ((b[i + 1] as u16) << 8)
}

/// Whether the map is well-formed, checked pair by pair.
fn memory_map_is_wf(m: &MemoryMap) -> (r: bool)
    ensures r == m.wf(),
{
    let n = m.regions.len();
    if n > MAX_MEMORY_MAP_SIZE {
        return false;
    }
    let mut i: usize = 0;
    while i < n
        invariant
            i <= n,
            n == m.regions@.len(),
            forall|x: int| 0 <= x < i ==> (#[trigger] m.regions@[x]).range.valid(),
        decreases n - i,
    {
        let region = m.regions[i];
        if !(region.range.start_frame_number < region.range.end_frame_number
            && region.range.end_frame_number < crate::memory_map::MAX_FRAME_NUMBER)
        {
            return false;
        }
        i += 1;
    }
    let mut i: usize = 0;
    while i < n
        invariant
            i <= n,
            n == m.regions@.len(),
            forall|x: int, y: int| #![trigger m.regions@[x], m.regions@[y]]
                0 <= x < y < n && x < i
                ==> m.regions@[x].range.end_frame_number
                    <= m.regions@[y].range.start_frame_number,
        decreases n - i,
    {
        let mut j: usize = i + 1;
        while j < n
            invariant
                i < j || j == i + 1,
                i + 1 <= j <= n,
                i < n,
                n == m.regions@.len(),
                forall|y: int| i < y < j
                    ==> m.regions@[i as int].range.end_frame_number
                        <= (#[trigger] m.regions@[y]).range.start_frame_number,
            decreases n - j,
        {
            if m.regions[i].range.end_frame_number > m.regions[j].range.start_frame_number {
                return false;
            }
            j += 1;
        }
        i += 1;
    }
    true
}

/// The two buffers hold the same bytes.
fn bytes_equal(a: &Vec<u8>, b: &Vec<u8>) -> (r: bool)
    ensures r <==> a@ == b@,
{
    if a.len() != b.len() {
        return false;
    }
    let n = a.len();
    let mut i: usize = 0;
    while i < n
        invariant
            i <= n,
            n == a@.len(),
            n == b@.len(),
            forall|k: int| 0 <= k < i ==> a@[k] == b@[k],
        decreases n - i,
    {
        if a[i] != b[i] {
            return false;
        }
        i += 1;
    }
    proof {
        assert(a@ =~= b@);
    }
    true
}

/// Reads the structure back from its fixed byte layout.  Returns the
/// structure exactly when the bytes are a serialization of a
/// well-formed structure, and nothing otherwise: together with
/// `to_bytes` and `lemma_boot_info_bytes_injective` this is the
/// byte-for-byte round trip of the handoff contract.
#[verifier::rlimit(100)]
pub fn boot_info_from_bytes(bytes: &Vec<u8>) -> (r: Option<BootInfo>)
    ensures
        match r {
            Some(bi) => bi.wf() && spec_boot_info_bytes(bi) == bytes@,
            None => forall|bi: BootInfo| bi.wf() ==> spec_boot_info_bytes(bi) != bytes@,
        },
{
    if bytes.len() != BOOT_INFO_BYTES {
        return None;
    }
    let count = read_u64_at(bytes, 0);
    if count > MAX_MEMORY_MAP_SIZE as u64 {
        proof {
            assert forall|bi: BootInfo| bi.wf()
                implies spec_boot_info_bytes(bi) != bytes@ by {
                if spec_boot_info_bytes(bi) == bytes@ {
                    lemma_fields_from_bytes(bi, bytes@);
                }
            }
        }
        return None;
    }
    let n = count as usize;
    let mut regions: Vec<MemoryRegion> = Vec::new();
    let mut j: usize = 0;
    while j < n
        invariant
            j <= n,
            n <= MAX_MEMORY_MAP_SIZE,
            bytes@.len() == BOOT_INFO_BYTES,
            regions@.len() == j,
            forall|x: int| 0 <= x < j ==> {
                &&& (#[trigger] regions@[x]).range.start_frame_number
                        == spec_u64_at(bytes@, 8 + 20 * x)
                &&& regions@[x].range.end_frame_number == spec_u64_at(bytes@, 16 + 20 * x)
                &&& Some(regions@[x].region_type)
                        == spec_kind_of_code(spec_u32_at(bytes@, 24 + 20 * x))
            },
        decreases n - j,
    {
        let start_frame = read_u64_at(bytes, 8 + 20 * j);
        let end_frame = read_u64_at(bytes, 16 + 20 * j);
        let code = read_u32_at(bytes, 24 + 20 * j);
        match kind_of_code(code) {
            Some(kind) => {
                regions.push(MemoryRegion {
                    range: FrameRange {
                        start_frame_number: start_frame,
                        end_frame_number: end_frame,
                    },
                    region_type: kind,
                });
            }
            None => {
                proof {
                    assert forall|bi: BootInfo| bi.wf()
                        implies spec_boot_info_bytes(bi) != bytes@ by {
                        if spec_boot_info_bytes(bi) == bytes@ {
                            lemma_fields_from_bytes(bi, bytes@);
                            assert(region_fields_at(bytes@, bi.memory_map@, j as int));
                            lemma_kind_code_round(
                                region_or_empty(bi.memory_map@, j as int).region_type);
                        }
                    }
                }
                return None;
            }
        }
        j += 1;
    }
    let rpta = read_u64_at(bytes, 1288);
    let pmo = read_u64_at(bytes, 1296);
    let vbe = VbeModeInfo {
        attributes: read_u16_at(bytes, 1304),
        win_a: bytes[1306],
        win_b: bytes[1307],
        granularity: read_u16_at(bytes, 1308),
        window_size: read_u16_at(bytes, 1310),
        segment_a: read_u16_at(bytes, 1312),
        segment_b: read_u16_at(bytes, 1314),
        _1: read_u32_at(bytes, 1316),
        pitch: read_u16_at(bytes, 1320),
        width: read_u16_at(bytes, 1322),
        height: read_u16_at(bytes, 1324),
        w_char: bytes[1326],
        y_char: bytes[1327],
        planes: bytes[1328],
        bpp: bytes[1329],
        banks: bytes[1330],
        memory_model: bytes[1331],
        bank_size: bytes[1332],
        image_pages: bytes[1333],
        _2: bytes[1334],
        red_mask: bytes[1335],
        red_position: bytes[1336],
        green_mask: bytes[1337],
        green_position: bytes[1338],
        blue_mask: bytes[1339],
        blue_position: bytes[1340],
        rsv_mask: bytes[1341],
        rsv_position: bytes[1342],
        directcolor_attributes: bytes[1343],
        framebuffer: read_u32_at(bytes, 1344),
    };
    let candidate = BootInfo {
        memory_map: MemoryMap { regions },
        recursive_page_table_addr: rpta,
        physical_memory_offset: pmo,
        vbe_info: vbe,
    };
    let ghost matches_hypothetical = |bi: BootInfo| {
        candidate.memory_map@ == bi.memory_map@
            && candidate.recursive_page_table_addr == bi.recursive_page_table_addr
            && candidate.physical_memory_offset == bi.physical_memory_offset
            && candidate.vbe_info == bi.vbe_info
    };
    proof {
        assert forall|bi: BootInfo| bi.wf() && spec_boot_info_bytes(bi) == bytes@
            implies #[trigger] matches_hypothetical(bi) by {
            lemma_fields_from_bytes(bi, bytes@);
            assert(candidate.memory_map@.len() == bi.memory_map@.len());
            assert forall|x: int| 0 <= x < candidate.memory_map@.len()
                implies candidate.memory_map@[x] == bi.memory_map@[x] by {
                assert(region_fields_at(bytes@, bi.memory_map@, x));
                lemma_kind_code_round(region_or_empty(bi.memory_map@, x).region_type);
            }
            assert(candidate.memory_map@ =~= bi.memory_map@);
        }
    }
    if !memory_map_is_wf(&candidate.memory_map) {
        proof {
            assert forall|bi: BootInfo| bi.wf()
                implies spec_boot_info_bytes(bi) != bytes@ by {
                if spec_boot_info_bytes(bi) == bytes@ {
                    assert(matches_hypothetical(bi));
                    assert(candidate.memory_map.wf());
                }
            }
        }
        return None;
    }
    let re = candidate.to_bytes();
    if bytes_equal(bytes, &re) {
        Some(candidate)
    } else {
        proof {
            assert forall|bi: BootInfo| bi.wf()
                implies spec_boot_info_bytes(bi) != bytes@ by {
                if spec_boot_info_bytes(bi) == bytes@ {
                    assert(matches_hypothetical(bi));
                    assert(spec_boot_info_bytes(candidate) =~= spec_boot_info_bytes(bi));
                }
            }
        }
        None
    }
}

} // verus!
