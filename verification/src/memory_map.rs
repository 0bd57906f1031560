//! The physical memory map: an ordered collection of disjoint,
//! frame-aligned regions tagged by usage kind.
//!
//! The map is produced from the raw entries of the firmware memory probe,
//! mutated by the frame allocator while the bootloader claims memory, and
//! finally handed to the kernel inside the boot information structure.
//! Its invariant (`MemoryMap::wf`) keeps the regions non-empty, sorted by
//! start frame and pairwise disjoint at all times, so the map that reaches
//! the kernel is sorted and overlap-free for any order of the probe input.

use vstd::prelude::*;

verus! {

/// Size in bytes of one physical frame.
pub const PAGE_SIZE: u64 = 4096;

/// Largest number of regions the memory map can hold.
pub const MAX_MEMORY_MAP_SIZE: usize = 64;

/// Frame numbers are physical byte addresses divided by `PAGE_SIZE`;
/// with 64-bit addresses they are below `2^52`.
pub const MAX_FRAME_NUMBER: u64 = 0x10_0000_0000_0000;

/// Usage kind of a physical memory region.
#[derive(Clone, Copy, PartialEq, Eq, Structural, Debug)]
pub enum MemoryRegionType {
    /// Free for general use by the kernel.
    Usable,
    /// Reserved by the firmware; never usable.
    Reserved,
    /// ACPI tables; reclaimable once they were parsed.
    AcpiReclaimable,
    /// ACPI non-volatile storage.
    AcpiNvs,
    /// Reported faulty by the firmware.
    BadMemory,
    /// The zero frame, kept out of general use.
    FrameZero,
    /// Holds the loaded kernel image and its copied segments.
    Kernel,
    /// Holds a kernel stack.
    KernelStack,
    /// Holds bootloader page tables.
    PageTable,
    /// Holds the bootloader's own code and data.
    Bootloader,
    /// Holds the boot information structure.
    BootInfo,
    /// Probe entry of an unknown type.
    Unknown,
}

/// A right-open range of physical frame numbers.
#[derive(Clone, Copy, PartialEq, Eq, Structural, Debug)]
pub struct FrameRange {
    /// First frame of the range.
    pub start_frame_number: u64,
    /// First frame past the range.
    pub end_frame_number: u64,
}

impl FrameRange {
    /// The range holds frame `f`.
    pub open spec fn spec_contains(self, f: int) -> bool {
        self.start_frame_number <= f < self.end_frame_number
    }

    /// Non-empty and within the addressable frame numbers.
    pub open spec fn valid(self) -> bool {
        self.start_frame_number < self.end_frame_number
        && self.end_frame_number < MAX_FRAME_NUMBER
    }

    /// Number of frames in the range.
    pub open spec fn size(self) -> int {
        self.end_frame_number - self.start_frame_number
    }

    /// Builds the range of frames covering `[start_addr, end_addr)`;
    /// both addresses must be frame-aligned, an unaligned boundary is
    /// not silently rounded.
    pub fn new(start_addr: u64, end_addr: u64) -> (r: FrameRange)
        requires
            (start_addr as int) % (PAGE_SIZE as int) == 0,
            (end_addr as int) % (PAGE_SIZE as int) == 0,
        ensures
            r.start_frame_number == start_addr / PAGE_SIZE,
            r.end_frame_number == end_addr / PAGE_SIZE,
    {
        FrameRange { start_frame_number: start_addr / PAGE_SIZE, end_frame_number: end_addr / PAGE_SIZE }
    }

    /// Physical byte address of the first frame.
    pub fn start_addr(&self) -> (r: u64)
        requires self.start_frame_number < MAX_FRAME_NUMBER,
        ensures r == self.start_frame_number * PAGE_SIZE,
    {
        self.start_frame_number * PAGE_SIZE
    }

    /// Physical byte address just past the last frame.
    pub fn end_addr(&self) -> (r: u64)
        requires self.end_frame_number < MAX_FRAME_NUMBER,
        ensures r == self.end_frame_number * PAGE_SIZE,
    {
        self.end_frame_number * PAGE_SIZE
    }
}

/// Two frame ranges share at least one frame.
pub open spec fn ranges_overlap(a: FrameRange, b: FrameRange) -> bool {
    a.start_frame_number < b.end_frame_number && b.start_frame_number < a.end_frame_number
}

/// Number of frames shared by two ranges.
pub open spec fn overlap_size(a: FrameRange, b: FrameRange) -> int {
    let lo = if a.start_frame_number >= b.start_frame_number { a.start_frame_number as int } else { b.start_frame_number as int };
    let hi = if a.end_frame_number <= b.end_frame_number { a.end_frame_number as int } else { b.end_frame_number as int };
    if lo < hi { hi - lo } else { 0 }
}

/// A tagged physical memory region.
#[derive(Clone, Copy, PartialEq, Eq, Structural, Debug)]
pub struct MemoryRegion {
    /// The frames the region covers.
    pub range: FrameRange,
    /// What the region is used for.
    pub region_type: MemoryRegionType,
}

impl MemoryRegion {
    /// The region holds frame `f`.
    pub open spec fn spec_contains(self, f: int) -> bool {
        self.range.spec_contains(f)
    }
}

/// The kind of frame `f` under the regions `s`: the tag of the first
/// region holding `f`, or `None` when no region holds it.  With pairwise
/// disjoint regions the first holder is the only one.
pub open spec fn frame_kind(s: Seq<MemoryRegion>, f: int) -> Option<MemoryRegionType>
    decreases s.len(),
{
    if s.len() == 0 {
        None
    } else if s[0].spec_contains(f) {
        Some(s[0].region_type)
    } else {
        frame_kind(s.drop_first(), f)
    }
}

/// Sum of the sizes of all regions.
pub open spec fn total_frames(s: Seq<MemoryRegion>) -> int
    decreases s.len(),
{
    if s.len() == 0 { 0 } else { s[0].range.size() + total_frames(s.drop_first()) }
}

/// Sum of the sizes of the usable regions.
pub open spec fn usable_frames(s: Seq<MemoryRegion>) -> int
    decreases s.len(),
{
    if s.len() == 0 {
        0
    } else {
        (if s[0].region_type == MemoryRegionType::Usable { s[0].range.size() } else { 0 })
            + usable_frames(s.drop_first())
    }
}

/// Number of usable frames of `s` that lie inside `r`.
pub open spec fn usable_overlap(s: Seq<MemoryRegion>, r: FrameRange) -> int
    decreases s.len(),
{
    if s.len() == 0 {
        0
    } else {
        (if s[0].region_type == MemoryRegionType::Usable { overlap_size(s[0].range, r) } else { 0 })
            + usable_overlap(s.drop_first(), r)
    }
}

/// Number of regions that relabelling `r` leaves in place of one region:
/// a usable region overlapping `r` splits into its intersection plus the
/// non-empty remainders on either side; every other region stays as it is.
pub open spec fn split_count(e: MemoryRegion, r: FrameRange) -> int {
    if e.region_type == MemoryRegionType::Usable && ranges_overlap(e.range, r) {
        1 + (if e.range.start_frame_number < r.start_frame_number { 1int } else { 0int })
            + (if r.end_frame_number < e.range.end_frame_number { 1int } else { 0int })
    } else {
        1
    }
}

/// Number of regions the map holds after relabelling `r`.
pub open spec fn marked_len(s: Seq<MemoryRegion>, r: FrameRange) -> int
    decreases s.len(),
{
    if s.len() == 0 { 0 } else { split_count(s[0], r) + marked_len(s.drop_first(), r) }
}

/// Region `e` blocks relabelling to `r`: they overlap while `e` is
/// neither usable nor already of the requested kind.
pub open spec fn region_conflicts(e: MemoryRegion, r: MemoryRegion) -> bool {
    ranges_overlap(e.range, r.range)
    && e.region_type != MemoryRegionType::Usable
    && e.region_type != r.region_type
}

/// Some region of `s` blocks relabelling to `r`.
pub open spec fn has_conflict(s: Seq<MemoryRegion>, r: MemoryRegion) -> bool {
    exists|i: int| 0 <= i < s.len() && region_conflicts(#[trigger] s[i], r)
}

/// All regions are non-empty and addressable.
pub open spec fn regions_valid(s: Seq<MemoryRegion>) -> bool {
    forall|i: int| 0 <= i < s.len() ==> (#[trigger] s[i]).range.valid()
}

/// The regions are sorted by start frame and pairwise disjoint: each one
/// ends no later than any later one starts.
pub open spec fn regions_sorted(s: Seq<MemoryRegion>) -> bool {
    forall|i: int, j: int| #![trigger s[i], s[j]]
        0 <= i < j < s.len()
        ==> s[i].range.end_frame_number <= s[j].range.start_frame_number
}

/// How `frame_kind` grows when a region is appended: an already covered
/// frame keeps its kind, a frame of the new region takes its kind.
pub proof fn lemma_frame_kind_push(s: Seq<MemoryRegion>, e: MemoryRegion, f: int)
    ensures
        frame_kind(s.push(e), f) == (if frame_kind(s, f).is_some() {
            frame_kind(s, f)
        } else if e.spec_contains(f) {
            Some(e.region_type)
        } else {
            None::<MemoryRegionType>
        }),
    decreases s.len(),
{
    if s.len() == 0 {
        assert(s.push(e)[0] == e);
        assert(s.push(e).drop_first() =~= Seq::<MemoryRegion>::empty());
        assert(frame_kind(Seq::<MemoryRegion>::empty(), f) == None::<MemoryRegionType>);
    } else {
        assert(s.push(e)[0] == s[0]);
        assert(s.push(e).drop_first() =~= s.drop_first().push(e));
        lemma_frame_kind_push(s.drop_first(), e, f);
    }
}

/// How the size measures grow when a region is appended.
pub proof fn lemma_measures_push(s: Seq<MemoryRegion>, e: MemoryRegion, r: FrameRange)
    ensures
        total_frames(s.push(e)) == total_frames(s) + e.range.size(),
        usable_frames(s.push(e)) == usable_frames(s)
            + (if e.region_type == MemoryRegionType::Usable { e.range.size() } else { 0 }),
        usable_overlap(s.push(e), r) == usable_overlap(s, r)
            + (if e.region_type == MemoryRegionType::Usable { overlap_size(e.range, r) } else { 0 }),
        marked_len(s.push(e), r) == marked_len(s, r) + split_count(e, r),
    decreases s.len(),
{
    if s.len() == 0 {
        assert(s.push(e)[0] == e);
        assert(s.push(e).drop_first() =~= Seq::<MemoryRegion>::empty());
        assert(total_frames(Seq::<MemoryRegion>::empty()) == 0);
        assert(usable_frames(Seq::<MemoryRegion>::empty()) == 0);
        assert(usable_overlap(Seq::<MemoryRegion>::empty(), r) == 0);
        assert(marked_len(Seq::<MemoryRegion>::empty(), r) == 0);
    } else {
        assert(s.push(e)[0] == s[0]);
        assert(s.push(e).drop_first() =~= s.drop_first().push(e));
        lemma_measures_push(s.drop_first(), e, r);
    }
}

/// A frame with a kind is held by a region of that kind.
pub proof fn lemma_frame_kind_witness(s: Seq<MemoryRegion>, f: int)
    requires
        frame_kind(s, f).is_some(),
    ensures
        exists|i: int| 0 <= i < s.len() && (#[trigger] s[i]).spec_contains(f)
            && s[i].region_type == frame_kind(s, f).unwrap(),
    decreases s.len(),
{
    if s[0].spec_contains(f) {
        assert(s[0].spec_contains(f));
    } else {
        lemma_frame_kind_witness(s.drop_first(), f);
        let j = choose|j: int| 0 <= j < s.drop_first().len()
            && (#[trigger] s.drop_first()[j]).spec_contains(f)
            && s.drop_first()[j].region_type == frame_kind(s.drop_first(), f).unwrap();
        assert(s[j + 1] == s.drop_first()[j]);
    }
}

/// In a sorted map, a region holding `f` decides the kind of `f`.
pub proof fn lemma_contains_frame_kind(s: Seq<MemoryRegion>, j: int, f: int)
    requires
        regions_sorted(s),
        regions_valid(s),
        0 <= j < s.len(),
        s[j].spec_contains(f),
    ensures
        frame_kind(s, f) == Some(s[j].region_type),
    decreases s.len(),
{
    if j == 0 {
    } else {
        assert(s[0].range.end_frame_number <= s[j].range.start_frame_number);
        assert(!s[0].spec_contains(f));
        assert(regions_sorted(s.drop_first())) by {
            assert forall|x: int, y: int| 0 <= x < y < s.drop_first().len()
                implies s.drop_first()[x].range.end_frame_number
                    <= s.drop_first()[y].range.start_frame_number by {
                assert(s[x + 1] == s.drop_first()[x]);
                assert(s[y + 1] == s.drop_first()[y]);
            }
        }
        assert(regions_valid(s.drop_first())) by {
            assert forall|x: int| 0 <= x < s.drop_first().len()
                implies (#[trigger] s.drop_first()[x]).range.valid() by {
                assert(s[x + 1] == s.drop_first()[x]);
            }
        }
        assert(s.drop_first()[j - 1] == s[j]);
        lemma_contains_frame_kind(s.drop_first(), j - 1, f);
    }
}

/// The usable frame count is never negative.
pub proof fn lemma_usable_frames_nonneg(s: Seq<MemoryRegion>)
    requires regions_valid(s),
    ensures usable_frames(s) >= 0,
    decreases s.len(),
{
    if s.len() > 0 {
        assert(regions_valid(s.drop_first())) by {
            assert forall|x: int| 0 <= x < s.drop_first().len()
                implies (#[trigger] s.drop_first()[x]).range.valid() by {
                assert(s[x + 1] == s.drop_first()[x]);
            }
        }
        lemma_usable_frames_nonneg(s.drop_first());
    }
}

/// A usable region makes the usable frame count positive.
pub proof fn lemma_usable_frames_positive(s: Seq<MemoryRegion>, j: int)
    requires
        regions_valid(s),
        0 <= j < s.len(),
        s[j].region_type == MemoryRegionType::Usable,
    ensures
        usable_frames(s) > 0,
    decreases s.len(),
{
    assert(regions_valid(s.drop_first())) by {
        assert forall|x: int| 0 <= x < s.drop_first().len()
            implies (#[trigger] s.drop_first()[x]).range.valid() by {
            assert(s[x + 1] == s.drop_first()[x]);
        }
    }
    if j == 0 {
        lemma_usable_frames_nonneg(s.drop_first());
    } else {
        assert(s.drop_first()[j - 1] == s[j]);
        lemma_usable_frames_positive(s.drop_first(), j - 1);
        if s[0].region_type == MemoryRegionType::Usable {
            assert(s[0].range.size() >= 0);
        }
    }
}

/// Without usable regions the usable frame count is zero.
pub proof fn lemma_usable_frames_zero(s: Seq<MemoryRegion>)
    requires
        forall|i: int| 0 <= i < s.len() ==> (#[trigger] s[i]).region_type != MemoryRegionType::Usable,
    ensures
        usable_frames(s) == 0,
    decreases s.len(),
{
    if s.len() > 0 {
        assert forall|x: int| 0 <= x < s.drop_first().len()
            implies (#[trigger] s.drop_first()[x]).region_type != MemoryRegionType::Usable by {
            assert(s[x + 1] == s.drop_first()[x]);
        }
        lemma_usable_frames_zero(s.drop_first());
    }
}

/// A raw entry of the firmware memory probe: a byte range and a type code.
#[derive(Clone, Copy, PartialEq, Eq, Structural, Debug)]
pub struct RawMemoryRegion {
    /// First byte of the range.
    pub base_addr: u64,
    /// Length of the range in bytes.
    pub length: u64,
    /// Firmware type code of the range.
    pub region_type: u32,
}

/// The region kind a probe type code stands for.
pub open spec fn raw_region_kind(t: u32) -> MemoryRegionType {
    if t == 1 { MemoryRegionType::Usable }
    else if t == 2 { MemoryRegionType::Reserved }
    else if t == 3 { MemoryRegionType::AcpiReclaimable }
    else if t == 4 { MemoryRegionType::AcpiNvs }
    else if t == 5 { MemoryRegionType::BadMemory }
    else { MemoryRegionType::Unknown }
}

/// Last byte address a raw entry may reach: the top of the last whole
/// frame below `2^64`.
pub const ADDR_SPACE_LIMIT: u64 = 0xFFFF_FFFF_FFFF_F000;

/// First frame of a raw entry: a usable range shrinks to whole frames,
/// any other kind expands to whole frames.
pub open spec fn raw_start_frame(e: RawMemoryRegion) -> int {
    if raw_region_kind(e.region_type) == MemoryRegionType::Usable {
        (e.base_addr as int) / (PAGE_SIZE as int) + (if (e.base_addr as int) % (PAGE_SIZE as int) != 0 { 1int } else { 0int })
    } else {
        (e.base_addr as int) / (PAGE_SIZE as int)
    }
}

/// First frame past a raw entry.
pub open spec fn raw_end_frame(e: RawMemoryRegion) -> int {
    let end = e.base_addr + e.length;
    if raw_region_kind(e.region_type) == MemoryRegionType::Usable {
        end / (PAGE_SIZE as int)
    } else {
        end / (PAGE_SIZE as int) + (if end % (PAGE_SIZE as int) != 0 { 1int } else { 0int })
    }
}

/// The raw entry covers at least one whole frame.
pub open spec fn raw_nonempty(e: RawMemoryRegion) -> bool {
    raw_start_frame(e) < raw_end_frame(e)
}

/// The raw entry stays within the addressable range.
pub open spec fn raw_in_bounds(e: RawMemoryRegion) -> bool {
    e.base_addr + e.length <= ADDR_SPACE_LIMIT
}

/// Frame `f` lies in the raw entry.
pub open spec fn raw_contains(e: RawMemoryRegion, f: int) -> bool {
    raw_nonempty(e) && raw_start_frame(e) <= f < raw_end_frame(e)
}

/// The kind frame `f` takes under the raw probe entries.
pub open spec fn raw_frame_kind(rs: Seq<RawMemoryRegion>, f: int) -> Option<MemoryRegionType>
    decreases rs.len(),
{
    if rs.len() == 0 {
        None
    } else if raw_contains(rs[0], f) {
        Some(raw_region_kind(rs[0].region_type))
    } else {
        raw_frame_kind(rs.drop_first(), f)
    }
}

/// Total number of whole frames the raw probe entries cover.
pub open spec fn raw_total_frames(rs: Seq<RawMemoryRegion>) -> int
    decreases rs.len(),
{
    if rs.len() == 0 {
        0
    } else {
        (if raw_nonempty(rs[0]) { raw_end_frame(rs[0]) - raw_start_frame(rs[0]) } else { 0 })
            + raw_total_frames(rs.drop_first())
    }
}

/// Number of raw entries that cover at least one frame.
pub open spec fn raw_count(rs: Seq<RawMemoryRegion>) -> int
    decreases rs.len(),
{
    if rs.len() == 0 { 0 } else { (if raw_nonempty(rs[0]) { 1int } else { 0int }) + raw_count(rs.drop_first()) }
}

/// Every raw entry is addressable.
pub open spec fn raw_ok(rs: Seq<RawMemoryRegion>) -> bool {
    forall|i: int| 0 <= i < rs.len() ==> raw_in_bounds(#[trigger] rs[i])
}

/// No two non-empty raw entries share a frame.
pub open spec fn raw_disjoint(rs: Seq<RawMemoryRegion>) -> bool {
    forall|i: int, j: int| #![trigger rs[i], rs[j]]
        0 <= i < j < rs.len() && raw_nonempty(rs[i]) && raw_nonempty(rs[j])
        ==> (raw_end_frame(rs[i]) <= raw_start_frame(rs[j])
            || raw_end_frame(rs[j]) <= raw_start_frame(rs[i]))
}

/// How `raw_frame_kind` and `raw_count` grow when an entry is appended.
pub proof fn lemma_raw_push(rs: Seq<RawMemoryRegion>, e: RawMemoryRegion, f: int)
    ensures
        raw_frame_kind(rs.push(e), f) == (if raw_frame_kind(rs, f).is_some() {
            raw_frame_kind(rs, f)
        } else if raw_contains(e, f) {
            Some(raw_region_kind(e.region_type))
        } else {
            None::<MemoryRegionType>
        }),
        raw_count(rs.push(e)) == raw_count(rs) + (if raw_nonempty(e) { 1int } else { 0int }),
        raw_total_frames(rs.push(e)) == raw_total_frames(rs)
            + (if raw_nonempty(e) { raw_end_frame(e) - raw_start_frame(e) } else { 0 }),
    decreases rs.len(),
{
    if rs.len() == 0 {
        assert(rs.push(e)[0] == e);
        assert(rs.push(e).drop_first() =~= Seq::<RawMemoryRegion>::empty());
        assert(raw_frame_kind(Seq::<RawMemoryRegion>::empty(), f) == None::<MemoryRegionType>);
        assert(raw_count(Seq::<RawMemoryRegion>::empty()) == 0);
        assert(raw_total_frames(Seq::<RawMemoryRegion>::empty()) == 0);
    } else {
        assert(rs.push(e)[0] == rs[0]);
        assert(rs.push(e).drop_first() =~= rs.drop_first().push(e));
        lemma_raw_push(rs.drop_first(), e, f);
    }
}

/// A frame with a raw kind is covered by a raw entry of that kind.
pub proof fn lemma_raw_frame_kind_witness(rs: Seq<RawMemoryRegion>, f: int)
    requires
        raw_frame_kind(rs, f).is_some(),
    ensures
        exists|i: int| 0 <= i < rs.len() && raw_contains(#[trigger] rs[i], f)
            && raw_region_kind(rs[i].region_type) == raw_frame_kind(rs, f).unwrap(),
    decreases rs.len(),
{
    if raw_contains(rs[0], f) {
    } else {
        lemma_raw_frame_kind_witness(rs.drop_first(), f);
        let j = choose|j: int| 0 <= j < rs.drop_first().len()
            && raw_contains(#[trigger] rs.drop_first()[j], f)
            && raw_region_kind(rs.drop_first()[j].region_type)
                == raw_frame_kind(rs.drop_first(), f).unwrap();
        assert(rs[j + 1] == rs.drop_first()[j]);
    }
}

/// A covered frame has a raw kind.
pub proof fn lemma_raw_contains_some(rs: Seq<RawMemoryRegion>, j: int, f: int)
    requires
        0 <= j < rs.len(),
        raw_contains(rs[j], f),
    ensures
        raw_frame_kind(rs, f).is_some(),
    decreases rs.len(),
{
    if !raw_contains(rs[0], f) {
        assert(rs.drop_first()[j - 1] == rs[j]);
        lemma_raw_contains_some(rs.drop_first(), j - 1, f);
    }
}

/// A prefix never counts more non-empty entries than the whole, and the
/// entry just past the prefix still fits in the difference.
pub proof fn lemma_raw_count_prefix(rs: Seq<RawMemoryRegion>, i: int)
    requires 0 <= i <= rs.len(),
    ensures
        raw_count(rs.take(i)) <= raw_count(rs),
        i < rs.len() ==> raw_count(rs.take(i)) + (if raw_nonempty(rs[i]) { 1int } else { 0int })
            <= raw_count(rs),
    decreases rs.len() - i,
{
    if i < rs.len() {
        assert(rs.take(i + 1) =~= rs.take(i).push(rs[i]));
        lemma_raw_push(rs.take(i), rs[i], 0);
        lemma_raw_count_prefix(rs, i + 1);
    } else {
        assert(rs.take(i) =~= rs);
    }
}

/// Errors of memory-map construction and mutation.
#[derive(Clone, Copy, PartialEq, Eq, Structural, Debug)]
pub enum MemoryMapError {
    /// The new region overlaps a region already in the map.
    RegionOverlap,
    /// The map cannot hold another region.
    MapFull,
    /// A probe entry describes no addressable frame range.
    InvalidRange,
    /// A range to relabel crosses a region of another reserved kind.
    RegionConflict,
    /// No usable frame is left.
    NoUsableFrame,
}

/// A map of the machine's physical memory regions.
#[derive(Debug)]
pub struct MemoryMap {
    /// The regions, sorted by start frame and pairwise disjoint.
    pub regions: Vec<MemoryRegion>,
}

impl View for MemoryMap {
    type V = Seq<MemoryRegion>;

    open spec fn view(&self) -> Seq<MemoryRegion> {
        self.regions@
    }
}

impl MemoryMap {
    /// Well-formed: bounded, every region non-empty and addressable, and
    /// the regions sorted by start frame with no two overlapping.
    pub open spec fn wf(self) -> bool {
        &&& self.regions@.len() <= MAX_MEMORY_MAP_SIZE
        &&& regions_valid(self.regions@)
        &&& regions_sorted(self.regions@)
    }

    /// An empty map.
    pub fn new() -> (r: MemoryMap)
        ensures
            r.wf(),
            r@ =~= Seq::<MemoryRegion>::empty(),
    {
        MemoryMap { regions: Vec::new() }
    }

    /// Number of regions.
    pub fn len(&self) -> (r: usize)
        ensures r == self@.len(),
    {
        self.regions.len()
    }

    /// The region at index `i`.
    pub fn get(&self, i: usize) -> (r: MemoryRegion)
        requires i < self@.len(),
        ensures r == self@[i as int],
    {
        self.regions[i]
    }

    /// Adds a region at its sorted position.  The call succeeds exactly
    /// when the region overlaps nothing already in the map and the map is
    /// not full; on success every frame of the region takes its kind and
    /// every other frame keeps what it had.
    pub fn add_region(&mut self, region: MemoryRegion) -> (r: Result<(), MemoryMapError>)
        requires
            old(self).wf(),
            region.range.valid(),
        ensures
            final(self).wf(),
            r == Ok::<(), MemoryMapError>(()) <==> ({
                &&& forall|i: int| 0 <= i < old(self)@.len()
                        ==> !ranges_overlap((#[trigger] old(self)@[i]).range, region.range)
                &&& old(self)@.len() < MAX_MEMORY_MAP_SIZE
            }),
            r == Err::<(), MemoryMapError>(MemoryMapError::RegionOverlap)
                <==> exists|i: int| 0 <= i < old(self)@.len()
                    && ranges_overlap((#[trigger] old(self)@[i]).range, region.range),
            r.is_err() ==> final(self)@ == old(self)@,
            r.is_ok() ==> {
                &&& forall|f: int| #[trigger] frame_kind(final(self)@, f)
                        == if region.spec_contains(f) { Some(region.region_type) }
                           else { frame_kind(old(self)@, f) }
                &&& total_frames(final(self)@) == total_frames(old(self)@) + region.range.size()
                &&& usable_frames(final(self)@) == usable_frames(old(self)@)
                        + (if region.region_type == MemoryRegionType::Usable { region.range.size() } else { 0 })
                &&& final(self)@.len() == old(self)@.len() + 1
            },
    {
        let n = self.regions.len();
        let mut i: usize = 0;
        while i < n
            invariant
                i <= n,
                n == self.regions@.len(),
                self.regions@ == old(self).regions@,
                old(self).wf(),
                forall|j: int| 0 <= j < i
                    ==> !ranges_overlap((#[trigger] self.regions@[j]).range, region.range),
            decreases n - i,
        {
            let e = self.regions[i];
            if e.range.start_frame_number < region.range.end_frame_number
                && region.range.start_frame_number < e.range.end_frame_number
            {
                return Err(MemoryMapError::RegionOverlap);
            }
            i += 1;
        }
        if n >= MAX_MEMORY_MAP_SIZE {
            return Err(MemoryMapError::MapFull);
        }

        let ghost s = self.regions@;
        let mut out: Vec<MemoryRegion> = Vec::new();
        let mut placed: bool = false;
        let mut i: usize = 0;
        while i < n
            invariant
                i <= n,
                n == s.len(),
                n < MAX_MEMORY_MAP_SIZE,
                self.regions@ == s,
                s == old(self).regions@,
                regions_valid(s),
                regions_sorted(s),
                region.range.valid(),
                forall|j: int| 0 <= j < n
                    ==> !ranges_overlap((#[trigger] s[j]).range, region.range),
                out@.len() == i + (if placed { 1int } else { 0int }),
                regions_valid(out@),
                regions_sorted(out@),
                !placed ==> out@ == s.take(i as int),
                !placed ==> forall|j: int| 0 <= j < i
                    ==> (#[trigger] s[j]).range.start_frame_number <= region.range.start_frame_number,
                i < n ==> forall|z: int| 0 <= z < out@.len()
                    ==> (#[trigger] out@[z]).range.end_frame_number
                        <= s[i as int].range.start_frame_number,
                forall|f: int| #[trigger] frame_kind(out@, f)
                    == if placed && region.spec_contains(f) { Some(region.region_type) }
                       else { frame_kind(s.take(i as int), f) },
                total_frames(out@) == total_frames(s.take(i as int))
                    + (if placed { region.range.size() } else { 0 }),
                usable_frames(out@) == usable_frames(s.take(i as int))
                    + (if placed && region.region_type == MemoryRegionType::Usable { region.range.size() } else { 0 }),
            decreases n - i,
        {
            let e = self.regions[i];
            if !placed && region.range.start_frame_number < e.range.start_frame_number {
                proof {
                    assert forall|z: int| 0 <= z < out@.len()
                        implies (#[trigger] out@[z]).range.end_frame_number
                            <= region.range.start_frame_number by {
                        assert(out@[z] == s[z]);
                        assert(s[z].range.start_frame_number <= region.range.start_frame_number);
                        assert(!ranges_overlap(s[z].range, region.range));
                    }
                    let pre = out@;
                    assert forall|f: int| #[trigger] frame_kind(pre.push(region), f)
                        == if region.spec_contains(f) { Some(region.region_type) }
                           else { frame_kind(s.take(i as int), f) } by {
                        lemma_frame_kind_push(pre, region, f);
                        if region.spec_contains(f) && frame_kind(pre, f).is_some() {
                            lemma_frame_kind_witness(pre, f);
                            let w = choose|w: int| 0 <= w < pre.len()
                                && (#[trigger] pre[w]).spec_contains(f)
                                && pre[w].region_type == frame_kind(pre, f).unwrap();
                            assert(pre[w] == s[w]);
                            assert(ranges_overlap(s[w].range, region.range));
                        }
                    }
                    lemma_measures_push(pre, region, region.range);
                }
                out.push(region);
                placed = true;
                proof {
                    assert forall|z: int, w: int| #![trigger out@[z], out@[w]]
                        0 <= z < w < out@.len()
                        implies out@[z].range.end_frame_number <= out@[w].range.start_frame_number by {
                        if w < out@.len() - 1 {
                        } else {
                            assert(out@[z].range.end_frame_number <= region.range.start_frame_number);
                        }
                    }
                }
            }
            let ghost pre = out@;
            proof {
                assert(s.take(i as int + 1) =~= s.take(i as int).push(s[i as int]));
                assert(pre.len() > 0 ==> pre.last().range.end_frame_number
                    <= e.range.start_frame_number);
                assert forall|f: int| #[trigger] frame_kind(pre.push(e), f)
                    == if placed && region.spec_contains(f) { Some(region.region_type) }
                       else { frame_kind(s.take(i as int + 1), f) } by {
                    lemma_frame_kind_push(pre, e, f);
                    lemma_frame_kind_push(s.take(i as int), s[i as int], f);
                    if placed && region.spec_contains(f) && e.spec_contains(f) {
                        assert(ranges_overlap(s[i as int].range, region.range));
                    }
                }
                lemma_measures_push(pre, e, region.range);
                lemma_measures_push(s.take(i as int), s[i as int], region.range);
            }
            out.push(e);
            proof {
                assert forall|z: int, w: int| #![trigger out@[z], out@[w]]
                    0 <= z < w < out@.len()
                    implies out@[z].range.end_frame_number <= out@[w].range.start_frame_number by {
                    if w == out@.len() - 1 && z < out@.len() - 1 {
                        assert(pre[z].range.end_frame_number <= e.range.start_frame_number) by {
                            if z < pre.len() - 1 {
                                assert(pre[z].range.end_frame_number <= pre[pre.len() - 1].range.start_frame_number);
                                assert(pre[pre.len() - 1].range.valid());
                                assert(pre[pre.len() - 1].range.end_frame_number <= e.range.start_frame_number);
                            } else {
                                assert(pre[z].range.end_frame_number <= e.range.start_frame_number);
                            }
                        }
                    }
                }
                if i + 1 < n {
                    assert forall|z: int| 0 <= z < out@.len()
                        implies (#[trigger] out@[z]).range.end_frame_number
                            <= s[i as int + 1].range.start_frame_number by {
                        assert(s[i as int].range.end_frame_number <= s[i as int + 1].range.start_frame_number);
                        if z < out@.len() - 1 {
                            assert(out@[z].range.end_frame_number <= e.range.start_frame_number);
                        }
                    }
                }
                if !placed {
                    assert(out@ =~= s.take(i as int + 1));
                }
            }
            i += 1;
        }
        proof {
            assert(s.take(n as int) =~= s);
        }
        if !placed {
            proof {
                let pre = out@;
                assert forall|z: int| 0 <= z < pre.len()
                    implies (#[trigger] pre[z]).range.end_frame_number
                        <= region.range.start_frame_number by {
                    assert(pre[z] == s[z]);
                    assert(s[z].range.start_frame_number <= region.range.start_frame_number);
                    assert(!ranges_overlap(s[z].range, region.range));
                }
                assert forall|f: int| #[trigger] frame_kind(pre.push(region), f)
                    == if region.spec_contains(f) { Some(region.region_type) }
                       else { frame_kind(s, f) } by {
                    lemma_frame_kind_push(pre, region, f);
                    if region.spec_contains(f) && frame_kind(pre, f).is_some() {
                        lemma_frame_kind_witness(pre, f);
                        let w = choose|w: int| 0 <= w < pre.len()
                            && (#[trigger] pre[w]).spec_contains(f)
                            && pre[w].region_type == frame_kind(pre, f).unwrap();
                        assert(pre[w] == s[w]);
                        assert(ranges_overlap(s[w].range, region.range));
                    }
                }
                lemma_measures_push(pre, region, region.range);
            }
            out.push(region);
            proof {
                let cur = out@;
                assert forall|z: int, w: int| #![trigger cur[z], cur[w]]
                    0 <= z < w < cur.len()
                    implies cur[z].range.end_frame_number <= cur[w].range.start_frame_number by {
                    if w == cur.len() - 1 {
                        assert(cur[z].range.end_frame_number <= region.range.start_frame_number);
                    }
                }
            }
        }
        self.regions = out;
        Ok(())
    }

    /// Builds the memory map from the raw firmware probe entries, in any
    /// order.  The call succeeds exactly when every entry stays within the
    /// addressable range, no two entries share a frame, and at most
    /// `MAX_MEMORY_MAP_SIZE` entries cover a frame at all; the resulting
    /// map then gives every frame the kind of the probe entry covering it,
    /// sorted by start frame and free of overlaps.
    pub fn from_raw(raw: &Vec<RawMemoryRegion>) -> (r: Result<MemoryMap, MemoryMapError>)
        ensures
            r.is_ok() <==> ({
                &&& raw_ok(raw@)
                &&& raw_disjoint(raw@)
                &&& raw_count(raw@) <= MAX_MEMORY_MAP_SIZE
            }),
            r.is_ok() ==> {
                let m = r.unwrap();
                &&& m.wf()
                &&& forall|f: int| #[trigger] frame_kind(m@, f) == raw_frame_kind(raw@, f)
                &&& m@.len() == raw_count(raw@)
                &&& total_frames(m@) == raw_total_frames(raw@)
            },
    {
        let mut map = MemoryMap::new();
        let n = raw.len();
        let mut i: usize = 0;
        while i < n
            invariant
                i <= n,
                n == raw@.len(),
                map.wf(),
                map@.len() == raw_count(raw@.take(i as int)),
                total_frames(map@) == raw_total_frames(raw@.take(i as int)),
                forall|f: int| #[trigger] frame_kind(map@, f)
                    == raw_frame_kind(raw@.take(i as int), f),
                forall|j: int| 0 <= j < i ==> raw_in_bounds(#[trigger] raw@[j]),
                forall|x: int, y: int| #![trigger raw@[x], raw@[y]]
                    0 <= x < y < i && raw_nonempty(raw@[x]) && raw_nonempty(raw@[y])
                    ==> (raw_end_frame(raw@[x]) <= raw_start_frame(raw@[y])
                        || raw_end_frame(raw@[y]) <= raw_start_frame(raw@[x])),
            decreases n - i,
        {
            let e = raw[i];
            if e.base_addr > ADDR_SPACE_LIMIT || e.length > ADDR_SPACE_LIMIT - e.base_addr {
                assert(!raw_in_bounds(raw@[i as int]));
                return Err(MemoryMapError::InvalidRange);
            }
            let kind = raw_kind_of(e.region_type);
            let end_addr = e.base_addr + e.length;
            let usable = matches!(kind, MemoryRegionType::Usable);
            let start_frame: u64 = if usable {
                e.base_addr / PAGE_SIZE + (if e.base_addr % PAGE_SIZE != 0 { 1 } else { 0 })
            } else {
                e.base_addr / PAGE_SIZE
            };
            let end_frame: u64 = if usable {
                end_addr / PAGE_SIZE
            } else {
                end_addr / PAGE_SIZE + (if end_addr % PAGE_SIZE != 0 { 1 } else { 0 })
            };
            proof {
                assert(start_frame == raw_start_frame(raw@[i as int]));
                assert(end_frame == raw_end_frame(raw@[i as int]));
                assert(raw@.take(i as int + 1) =~= raw@.take(i as int).push(raw@[i as int]));
            }
            if start_frame >= end_frame {
                proof {
                    assert forall|f: int| #[trigger] frame_kind(map@, f)
                        == raw_frame_kind(raw@.take(i as int + 1), f) by {
                        lemma_raw_push(raw@.take(i as int), raw@[i as int], f);
                    }
                    lemma_raw_push(raw@.take(i as int), raw@[i as int], 0);
                }
                i += 1;
                continue;
            }
            let region = MemoryRegion {
                range: FrameRange { start_frame_number: start_frame, end_frame_number: end_frame },
                region_type: kind,
            };
            proof {
                assert(end_addr / PAGE_SIZE < MAX_FRAME_NUMBER);
                assert(region.range.valid());
            }
            let ghost pre = map@;
            let res = map.add_region(region);
            match res {
                Ok(()) => {
                    proof {
                        assert forall|f: int| region.spec_contains(f)
                            implies frame_kind(pre, f) == None::<MemoryRegionType> by {
                            if frame_kind(pre, f).is_some() {
                                lemma_frame_kind_witness(pre, f);
                                let w = choose|w: int| 0 <= w < pre.len()
                                    && (#[trigger] pre[w]).spec_contains(f)
                                    && pre[w].region_type == frame_kind(pre, f).unwrap();
                                assert(ranges_overlap(pre[w].range, region.range));
                            }
                        }
                        assert forall|f: int| #[trigger] frame_kind(map@, f)
                            == raw_frame_kind(raw@.take(i as int + 1), f) by {
                            lemma_raw_push(raw@.take(i as int), raw@[i as int], f);
                            if region.spec_contains(f) {
                                assert(frame_kind(pre, f) == None::<MemoryRegionType>);
                            }
                        }
                        lemma_raw_push(raw@.take(i as int), raw@[i as int], 0);
                        assert forall|x: int, y: int| #![trigger raw@[x], raw@[y]]
                            0 <= x < y < i + 1 && raw_nonempty(raw@[x]) && raw_nonempty(raw@[y])
                            implies (raw_end_frame(raw@[x]) <= raw_start_frame(raw@[y])
                                || raw_end_frame(raw@[y]) <= raw_start_frame(raw@[x])) by {
                            if y == i as int && !(raw_end_frame(raw@[x]) <= raw_start_frame(raw@[y])
                                || raw_end_frame(raw@[y]) <= raw_start_frame(raw@[x])) {
                                let f = if raw_start_frame(raw@[x]) >= raw_start_frame(raw@[y]) {
                                    raw_start_frame(raw@[x])
                                } else {
                                    raw_start_frame(raw@[y])
                                };
                                assert(raw_contains(raw@[x], f) && raw_contains(raw@[y], f));
                                assert(raw@.take(i as int)[x] == raw@[x]);
                                lemma_raw_contains_some(raw@.take(i as int), x, f);
                                assert(frame_kind(pre, f).is_some());
                                assert(region.spec_contains(f));
                                assert(false);
                            }
                        }
                    }
                }
                Err(err) => {
                    proof {
                        if err == MemoryMapError::RegionOverlap {
                            let w = choose|w: int| 0 <= w < pre.len()
                                && ranges_overlap((#[trigger] pre[w]).range, region.range);
                            let f = if pre[w].range.start_frame_number
                                >= region.range.start_frame_number {
                                pre[w].range.start_frame_number as int
                            } else {
                                region.range.start_frame_number as int
                            };
                            assert(pre[w].spec_contains(f) && region.spec_contains(f));
                            lemma_contains_frame_kind(pre, w, f);
                            lemma_raw_frame_kind_witness(raw@.take(i as int), f);
                            let x = choose|x: int| 0 <= x < raw@.take(i as int).len()
                                && raw_contains(#[trigger] raw@.take(i as int)[x], f)
                                && raw_region_kind(raw@.take(i as int)[x].region_type)
                                    == raw_frame_kind(raw@.take(i as int), f).unwrap();
                            assert(raw@.take(i as int)[x] == raw@[x]);
                            assert(raw_contains(raw@[x], f) && raw_contains(raw@[i as int], f));
                            assert(!raw_disjoint(raw@));
                        } else {
                            assert(pre.len() >= MAX_MEMORY_MAP_SIZE);
                            lemma_raw_count_prefix(raw@, i as int);
                            assert(raw_count(raw@) > MAX_MEMORY_MAP_SIZE);
                        }
                    }
                    return Err(err);
                }
            }
            i += 1;
        }
        proof {
            assert(raw@.take(n as int) =~= raw@);
        }
        Ok(map)
    }
}

/// In a well-formed map no two regions share a frame, whatever their
/// kinds: construction and relabelling never create an overlap.
pub proof fn lemma_wf_disjoint(m: MemoryMap)
    requires
        m.wf(),
    ensures
        forall|i: int, j: int| #![trigger m@[i], m@[j]]
            0 <= i < j < m@.len() ==> !ranges_overlap(m@[i].range, m@[j].range),
{
}

/// The region kind of a probe type code.
pub fn raw_kind_of(t: u32) -> (k: MemoryRegionType)
    ensures k == raw_region_kind(t),
{
    if t == 1 { MemoryRegionType::Usable }
    else if t == 2 { MemoryRegionType::Reserved }
    else if t == 3 { MemoryRegionType::AcpiReclaimable }
    else if t == 4 { MemoryRegionType::AcpiNvs }
    else if t == 5 { MemoryRegionType::BadMemory }
    else { MemoryRegionType::Unknown }
}

} // verus!
