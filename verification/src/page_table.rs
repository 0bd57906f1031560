//! An abstract model of the kernel's page table: the set of virtual pages
//! the four-level hierarchy maps, each with its target frame and
//! permission bits.
//!
//! The builder decides every mapping here — which page goes to which
//! frame, with which bits, and when a mapping is torn down again — while
//! the few privileged stores that write the decided entries into the
//! hardware tables stay outside the library.  Mapping an already-mapped
//! page and unmapping an unmapped one are errors, never silent no-ops:
//! both would hide a logic defect in the boot path.
//!
//! The model tracks the leaf mappings of the hierarchy.  The frames the
//! intermediate table pages themselves occupy are not modelled per
//! mapping: they live inside the loader's page-table region, which the
//! boot path claims in the memory map as a whole.

use vstd::prelude::*;
use crate::memory_map::{PAGE_SIZE, MemoryRegion, MemoryRegionType, frame_kind, total_frames, usable_frames};
use crate::elf::ElfSegment;

verus! {

/// Permission bits of a mapping; every mapping is present.
#[derive(Clone, Copy, PartialEq, Eq, Structural, Debug)]
pub struct PageTableFlags {
    /// The page may be written.
    pub writable: bool,
    /// The page may not be executed.
    pub no_execute: bool,
}

/// One mapped page: a virtual page, its frame, and its permissions.
#[derive(Clone, Copy, PartialEq, Eq, Structural, Debug)]
pub struct PageMapping {
    /// Virtual address of the page, page-aligned.
    pub page: u64,
    /// Physical address of the frame, page-aligned.
    pub frame: u64,
    /// Permission bits of the mapping.
    pub flags: PageTableFlags,
}

/// Errors of page-table mutation.
#[derive(Clone, Copy, PartialEq, Eq, Structural, Debug)]
pub enum PageTableError {
    /// The virtual page is already mapped.
    AlreadyMapped,
    /// The virtual page is not mapped.
    NotMapped,
    /// No frame could be allocated for the mapping.
    FrameAllocation,
    /// A program header declares sizes or addresses no mapping can
    /// satisfy.
    BadSegment,
}

/// The address is a whole number of pages.
pub open spec fn page_aligned(a: u64) -> bool {
    (a as int) % (PAGE_SIZE as int) == 0
}

/// The mapping each virtual page carries under the entries `s`.
pub open spec fn table_map(s: Seq<PageMapping>) -> Map<u64, PageMapping>
    decreases s.len(),
{
    if s.len() == 0 {
        Map::empty()
    } else {
        table_map(s.drop_last()).insert(s.last().page, s.last())
    }
}

/// No two entries name the same virtual page.
pub open spec fn pages_distinct(s: Seq<PageMapping>) -> bool {
    forall|i: int, j: int| #![trigger s[i], s[j]]
        0 <= i < j < s.len() ==> s[i].page != s[j].page
}

/// A page is in the table exactly when some entry names it.
pub proof fn lemma_table_map_contains(s: Seq<PageMapping>, p: u64)
    ensures
        table_map(s).contains_key(p)
            <==> exists|i: int| 0 <= i < s.len() && (#[trigger] s[i]).page == p,
    decreases s.len(),
{
    if s.len() > 0 {
        lemma_table_map_contains(s.drop_last(), p);
        if table_map(s).contains_key(p) {
            if s.last().page == p {
                assert(s[s.len() - 1].page == p);
            } else {
                let i = choose|i: int| 0 <= i < s.drop_last().len()
                    && (#[trigger] s.drop_last()[i]).page == p;
                assert(s[i].page == p);
            }
        }
        if exists|i: int| 0 <= i < s.len() && (#[trigger] s[i]).page == p {
            let i = choose|i: int| 0 <= i < s.len() && (#[trigger] s[i]).page == p;
            if i < s.len() - 1 {
                assert(s.drop_last()[i].page == p);
            }
        }
    }
}

/// With distinct pages, the entry naming a page is its mapping.
pub proof fn lemma_table_map_get(s: Seq<PageMapping>, j: int)
    requires
        pages_distinct(s),
        0 <= j < s.len(),
    ensures
        table_map(s).contains_key(s[j].page),
        table_map(s)[s[j].page] == s[j],
    decreases s.len(),
{
    if j == s.len() - 1 {
    } else {
        assert(pages_distinct(s.drop_last())) by {
            assert forall|x: int, y: int| #![trigger s.drop_last()[x], s.drop_last()[y]]
                0 <= x < y < s.drop_last().len()
                implies s.drop_last()[x].page != s.drop_last()[y].page by {
                assert(s.drop_last()[x] == s[x] && s.drop_last()[y] == s[y]);
            }
        }
        assert(s.drop_last()[j] == s[j]);
        lemma_table_map_get(s.drop_last(), j);
        assert(s.last().page != s[j].page);
    }
}

/// Removing the entry that names a page removes exactly that page.
pub proof fn lemma_table_map_remove(s: Seq<PageMapping>, j: int)
    requires
        pages_distinct(s),
        0 <= j < s.len(),
    ensures
        table_map(s.remove(j)) == table_map(s).remove(s[j].page),
    decreases s.len(),
{
    assert(pages_distinct(s.drop_last())) by {
        assert forall|x: int, y: int| #![trigger s.drop_last()[x], s.drop_last()[y]]
            0 <= x < y < s.drop_last().len()
            implies s.drop_last()[x].page != s.drop_last()[y].page by {
            assert(s.drop_last()[x] == s[x] && s.drop_last()[y] == s[y]);
        }
    }
    if j == s.len() - 1 {
        assert(s.remove(j) =~= s.drop_last());
        lemma_table_map_contains(s.drop_last(), s[j].page);
        assert(forall|i: int| 0 <= i < s.drop_last().len()
            ==> (#[trigger] s.drop_last()[i]).page != s[j].page);
        assert(!table_map(s.drop_last()).contains_key(s[j].page));
        assert(table_map(s.drop_last()).insert(s.last().page, s.last()).remove(s[j].page)
            =~= table_map(s.drop_last()));
        assert(table_map(s).remove(s[j].page) =~= table_map(s.drop_last()));
    } else {
        let t = s.drop_last();
        let e = s.last();
        assert(s.remove(j).drop_last() =~= t.remove(j));
        assert(s.remove(j).last() == e);
        assert(s.remove(j).len() > 0);
        assert(table_map(s.remove(j)) == table_map(t.remove(j)).insert(e.page, e));
        assert(t[j] == s[j]);
        lemma_table_map_remove(t, j);
        assert(e.page != s[j].page);
        assert(table_map(t).remove(s[j].page).insert(e.page, e)
            =~= table_map(t).insert(e.page, e).remove(s[j].page));
    }
}

/// Unmapping is not idempotent: once a page was unmapped, it is gone from
/// the table, so a second unmap of the same page is rejected rather than
/// silently ignored.
pub proof fn lemma_second_unmap_rejected(m: Map<u64, PageMapping>, page: u64)
    ensures
        !m.remove(page).contains_key(page),
{
}

/// The abstract page table.
pub struct PageTable {
    /// The mapped pages, each virtual page at most once.
    pub entries: Vec<PageMapping>,
}

impl View for PageTable {
    type V = Map<u64, PageMapping>;

    open spec fn view(&self) -> Map<u64, PageMapping> {
        table_map(self.entries@)
    }
}

impl PageTable {
    /// Entries are page-aligned and no virtual page occurs twice.
    pub open spec fn wf(self) -> bool {
        &&& forall|i: int| 0 <= i < self.entries@.len()
                ==> page_aligned((#[trigger] self.entries@[i]).page)
                    && page_aligned(self.entries@[i].frame)
        &&& pages_distinct(self.entries@)
    }

    /// An empty table.
    pub fn new() -> (r: PageTable)
        ensures
            r.wf(),
            r@ =~= Map::<u64, PageMapping>::empty(),
    {
        PageTable { entries: Vec::new() }
    }

    /// Index of the entry naming `page`, if any.
    fn find(&self, page: u64) -> (r: Option<usize>)
        ensures
            match r {
                Some(i) => i < self.entries@.len() && self.entries@[i as int].page == page,
                None => forall|i: int| 0 <= i < self.entries@.len()
                    ==> (#[trigger] self.entries@[i]).page != page,
            },
    {
        let n = self.entries.len();
        let mut i: usize = 0;
        while i < n
            invariant
                i <= n,
                n == self.entries@.len(),
                forall|j: int| 0 <= j < i ==> (#[trigger] self.entries@[j]).page != page,
            decreases n - i,
        {
            if self.entries[i].page == page {
                return Some(i);
            }
            i += 1;
        }
        None
    }

    /// The mapping of `page`, if the page is mapped.
    pub fn translate(&self, page: u64) -> (r: Option<PageMapping>)
        requires
            self.wf(),
        ensures
            r == if self@.contains_key(page) { Some(self@[page]) } else { None::<PageMapping> },
    {
        let found = self.find(page);
        proof {
            lemma_table_map_contains(self.entries@, page);
        }
        match found {
            Some(i) => {
                proof {
                    lemma_table_map_get(self.entries@, i as int);
                }
                Some(self.entries[i])
            }
            None => None,
        }
    }

    /// Maps `page` to `frame` with the given permissions.  Succeeds
    /// exactly when the page was not mapped; the rest of the table is
    /// untouched.
    pub fn map_to(&mut self, page: u64, frame: u64, flags: PageTableFlags)
        -> (r: Result<(), PageTableError>)
        requires
            old(self).wf(),
            page_aligned(page),
            page_aligned(frame),
        ensures
            final(self).wf(),
            r == Ok::<(), PageTableError>(()) <==> !old(self)@.contains_key(page),
            r == Err::<(), PageTableError>(PageTableError::AlreadyMapped)
                <==> old(self)@.contains_key(page),
            r.is_err() ==> final(self)@ == old(self)@,
            r.is_ok() ==> final(self)@
                == old(self)@.insert(page, PageMapping { page, frame, flags }),
    {
        let found = self.find(page);
        proof {
            lemma_table_map_contains(self.entries@, page);
        }
        match found {
            Some(_) => Err(PageTableError::AlreadyMapped),
            None => {
                let ghost s = self.entries@;
                self.entries.push(PageMapping { page, frame, flags });
                proof {
                    assert(self.entries@.drop_last() =~= s);
                    assert forall|x: int, y: int| #![trigger self.entries@[x], self.entries@[y]]
                        0 <= x < y < self.entries@.len()
                        implies self.entries@[x].page != self.entries@[y].page by {
                        if y == self.entries@.len() - 1 {
                            assert(self.entries@[x] == s[x]);
                        }
                    }
                }
                Ok(())
            }
        }
    }

    /// Maps the frame at its own address, so physical and virtual address
    /// coincide for it.
    pub fn identity_map(&mut self, frame: u64, flags: PageTableFlags)
        -> (r: Result<(), PageTableError>)
        requires
            old(self).wf(),
            page_aligned(frame),
        ensures
            final(self).wf(),
            r == Ok::<(), PageTableError>(()) <==> !old(self)@.contains_key(frame),
            r.is_err() ==> final(self)@ == old(self)@,
            r.is_ok() ==> final(self)@
                == old(self)@.insert(frame, PageMapping { page: frame, frame, flags }),
    {
        self.map_to(frame, frame, flags)
    }

    /// Removes the mapping of `page` and returns it.  Succeeds exactly
    /// when the page was mapped; unmapping twice is an error, not a
    /// silent no-op.
    pub fn unmap(&mut self, page: u64) -> (r: Result<PageMapping, PageTableError>)
        requires
            old(self).wf(),
        ensures
            final(self).wf(),
            r.is_ok() <==> old(self)@.contains_key(page),
            r == Err::<PageMapping, PageTableError>(PageTableError::NotMapped)
                <==> !old(self)@.contains_key(page),
            r.is_err() ==> final(self)@ == old(self)@,
            r.is_ok() ==> r.unwrap() == old(self)@[page]
                && final(self)@ == old(self)@.remove(page),
    {
        let found = self.find(page);
        proof {
            lemma_table_map_contains(self.entries@, page);
        }
        match found {
            None => Err(PageTableError::NotMapped),
            Some(i) => {
                let entry = self.entries[i];
                proof {
                    lemma_table_map_get(self.entries@, i as int);
                    lemma_table_map_remove(self.entries@, i as int);
                }
                let ghost s = self.entries@;
                self.entries.remove(i);
                proof {
                    assert forall|x: int, y: int| #![trigger self.entries@[x], self.entries@[y]]
                        0 <= x < y < self.entries@.len()
                        implies self.entries@[x].page != self.entries@[y].page by {
                        assert(self.entries@[x] == if x < i { s[x] } else { s[x + 1] });
                        assert(self.entries@[y] == if y < i { s[y] } else { s[y + 1] });
                    }
                    assert forall|x: int| 0 <= x < self.entries@.len()
                        implies page_aligned((#[trigger] self.entries@[x]).page)
                            && page_aligned(self.entries@[x].frame) by {
                        assert(self.entries@[x] == if x < i { s[x] } else { s[x + 1] });
                    }
                }
                Ok(entry)
            }
        }
    }

    /// Number of mapped pages.
    pub fn len(&self) -> (r: usize)
        ensures r == self.entries@.len(),
    {
        self.entries.len()
    }
}

/// The hardware bit pattern of one page-table entry: the frame address
/// with the present bit, the writable bit when writing is allowed, and
/// the no-execute bit when execution is not.
pub fn pte_value(m: &PageMapping) -> (r: u64)
    requires
        m.frame < 0x10_0000_0000_0000u64 * 4096,
    ensures
        r == m.frame
            | 1u64
            | (if m.flags.writable { 2u64 } else { 0u64 })
            | (if m.flags.no_execute { 1u64 << 63 } else { 0u64 }),
{
    let mut bits: u64 = m.frame | 1;
    if m.flags.writable {
        bits = bits | 2;
    }
    if m.flags.no_execute {
        bits = bits | (1u64 << 63);
    }
    proof {
        let f = m.frame;
        let w = m.flags.writable;
        let nx = m.flags.no_execute;
        assert(bits == f
            | 1u64
            | (if w { 2u64 } else { 0u64 })
            | (if nx { 1u64 << 63 } else { 0u64 })) by (bit_vector)
            requires bits == ({
                let b1 = f | 1u64;
                let b2 = if w { b1 | 2u64 } else { b1 };
                if nx { b2 | (1u64 << 63) } else { b2 }
            });
    }
    bits
}

/// The address rounded down to a page boundary.
pub open spec fn spec_align_down(a: int) -> int {
    a - a % (PAGE_SIZE as int)
}

/// The address rounded up to a page boundary.
pub open spec fn spec_align_up(a: int) -> int {
    spec_align_down(a + PAGE_SIZE - 1)
}

/// First page of the smallest aligned range covering the segment.
pub open spec fn seg_vstart(seg: ElfSegment) -> int {
    spec_align_down(seg.virtual_address as int)
}

/// First address past the smallest aligned range covering the segment.
pub open spec fn seg_vend(seg: ElfSegment) -> int {
    spec_align_up(seg.virtual_address + seg.memory_size)
}

/// Number of pages of the segment's aligned range.
pub open spec fn seg_page_count(seg: ElfSegment) -> int {
    (seg_vend(seg) - seg_vstart(seg)) / (PAGE_SIZE as int)
}

/// Number of leading pages that are backed by the image's own frames;
/// the rest hold the zero-filled tail and get fresh frames.
pub open spec fn seg_file_pages(seg: ElfSegment) -> int {
    if seg.file_size == seg.memory_size {
        seg_page_count(seg)
    } else {
        (seg.virtual_address - seg_vstart(seg) + seg.file_size) / (PAGE_SIZE as int)
    }
}

/// First frame address of the segment's data inside the loaded image.
pub open spec fn seg_pstart(seg: ElfSegment, kernel_start: int) -> int {
    spec_align_down(kernel_start + seg.offset)
}

/// Permission bits a segment's pages carry: writable only if the segment
/// is, executable only if the segment is.
pub open spec fn seg_flags(seg: ElfSegment) -> PageTableFlags {
    PageTableFlags { writable: seg.writable, no_execute: !seg.executable }
}

/// The memory map changed at most by relabelling usable frames as
/// kernel memory.
pub open spec fn only_marked_kernel(old_s: Seq<MemoryRegion>, new_s: Seq<MemoryRegion>) -> bool {
    forall|f: int| #[trigger] frame_kind(new_s, f) == frame_kind(old_s, f)
        || (frame_kind(old_s, f) == Some(MemoryRegionType::Usable)
            && frame_kind(new_s, f) == Some(MemoryRegionType::Kernel))
}

/// A segment's content as it must appear in memory: the image bytes up
/// to `file_size`, then zeroes up to `memory_size`.
pub fn segment_bytes(image: &Vec<u8>, seg: ElfSegment) -> (r: Vec<u8>)
    requires
        seg.offset + seg.file_size <= image@.len(),
        seg.file_size <= seg.memory_size,
        seg.memory_size <= usize::MAX,
    ensures
        r@.len() == seg.memory_size,
        forall|i: int| 0 <= i < seg.file_size ==> r@[i] == image@[seg.offset + i],
        forall|i: int| seg.file_size <= i < seg.memory_size ==> r@[i] == 0,
{
    let image_len = image.len();
    let mut data: Vec<u8> = Vec::new();
    let file_size = seg.file_size as usize;
    let memory_size = seg.memory_size as usize;
    let offset = seg.offset as usize;
    let mut i: usize = 0;
    while i < file_size
        invariant
            i <= file_size,
            file_size == seg.file_size,
            offset == seg.offset,
            offset + file_size <= image@.len(),
            image@.len() <= usize::MAX,
            data@.len() == i,
            forall|j: int| 0 <= j < i ==> data@[j] == image@[seg.offset + j],
        decreases file_size - i,
    {
        data.push(image[offset + i]);
        i += 1;
    }
    while i < memory_size
        invariant
            file_size <= i <= memory_size || (i == file_size && file_size <= memory_size),
            i >= file_size,
            i <= memory_size,
            file_size == seg.file_size,
            memory_size == seg.memory_size,
            data@.len() == i,
            forall|j: int| 0 <= j < file_size ==> data@[j] == image@[seg.offset + j],
            forall|j: int| file_size <= j < i ==> data@[j] == 0,
            offset == seg.offset,
            offset + file_size <= image@.len(),
        decreases memory_size - i,
    {
        data.push(0);
        i += 1;
    }
    data
}

/// `p` is one of the pages of the segment's aligned range.
pub open spec fn seg_page(seg: ElfSegment, p: u64) -> bool {
    seg_vstart(seg) <= p < seg_vend(seg) && (p as int) % (PAGE_SIZE as int) == 0
}

/// `p` is a page backed by the image's own frames.
pub open spec fn seg_file_page(seg: ElfSegment, p: u64) -> bool {
    seg_page(seg, p) && p - seg_vstart(seg) < seg_file_pages(seg) * (PAGE_SIZE as int)
}

/// `p` is one of the first `k` pages of the aligned range starting at
/// `vstart`.
pub open spec fn range_page(vstart: u64, k: int, p: u64) -> bool {
    vstart <= p < vstart + k * (PAGE_SIZE as int)
        && ((p - vstart) as int) % (PAGE_SIZE as int) == 0
}

/// The first `k` pages from `vstart` carry the given flags, image frames
/// below the file-page boundary, and were not previously mapped.
pub open spec fn range_mapped(
    m: Map<u64, PageMapping>,
    old_m: Map<u64, PageMapping>,
    vstart: u64,
    k: int,
    fbc: int,
    pstart: u64,
    flags: PageTableFlags,
) -> bool {
    forall|p: u64| #[trigger] range_page(vstart, k, p) ==> {
        &&& !old_m.contains_key(p)
        &&& m.contains_key(p)
        &&& m[p].flags == flags
        &&& (p - vstart < fbc * (PAGE_SIZE as int) ==> m[p].frame == (pstart + (p - vstart)) as u64)
    }
}

/// The machine limits a segment must respect before it can be mapped.
pub open spec fn seg_fits(seg: ElfSegment, kernel_start: u64, image_len: int) -> bool {
    &&& seg.file_size <= seg.memory_size
    &&& seg.memory_size > 0
    &&& seg.offset + seg.file_size <= image_len
    &&& seg.memory_size <= usize::MAX
    &&& seg.virtual_address + seg.memory_size + PAGE_SIZE <= u64::MAX
    &&& kernel_start + seg.offset + seg.file_size + PAGE_SIZE <= u64::MAX
    &&& (seg.virtual_address as int) % (PAGE_SIZE as int)
            == ((kernel_start + seg.offset) as int) % (PAGE_SIZE as int)
}

/// Maps one loadable segment: the smallest aligned range covering its
/// declared memory size, page by page.  Pages holding file data keep the
/// image's own frames; pages of the zero-filled tail get freshly
/// allocated usable frames.  Every page carries the segment's permission
/// bits.  Mapping fails on an already-mapped page or when no frame can
/// be allocated; such a failure is fatal to the boot, so the structures
/// are left as the failing step found them.
pub fn map_segment(
    seg: ElfSegment,
    kernel_start: u64,
    image: &Vec<u8>,
    pt: &mut PageTable,
    fa: &mut crate::frame_allocator::FrameAllocator,
) -> (r: Result<LoadedSegment, PageTableError>)
    requires
        old(pt).wf(),
        old(fa).wf(),
        seg_fits(seg, kernel_start, image@.len() as int),
        image@.len() <= usize::MAX,
    ensures
        final(pt).wf(),
        final(fa).wf(),
        only_marked_kernel(old(fa).memory_map@, final(fa).memory_map@),
        total_frames(final(fa).memory_map@) == total_frames(old(fa).memory_map@),
        r.is_ok() ==> {
            let loaded = r.unwrap();
            &&& loaded.virtual_address == seg.virtual_address
            &&& loaded.data@.len() == seg.memory_size
            &&& forall|i: int| 0 <= i < seg.file_size ==> loaded.data@[i] == image@[seg.offset + i]
            &&& forall|i: int| seg.file_size <= i < seg.memory_size ==> loaded.data@[i] == 0
            &&& forall|p: u64| #[trigger] seg_page(seg, p) ==> {
                    &&& final(pt)@.contains_key(p)
                    &&& final(pt)@[p].flags == seg_flags(seg)
                    &&& !old(pt)@.contains_key(p)
                    &&& (seg_file_page(seg, p) ==> final(pt)@[p].frame
                            == (seg_pstart(seg, kernel_start as int) + (p - seg_vstart(seg))) as u64)
                }
            &&& forall|p: u64| #[trigger] old(pt)@.contains_key(p)
                    ==> final(pt)@.contains_key(p) && final(pt)@[p] == old(pt)@[p]
            &&& forall|p: u64| #[trigger] final(pt)@.contains_key(p)
                    ==> old(pt)@.contains_key(p) || seg_page(seg, p)
            &&& usable_frames(final(fa).memory_map@) == usable_frames(old(fa).memory_map@)
                    - (seg_page_count(seg) - seg_file_pages(seg))
            &&& final(fa).memory_map@.len() <= old(fa).memory_map@.len()
                    + (seg_page_count(seg) - seg_file_pages(seg))
        },
        r.is_err() ==> (r == Err::<LoadedSegment, PageTableError>(PageTableError::AlreadyMapped)
            || r == Err::<LoadedSegment, PageTableError>(PageTableError::FrameAllocation)),
        r == Err::<LoadedSegment, PageTableError>(PageTableError::AlreadyMapped)
            ==> exists|p: u64| #[trigger] seg_page(seg, p) && old(pt)@.contains_key(p),
        ((forall|p: u64| #[trigger] seg_page(seg, p) ==> !old(pt)@.contains_key(p))
            && usable_frames(old(fa).memory_map@)
                >= seg_page_count(seg) - seg_file_pages(seg)
            && old(fa).memory_map@.len() + (seg_page_count(seg) - seg_file_pages(seg))
                <= crate::memory_map::MAX_MEMORY_MAP_SIZE as int) ==> r.is_ok(),
{
    let vaddr = seg.virtual_address;
    let vstart: u64 = vaddr - vaddr % PAGE_SIZE;
    let vend_raw: u64 = vaddr + seg.memory_size;
    let rem: u64 = vend_raw % PAGE_SIZE;
    let vend: u64 = if rem == 0 { vend_raw } else { vend_raw + (PAGE_SIZE - rem) };
    let image_base: u64 = kernel_start + seg.offset;
    let pstart: u64 = image_base - image_base % PAGE_SIZE;
    let n_pages: u64 = (vend - vstart) / PAGE_SIZE;
    let fbc: u64 = if seg.file_size == seg.memory_size {
        n_pages
    } else {
        ((vaddr - vstart) + seg.file_size) / PAGE_SIZE
    };
    let flags = PageTableFlags { writable: seg.writable, no_execute: !seg.executable };
    proof {
        assert(vstart == seg_vstart(seg));
        assert(vend == seg_vend(seg));
        assert(n_pages == seg_page_count(seg));
        assert(fbc == seg_file_pages(seg));
        assert(pstart == seg_pstart(seg, kernel_start as int));
        assert(flags == seg_flags(seg));
        assert(0 <= fbc <= n_pages);
        assert(n_pages >= 1);
        assert(vaddr - vstart == image_base - pstart);
    }
    let ghost old_pt = pt@;
    let ghost old_fa = fa.memory_map@;
    let mut k: u64 = 0;
    while k < n_pages
        invariant
            k <= n_pages,
            pt.wf(),
            fa.wf(),
            seg_fits(seg, kernel_start, image@.len() as int),
            vstart == seg_vstart(seg),
            vend == seg_vend(seg),
            n_pages == seg_page_count(seg),
            fbc == seg_file_pages(seg),
            pstart == seg_pstart(seg, kernel_start as int),
            flags == seg_flags(seg),
            0 <= fbc <= n_pages,
            n_pages >= 1,
            vaddr == seg.virtual_address,
            vaddr - vstart == (kernel_start + seg.offset) - pstart,
            old_pt == old(pt)@,
            old_fa == old(fa).memory_map@,
            forall|p: u64| #[trigger] pt@.contains_key(p)
                <==> (old_pt.contains_key(p) || range_page(vstart, k as int, p)),
            forall|p: u64| #[trigger] old_pt.contains_key(p)
                ==> pt@.contains_key(p) && pt@[p] == old_pt[p],
            range_mapped(pt@, old_pt, vstart, k as int, fbc as int, pstart, flags),
            only_marked_kernel(old_fa, fa.memory_map@),
            total_frames(fa.memory_map@) == total_frames(old_fa),
            usable_frames(fa.memory_map@) == usable_frames(old_fa)
                - (if k <= fbc { 0int } else { k - fbc }),
            fa.memory_map@.len() <= old_fa.len()
                + (if k <= fbc { 0int } else { k - fbc }),
        decreases n_pages - k,
    {
        let page: u64 = vstart + k * PAGE_SIZE;
        let ghost fa_pre = fa.memory_map@;
        let frame: u64 = if k < fbc {
            pstart + k * PAGE_SIZE
        } else {
            match fa.allocate_frame(MemoryRegionType::Kernel) {
                Ok(frame_number) => {
                    proof {
                        assert forall|f: int| true
                            implies #[trigger] frame_kind(fa.memory_map@, f) == frame_kind(old_fa, f)
                                || (frame_kind(old_fa, f) == Some(MemoryRegionType::Usable)
                                    && frame_kind(fa.memory_map@, f)
                                        == Some(MemoryRegionType::Kernel)) by {
                            assert(frame_kind(fa_pre, f) == frame_kind(old_fa, f)
                                || (frame_kind(old_fa, f) == Some(MemoryRegionType::Usable)
                                    && frame_kind(fa_pre, f) == Some(MemoryRegionType::Kernel)));
                        }
                    }
                    frame_number * PAGE_SIZE
                }
                Err(_) => {
                    return Err(PageTableError::FrameAllocation);
                }
            }
        };
        proof {
            assert(page_aligned(page));
            assert(page_aligned(frame));
        }
        let ghost pt_pre = pt@;
        match pt.map_to(page, frame, flags) {
            Ok(()) => {}
            Err(_) => {
                proof {
                    assert(pt_pre.contains_key(page));
                    assert(!(vstart <= page < vstart + k * PAGE_SIZE
                        && ((page - vstart) as int) % (PAGE_SIZE as int) == 0));
                    assert(old_pt.contains_key(page));
                    assert(seg_page(seg, page));
                }
                return Err(PageTableError::AlreadyMapped);
            }
        }
        proof {
            assert forall|p: u64| #[trigger] pt@.contains_key(p)
                <==> (old_pt.contains_key(p) || range_page(vstart, k as int + 1, p)) by {
                if p != page {
                    assert(pt@.contains_key(p) == pt_pre.contains_key(p));
                    assert(range_page(vstart, k as int + 1, p) == range_page(vstart, k as int, p));
                } else {
                    assert(range_page(vstart, k as int + 1, p));
                }
            }
            assert forall|p: u64| #[trigger] range_page(vstart, k as int + 1, p) implies {
                &&& !old_pt.contains_key(p)
                &&& pt@.contains_key(p)
                &&& pt@[p].flags == flags
                &&& (p - vstart < fbc * (PAGE_SIZE as int)
                        ==> pt@[p].frame == (pstart + (p - vstart)) as u64)
            } by {
                if p == page {
                    assert(pt@[p] == PageMapping { page, frame, flags });
                } else {
                    assert(range_page(vstart, k as int, p));
                    assert(pt@[p] == pt_pre[p]);
                }
            }
            assert(range_mapped(pt@, old_pt, vstart, k as int + 1, fbc as int, pstart, flags));
        }
        k += 1;
    }
    let data = segment_bytes(image, seg);
    proof {
        assert(((vend - vstart) as int) % (PAGE_SIZE as int) == 0);
        assert(vstart + n_pages * PAGE_SIZE == vend);
        assert forall|p: u64| #[trigger] seg_page(seg, p) implies {
            &&& pt@.contains_key(p)
            &&& pt@[p].flags == seg_flags(seg)
            &&& !old_pt.contains_key(p)
            &&& (seg_file_page(seg, p) ==> pt@[p].frame
                    == (seg_pstart(seg, kernel_start as int) + (p - seg_vstart(seg))) as u64)
        } by {
            assert(((p - vstart) as int) % (PAGE_SIZE as int) == 0);
            assert(range_page(vstart, n_pages as int, p));
        }
    }
    Ok(LoadedSegment { virtual_address: vaddr, data })
}

/// A segment as loaded into the virtual address space: its start address
/// and the bytes readable there.
#[derive(Debug)]
pub struct LoadedSegment {
    /// Virtual address of the first byte.
    pub virtual_address: u64,
    /// The bytes at that address: the segment's file data followed by
    /// its zero-filled tail.
    pub data: Vec<u8>,
}

/// The kernel as mapped: the stack top above all segments, and what each
/// segment's memory reads as.
#[derive(Debug)]
pub struct LoadedKernel {
    /// First address past the highest mapped segment page; the kernel
    /// stack grows down from here.
    pub stack_top: u64,
    /// The loaded segments, in file order.
    pub segments: Vec<LoadedSegment>,
}

/// A segment the kernel mapper accepts: sizes consistent, and when it
/// occupies memory, within the machine limits.
pub open spec fn seg_ok(seg: ElfSegment, kernel_start: u64, image_len: int) -> bool {
    &&& seg.file_size <= seg.memory_size
    &&& (seg.memory_size > 0 ==> seg_fits(seg, kernel_start, image_len))
}

/// First address past the highest mapped segment page.
pub open spec fn spec_stack_top(segs: Seq<ElfSegment>) -> int
    decreases segs.len(),
{
    if segs.len() == 0 {
        0
    } else {
        let rest = spec_stack_top(segs.drop_last());
        let e = if segs.last().memory_size > 0 { seg_vend(segs.last()) } else { 0 };
        if e > rest { e } else { rest }
    }
}

/// Fresh frames needed for the zero tails of the first `k` segments.
pub open spec fn spec_bss_upto(segs: Seq<ElfSegment>, k: int) -> int
    decreases k,
{
    if k <= 0 {
        0
    } else {
        spec_bss_upto(segs, k - 1)
            + (if segs[k - 1].memory_size > 0 {
                seg_page_count(segs[k - 1]) - seg_file_pages(segs[k - 1])
            } else {
                0
            })
    }
}

/// No page belongs to two different segments.
pub open spec fn segs_pages_disjoint(segs: Seq<ElfSegment>) -> bool {
    forall|i: int, j: int, p: u64| #![trigger seg_page(segs[i], p), seg_page(segs[j], p)]
        0 <= i < j < segs.len() ==> !(seg_page(segs[i], p) && seg_page(segs[j], p))
}

/// Sufficient conditions for the whole kernel mapping to succeed: every
/// segment acceptable, every segment page fresh, no two segments sharing
/// a page, and enough usable frames and map room for every zero-tail
/// page.
pub open spec fn kernel_mappable(
    segs: Seq<ElfSegment>,
    pt0: Map<u64, PageMapping>,
    fa0: Seq<MemoryRegion>,
    kernel_start: u64,
    image_len: int,
) -> bool {
    &&& forall|i: int| 0 <= i < segs.len() ==> seg_ok(#[trigger] segs[i], kernel_start, image_len)
    &&& forall|i: int, p: u64| 0 <= i < segs.len() && #[trigger] seg_page(segs[i], p)
            ==> !pt0.contains_key(p)
    &&& segs_pages_disjoint(segs)
    &&& usable_frames(fa0) >= spec_bss_upto(segs, segs.len() as int)
    &&& fa0.len() + spec_bss_upto(segs, segs.len() as int)
            <= crate::memory_map::MAX_MEMORY_MAP_SIZE
}

/// An acceptable segment never has more file pages than pages.
proof fn lemma_seg_bss_nonneg(seg: ElfSegment, kernel_start: u64, image_len: int)
    requires
        seg_ok(seg, kernel_start, image_len),
        seg.memory_size > 0,
    ensures
        0 <= seg_file_pages(seg) <= seg_page_count(seg),
{
}

/// The zero-tail cost never shrinks as more segments are counted.
proof fn lemma_bss_mono(segs: Seq<ElfSegment>, k: int, kernel_start: u64, image_len: int)
    requires
        0 <= k <= segs.len(),
        forall|i: int| 0 <= i < segs.len() ==> seg_ok(#[trigger] segs[i], kernel_start, image_len),
    ensures
        spec_bss_upto(segs, k) <= spec_bss_upto(segs, segs.len() as int),
    decreases segs.len() - k,
{
    if k < segs.len() {
        if segs[k].memory_size > 0 {
            lemma_seg_bss_nonneg(segs[k], kernel_start, image_len);
        }
        lemma_bss_mono(segs, k + 1, kernel_start, image_len);
    }
}

/// A prefix of the zero-tail cost never exceeds the whole, and the next
/// segment's cost still fits in the difference.
proof fn lemma_bss_prefix(segs: Seq<ElfSegment>, k: int, kernel_start: u64, image_len: int)
    requires
        0 <= k <= segs.len(),
        forall|i: int| 0 <= i < segs.len() ==> seg_ok(#[trigger] segs[i], kernel_start, image_len),
    ensures
        spec_bss_upto(segs, k) >= 0,
        spec_bss_upto(segs, k)
            + (if k < segs.len() && segs[k].memory_size > 0 {
                seg_page_count(segs[k]) - seg_file_pages(segs[k])
            } else {
                0
            }) <= spec_bss_upto(segs, segs.len() as int),
    decreases k,
{
    if k > 0 {
        if segs[k - 1].memory_size > 0 {
            lemma_seg_bss_nonneg(segs[k - 1], kernel_start, image_len);
        }
        lemma_bss_prefix(segs, k - 1, kernel_start, image_len);
    }
    if k < segs.len() {
        if segs[k].memory_size > 0 {
            lemma_seg_bss_nonneg(segs[k], kernel_start, image_len);
        }
        lemma_bss_mono(segs, k + 1, kernel_start, image_len);
    }
}

/// Maps every loadable segment of the kernel and returns the highest
/// mapped virtual address, used as the initial kernel stack top, together
/// with what each segment's memory must read as.  Every page of a mapped
/// segment carries that segment's permission bits; the zero tail past
/// each segment's file size reads as zero.
pub fn map_kernel(
    kernel_start: u64,
    image: &Vec<u8>,
    segments: &Vec<ElfSegment>,
    pt: &mut PageTable,
    fa: &mut crate::frame_allocator::FrameAllocator,
) -> (r: Result<LoadedKernel, PageTableError>)
    requires
        old(pt).wf(),
        old(fa).wf(),
        image@.len() <= usize::MAX,
    ensures
        final(pt).wf(),
        final(fa).wf(),
        only_marked_kernel(old(fa).memory_map@, final(fa).memory_map@),
        total_frames(final(fa).memory_map@) == total_frames(old(fa).memory_map@),
        r == Err::<LoadedKernel, PageTableError>(PageTableError::BadSegment)
            <==> exists|i: int| 0 <= i < segments@.len()
                && !seg_ok(#[trigger] segments@[i], kernel_start, image@.len() as int),
        r.is_ok() ==> {
            let loaded = r.unwrap();
            &&& loaded.stack_top == spec_stack_top(segments@)
            &&& loaded.segments@.len() == segments@.len()
            &&& forall|i: int| 0 <= i < segments@.len() ==> {
                    let seg = #[trigger] segments@[i];
                    let ls = loaded.segments@[i];
                    &&& ls.virtual_address == seg.virtual_address
                    &&& ls.data@.len() == seg.memory_size
                    &&& (forall|b: int| 0 <= b < seg.file_size
                            ==> ls.data@[b] == image@[seg.offset + b])
                    &&& (forall|b: int| seg.file_size <= b < seg.memory_size
                            ==> ls.data@[b] == 0)
                    &&& (seg.memory_size > 0 ==> forall|p: u64| #[trigger] seg_page(seg, p)
                            ==> final(pt)@.contains_key(p)
                                && final(pt)@[p].flags == seg_flags(seg))
                }
            &&& forall|p: u64| #[trigger] old(pt)@.contains_key(p)
                    ==> final(pt)@.contains_key(p) && final(pt)@[p] == old(pt)@[p]
            &&& forall|p: u64| #[trigger] final(pt)@.contains_key(p)
                    ==> old(pt)@.contains_key(p)
                        || exists|i: int| 0 <= i < segments@.len()
                            && seg_page(#[trigger] segments@[i], p)
        },
        r == Err::<LoadedKernel, PageTableError>(PageTableError::AlreadyMapped)
            ==> exists|i: int, p: u64| 0 <= i < segments@.len()
                && #[trigger] seg_page(segments@[i], p)
                && (old(pt)@.contains_key(p)
                    || exists|j: int| 0 <= j < i && seg_page(#[trigger] segments@[j], p)),
        kernel_mappable(segments@, old(pt)@, old(fa).memory_map@, kernel_start,
            image@.len() as int) ==> r.is_ok(),
{
    let n = segments.len();
    let image_len = image.len();
    let mut i: usize = 0;
    while i < n
        invariant
            i <= n,
            n == segments@.len(),
            image_len == image@.len(),
            pt.wf(),
            fa.wf(),
            pt@ == old(pt)@,
            fa.memory_map@ == old(fa).memory_map@,
            forall|j: int| 0 <= j < i
                ==> seg_ok(#[trigger] segments@[j], kernel_start, image@.len() as int),
        decreases n - i,
    {
        let seg = segments[i];
        if seg.file_size > seg.memory_size {
            return Err(PageTableError::BadSegment);
        }
        if seg.memory_size > 0 {
            let fits = seg.offset <= image_len as u64
                && seg.file_size <= image_len as u64 - seg.offset
                && seg.memory_size <= usize::MAX as u64
                && seg.virtual_address <= u64::MAX - PAGE_SIZE
                && seg.memory_size <= u64::MAX - PAGE_SIZE - seg.virtual_address
                && kernel_start <= u64::MAX - PAGE_SIZE
                && seg.offset <= u64::MAX - PAGE_SIZE - kernel_start
                && seg.file_size <= u64::MAX - PAGE_SIZE - kernel_start - seg.offset
                && seg.virtual_address % PAGE_SIZE == (kernel_start + seg.offset) % PAGE_SIZE;
            if !fits {
                proof {
                    assert(!seg_fits(seg, kernel_start, image@.len() as int));
                }
                return Err(PageTableError::BadSegment);
            }
            proof {
                assert(seg_fits(seg, kernel_start, image@.len() as int));
            }
        }
        i += 1;
    }

    let mut loaded: Vec<LoadedSegment> = Vec::new();
    let mut stack_top: u64 = 0;
    let ghost old_pt = pt@;
    let ghost old_fa = fa.memory_map@;
    let mut i: usize = 0;
    while i < n
        invariant
            i <= n,
            n == segments@.len(),
            image_len == image@.len(),
            image@.len() <= usize::MAX,
            pt.wf(),
            fa.wf(),
            old_fa == old(fa).memory_map@,
            old_pt == old(pt)@,
            forall|j: int| 0 <= j < n
                ==> seg_ok(#[trigger] segments@[j], kernel_start, image@.len() as int),
            only_marked_kernel(old_fa, fa.memory_map@),
            total_frames(fa.memory_map@) == total_frames(old_fa),
            forall|p: u64| #[trigger] old_pt.contains_key(p)
                ==> pt@.contains_key(p) && pt@[p] == old_pt[p],
            forall|p: u64| #[trigger] pt@.contains_key(p)
                ==> old_pt.contains_key(p)
                    || exists|j: int| 0 <= j < i && seg_page(#[trigger] segments@[j], p),
            kernel_mappable(segments@, old_pt, old_fa, kernel_start, image@.len() as int)
                ==> {
                    &&& usable_frames(fa.memory_map@)
                            == usable_frames(old_fa) - spec_bss_upto(segments@, i as int)
                    &&& fa.memory_map@.len()
                            <= old_fa.len() + spec_bss_upto(segments@, i as int)
                },
            loaded@.len() == i,
            stack_top == spec_stack_top(segments@.take(i as int)),
            forall|j: int| 0 <= j < i ==> {
                let seg = #[trigger] segments@[j];
                let ls = loaded@[j];
                &&& ls.virtual_address == seg.virtual_address
                &&& ls.data@.len() == seg.memory_size
                &&& (forall|b: int| 0 <= b < seg.file_size
                        ==> ls.data@[b] == image@[seg.offset + b])
                &&& (forall|b: int| seg.file_size <= b < seg.memory_size
                        ==> ls.data@[b] == 0)
                &&& (seg.memory_size > 0 ==> forall|p: u64| #[trigger] seg_page(seg, p)
                        ==> pt@.contains_key(p) && pt@[p].flags == seg_flags(seg))
            },
        decreases n - i,
    {
        let seg = segments[i];
        proof {
            assert(segments@.take(i as int + 1) =~= segments@.take(i as int).push(seg));
        }
        if seg.memory_size == 0 {
            loaded.push(LoadedSegment { virtual_address: seg.virtual_address, data: Vec::new() });
            proof {
                assert(segments@.take(i as int + 1).drop_last() =~= segments@.take(i as int));
                assert(segments@.take(i as int + 1).last() == seg);
            }
            i += 1;
            continue;
        }
        let ghost pt_pre = pt@;
        let ghost pre_fa = fa.memory_map@;
        let res = map_segment(seg, kernel_start, image, pt, fa);
        match res {
            Ok(ls) => {
                proof {
                    assert forall|j: int| 0 <= j < i implies {
                        let sj = #[trigger] segments@[j];
                        sj.memory_size > 0 ==> forall|p: u64| #[trigger] seg_page(sj, p)
                            ==> pt@.contains_key(p) && pt@[p].flags == seg_flags(sj)
                    } by {
                        let sj = segments@[j];
                        if sj.memory_size > 0 {
                            assert forall|p: u64| #[trigger] seg_page(sj, p)
                                implies pt@.contains_key(p)
                                    && pt@[p].flags == seg_flags(sj) by {
                                assert(pt_pre.contains_key(p));
                            }
                        }
                    }
                }
                proof {
                    assert forall|p: u64| #[trigger] pt@.contains_key(p)
                        implies old_pt.contains_key(p)
                            || exists|j: int| 0 <= j < i + 1
                                && seg_page(#[trigger] segments@[j], p) by {
                        if !pt_pre.contains_key(p) {
                            assert(seg_page(segments@[i as int], p));
                        }
                    }
                }
                loaded.push(ls);
            }
            Err(err) => {
                proof {
                    assert(err != PageTableError::BadSegment);
                    let hyp = kernel_mappable(segments@, old_pt, old_fa, kernel_start,
                        image@.len() as int);
                    if hyp {
                        assert forall|p: u64| #[trigger] seg_page(seg, p)
                            implies !pt_pre.contains_key(p) by {
                            assert(seg_page(segments@[i as int], p));
                            if pt_pre.contains_key(p) {
                                if !old_pt.contains_key(p) {
                                    let j = choose|j: int| 0 <= j < i
                                        && seg_page(#[trigger] segments@[j], p);
                                    assert(seg_page(segments@[j], p)
                                        && seg_page(segments@[i as int], p));
                                }
                            }
                        }
                        lemma_bss_prefix(segments@, i as int, kernel_start,
                            image@.len() as int);
                        assert(usable_frames(pre_fa)
                            >= seg_page_count(seg) - seg_file_pages(seg));
                        assert(pre_fa.len() + (seg_page_count(seg) - seg_file_pages(seg))
                            <= crate::memory_map::MAX_MEMORY_MAP_SIZE as int);
                        assert(false);
                    }
                    if err == PageTableError::AlreadyMapped {
                        let p = choose|p: u64| #[trigger] seg_page(seg, p)
                            && pt_pre.contains_key(p);
                        assert(seg_page(segments@[i as int], p));
                        if !old_pt.contains_key(p) {
                            let j = choose|j: int| 0 <= j < i
                                && seg_page(#[trigger] segments@[j], p);
                            assert(seg_page(segments@[j], p));
                        }
                    }
                }
                return Err(err);
            }
        }
        let vend_raw: u64 = seg.virtual_address + seg.memory_size;
        let rem: u64 = vend_raw % PAGE_SIZE;
        let vend: u64 = if rem == 0 { vend_raw } else { vend_raw + (PAGE_SIZE - rem) };
        proof {
            assert(vend == seg_vend(seg));
        }
        if vend > stack_top {
            stack_top = vend;
        }
        proof {
            assert(segments@.take(i as int + 1).drop_last() =~= segments@.take(i as int));
            assert(segments@.take(i as int + 1).last() == seg);
        }
        i += 1;
    }
    proof {
        assert(segments@.take(n as int) =~= segments@);
    }
    Ok(LoadedKernel { stack_top, segments: loaded })
}

} // verus!
