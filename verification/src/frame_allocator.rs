//! The frame allocator: claims physical frames by relabelling regions of
//! the memory map.
//!
//! There is no separate free list.  `mark_allocated_region` relabels the
//! usable parts of an address range in place, splitting the surrounding
//! usable regions, and `allocate_frame` claims the lowest-addressed usable
//! frame.  Both keep the map's invariant and both preserve the total
//! number of frames: memory is never created or destroyed, only retagged.

use vstd::prelude::*;
use crate::memory_map::{
    MemoryMap, MemoryMapError, MemoryRegion, MemoryRegionType, FrameRange,
    frame_kind, total_frames, usable_frames, usable_overlap, marked_len, split_count,
    overlap_size, ranges_overlap, region_conflicts, has_conflict,
    regions_valid, regions_sorted,
    lemma_frame_kind_push, lemma_measures_push, lemma_frame_kind_witness,
    lemma_usable_frames_zero, lemma_usable_frames_positive,
    MAX_MEMORY_MAP_SIZE,
};

verus! {

/// What relabelling the frames of `region` makes of a frame that had kind
/// `k`: a usable frame inside the range takes the region's kind, every
/// other frame keeps what it had.
pub open spec fn mark_result(k: Option<MemoryRegionType>, region: MemoryRegion, f: int) -> Option<MemoryRegionType> {
    if region.spec_contains(f) && k == Some(MemoryRegionType::Usable) {
        Some(region.region_type)
    } else {
        k
    }
}

/// When no region splits, relabelling keeps the region count.
proof fn lemma_marked_len_all_one(s: Seq<MemoryRegion>, r: FrameRange)
    requires
        forall|j: int| 0 <= j < s.len() ==> split_count(#[trigger] s[j], r) == 1,
    ensures
        marked_len(s, r) == s.len(),
    decreases s.len(),
{
    if s.len() > 0 {
        assert forall|j: int| 0 <= j < s.drop_first().len()
            implies split_count(#[trigger] s.drop_first()[j], r) == 1 by {
            assert(s[j + 1] == s.drop_first()[j]);
        }
        lemma_marked_len_all_one(s.drop_first(), r);
    }
}

/// When only one region can split, the new count is the old count plus
/// the extra pieces of that region.
proof fn lemma_marked_len_single(s: Seq<MemoryRegion>, r: FrameRange, i: int)
    requires
        0 <= i < s.len(),
        forall|j: int| 0 <= j < s.len() && j != i ==> split_count(#[trigger] s[j], r) == 1,
    ensures
        marked_len(s, r) == s.len() - 1 + split_count(s[i], r),
    decreases s.len(),
{
    if i == 0 {
        assert forall|j: int| 0 <= j < s.drop_first().len()
            implies split_count(#[trigger] s.drop_first()[j], r) == 1 by {
            assert(s[j + 1] == s.drop_first()[j]);
        }
        lemma_marked_len_all_one(s.drop_first(), r);
    } else {
        assert forall|j: int| 0 <= j < s.drop_first().len() && j != i - 1
            implies split_count(#[trigger] s.drop_first()[j], r) == 1 by {
            assert(s[j + 1] == s.drop_first()[j]);
        }
        assert(s.drop_first()[i - 1] == s[i]);
        lemma_marked_len_single(s.drop_first(), r, i - 1);
    }
}

/// When only one region meets the range, it alone contributes to the
/// usable overlap.
proof fn lemma_usable_overlap_single(s: Seq<MemoryRegion>, r: FrameRange, i: int)
    requires
        0 <= i < s.len(),
        forall|j: int| 0 <= j < s.len() && j != i
            ==> overlap_size((#[trigger] s[j]).range, r) == 0,
    ensures
        usable_overlap(s, r) == if s[i].region_type == MemoryRegionType::Usable {
            overlap_size(s[i].range, r)
        } else {
            0
        },
    decreases s.len(),
{
    if i == 0 {
        assert forall|j: int| 0 <= j < s.drop_first().len()
            implies overlap_size((#[trigger] s.drop_first()[j]).range, r) == 0 by {
            assert(s[j + 1] == s.drop_first()[j]);
        }
        lemma_usable_overlap_zero(s.drop_first(), r);
    } else {
        assert forall|j: int| 0 <= j < s.drop_first().len() && j != i - 1
            implies overlap_size((#[trigger] s.drop_first()[j]).range, r) == 0 by {
            assert(s[j + 1] == s.drop_first()[j]);
        }
        assert(s.drop_first()[i - 1] == s[i]);
        lemma_usable_overlap_single(s.drop_first(), r, i - 1);
    }
}

/// Regions sharing no frame with the range contribute no usable overlap.
proof fn lemma_usable_overlap_zero(s: Seq<MemoryRegion>, r: FrameRange)
    requires
        forall|j: int| 0 <= j < s.len() ==> overlap_size((#[trigger] s[j]).range, r) == 0,
    ensures
        usable_overlap(s, r) == 0,
    decreases s.len(),
{
    if s.len() > 0 {
        assert forall|j: int| 0 <= j < s.drop_first().len()
            implies overlap_size((#[trigger] s.drop_first()[j]).range, r) == 0 by {
            assert(s[j + 1] == s.drop_first()[j]);
        }
        lemma_usable_overlap_zero(s.drop_first(), r);
    }
}

/// Allocates physical frames by relabelling the memory map, so the map
/// handed to the kernel reflects everything the bootloader claimed.
pub struct FrameAllocator {
    /// The memory map the allocator works on.
    pub memory_map: MemoryMap,
}

impl FrameAllocator {
    /// The allocator's map is well-formed.
    pub open spec fn wf(self) -> bool {
        self.memory_map.wf()
    }

    /// Wraps a well-formed memory map.
    pub fn new(memory_map: MemoryMap) -> (r: FrameAllocator)
        requires memory_map.wf(),
        ensures r.wf(), r.memory_map@ == memory_map@,
    {
        FrameAllocator { memory_map }
    }

    /// Relabels every usable frame of the given range with the region's
    /// kind, splitting the surrounding usable regions and keeping the
    /// usable remainders on either side.  The call succeeds exactly when
    /// the range crosses no region of another reserved kind and the split
    /// regions still fit in the map; relabelling a range already of the
    /// requested kind is allowed and changes nothing there.  The total
    /// number of frames in the map never changes.
    pub fn mark_allocated_region(&mut self, region: MemoryRegion) -> (r: Result<(), MemoryMapError>)
        requires
            old(self).wf(),
            region.range.start_frame_number < region.range.end_frame_number,
            region.region_type != MemoryRegionType::Usable,
        ensures
            final(self).wf(),
            r == Ok::<(), MemoryMapError>(()) <==> (!has_conflict(old(self).memory_map@, region)
                && marked_len(old(self).memory_map@, region.range) <= MAX_MEMORY_MAP_SIZE),
            r == Err::<(), MemoryMapError>(MemoryMapError::RegionConflict)
                <==> has_conflict(old(self).memory_map@, region),
            r == Err::<(), MemoryMapError>(MemoryMapError::MapFull)
                <==> (!has_conflict(old(self).memory_map@, region)
                    && marked_len(old(self).memory_map@, region.range) > MAX_MEMORY_MAP_SIZE),
            r.is_err() ==> final(self).memory_map@ == old(self).memory_map@,
            r.is_ok() ==> {
                &&& forall|f: int| #[trigger] frame_kind(final(self).memory_map@, f)
                        == mark_result(frame_kind(old(self).memory_map@, f), region, f)
                &&& total_frames(final(self).memory_map@) == total_frames(old(self).memory_map@)
                &&& usable_frames(final(self).memory_map@) == usable_frames(old(self).memory_map@)
                        - usable_overlap(old(self).memory_map@, region.range)
                &&& final(self).memory_map@.len() == marked_len(old(self).memory_map@, region.range)
            },
    {
        let rng = region.range;
        let n = self.memory_map.regions.len();
        let mut i: usize = 0;
        while i < n
            invariant
                i <= n,
                n == self.memory_map.regions@.len(),
                self.memory_map.regions@ == old(self).memory_map.regions@,
                old(self).wf(),
                rng == region.range,
                forall|j: int| 0 <= j < i
                    ==> !region_conflicts(#[trigger] self.memory_map.regions@[j], region),
            decreases n - i,
        {
            let e = self.memory_map.regions[i];
            let usable_kind = e.region_type == MemoryRegionType::Usable;
            if e.range.start_frame_number < rng.end_frame_number
                && rng.start_frame_number < e.range.end_frame_number
                && !usable_kind
                && e.region_type != region.region_type
            {
                proof {
                    assert(region_conflicts(self.memory_map.regions@[i as int], region));
                }
                return Err(MemoryMapError::RegionConflict);
            }
            i += 1;
        }

        let ghost s = self.memory_map.regions@;
        let mut out: Vec<MemoryRegion> = Vec::new();
        let mut i: usize = 0;
        while i < n
            invariant
                i <= n,
                n == s.len(),
                self.memory_map.regions@ == s,
                s == old(self).memory_map.regions@,
                old(self).wf(),
                regions_valid(s),
                regions_sorted(s),
                rng == region.range,
                rng.start_frame_number < rng.end_frame_number,
                region.region_type != MemoryRegionType::Usable,
                forall|j: int| 0 <= j < n
                    ==> !region_conflicts(#[trigger] s[j], region),
                out@.len() == marked_len(s.take(i as int), rng),
                regions_valid(out@),
                regions_sorted(out@),
                i < n ==> forall|z: int| 0 <= z < out@.len()
                    ==> (#[trigger] out@[z]).range.end_frame_number
                        <= s[i as int].range.start_frame_number,
                forall|f: int| #[trigger] frame_kind(out@, f)
                    == mark_result(frame_kind(s.take(i as int), f), region, f),
                total_frames(out@) == total_frames(s.take(i as int)),
                usable_frames(out@) == usable_frames(s.take(i as int))
                    - usable_overlap(s.take(i as int), rng),
            decreases n - i,
        {
            let e = self.memory_map.regions[i];
            proof {
                assert(s.take(i as int + 1) =~= s.take(i as int).push(s[i as int]));
                assert forall|f: int| e.spec_contains(f)
                    implies frame_kind(out@, f) == None::<MemoryRegionType> by {
                    if frame_kind(s.take(i as int), f).is_some() {
                        lemma_frame_kind_witness(s.take(i as int), f);
                        let w = choose|w: int| 0 <= w < s.take(i as int).len()
                            && (#[trigger] s.take(i as int)[w]).spec_contains(f)
                            && s.take(i as int)[w].region_type
                                == frame_kind(s.take(i as int), f).unwrap();
                        assert(s.take(i as int)[w] == s[w]);
                        assert(s[w].range.end_frame_number <= s[i as int].range.start_frame_number);
                    }
                }
            }
            if e.region_type == MemoryRegionType::Usable
                && e.range.start_frame_number < rng.end_frame_number
                && rng.start_frame_number < e.range.end_frame_number
            {
                let lo: u64 = if e.range.start_frame_number >= rng.start_frame_number {
                    e.range.start_frame_number
                } else {
                    rng.start_frame_number
                };
                let hi: u64 = if e.range.end_frame_number <= rng.end_frame_number {
                    e.range.end_frame_number
                } else {
                    rng.end_frame_number
                };
                let ghost out0 = out@;
                if e.range.start_frame_number < rng.start_frame_number {
                    let left = MemoryRegion {
                        range: FrameRange {
                            start_frame_number: e.range.start_frame_number,
                            end_frame_number: lo,
                        },
                        region_type: MemoryRegionType::Usable,
                    };
                    proof {
                        lemma_measures_push(out@, left, rng);
                        assert forall|f: int| true
                            implies #[trigger] frame_kind(out@.push(left), f)
                                == (if left.spec_contains(f) { Some(MemoryRegionType::Usable) }
                                    else { frame_kind(out@, f) }) by {
                            lemma_frame_kind_push(out@, left, f);
                            if left.spec_contains(f) {
                                assert(e.spec_contains(f));
                                assert(frame_kind(out@, f) == None::<MemoryRegionType>);
                            }
                        }
                    }
                    out.push(left);
                    proof {
                        assert forall|z: int, w: int| #![trigger out@[z], out@[w]]
                            0 <= z < w < out@.len()
                            implies out@[z].range.end_frame_number
                                <= out@[w].range.start_frame_number by {}
                    }
                }
                let mid = MemoryRegion {
                    range: FrameRange { start_frame_number: lo, end_frame_number: hi },
                    region_type: region.region_type,
                };
                proof {
                    lemma_measures_push(out@, mid, rng);
                    assert forall|f: int| true
                        implies #[trigger] frame_kind(out@.push(mid), f)
                            == (if mid.spec_contains(f) { Some(region.region_type) }
                                else { frame_kind(out@, f) }) by {
                        lemma_frame_kind_push(out@, mid, f);
                        if mid.spec_contains(f) {
                            assert(e.spec_contains(f));
                        }
                    }
                }
                out.push(mid);
                proof {
                    assert forall|z: int, w: int| #![trigger out@[z], out@[w]]
                        0 <= z < w < out@.len()
                        implies out@[z].range.end_frame_number
                            <= out@[w].range.start_frame_number by {}
                }
                if rng.end_frame_number < e.range.end_frame_number {
                    let right = MemoryRegion {
                        range: FrameRange {
                            start_frame_number: hi,
                            end_frame_number: e.range.end_frame_number,
                        },
                        region_type: MemoryRegionType::Usable,
                    };
                    proof {
                        lemma_measures_push(out@, right, rng);
                        assert forall|f: int| true
                            implies #[trigger] frame_kind(out@.push(right), f)
                                == (if right.spec_contains(f) { Some(MemoryRegionType::Usable) }
                                    else { frame_kind(out@, f) }) by {
                            lemma_frame_kind_push(out@, right, f);
                            if right.spec_contains(f) {
                                assert(e.spec_contains(f));
                            }
                        }
                    }
                    out.push(right);
                    proof {
                        assert forall|z: int, w: int| #![trigger out@[z], out@[w]]
                            0 <= z < w < out@.len()
                            implies out@[z].range.end_frame_number
                                <= out@[w].range.start_frame_number by {}
                    }
                }
                proof {
                    lemma_measures_push(s.take(i as int), s[i as int], rng);
                    assert(out@.len() == marked_len(s.take(i as int + 1), rng));
                    assert(total_frames(out@) == total_frames(s.take(i as int + 1)));
                    assert(overlap_size(e.range, rng) == hi - lo);
                    assert(usable_frames(out@) == usable_frames(out0)
                        + (if e.range.start_frame_number < rng.start_frame_number {
                            lo - e.range.start_frame_number
                        } else { 0int })
                        + (if rng.end_frame_number < e.range.end_frame_number {
                            e.range.end_frame_number - hi
                        } else { 0int }));
                    assert(usable_frames(out@) == usable_frames(s.take(i as int + 1))
                        - usable_overlap(s.take(i as int + 1), rng));
                    assert forall|f: int| true
                        implies #[trigger] frame_kind(out@, f)
                            == mark_result(frame_kind(s.take(i as int + 1), f), region, f) by {
                        lemma_frame_kind_push(s.take(i as int), s[i as int], f);
                        if e.spec_contains(f) {
                            assert(frame_kind(out0, f) == None::<MemoryRegionType>);
                            assert(frame_kind(s.take(i as int), f) == None::<MemoryRegionType>);
                        }
                    }
                }
            } else {
                proof {
                    lemma_measures_push(out@, e, rng);
                    lemma_measures_push(s.take(i as int), s[i as int], rng);
                    assert forall|f: int| true
                        implies #[trigger] frame_kind(out@.push(e), f)
                            == mark_result(frame_kind(s.take(i as int + 1), f), region, f) by {
                        lemma_frame_kind_push(out@, e, f);
                        lemma_frame_kind_push(s.take(i as int), s[i as int], f);
                        if e.spec_contains(f) && region.spec_contains(f) {
                            assert(ranges_overlap(e.range, rng));
                            assert(!region_conflicts(s[i as int], region));
                            assert(e.region_type == region.region_type
                                || e.region_type == MemoryRegionType::Usable);
                        }
                    }
                    assert(overlap_size(e.range, rng) == 0
                        || e.region_type != MemoryRegionType::Usable
                        || ranges_overlap(e.range, rng));
                }
                out.push(e);
                proof {
                    assert forall|z: int, w: int| #![trigger out@[z], out@[w]]
                        0 <= z < w < out@.len()
                        implies out@[z].range.end_frame_number
                            <= out@[w].range.start_frame_number by {}
                }
            }
            proof {
                if i + 1 < n {
                    assert forall|z: int| 0 <= z < out@.len()
                        implies (#[trigger] out@[z]).range.end_frame_number
                            <= s[i as int + 1].range.start_frame_number by {
                        assert(s[i as int].range.end_frame_number
                            <= s[i as int + 1].range.start_frame_number);
                    }
                }
            }
            i += 1;
        }
        proof {
            assert(s.take(n as int) =~= s);
        }
        if out.len() > MAX_MEMORY_MAP_SIZE {
            return Err(MemoryMapError::MapFull);
        }
        self.memory_map.regions = out;
        Ok(())
    }

    /// Claims the lowest-addressed usable frame: exactly that frame takes
    /// the requested kind, the rest of its region stays usable, and every
    /// other frame is untouched.  Fails with `NoUsableFrame` exactly when
    /// no usable frame is left; a full map can also fail, but never while
    /// it has room for one more region.
    pub fn allocate_frame(&mut self, region_type: MemoryRegionType) -> (r: Result<u64, MemoryMapError>)
        requires
            old(self).wf(),
            region_type != MemoryRegionType::Usable,
        ensures
            final(self).wf(),
            r == Err::<u64, MemoryMapError>(MemoryMapError::NoUsableFrame)
                <==> usable_frames(old(self).memory_map@) == 0,
            (usable_frames(old(self).memory_map@) > 0
                && old(self).memory_map@.len() < MAX_MEMORY_MAP_SIZE) ==> r.is_ok(),
            r.is_err() ==> final(self).memory_map@ == old(self).memory_map@,
            r == Err::<u64, MemoryMapError>(MemoryMapError::MapFull)
                ==> old(self).memory_map@.len() == MAX_MEMORY_MAP_SIZE,
            r.is_ok() ==> {
                let f = r.unwrap() as int;
                &&& f < crate::memory_map::MAX_FRAME_NUMBER
                &&& frame_kind(old(self).memory_map@, f) == Some(MemoryRegionType::Usable)
                &&& forall|g: int| 0 <= g < f
                        ==> #[trigger] frame_kind(old(self).memory_map@, g)
                            != Some(MemoryRegionType::Usable)
                &&& forall|x: int| #[trigger] frame_kind(final(self).memory_map@, x)
                        == if x == f { Some(region_type) } else { frame_kind(old(self).memory_map@, x) }
                &&& total_frames(final(self).memory_map@) == total_frames(old(self).memory_map@)
                &&& usable_frames(final(self).memory_map@)
                        == usable_frames(old(self).memory_map@) - 1
                &&& final(self).memory_map@.len() <= old(self).memory_map@.len() + 1
            },
    {
        let n = self.memory_map.regions.len();
        let mut found: usize = n;
        let mut i: usize = 0;
        while i < n
            invariant
                i <= n,
                n == self.memory_map.regions@.len(),
                self.memory_map.regions@ == old(self).memory_map.regions@,
                old(self).wf(),
                found == n || found < i,
                found == n ==> forall|j: int| 0 <= j < i
                    ==> (#[trigger] self.memory_map.regions@[j]).region_type
                        != MemoryRegionType::Usable,
                found < n ==> {
                    &&& self.memory_map.regions@[found as int].region_type
                            == MemoryRegionType::Usable
                    &&& forall|j: int| 0 <= j < found
                            ==> (#[trigger] self.memory_map.regions@[j]).region_type
                                != MemoryRegionType::Usable
                },
            decreases n - i,
        {
            if found == n && self.memory_map.regions[i].region_type == MemoryRegionType::Usable {
                found = i;
            }
            i += 1;
        }
        let ghost s = self.memory_map.regions@;
        if found == n {
            proof {
                lemma_usable_frames_zero(s);
            }
            return Err(MemoryMapError::NoUsableFrame);
        }
        proof {
            lemma_usable_frames_positive(s, found as int);
        }
        let e = self.memory_map.regions[found];
        let f = e.range.start_frame_number;
        let region = MemoryRegion {
            range: FrameRange { start_frame_number: f, end_frame_number: f + 1 },
            region_type,
        };
        proof {
            assert forall|j: int| 0 <= j < s.len()
                implies !region_conflicts(#[trigger] s[j], region)
                    && split_count(s[j], region.range) == (if j == found { split_count(s[found as int], region.range) } else { 1int })
                    && (j != found ==> overlap_size(s[j].range, region.range) == 0) by {
                if j < found {
                    assert(s[j].range.end_frame_number <= s[found as int].range.start_frame_number);
                } else if j > found {
                    assert(s[found as int].range.end_frame_number <= s[j].range.start_frame_number);
                }
            }
            lemma_marked_len_single(s, region.range, found as int);
            lemma_usable_overlap_single(s, region.range, found as int);
            assert(overlap_size(s[found as int].range, region.range) == 1);
            assert(marked_len(s, region.range) <= s.len() + 1);
            crate::memory_map::lemma_contains_frame_kind(s, found as int, f as int);
            assert forall|g: int| 0 <= g < f
                implies #[trigger] frame_kind(s, g) != Some(MemoryRegionType::Usable) by {
                if frame_kind(s, g) == Some(MemoryRegionType::Usable) {
                    lemma_frame_kind_witness(s, g);
                    let w = choose|w: int| 0 <= w < s.len()
                        && (#[trigger] s[w]).spec_contains(g)
                        && s[w].region_type == frame_kind(s, g).unwrap();
                    if w < found {
                    } else if w > found {
                        assert(s[found as int].range.end_frame_number <= s[w].range.start_frame_number);
                    }
                }
            }
        }
        let res = self.mark_allocated_region(region);
        match res {
            Ok(()) => {
                proof {
                    assert forall|x: int| #[trigger] frame_kind(self.memory_map@, x)
                        == (if x == f { Some(region_type) } else { frame_kind(s, x) }) by {
                        assert(frame_kind(self.memory_map@, x)
                            == mark_result(frame_kind(s, x), region, x));
                    }
                }
                Ok(f)
            }
            Err(err) => {
                proof {
                    assert(!has_conflict(s, region));
                    assert(err == MemoryMapError::MapFull);
                    assert(s.len() == MAX_MEMORY_MAP_SIZE);
                }
                Err(err)
            }
        }
    }
}

} // verus!
