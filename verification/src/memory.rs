use vstd::prelude::*;
use crate::boot_info::{MemoryRegion, MemoryRegionKind};
use crate::error::{Error, ErrorKind};
use crate::graphics::{max_int, min_int};
use x86_64::structures::paging::page::AddressNotAligned;
use x86_64::structures::paging::{PhysFrame, Size4KiB};
use x86_64::PhysAddr;

verus! {

/// `n` kibibytes, in bytes.
pub fn kib(n: u64) -> (r: u64)
    requires
        n * 1024 <= u64::MAX,
    ensures
        r == n * 1024,
{
    n * 1024
}

/// `n` mebibytes, in bytes.
pub fn mib(n: u64) -> (r: u64)
    requires
        n * 1024 * 1024 <= u64::MAX,
    ensures
        r == n * 1024 * 1024,
{
    assert(n * (1024 * 1024) == n * 1024 * 1024) by (nonlinear_arith);
    n * kib(1024)
}

/// `n` gibibytes, in bytes.
pub fn gib(n: u64) -> (r: u64)
    requires
        n * 1024 * 1024 * 1024 <= u64::MAX,
    ensures
        r == n * 1024 * 1024 * 1024,
{
    assert(n * (1024 * 1024 * 1024) == n * 1024 * 1024 * 1024) by (nonlinear_arith);
    n * mib(1024)
}

/// The size of a physical frame, `kib(4)`.
pub const BYTES_PER_FRAME: u64 = 4 * 1024;

/// The largest amount of physical memory the kernel is laid out for, `gib(128)`.
pub const MAX_PHYSICAL_MEMORY_BYTE: u64 = 128 * 1024 * 1024 * 1024;

/// The number of frames in `MAX_PHYSICAL_MEMORY_BYTE`.
pub const FRAME_COUNT: u64 = MAX_PHYSICAL_MEMORY_BYTE / BYTES_PER_FRAME;

/// The number of frames one word of the bitmap tracks.
pub const BITS_PER_MAP_LINE: u64 = 64;

/// The number of words in the bitmap: `FRAME_COUNT / BYTES_PER_FRAME`.
pub const ALLOC_MAP_LEN: usize = 8192;

/// The number of frames the bitmap tracks.
pub const MANAGED_FRAMES: u64 = 8192 * 64;

/// The number of bytes of physical memory the bitmap tracks.
pub const MANAGED_BYTES: u64 = 8192 * 64 * 4096;

/// The first address `x86_64::PhysAddr` refuses.
pub const PHYS_ADDR_LIMIT: u64 = 0x10_0000_0000_0000;

/// The number of the frame that starts at `addr`.
pub open spec fn frame_index(addr: u64) -> int {
    addr as int / BYTES_PER_FRAME as int
}

/// The numbers of the frames from the one at address `start` up to, and
/// excluding, the one at address `end`.
pub open spec fn frame_span(start: int, end: int) -> Set<int> {
    Set::new(|i: int| start / 4096 <= i < end / 4096)
}

/// Bit `i % 64` of word `i / 64`.
pub open spec fn map_bit(map: Seq<u64>, i: int) -> bool {
    map[i / 64] & (1u64 << ((i % 64) as u64)) != 0
}

/// No frame numbered `s .. s + n` is in `allocated`.
pub open spec fn window_free(allocated: Set<int>, s: int, n: int) -> bool {
    forall|i: int| s <= i < s + n ==> !#[trigger] allocated.contains(i)
}

/// A range of physical frames `[start, end)`, given by frame start addresses.
#[derive(Debug, Clone, Copy, PartialEq, Eq, Structural)]
pub struct FrameRange {
    pub start: u64,
    pub end: u64,
}

impl FrameRange {
    /// Both bounds are frame start addresses.
    pub open spec fn wf(self) -> bool {
        self.start % 4096 == 0 && self.end % 4096 == 0
    }

    /// The numbers of the frames in the range.
    pub open spec fn frames(self) -> Set<int> {
        frame_span(self.start as int, self.end as int)
    }

    pub fn new(start: u64, end: u64) -> (r: Self)
        ensures
            r.start == start,
            r.end == end,
    {
        FrameRange { start, end }
    }
}

/// What a bitmap memory manager holds: the allocated frames and the
/// range of frames it hands out.
pub struct ManagerView {
    pub allocated: Set<int>,
    pub range: FrameRange,
}

/// A physical frame allocator keeping one bit per frame.
pub struct BitmapMemoryManager {
    alloc_map: Vec<u64>,
    range: FrameRange,
}

impl View for BitmapMemoryManager {
    type V = ManagerView;

    closed spec fn view(&self) -> ManagerView {
        ManagerView {
            allocated: Set::new(|i: int| 0 <= i < MANAGED_FRAMES && map_bit(self.alloc_map@, i)),
            range: self.range,
        }
    }
}

/// What `allocate(n)` returns and leaves, from the state `before`: the
/// lowest run of `n` free frames in the managed range, now allocated; or,
/// when there is none, `NoEnoughMemory` and no change.
pub open spec fn allocation_result(
    before: ManagerView,
    n: int,
    r: Result<FrameRange, Error>,
    after: ManagerView,
) -> bool {
    let lo = frame_index(before.range.start);
    let hi = frame_index(before.range.end);
    match r {
        Ok(fr) => {
            let s = frame_index(fr.start);
            &&& fr.wf()
            &&& fr.end == fr.start + n * 4096
            &&& lo <= s
            &&& s + n <= hi
            &&& fr.end <= before.range.end
            &&& window_free(before.allocated, s, n)
            &&& forall|s2: int| lo <= s2 < s ==> !#[trigger] window_free(before.allocated, s2, n)
            &&& after.allocated == before.allocated.union(fr.frames())
            &&& after.range == before.range
        },
        Err(e) => {
            &&& e.kind == ErrorKind::NoEnoughMemory
            &&& forall|s2: int| lo <= s2 && s2 + n <= hi ==> !#[trigger] window_free(before.allocated, s2, n)
            &&& after == before
        },
    }
}

/// A region's bounds are frame start addresses.
pub open spec fn region_aligned(r: MemoryRegion) -> bool {
    r.start % 4096 == 0 && r.end % 4096 == 0
}

/// What `init` needs of region `i` of the map, when it gets that far (every
/// region before it aligned): a start below the physical address limit, an
/// end below it too once the start is aligned, and, once both bounds are
/// aligned, a region inside the memory the bitmap tracks.
pub open spec fn readable_region(regions: Seq<MemoryRegion>, i: int) -> bool {
    (forall|j: int| 0 <= j < i ==> region_aligned(#[trigger] regions[j])) ==> {
        &&& regions[i].start < PHYS_ADDR_LIMIT
        &&& regions[i].start % 4096 == 0 ==> regions[i].end < PHYS_ADDR_LIMIT
        &&& region_aligned(regions[i]) ==> regions[i].start <= MANAGED_BYTES && regions[i].end <= MANAGED_BYTES
    }
}

/// The end of the available range after `init` has gone through `regions`,
/// from the end `e0`: the furthest end of a usable region.
pub open spec fn available_end_after(regions: Seq<MemoryRegion>, e0: int) -> int
    decreases regions.len(),
{
    if regions.len() == 0 {
        e0
    } else {
        let e = available_end_after(regions.drop_last(), e0);
        let r = regions.last();
        if r.kind == MemoryRegionKind::Usable {
            max_int(e, r.end as int)
        } else {
            e
        }
    }
}

/// The start of the available range after `init` has gone through
/// `regions`, from the start `s0`: the lowest start of a usable region.
pub open spec fn available_start_after(regions: Seq<MemoryRegion>, s0: int) -> int
    decreases regions.len(),
{
    if regions.len() == 0 {
        s0
    } else {
        let s = available_start_after(regions.drop_last(), s0);
        let r = regions.last();
        if r.kind == MemoryRegionKind::Usable {
            min_int(s, r.start as int)
        } else {
            s
        }
    }
}

/// The frames `init` marks as allocated while it goes through `regions`,
/// from the available end `e0`: each gap between the available end so far
/// and the start of the next region, and every region that is not usable.
pub open spec fn marked_by(regions: Seq<MemoryRegion>, e0: int) -> Set<int>
    decreases regions.len(),
{
    if regions.len() == 0 {
        Set::empty()
    } else {
        let prefix = regions.drop_last();
        let e = available_end_after(prefix, e0);
        let r = regions.last();
        let gap = frame_span(e, r.start as int);
        let own = if r.kind == MemoryRegionKind::Usable {
            Set::empty()
        } else {
            frame_span(r.start as int, r.end as int)
        };
        marked_by(prefix, e0).union(gap).union(own)
    }
}

/// One more frame at the end of a span.
proof fn lemma_span_grows(start: int, frame: int)
    requires
        start % 4096 == 0,
        frame % 4096 == 0,
        start <= frame,
    ensures
        frame_span(start, frame + 4096) == frame_span(start, frame).insert(frame / 4096),
{
    assert(frame_span(start, frame + 4096) =~= frame_span(start, frame).insert(frame / 4096));
}

/// Once `init` has gone through a region that is not usable, every frame
/// of that region is marked.
pub proof fn lemma_init_marks_unusable_regions(regions: Seq<MemoryRegion>, e0: int, k: int, i: int)
    requires
        0 <= k < regions.len(),
        regions[k].kind != MemoryRegionKind::Usable,
        frame_span(regions[k].start as int, regions[k].end as int).contains(i),
    ensures
        marked_by(regions, e0).contains(i),
    decreases regions.len(),
{
    if k < regions.len() - 1 {
        lemma_init_marks_unusable_regions(regions.drop_last(), e0, k, i);
    }
}

#[verifier::external_type_specification]
#[verifier::external_body]
pub struct ExAddressNotAligned(AddressNotAligned);

/// Makes a 4 KiB frame from its start address with
/// `x86_64::structures::paging::PhysFrame::from_start_address` (the address
/// is built with `x86_64::PhysAddr::new`, which panics from bit 52 up, hence
/// the `requires`). Claimed: a frame comes back exactly when the address is
/// 4096-aligned, and its start address is the given one.
#[verifier::external_body]
fn frame_start_address(addr: u64) -> (r: Result<u64, AddressNotAligned>)
    requires
        addr < PHYS_ADDR_LIMIT,
    ensures
        r is Ok <==> addr % 4096 == 0,
        r is Ok ==> r->Ok_0 == addr,
{
    match PhysFrame::<Size4KiB>::from_start_address(PhysAddr::new(addr)) {
        Ok(frame) => Ok(frame.start_address().as_u64()),
        Err(e) => Err(e),
    }
}

proof fn lemma_bit_update(w: u64, b: u64, c: u64)
    by (bit_vector)
    requires
        b < 64,
        c < 64,
    ensures
        ((w | (1u64 << b)) & (1u64 << c) != 0) == (c == b || w & (1u64 << c) != 0),
        ((w & !(1u64 << b)) & (1u64 << c) != 0) == (c != b && w & (1u64 << c) != 0),
        0u64 & (1u64 << c) == 0,
{
}

impl BitmapMemoryManager {
    /// The bitmap has its full length and the managed range lies in it.
    pub closed spec fn wf(&self) -> bool {
        &&& self.alloc_map.len() == ALLOC_MAP_LEN
        &&& self.range.wf()
        &&& self.range.start <= MANAGED_BYTES
        &&& self.range.end <= MANAGED_BYTES
    }

    /// The managed range is made of whole frames and lies inside the
    /// memory the bitmap tracks, and so does every allocated frame.
    pub proof fn lemma_view_bounds(&self)
        requires
            self.wf(),
        ensures
            self@.range.wf(),
            self@.range.start <= MANAGED_BYTES,
            self@.range.end <= MANAGED_BYTES,
            forall|i: int| #[trigger] self@.allocated.contains(i) ==> 0 <= i < MANAGED_FRAMES,
    {
    }

    /// A manager with no frame allocated and an empty range.
    pub fn new() -> (r: Self)
        ensures
            r.wf(),
            r@.allocated == Set::<int>::empty(),
            r@.range.start == 0,
            r@.range.end == 0,
    {
        let r = BitmapMemoryManager { alloc_map: vec![0u64; ALLOC_MAP_LEN], range: FrameRange::new(0, 0) };
        proof {
            assert forall|i: int| 0 <= i < MANAGED_FRAMES implies !map_bit(r.alloc_map@, i) by {
                lemma_bit_update(0, 0, (i % 64) as u64);
            }
            assert(r@.allocated =~= Set::<int>::empty());
        }
        r
    }

    /// Whether the frame at `frame` is allocated.
    pub fn get_bit(&self, frame: u64) -> (r: bool)
        requires
            self.wf(),
            frame % 4096 == 0,
            frame < MANAGED_BYTES,
        ensures
            r == self@.allocated.contains(frame_index(frame)),
    {
        let frame_index = frame / BYTES_PER_FRAME;
        let line_index = (frame_index / BITS_PER_MAP_LINE) as usize;
        let bit_index = frame_index % BITS_PER_MAP_LINE;
        (self.alloc_map[line_index] & (1 << bit_index)) != 0
    }

    /// Marks the frame at `frame` as allocated or free.
    pub fn set_bit(&mut self, frame: u64, already_allocated: bool)
        requires
            old(self).wf(),
            frame % 4096 == 0,
            frame < MANAGED_BYTES,
        ensures
            final(self).wf(),
            final(self)@.range == old(self)@.range,
            final(self)@.allocated == if already_allocated {
                old(self)@.allocated.insert(frame_index(frame))
            } else {
                old(self)@.allocated.remove(frame_index(frame))
            },
    {
        let frame_index = frame / BYTES_PER_FRAME;
        let line_index = (frame_index / BITS_PER_MAP_LINE) as usize;
        let bit_index = frame_index % BITS_PER_MAP_LINE;
        let ghost before = self.alloc_map@;
        let word = self.alloc_map[line_index];
        if already_allocated {
            self.alloc_map.set(line_index, word | (1 << bit_index));
        } else {
            self.alloc_map.set(line_index, word & !(1 << bit_index));
        }
        proof {
            let target = frame_index as int;
            assert forall|i: int| 0 <= i < MANAGED_FRAMES implies map_bit(self.alloc_map@, i) == if i == target {
                already_allocated
            } else {
                map_bit(before, i)
            } by {
                lemma_bit_update(word, bit_index, (i % 64) as u64);
                if i / 64 != line_index as int {
                    assert(self.alloc_map@[i / 64] == before[i / 64]);
                }
            }
            if already_allocated {
                assert(self@.allocated =~= old(self)@.allocated.insert(target));
            } else {
                assert(self@.allocated =~= old(self)@.allocated.remove(target));
            }
        }
    }

    /// Marks every frame of `range` as allocated.
    pub fn mark_allocated(&mut self, range: FrameRange)
        requires
            old(self).wf(),
            range.wf(),
            range.start < range.end ==> range.end <= MANAGED_BYTES,
        ensures
            final(self).wf(),
            final(self)@.range == old(self)@.range,
            final(self)@.allocated == old(self)@.allocated.union(range.frames()),
    {
        let mut frame = range.start;
        while frame < range.end
            invariant
                self.wf(),
                self@.range == old(self)@.range,
                range.wf(),
                range.start < range.end ==> range.end <= MANAGED_BYTES,
                frame % 4096 == 0,
                range.start <= frame,
                range.start < range.end ==> frame <= range.end,
                range.start >= range.end ==> frame == range.start,
                self@.allocated == old(self)@.allocated.union(frame_span(range.start as int, frame as int)),
            decreases range.end - frame,
        {
            self.set_bit(frame, true);
            proof {
                lemma_span_grows(range.start as int, frame as int);
                assert(self@.allocated =~= old(self)@.allocated.union(
                    frame_span(range.start as int, frame as int + 4096),
                ));
            }
            frame = frame + BYTES_PER_FRAME;
        }
        proof {
            assert(self@.allocated =~= old(self)@.allocated.union(range.frames()));
        }
    }

    /// Marks every frame of `range` as free.
    pub fn free(&mut self, range: FrameRange)
        requires
            old(self).wf(),
            range.wf(),
            range.start < range.end ==> range.end <= MANAGED_BYTES,
        ensures
            final(self).wf(),
            final(self)@.range == old(self)@.range,
            final(self)@.allocated == old(self)@.allocated.difference(range.frames()),
    {
        let mut frame = range.start;
        while frame < range.end
            invariant
                self.wf(),
                self@.range == old(self)@.range,
                range.wf(),
                range.start < range.end ==> range.end <= MANAGED_BYTES,
                frame % 4096 == 0,
                range.start <= frame,
                range.start < range.end ==> frame <= range.end,
                range.start >= range.end ==> frame == range.start,
                self@.allocated == old(self)@.allocated.difference(
                    frame_span(range.start as int, frame as int),
                ),
            decreases range.end - frame,
        {
            self.set_bit(frame, false);
            proof {
                lemma_span_grows(range.start as int, frame as int);
                assert(self@.allocated =~= old(self)@.allocated.difference(
                    frame_span(range.start as int, frame as int + 4096),
                ));
            }
            frame = frame + BYTES_PER_FRAME;
        }
        proof {
            assert(self@.allocated =~= old(self)@.allocated.difference(range.frames()));
        }
    }
}

impl BitmapMemoryManager {
    /// The first allocated frame of `range`, if any.
    fn first_allocated(&self, range: FrameRange) -> (r: Option<u64>)
        requires
            self.wf(),
            range.wf(),
            range.start <= range.end,
            range.end <= MANAGED_BYTES,
        ensures
            match r {
                None => window_free(self@.allocated, frame_index(range.start), frame_index(range.end) - frame_index(range.start)),
                Some(a) => {
                    &&& a % 4096 == 0
                    &&& range.start <= a < range.end
                    &&& self@.allocated.contains(frame_index(a))
                },
            },
    {
        let mut frame = range.start;
        while frame < range.end
            invariant
                self.wf(),
                range.wf(),
                range.start <= range.end <= MANAGED_BYTES,
                frame % 4096 == 0,
                range.start <= frame <= range.end,
                window_free(self@.allocated, frame_index(range.start), frame_index(frame) - frame_index(range.start)),
            decreases range.end - frame,
        {
            if self.get_bit(frame) {
                return Some(frame);
            }
            frame = frame + BYTES_PER_FRAME;
        }
        None
    }

    /// Allocates the lowest run of `num_frames` free frames in the managed
    /// range, or fails with `NoEnoughMemory` when there is none.
    pub fn allocate(&mut self, num_frames: usize) -> (r: Result<FrameRange, Error>)
        requires
            old(self).wf(),
            old(self)@.range.start + num_frames * 4096 < PHYS_ADDR_LIMIT,
        ensures
            final(self).wf(),
            allocation_result(old(self)@, num_frames as int, r, final(self)@),
            r is Ok ==> r->Ok_0.end <= MANAGED_BYTES,
    {
        proof {
            self.lemma_view_bounds();
        }
        let ghost n = num_frames as int;
        let ghost lo = frame_index(self.range.start);
        let ghost hi = frame_index(self.range.end);
        let mut start_frame = self.range.start;
        loop
            invariant
                self.wf(),
                self@ == old(self)@,
                n == num_frames as int,
                lo == frame_index(self@.range.start),
                hi == frame_index(self@.range.end),
                self@.range.wf(),
                self@.range.start <= MANAGED_BYTES,
                self@.range.end <= MANAGED_BYTES,
                self@.range.start + num_frames * 4096 < PHYS_ADDR_LIMIT,
                start_frame % 4096 == 0,
                self@.range.start <= start_frame,
                start_frame == self@.range.start || (num_frames * 4096 <= MANAGED_BYTES
                    && start_frame <= self@.range.end),
                forall|s2: int|
                    lo <= s2 < frame_index(start_frame) ==> !#[trigger] window_free(self@.allocated, s2, n),
            decreases self@.range.end - start_frame,
        {
            let end_frame = start_frame + num_frames as u64 * BYTES_PER_FRAME;
            if end_frame > self.range.end {
                proof {
                    assert forall|s2: int| lo <= s2 && s2 + n <= hi implies !#[trigger] window_free(self@.allocated, s2, n) by {
                        assert(s2 < frame_index(start_frame));
                    }
                }
                return Err(Error::new(ErrorKind::NoEnoughMemory));
            }
            let range = FrameRange::new(start_frame, end_frame);
            match self.first_allocated(range) {
                Some(allocated) => {
                    proof {
                        let a = frame_index(allocated);
                        assert forall|s2: int| lo <= s2 < a + 1 implies !#[trigger] window_free(self@.allocated, s2, n) by {
                            if s2 >= frame_index(start_frame) {
                                assert(self@.allocated.contains(a));
                            }
                        }
                    }
                    start_frame = allocated + BYTES_PER_FRAME;
                },
                None => {
                    self.mark_allocated(range);
                    return Ok(range);
                },
            }
        }
    }

    /// Allocates a single frame and gives its start address.
    pub fn allocate_frame(&mut self) -> (r: Option<u64>)
        requires
            old(self).wf(),
        ensures
            final(self).wf(),
            match r {
                Some(a) => allocation_result(
                    old(self)@,
                    1,
                    Ok(FrameRange { start: a, end: (a + 4096) as u64 }),
                    final(self)@,
                ),
                None => allocation_result(
                    old(self)@,
                    1,
                    Err(Error { kind: ErrorKind::NoEnoughMemory }),
                    final(self)@,
                ),
            },
    {
        proof {
            self.lemma_view_bounds();
        }
        match self.allocate(1) {
            Ok(range) => Some(range.start),
            Err(_) => None,
        }
    }
}

impl BitmapMemoryManager {
    /// Takes the boot memory map: marks as allocated every gap below a
    /// region and every region that is not usable, and makes the managed
    /// range reach from the lowest to the furthest usable frame seen.
    /// Fails with `AddressNotAligned` at the first region whose bounds are
    /// not frame start addresses, keeping what was marked before it.
    ///
    /// Every aligned region it reads must lie in the memory the bitmap
    /// tracks (`MANAGED_BYTES`, 2 GiB), usable regions too: a usable region
    /// reaching past it would put frames that no bit tracks into the
    /// managed range, so the map is refused here rather than at a later
    /// allocation.
    pub fn init(&mut self, regions: &[MemoryRegion]) -> (r: Result<(), Error>)
        requires
            old(self).wf(),
            forall|i: int| 0 <= i < regions.len() ==> #[trigger] readable_region(regions@, i),
        ensures
            final(self).wf(),
            r is Ok <==> forall|i: int| 0 <= i < regions.len() ==> region_aligned(#[trigger] regions[i]),
            match r {
                Ok(_) => {
                    &&& final(self)@.allocated == old(self)@.allocated.union(
                        marked_by(regions@, old(self)@.range.end as int),
                    )
                    &&& final(self)@.range.start == available_start_after(regions@, old(self)@.range.start as int)
                    &&& final(self)@.range.end == available_end_after(regions@, old(self)@.range.end as int)
                    &&& forall|k: int|
                        0 <= k < regions.len() && (#[trigger] regions[k]).kind == MemoryRegionKind::Usable ==> {
                            &&& final(self)@.range.start <= regions[k].start
                            &&& regions[k].end <= final(self)@.range.end
                        }
                    &&& final(self)@.range.start <= old(self)@.range.start
                    &&& final(self)@.range.end >= old(self)@.range.end
                    &&& (final(self)@.range.start == old(self)@.range.start || exists|k: int|
                        0 <= k < regions.len() && (#[trigger] regions[k]).kind == MemoryRegionKind::Usable
                            && final(self)@.range.start == regions[k].start)
                    &&& (final(self)@.range.end == old(self)@.range.end || exists|k: int|
                        0 <= k < regions.len() && (#[trigger] regions[k]).kind == MemoryRegionKind::Usable
                            && final(self)@.range.end == regions[k].end)
                },
                Err(e) => {
                    &&& e.kind == ErrorKind::AddressNotAligned
                    &&& exists|k: int| {
                        &&& 0 <= k < regions.len()
                        &&& !region_aligned(#[trigger] regions[k])
                        &&& forall|j: int| 0 <= j < k ==> region_aligned(#[trigger] regions[j])
                        &&& final(self)@.allocated == old(self)@.allocated.union(
                            marked_by(regions@.take(k), old(self)@.range.end as int),
                        )
                    }
                    &&& final(self)@.range == old(self)@.range
                },
            },
    {
        proof {
            self.lemma_view_bounds();
        }
        let ghost s0 = self.range.start as int;
        let ghost e0 = self.range.end as int;
        let mut available_start = self.range.start;
        let mut available_end = self.range.end;
        let mut i: usize = 0;
        proof {
            assert(regions@.take(0) =~= Seq::<MemoryRegion>::empty());
            assert(self@.allocated =~= old(self)@.allocated.union(Set::<int>::empty()));
        }
        while i < regions.len()
            invariant
                self.wf(),
                self@.range == old(self)@.range,
                s0 == old(self)@.range.start,
                e0 == old(self)@.range.end,
                0 <= i <= regions.len(),
                forall|k: int| 0 <= k < regions.len() ==> #[trigger] readable_region(regions@, k),
                forall|j: int| 0 <= j < i ==> region_aligned(#[trigger] regions[j]),
                available_start as int == available_start_after(regions@.take(i as int), s0),
                available_end as int == available_end_after(regions@.take(i as int), e0),
                available_start % 4096 == 0,
                available_end % 4096 == 0,
                available_start <= MANAGED_BYTES,
                available_end <= MANAGED_BYTES,
                self@.allocated == old(self)@.allocated.union(marked_by(regions@.take(i as int), e0)),
            decreases regions.len() - i,
        {
            let region = regions[i];
            let ghost prefix = regions@.take(i as int);
            let ghost next = regions@.take(i as int + 1);
            proof {
                assert(next.drop_last() =~= prefix);
                assert(next.last() == region);
            }
            proof {
                assert(readable_region(regions@, i as int));
            }
            let start = match frame_start_address(region.start) {
                Ok(a) => a,
                Err(_) => {
                    proof {
                        assert(!region_aligned(regions[i as int]));
                    }
                    return Err(Error::new(ErrorKind::AddressNotAligned));
                },
            };
            let end = match frame_start_address(region.end) {
                Ok(a) => a,
                Err(_) => {
                    proof {
                        assert(!region_aligned(regions[i as int]));
                    }
                    return Err(Error::new(ErrorKind::AddressNotAligned));
                },
            };
            let ghost marked_before = self@.allocated;
            if available_end < start {
                self.mark_allocated(FrameRange::new(available_end, start));
            }
            proof {
                assert(self@.allocated =~= marked_before.union(
                    frame_span(available_end as int, start as int),
                ));
            }
            let ghost after_gap = self@.allocated;
            if region.kind == MemoryRegionKind::Usable {
                if start < available_start {
                    available_start = start;
                }
                if available_end < end {
                    available_end = end;
                }
                proof {
                    assert(self@.allocated =~= after_gap.union(Set::<int>::empty()));
                }
            } else {
                self.mark_allocated(FrameRange::new(start, end));
            }
            proof {
                assert(self@.allocated =~= old(self)@.allocated.union(marked_by(next, e0)));
            }
            i = i + 1;
        }
        proof {
            assert(regions@.take(regions.len() as int) =~= regions@);
        }
        self.range = FrameRange::new(available_start, available_end);
        proof {
            lemma_available_range(regions@, s0, e0);
        }
        Ok(())
    }
}

/// The regions of a memory map are in address order and do not overlap,
/// and none ends before it starts.
pub open spec fn sorted_disjoint(regions: Seq<MemoryRegion>) -> bool {
    &&& forall|k: int| 0 <= k < regions.len() ==> (#[trigger] regions[k]).start <= regions[k].end
    &&& forall|j: int, k: int| 0 <= j < k < regions.len() ==> (#[trigger] regions[j]).end <= (#[trigger] regions[k]).start
}

/// Frame `i` lies in region `r`.
pub open spec fn in_region(r: MemoryRegion, i: int) -> bool {
    frame_span(r.start as int, r.end as int).contains(i)
}

/// What `init` marks of a sorted map, frame by frame: the frames of the
/// regions that are not usable, and the frames in no region that lie below
/// the start of some region.
pub open spec fn marked_frame(regions: Seq<MemoryRegion>, i: int) -> bool {
    ||| exists|k: int| 0 <= k < regions.len() && regions[k].kind != MemoryRegionKind::Usable && #[trigger] in_region(regions[k], i)
    ||| {
        &&& exists|k: int| 0 <= k < regions.len() && i < (#[trigger] regions[k]).start as int / 4096
        &&& forall|k: int| 0 <= k < regions.len() ==> !#[trigger] in_region(regions[k], i)
    }
}

/// The managed range `init` leaves, from the range `s0..e0`: it starts at
/// `s0` or at the start of a usable region, whichever is lowest, and ends
/// at `e0` or at the end of a usable region, whichever is furthest. So it
/// spans every usable region and the range it started from.
pub proof fn lemma_available_range(regions: Seq<MemoryRegion>, s0: int, e0: int)
    ensures
        available_start_after(regions, s0) <= s0,
        available_end_after(regions, e0) >= e0,
        forall|k: int|
            0 <= k < regions.len() && (#[trigger] regions[k]).kind == MemoryRegionKind::Usable ==> {
                &&& available_start_after(regions, s0) <= regions[k].start
                &&& regions[k].end <= available_end_after(regions, e0)
            },
        available_start_after(regions, s0) == s0 || exists|k: int|
            0 <= k < regions.len() && (#[trigger] regions[k]).kind == MemoryRegionKind::Usable
                && available_start_after(regions, s0) == regions[k].start,
        available_end_after(regions, e0) == e0 || exists|k: int|
            0 <= k < regions.len() && (#[trigger] regions[k]).kind == MemoryRegionKind::Usable
                && available_end_after(regions, e0) == regions[k].end,
    decreases regions.len(),
{
    if regions.len() > 0 {
        let p = regions.drop_last();
        let n = regions.len() - 1;
        lemma_available_range(p, s0, e0);
        assert forall|k: int| 0 <= k < p.len() implies #[trigger] p[k] == regions[k] by {}
        assert forall|k: int|
            0 <= k < regions.len() && (#[trigger] regions[k]).kind == MemoryRegionKind::Usable implies {
                &&& available_start_after(regions, s0) <= regions[k].start
                &&& regions[k].end <= available_end_after(regions, e0)
            } by {
            if k < n {
                assert(p[k] == regions[k]);
            }
        }
        let s = available_start_after(regions, s0);
        let e = available_end_after(regions, e0);
        if s != s0 && s == available_start_after(p, s0) {
            let k = choose|k: int|
                0 <= k < p.len() && (#[trigger] p[k]).kind == MemoryRegionKind::Usable
                    && available_start_after(p, s0) == p[k].start;
            assert(regions[k] == p[k]);
        }
        if e != e0 && e == available_end_after(p, e0) {
            let k = choose|k: int|
                0 <= k < p.len() && (#[trigger] p[k]).kind == MemoryRegionKind::Usable
                    && available_end_after(p, e0) == p[k].end;
            assert(regions[k] == p[k]);
        }
    }
}

/// Taking the memory map of a sorted map into a new manager (available end
/// 0) marks exactly the frames of the regions that are not usable and the
/// holes between regions: every frame in no region below the start of some
/// region. Frames of usable regions and frames past the map stay free.
pub proof fn lemma_init_marks_exactly(regions: Seq<MemoryRegion>, i: int)
    requires
        sorted_disjoint(regions),
        0 <= i,
    ensures
        marked_by(regions, 0).contains(i) <==> marked_frame(regions, i),
    decreases regions.len(),
{
    if regions.len() > 0 {
        let n = regions.len() - 1;
        let p = regions.drop_last();
        let r = regions[n];
        assert forall|k: int| 0 <= k < p.len() implies #[trigger] p[k] == regions[k] by {}
        assert(sorted_disjoint(p)) by {
            assert forall|j: int, k: int| 0 <= j < k < p.len() implies (#[trigger] p[j]).end <= (#[trigger] p[k]).start by {
                assert(regions[j].end <= regions[k].start);
            }
        }
        lemma_init_marks_exactly(p, i);
        lemma_available_range(p, 0, 0);
        let e = available_end_after(p, 0);
        assert(marked_by(regions, 0).contains(i) == (marked_by(p, 0).contains(i) || frame_span(e, r.start as int).contains(i)
            || (r.kind != MemoryRegionKind::Usable && in_region(r, i))));
        // every region of `p` ends at or before `r` starts
        assert forall|k: int| 0 <= k < p.len() implies (#[trigger] p[k]).end <= r.start by {
            assert(regions[k].end <= regions[n].start);
        }
        assert forall|k: int| 0 <= k < p.len() implies (#[trigger] p[k]).start as int / 4096 <= r.start as int / 4096 by {
            assert(p[k].start <= p[k].end <= r.start);
            vstd::arithmetic::div_mod::lemma_div_is_ordered(p[k].start as int, r.start as int, 4096);
        }
        if e != 0 {
            let k = choose|k: int|
                0 <= k < p.len() && (#[trigger] p[k]).kind == MemoryRegionKind::Usable && e == p[k].end;
            assert(e <= r.start);
        }
        let s = r.start as int / 4096;
        let no_p = forall|k: int| 0 <= k < p.len() ==> !#[trigger] in_region(p[k], i);
        let no_all = forall|k: int| 0 <= k < regions.len() ==> !#[trigger] in_region(regions[k], i);
        let nonusable_p = exists|k: int| 0 <= k < p.len() && p[k].kind != MemoryRegionKind::Usable && #[trigger] in_region(p[k], i);
        let below_p = exists|k: int| 0 <= k < p.len() && i < (#[trigger] p[k]).start as int / 4096;
        let below_all = exists|k: int| 0 <= k < regions.len() && i < (#[trigger] regions[k]).start as int / 4096;
        // in `regions`, "below some start" means below the start of `r`
        assert(below_all <==> i < s) by {
            if below_all {
                let k = choose|k: int| 0 <= k < regions.len() && i < (#[trigger] regions[k]).start as int / 4096;
                if k < n {
                    assert(p[k].start as int / 4096 <= s);
                }
            }
            if i < s {
                assert(i < regions[n].start as int / 4096);
            }
        }
        assert(below_p ==> i < s) by {
            if below_p {
                let k = choose|k: int| 0 <= k < p.len() && i < (#[trigger] p[k]).start as int / 4096;
                assert(p[k].start as int / 4096 <= s);
            }
        }
        assert(no_all <==> no_p && !in_region(r, i)) by {
            if no_p && !in_region(r, i) {
                assert forall|k: int| 0 <= k < regions.len() implies !#[trigger] in_region(regions[k], i) by {
                    if k < n {
                        assert(!in_region(p[k], i));
                    }
                }
            }
            if no_all {
                assert forall|k: int| 0 <= k < p.len() implies !#[trigger] in_region(p[k], i) by {
                    assert(!in_region(regions[k], i));
                }
                assert(!in_region(regions[n], i));
            }
        }
        let nonusable_all = exists|k: int| 0 <= k < regions.len() && regions[k].kind != MemoryRegionKind::Usable && #[trigger] in_region(regions[k], i);
        assert(nonusable_all <==> nonusable_p || (r.kind != MemoryRegionKind::Usable && in_region(r, i))) by {
            if nonusable_all {
                let k = choose|k: int| 0 <= k < regions.len() && regions[k].kind != MemoryRegionKind::Usable && #[trigger] in_region(regions[k], i);
                if k < n {
                    assert(in_region(p[k], i));
                }
            }
            if nonusable_p {
                let k = choose|k: int| 0 <= k < p.len() && p[k].kind != MemoryRegionKind::Usable && #[trigger] in_region(p[k], i);
                assert(in_region(regions[k], i));
            }
            if r.kind != MemoryRegionKind::Usable && in_region(r, i) {
                assert(in_region(regions[n], i));
            }
        }
        // a gap frame lies in no usable region of `p`
        if frame_span(e, r.start as int).contains(i) && !nonusable_p {
            assert forall|k: int| 0 <= k < p.len() implies !#[trigger] in_region(p[k], i) by {
                if in_region(p[k], i) && p[k].kind == MemoryRegionKind::Usable {
                    vstd::arithmetic::div_mod::lemma_div_is_ordered(p[k].end as int, e, 4096);
                }
            }
        }
        // a hole below `r` is in the gap or below a start of `p`
        if i < s && no_p && !frame_span(e, r.start as int).contains(i) {
            assert(i < e / 4096);
            let k = choose|k: int|
                0 <= k < p.len() && (#[trigger] p[k]).kind == MemoryRegionKind::Usable && e == p[k].end;
            assert(!in_region(p[k], i));
            assert(i < p[k].start as int / 4096);
        }
        // frames of `r` itself are not below its start
        if in_region(r, i) {
            assert(!(i < s));
        }
        assert(marked_frame(regions, i) == (nonusable_all || (below_all && no_all)));
        assert(marked_frame(p, i) == (nonusable_p || (below_p && no_p)));
    }
}

/// Getting a frame's bit after setting it gives back the value set, and
/// leaves every other frame as it was.
pub proof fn lemma_get_after_set(before: ManagerView, frame: u64, value: bool, after: ManagerView)
    requires
        after.allocated == if value {
            before.allocated.insert(frame_index(frame))
        } else {
            before.allocated.remove(frame_index(frame))
        },
    ensures
        after.allocated.contains(frame_index(frame)) == value,
        forall|i: int| i != frame_index(frame) ==> #[trigger] after.allocated.contains(i) == before.allocated.contains(i),
{
}

/// Freeing the frames that an allocation handed out brings the manager back
/// to the state before the allocation.
pub proof fn lemma_free_undoes_allocate(
    before: ManagerView,
    n: int,
    fr: FrameRange,
    allocated: ManagerView,
    freed: ManagerView,
)
    requires
        allocation_result(before, n, Ok(fr), allocated),
        freed.allocated == allocated.allocated.difference(fr.frames()),
        freed.range == allocated.range,
    ensures
        freed.allocated == before.allocated,
        freed.range == before.range,
{
    let s = frame_index(fr.start);
    assert forall|i: int| fr.frames().contains(i) implies !before.allocated.contains(i) by {
        assert(s <= i < s + n);
    }
    assert(freed.allocated =~= before.allocated);
}

/// Two allocations in a row hand out disjoint ranges of frames.
pub proof fn lemma_allocations_disjoint(
    v0: ManagerView,
    n1: int,
    r1: FrameRange,
    v1: ManagerView,
    n2: int,
    r2: FrameRange,
    v2: ManagerView,
)
    requires
        allocation_result(v0, n1, Ok(r1), v1),
        allocation_result(v1, n2, Ok(r2), v2),
    ensures
        r1.frames().disjoint(r2.frames()),
{
    let s2 = frame_index(r2.start);
    assert forall|i: int| r1.frames().contains(i) implies !r2.frames().contains(i) by {
        assert(v1.allocated.contains(i));
        if r2.frames().contains(i) {
            assert(s2 <= i < s2 + n2);
        }
    }
}

/// Every frame an allocation hands out was free before it and is allocated
/// after it, and lies in the managed range.
pub proof fn lemma_allocation_hands_out_free_frames(
    before: ManagerView,
    n: int,
    fr: FrameRange,
    after: ManagerView,
)
    requires
        0 <= n,
        allocation_result(before, n, Ok(fr), after),
    ensures
        forall|i: int| #[trigger] fr.frames().contains(i) ==> {
            &&& !before.allocated.contains(i)
            &&& after.allocated.contains(i)
            &&& frame_index(before.range.start) <= i < frame_index(before.range.end)
        },
        fr.frames().len() == n,
{
    let s = frame_index(fr.start);
    assert forall|i: int| #[trigger] fr.frames().contains(i) implies {
        &&& !before.allocated.contains(i)
        &&& after.allocated.contains(i)
        &&& frame_index(before.range.start) <= i < frame_index(before.range.end)
    } by {
        assert(s <= i < s + n);
    }
    assert(fr.frames() =~= vstd::set_lib::set_int_range(s, s + n));
    vstd::set_lib::lemma_int_range(s, s + n);
}

} // verus!
