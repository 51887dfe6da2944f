use vstd::prelude::*;
use crate::boot_info::MemoryRegion;

verus! {

/// Region `b` carries on the run that region `a` ends: the same kind, and
/// `b` starts where `a` ends.
pub open spec fn continues(a: MemoryRegion, b: MemoryRegion) -> bool {
    a.kind == b.kind && a.end == b.start
}

/// `regions[p..q]` is a run: each region carries on the one before it.
pub open spec fn is_run(regions: Seq<MemoryRegion>, p: int, q: int) -> bool {
    &&& 0 <= p < q <= regions.len()
    &&& forall|k: int| p < k < q ==> continues(#[trigger] regions[k - 1], regions[k])
}

/// `regions[p..q]` is a run that cannot be made longer.
pub open spec fn is_maximal_run(regions: Seq<MemoryRegion>, p: int, q: int) -> bool {
    &&& is_run(regions, p, q)
    &&& (q == regions.len() || !continues(regions[q - 1], regions[q]))
}

/// The one region that covers the run `regions[p..q]`.
pub open spec fn merged(regions: Seq<MemoryRegion>, p: int, q: int) -> MemoryRegion {
    MemoryRegion { start: regions[p].start, end: regions[q - 1].end, kind: regions[p].kind }
}

/// Goes through a memory map, merging each run of adjacent regions of the
/// same kind into one region.
pub struct MemoryRegions<'a> {
    regions: &'a [MemoryRegion],
    next_index: usize,
}

impl<'a> MemoryRegions<'a> {
    /// The position never passes the end of the map.
    #[verifier::type_invariant]
    closed spec fn wf(&self) -> bool {
        self.next_index <= self.regions.len()
    }

    /// The memory map gone through.
    pub closed spec fn source(&self) -> Seq<MemoryRegion> {
        self.regions@
    }

    /// The index of the first region not yet yielded.
    pub closed spec fn position(&self) -> int {
        self.next_index as int
    }

    pub fn new(regions: &'a [MemoryRegion]) -> (r: Self)
        ensures
            r.source() == regions@,
            r.position() == 0,
    {
        Self { regions, next_index: 0 }
    }

    /// The next merged region: the maximal run that starts at the current
    /// position, as one region; `None` once the map is gone through.
    pub fn next(&mut self) -> (r: Option<MemoryRegion>)
        ensures
            final(self).source() == old(self).source(),
            final(self).position() <= final(self).source().len(),
            match r {
                None => {
                    &&& old(self).position() == old(self).source().len()
                    &&& final(self).position() == old(self).position()
                },
                Some(m) => {
                    &&& is_maximal_run(old(self).source(), old(self).position(), final(self).position())
                    &&& m == merged(old(self).source(), old(self).position(), final(self).position())
                },
            },
    {
        proof {
            use_type_invariant(&*self);
        }
        if self.next_index >= self.regions.len() {
            return None;
        }
        let ghost p = self.next_index as int;
        let mut current = self.regions[self.next_index];
        self.next_index = self.next_index + 1;
        loop
            invariant
                self.regions@ == old(self).regions@,
                p == old(self).next_index as int,
                is_run(self.regions@, p, self.next_index as int),
                current == merged(self.regions@, p, self.next_index as int),
                self.next_index <= self.regions.len(),
                forall|k: int| p <= k < self.next_index ==> (#[trigger] self.regions@[k]).kind == self.regions@[p].kind,
            decreases self.regions.len() - self.next_index,
        {
            if self.next_index < self.regions.len() {
                let next = self.regions[self.next_index];
                if current.kind == next.kind && current.end == next.start {
                    current.end = next.end;
                    self.next_index = self.next_index + 1;
                    continue;
                }
            }
            return Some(current);
        }
    }
}

/// Two regions yielded one after the other are never adjacent regions of
/// the same kind: the merging leaves nothing to merge.
pub proof fn lemma_yielded_regions_do_not_continue(regions: Seq<MemoryRegion>, p: int, q: int, r: int)
    requires
        is_maximal_run(regions, p, q),
        is_maximal_run(regions, q, r),
    ensures
        !continues(merged(regions, p, q), merged(regions, q, r)),
{
    assert forall|k: int| p <= k < q implies #[trigger] regions[k].kind == regions[p].kind by {
        lemma_run_kind(regions, p, q, k);
    }
    assert(regions[q - 1].kind == regions[p].kind);
}

proof fn lemma_run_kind(regions: Seq<MemoryRegion>, p: int, q: int, k: int)
    requires
        is_run(regions, p, q),
        p <= k < q,
    ensures
        regions[k].kind == regions[p].kind,
    decreases k - p,
{
    if k > p {
        lemma_run_kind(regions, p, q, k - 1);
        assert(continues(regions[k - 1], regions[k]));
    }
}

/// A merged run covers exactly the addresses its regions cover: every
/// address of the merged region lies in one region of the run, and the other
/// way round.
pub proof fn lemma_merged_covers_run(regions: Seq<MemoryRegion>, p: int, q: int, addr: int)
    requires
        is_run(regions, p, q),
        forall|k: int| p <= k < q ==> (#[trigger] regions[k]).start <= regions[k].end,
    ensures
        (merged(regions, p, q).start <= addr < merged(regions, p, q).end) <==> exists|k: int|
            p <= k < q && (#[trigger] regions[k]).start <= addr < regions[k].end,
    decreases q - p,
{
    if q - p > 1 {
        lemma_merged_covers_run(regions, p, q - 1, addr);
        assert(continues(regions[q - 2], regions[q - 1]));
        if regions[q - 1].start <= addr < regions[q - 1].end {
            assert(p <= q - 1 < q);
        }
        if exists|k: int| p <= k < q && (#[trigger] regions[k]).start <= addr < regions[k].end {
            let k = choose|k: int| p <= k < q && (#[trigger] regions[k]).start <= addr < regions[k].end;
            if k < q - 1 {
                assert(p <= k < q - 1);
            }
        }
        lemma_start_le_end_of_run(regions, p, q - 1);
    } else {
        if exists|k: int| p <= k < q && (#[trigger] regions[k]).start <= addr < regions[k].end {
            let k = choose|k: int| p <= k < q && (#[trigger] regions[k]).start <= addr < regions[k].end;
            assert(k == p);
        }
    }
}

proof fn lemma_start_le_end_of_run(regions: Seq<MemoryRegion>, p: int, q: int)
    requires
        is_run(regions, p, q),
        forall|k: int| p <= k < q ==> (#[trigger] regions[k]).start <= regions[k].end,
    ensures
        regions[p].start <= regions[q - 1].end,
    decreases q - p,
{
    if q - p > 1 {
        lemma_start_le_end_of_run(regions, p, q - 1);
        assert(continues(regions[q - 2], regions[q - 1]));
    }
}

} // verus!
