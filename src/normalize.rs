use vstd::prelude::*;
use crate::region::{FrameRange, MemoryRegion, MemoryRegionType};

verus! {

/// Region `i` of `s` reaches past the start of region `i + 1`.
pub open spec fn overlaps_next(s: Seq<MemoryRegion>, i: int) -> bool {
    0 <= i && i + 1 < s.len() && s[i].range.end > s[i + 1].range.start
}

/// Region `i` overlaps the next one and is not usable, so it cannot yield.
pub open spec fn fatal_at(s: Seq<MemoryRegion>, i: int) -> bool {
    overlaps_next(s, i) && s[i].region_type != MemoryRegionType::Usable
}

pub open spec fn has_fatal_overlap(s: Seq<MemoryRegion>) -> bool {
    exists|i: int| fatal_at(s, i)
}

/// `k` is the first place where a region that cannot yield overlaps the next.
pub open spec fn first_fatal(s: Seq<MemoryRegion>, k: int) -> bool {
    fatal_at(s, k) && forall|j: int| 0 <= j < k ==> !fatal_at(s, j)
}

/// Region `i` after the pass: cut back to the start of the next region where it overlaps it.
pub open spec fn trimmed(s: Seq<MemoryRegion>, i: int) -> MemoryRegion {
    if overlaps_next(s, i) {
        MemoryRegion {
            range: FrameRange { start: s[i].range.start, end: s[i + 1].range.start },
            region_type: s[i].region_type,
        }
    } else {
        s[i]
    }
}

/// The regions after one forward pass that trims each usable region overlapping its successor.
pub open spec fn normalized(s: Seq<MemoryRegion>) -> Seq<MemoryRegion> {
    Seq::new(s.len(), |i: int| trimmed(s, i))
}

/// Normalizing what normalization accepted changes nothing more: no region of
/// the result overlaps the next, so a second pass accepts it and returns it as it is.
pub proof fn lemma_normalize_idempotent(s: Seq<MemoryRegion>)
    requires
        !has_fatal_overlap(s),
    ensures
        forall|i: int| !overlaps_next(normalized(s), i),
        !has_fatal_overlap(normalized(s)),
        normalized(normalized(s)) == normalized(s),
{
    let t = normalized(s);
    assert forall|i: int| !overlaps_next(t, i) by {
        if 0 <= i && i + 1 < t.len() {
            assert(t[i] == trimmed(s, i));
            assert(t[i + 1] == trimmed(s, i + 1));
        }
    }
    assert(normalized(t) =~= t);
}

} // verus!
