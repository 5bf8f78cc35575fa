use vstd::prelude::*;
use vstd::slice::slice_subrange;
use crate::normalize::{fatal_at, first_fatal, has_fatal_overlap, normalized, trimmed};
use crate::region::{type_rank, FrameRange, MapError, MemoryRegion, MemoryRegionType};

verus! {

/// Number of slots in a memory map.
pub const MAX_REGIONS: usize = 32;

/// Order on the ranges of two regions: by start, then by end, then by the
/// position of the type (so a usable region comes before others on the same range).
pub open spec fn key_le(a: MemoryRegion, b: MemoryRegion) -> bool {
    ||| a.range.start < b.range.start
    ||| (a.range.start == b.range.start && a.range.end < b.range.end)
    ||| (a.range.start == b.range.start && a.range.end == b.range.end && type_rank(a.region_type)
        <= type_rank(b.region_type))
}

/// Order of slots: every empty region sorts after every non-empty one.
pub open spec fn region_le(a: MemoryRegion, b: MemoryRegion) -> bool {
    b.range.is_empty() || (!a.range.is_empty() && key_le(a, b))
}

pub open spec fn slots_sorted(s: Seq<MemoryRegion>) -> bool {
    forall|i: int, j: int| 0 <= i < j < s.len() ==> region_le(#[trigger] s[i], #[trigger] s[j])
}

/// No two regions of `s` have the same range.
pub open spec fn distinct_ranges(s: Seq<MemoryRegion>) -> bool {
    forall|i: int, j: int| 0 <= i < j < s.len() ==> (#[trigger] s[i]).range != (#[trigger] s[j]).range
}

/// Ranges strictly ascend by `(start, end)`.
pub open spec fn strictly_ascending(s: Seq<MemoryRegion>) -> bool {
    forall|i: int, j: int|
        0 <= i < j < s.len() ==> {
            ||| (#[trigger] s[i]).range.start < (#[trigger] s[j]).range.start
            ||| (s[i].range.start == s[j].range.start && s[i].range.end < s[j].range.end)
        }
}

/// How many regions of `s` are not empty.
pub open spec fn count_nonempty(s: Seq<MemoryRegion>) -> nat
    decreases s.len(),
{
    if s.len() == 0 {
        0
    } else {
        count_nonempty(s.drop_last()) + if s.last().range.is_empty() {
            0nat
        } else {
            1nat
        }
    }
}

proof fn lemma_region_le_total(a: MemoryRegion, b: MemoryRegion)
    ensures
        region_le(a, b) || region_le(b, a),
{
}

proof fn lemma_region_le_trans(a: MemoryRegion, b: MemoryRegion, c: MemoryRegion)
    requires
        region_le(a, b),
        region_le(b, c),
    ensures
        region_le(a, c),
{
}

proof fn lemma_count_split(s: Seq<MemoryRegion>, k: int)
    requires
        0 <= k <= s.len(),
    ensures
        count_nonempty(s) == count_nonempty(s.subrange(0, k)) + count_nonempty(
            s.subrange(k, s.len() as int),
        ),
    decreases s.len(),
{
    if k == s.len() {
        assert(s.subrange(0, k) =~= s);
        assert(s.subrange(k, s.len() as int) =~= Seq::<MemoryRegion>::empty());
    } else {
        let dl = s.drop_last();
        lemma_count_split(dl, k);
        assert(dl.subrange(0, k) =~= s.subrange(0, k));
        assert(s.subrange(k, s.len() as int).drop_last() =~= dl.subrange(k, dl.len() as int));
    }
}

proof fn lemma_count_remove(s: Seq<MemoryRegion>, k: int)
    requires
        0 <= k < s.len(),
    ensures
        count_nonempty(s) == count_nonempty(s.remove(k)) + if s[k].range.is_empty() {
            0nat
        } else {
            1nat
        },
{
    let r = s.remove(k);
    lemma_count_split(s, k);
    lemma_count_split(s.subrange(k, s.len() as int), 1);
    lemma_count_split(r, k);
    assert(r.subrange(0, k) =~= s.subrange(0, k));
    assert(r.subrange(k, r.len() as int) =~= s.subrange(k + 1, s.len() as int));
    assert(s.subrange(k, s.len() as int).subrange(1, s.len() - k) =~= s.subrange(
        k + 1,
        s.len() as int,
    ));
    let one = s.subrange(k, s.len() as int).subrange(0, 1);
    assert(one.drop_last() =~= Seq::<MemoryRegion>::empty());
    assert(one.last() == s[k]);
    assert(count_nonempty(one.drop_last()) == 0);
    assert(count_nonempty(one) == if s[k].range.is_empty() {
        0nat
    } else {
        1nat
    });
}

/// Sequences that hold the same regions hold as many non-empty ones.
pub proof fn lemma_count_same_multiset(s: Seq<MemoryRegion>, t: Seq<MemoryRegion>)
    requires
        s.to_multiset() == t.to_multiset(),
    ensures
        count_nonempty(s) == count_nonempty(t),
    decreases s.len(),
{
    broadcast use vstd::seq_lib::group_to_multiset_ensures;

    if s.len() == 0 {
        assert(t.to_multiset().len() == 0);
        assert(t =~= Seq::<MemoryRegion>::empty());
    } else {
        let x = s.last();
        let dl = s.drop_last();
        assert(s =~= dl.push(x));
        assert(s.to_multiset().count(x) > 0);
        assert(t.contains(x));
        let k = choose|k: int| 0 <= k < t.len() && t[k] == x;
        assert(t.remove(k).to_multiset() == t.to_multiset().remove(x));
        assert(dl.push(x).to_multiset() == dl.to_multiset().insert(x));
        assert(dl.to_multiset() =~= t.remove(k).to_multiset());
        lemma_count_same_multiset(dl, t.remove(k));
        lemma_count_remove(t, k);
    }
}

/// A sequence whose first `k` regions are non-empty and the rest empty holds `k` non-empty ones.
proof fn lemma_count_layout(s: Seq<MemoryRegion>, k: int)
    requires
        0 <= k <= s.len(),
        forall|i: int| 0 <= i < k ==> !(#[trigger] s[i]).range.is_empty(),
        forall|i: int| k <= i < s.len() ==> (#[trigger] s[i]).range.is_empty(),
    ensures
        count_nonempty(s) == k,
    decreases s.len(),
{
    if s.len() > 0 {
        if k == s.len() {
            lemma_count_layout(s.drop_last(), k - 1);
        } else {
            lemma_count_layout(s.drop_last(), k);
        }
    }
}

/// A fixed-capacity map of memory regions. The live regions are the first
/// `next_entry_index` slots; every slot after them holds an empty range.
pub struct MemoryMap {
    entries: [MemoryRegion; 32],
    next_entry_index: u64,
}

impl View for MemoryMap {
    type V = Seq<MemoryRegion>;

    /// The live regions, in slot order.
    closed spec fn view(&self) -> Seq<MemoryRegion> {
        self.entries@.subrange(0, self.next_entry_index as int)
    }
}

impl MemoryMap {
    /// Every slot of the map, live or not.
    pub closed spec fn slots(&self) -> Seq<MemoryRegion> {
        self.entries@
    }

    /// The live count is within capacity and every slot after the live ones is empty.
    pub closed spec fn wf(&self) -> bool {
        &&& self.next_entry_index <= 32
        &&& forall|i: int|
            self.next_entry_index <= i < 32 ==> (#[trigger] self.entries@[i]).range.is_empty()
    }

    /// How the live regions and the slots relate in a well-formed map.
    pub proof fn lemma_layout(&self)
        requires
            self.wf(),
        ensures
            self.slots().len() == MAX_REGIONS,
            self@.len() <= MAX_REGIONS,
            self@ == self.slots().subrange(0, self@.len() as int),
            forall|i: int|
                self@.len() <= i < MAX_REGIONS ==> (#[trigger] self.slots()[i]).range.is_empty(),
    {
    }

    /// A map whose slots all hold the empty sentinel.
    pub fn new() -> (r: MemoryMap)
        ensures
            r.wf(),
            r@.len() == 0,
            r.slots() == Seq::new(MAX_REGIONS as nat, |i: int| crate::region::empty_region()),
    {
        let m = MemoryMap { entries: [MemoryRegion::empty(); 32], next_entry_index: 0 };
        assert(m.slots() =~= Seq::new(MAX_REGIONS as nat, |i: int| crate::region::empty_region()));
        m
    }

    /// Number of live regions.
    pub fn len(&self) -> (r: usize)
        requires
            self.wf(),
        ensures
            r == self@.len(),
    {
        self.next_entry_index as usize
    }

    /// The live regions, in order.
    pub fn regions(&self) -> (r: &[MemoryRegion])
        requires
            self.wf(),
        ensures
            r@ == self@,
    {
        let n = self.next_entry_index as usize;
        let s = self.entries.as_slice();
        slice_subrange(s, 0, n)
    }
}

/// Whether `a` belongs at or before `b` in a sorted map.
fn sorts_before_or_eq(a: &MemoryRegion, b: &MemoryRegion) -> (r: bool)
    ensures
        r == region_le(*a, *b),
{
    if b.range.is_empty() {
        true
    } else if a.range.is_empty() {
        false
    } else if a.range.start != b.range.start {
        a.range.start < b.range.start
    } else if a.range.end != b.range.end {
        a.range.end < b.range.end
    } else {
        a.region_type.rank() <= b.region_type.rank()
    }
}

impl MemoryMap {
    /// Sorts the slots (non-empty regions by start, then end, then type; empty
    /// ones last) and makes the live count the number of non-empty regions.
    pub fn sort(&mut self)
        ensures
            final(self).wf(),
            final(self).slots().to_multiset() == old(self).slots().to_multiset(),
            slots_sorted(final(self).slots()),
            final(self).slots().len() == MAX_REGIONS,
            final(self)@ == final(self).slots().subrange(0, final(self)@.len() as int),
            forall|i: int|
                final(self)@.len() <= i < MAX_REGIONS ==> (#[trigger] final(self).slots()[i]).range.is_empty(),
            forall|i: int|
                0 <= i < final(self)@.len() ==> !(#[trigger] final(self)@[i]).range.is_empty(),
            final(self)@.len() == count_nonempty(old(self).slots()),
            distinct_ranges(final(self)@) ==> strictly_ascending(final(self)@),
    {
        let mut i: usize = 1;
        while i < MAX_REGIONS
            invariant
                1 <= i <= MAX_REGIONS,
                self.entries@.len() == MAX_REGIONS,
                self.entries@.to_multiset() == old(self).entries@.to_multiset(),
                forall|x: int, y: int|
                    0 <= x < y < i ==> region_le(
                        #[trigger] self.entries@[x],
                        #[trigger] self.entries@[y],
                    ),
            decreases MAX_REGIONS - i,
        {
            let mut j: usize = i;
            while j > 0 && !sorts_before_or_eq(&self.entries[j - 1], &self.entries[j])
                invariant
                    0 <= j <= i < MAX_REGIONS,
                    self.entries@.len() == MAX_REGIONS,
                    self.entries@.to_multiset() == old(self).entries@.to_multiset(),
                    forall|x: int, y: int|
                        0 <= x < y <= i && x != j && y != j ==> region_le(
                            #[trigger] self.entries@[x],
                            #[trigger] self.entries@[y],
                        ),
                    forall|y: int|
                        j < y <= i ==> region_le(self.entries@[j as int], #[trigger] self.entries@[y]),
                decreases j,
            {
                let a = self.entries[j - 1];
                let b = self.entries[j];
                proof {
                    lemma_region_le_total(a, b);
                    let e = self.entries@;
                    vstd::seq_lib::to_multiset_update(e, j - 1, b);
                    vstd::seq_lib::to_multiset_update(e.update(j - 1, b), j as int, a);
                    broadcast use vstd::seq_lib::group_to_multiset_ensures;

                    assert(e.contains(a));
                    assert(e.to_multiset().count(a) > 0);
                    assert(e.to_multiset().insert(b).remove(a).insert(a).remove(b) =~= e.to_multiset());
                }
                self.entries[j - 1] = b;
                self.entries[j] = a;
                j = j - 1;
            }
            proof {
                let e = self.entries@;
                if j > 0 {
                    assert forall|x: int| 0 <= x < j implies region_le(e[x], e[j as int]) by {
                        if x < j - 1 {
                            lemma_region_le_trans(e[x], e[j - 1], e[j as int]);
                        }
                    }
                }
            }
            i = i + 1;
        }
        let mut k: usize = 0;
        while k < MAX_REGIONS && !self.entries[k].range.is_empty()
            invariant
                k <= MAX_REGIONS,
                self.entries@.len() == MAX_REGIONS,
                forall|x: int| 0 <= x < k ==> !(#[trigger] self.entries@[x]).range.is_empty(),
            decreases MAX_REGIONS - k,
        {
            k = k + 1;
        }
        self.next_entry_index = k as u64;
        proof {
            let e = self.entries@;
            assert forall|x: int| k <= x < MAX_REGIONS implies (#[trigger] e[x]).range.is_empty() by {
                if x > k {
                    assert(region_le(e[k as int], e[x]));
                }
            }
            lemma_count_layout(e, k as int);
            lemma_count_same_multiset(e, old(self).entries@);
        }
    }

    /// Adds a region to a map that has a free slot, then sorts the map. On a
    /// full map nothing changes and the region comes back in the error.
    pub fn add_region(&mut self, region: MemoryRegion) -> (r: Result<(), MapError>)
        requires
            old(self).wf(),
        ensures
            final(self).wf(),
            r is Ok <==> old(self)@.len() < MAX_REGIONS,
            r is Err ==> r == Err::<(), MapError>(MapError::CapacityExceeded(region)),
            r is Err ==> *final(self) == *old(self),
            r is Ok ==> {
                &&& final(self).slots().to_multiset() == old(self).slots().update(
                    old(self)@.len() as int,
                    region,
                ).to_multiset()
                &&& slots_sorted(final(self).slots())
                &&& final(self)@ == final(self).slots().subrange(0, final(self)@.len() as int)
                &&& forall|i: int|
                    final(self)@.len() <= i < MAX_REGIONS ==> (#[trigger] final(self).slots()[i]).range.is_empty()
                &&& forall|i: int|
                    0 <= i < final(self)@.len() ==> !(#[trigger] final(self)@[i]).range.is_empty()
                &&& final(self)@.len() == count_nonempty(
                    old(self).slots().update(old(self)@.len() as int, region),
                )
                &&& distinct_ranges(final(self)@) ==> strictly_ascending(final(self)@)
            },
            r is Ok && (forall|i: int|
                0 <= i < old(self)@.len() ==> !(#[trigger] old(self)@[i]).range.is_empty())
                ==> final(self)@.len() == old(self)@.len() + if region.range.is_empty() {
                0nat
            } else {
                1nat
            },
    {
        if self.next_entry_index >= 32 {
            return Err(MapError::CapacityExceeded(region));
        }
        let i = self.next_entry_index as usize;
        self.entries[i] = region;
        self.next_entry_index = self.next_entry_index + 1;
        proof {
            let e = self.entries@;
            if forall|x: int| 0 <= x < i ==> !(#[trigger] old(self)@[x]).range.is_empty() {
                assert forall|x: int| 0 <= x < i implies !(#[trigger] e[x]).range.is_empty() by {
                    assert(e[x] == old(self)@[x]);
                }
                if region.range.is_empty() {
                    lemma_count_layout(e, i as int);
                } else {
                    lemma_count_layout(e, i + 1);
                }
            }
        }
        self.sort();
        Ok(())
    }
}

impl MemoryMap {
    /// Trims each usable live region that overlaps the next one back to where
    /// the next one starts. Where a region that is not usable overlaps the next,
    /// the map is left as it was and the first such pair is reported.
    pub fn resolve_overlaps(&mut self) -> (r: Result<(), MapError>)
        requires
            old(self).wf(),
        ensures
            final(self).wf(),
            r is Ok <==> !has_fatal_overlap(old(self)@),
            r is Ok ==> final(self)@ == normalized(old(self)@),
            r is Ok ==> final(self).slots() == normalized(old(self)@) + old(self).slots().subrange(
                old(self)@.len() as int,
                MAX_REGIONS as int,
            ),
            r is Err ==> *final(self) == *old(self),
            r is Err ==> exists|k: int|
                first_fatal(old(self)@, k) && r == Err::<(), MapError>(
                    MapError::UnresolvedOverlap(old(self)@[k], old(self)@[k + 1]),
                ),
    {
        let n = self.next_entry_index as usize;
        let ghost live = self@;
        let mut entries = self.entries;
        let mut i: usize = 0;
        while i + 1 < n
            invariant
                self.wf(),
                live == old(self)@,
                n == live.len(),
                n == self.next_entry_index,
                n <= MAX_REGIONS,
                live == self.entries@.subrange(0, n as int),
                i <= MAX_REGIONS,
                i <= n || i == 0,
                entries@.len() == MAX_REGIONS,
                forall|x: int| 0 <= x < i ==> #[trigger] entries@[x] == trimmed(live, x),
                forall|x: int| 0 <= x < i ==> !#[trigger] fatal_at(live, x),
                forall|x: int| i <= x < MAX_REGIONS ==> #[trigger] entries@[x] == self.entries@[x],
            decreases n - i,
        {
            let cur = entries[i];
            let next = entries[i + 1];
            if cur.range.end > next.range.start {
                if cur.region_type == MemoryRegionType::Usable {
                    entries[i] = MemoryRegion {
                        range: FrameRange { start: cur.range.start, end: next.range.start },
                        region_type: cur.region_type,
                    };
                } else {
                    proof {
                        assert(first_fatal(live, i as int));
                    }
                    return Err(MapError::UnresolvedOverlap(cur, next));
                }
            }
            i = i + 1;
        }
        proof {
            assert forall|x: int| 0 <= x < n implies #[trigger] entries@[x] == trimmed(live, x) by {
                if x >= i {
                    assert(!crate::normalize::overlaps_next(live, x));
                    assert(live[x] == self.entries@[x]);
                }
            }
            assert forall|x: int| n <= x < MAX_REGIONS implies #[trigger] entries@[x]
                == self.entries@[x] by {}
            assert(!has_fatal_overlap(live));
            assert(entries@ =~= normalized(live) + self.entries@.subrange(n as int, MAX_REGIONS as int));
        }
        self.entries = entries;
        proof {
            assert(self@ =~= normalized(live));
        }
        Ok(())
    }
}

} // verus!
