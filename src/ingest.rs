use vstd::prelude::*;
use crate::memory_map::{count_nonempty, region_le, slots_sorted, MemoryMap, MAX_REGIONS};
use crate::normalize::{first_fatal, has_fatal_overlap, normalized};
use crate::region::{
    descriptor_in_range, frames_of, type_of_code, E820MemoryRegion, MapError, MemoryRegion,
};

verus! {

pub open spec fn known_type(d: E820MemoryRegion) -> bool {
    type_of_code(d.region_type) is Some
}

pub open spec fn all_known(ds: Seq<E820MemoryRegion>) -> bool {
    forall|i: int| 0 <= i < ds.len() ==> known_type(#[trigger] ds[i])
}

/// `k` is the first descriptor whose type code is not known.
pub open spec fn first_unknown(ds: Seq<E820MemoryRegion>, k: int) -> bool {
    &&& 0 <= k < ds.len()
    &&& !known_type(ds[k])
    &&& forall|j: int| 0 <= j < k ==> known_type(#[trigger] ds[j])
}

/// The region that a descriptor of known type converts to.
pub open spec fn region_of(d: E820MemoryRegion) -> MemoryRegion {
    MemoryRegion { range: frames_of(d), region_type: type_of_code(d.region_type)->Some_0 }
}

pub open spec fn regions_of(ds: Seq<E820MemoryRegion>) -> Seq<MemoryRegion> {
    ds.map_values(|d: E820MemoryRegion| region_of(d))
}

/// Inserting the regions one by one never finds the map full: before each
/// insertion fewer than `MAX_REGIONS` non-empty regions came before it.
pub open spec fn fits(regs: Seq<MemoryRegion>) -> bool {
    forall|j: int| 0 <= j < regs.len() ==> count_nonempty(#[trigger] regs.subrange(0, j)) < MAX_REGIONS
}

/// Region `j` is the first whose insertion finds the map full.
pub open spec fn first_overflow(regs: Seq<MemoryRegion>, j: int) -> bool {
    &&& 0 <= j < regs.len()
    &&& count_nonempty(regs.subrange(0, j)) >= MAX_REGIONS
    &&& forall|i: int| 0 <= i < j ==> count_nonempty(#[trigger] regs.subrange(0, i)) < MAX_REGIONS
}

/// `l` is the sorted sequence of the non-empty regions of `regs`.
pub open spec fn arranges(l: Seq<MemoryRegion>, regs: Seq<MemoryRegion>) -> bool {
    &&& slots_sorted(l)
    &&& forall|i: int| 0 <= i < l.len() ==> !(#[trigger] l[i]).range.is_empty()
    &&& forall|x: MemoryRegion|
        !x.range.is_empty() ==> #[trigger] l.to_multiset().count(x) == regs.to_multiset().count(x)
}

proof fn lemma_region_le_antisymmetric(a: MemoryRegion, b: MemoryRegion)
    requires
        !a.range.is_empty(),
        !b.range.is_empty(),
        region_le(a, b),
        region_le(b, a),
    ensures
        a == b,
{
}

proof fn lemma_sorted_same_multiset_equal(s: Seq<MemoryRegion>, t: Seq<MemoryRegion>)
    requires
        slots_sorted(s),
        slots_sorted(t),
        forall|i: int| 0 <= i < s.len() ==> !(#[trigger] s[i]).range.is_empty(),
        forall|i: int| 0 <= i < t.len() ==> !(#[trigger] t[i]).range.is_empty(),
        s.to_multiset() == t.to_multiset(),
    ensures
        s == t,
    decreases s.len(),
{
    broadcast use vstd::seq_lib::group_to_multiset_ensures;

    if s.len() == 0 {
        assert(t.to_multiset().len() == 0);
        assert(s =~= t);
    } else {
        assert(s.to_multiset().count(s[0]) > 0);
        assert(t.contains(s[0]));
        let k = choose|k: int| 0 <= k < t.len() && t[k] == s[0];
        assert(region_le(t[0], s[0])) by {
            if k > 0 {
                assert(region_le(t[0], t[k]));
            }
        }
        assert(t.to_multiset().count(t[0]) > 0);
        assert(s.contains(t[0]));
        let m = choose|m: int| 0 <= m < s.len() && s[m] == t[0];
        assert(region_le(s[0], t[0])) by {
            if m > 0 {
                assert(region_le(s[0], s[m]));
            }
        }
        lemma_region_le_antisymmetric(s[0], t[0]);
        assert(s.remove(0) =~= s.drop_first());
        assert(t.remove(0) =~= t.drop_first());
        assert(s.drop_first().to_multiset() == t.drop_first().to_multiset());
        lemma_sorted_same_multiset_equal(s.drop_first(), t.drop_first());
        assert forall|i: int| 0 <= i < s.len() implies s[i] == t[i] by {
            if i > 0 {
                assert(s[i] == s.drop_first()[i - 1]);
                assert(t[i] == t.drop_first()[i - 1]);
            }
        }
        assert(s =~= t);
    }
}

/// Regions have one sorted arrangement: two sequences that both arrange the
/// non-empty regions of `regs` in order are the same sequence.
pub proof fn lemma_arrangement_unique(l1: Seq<MemoryRegion>, l2: Seq<MemoryRegion>, regs: Seq<MemoryRegion>)
    requires
        arranges(l1, regs),
        arranges(l2, regs),
    ensures
        l1 == l2,
{
    broadcast use vstd::seq_lib::group_to_multiset_ensures;

    assert forall|x: MemoryRegion| #[trigger] l1.to_multiset().count(x) == l2.to_multiset().count(x) by {
        if x.range.is_empty() {
            assert(!l1.contains(x));
            assert(!l2.contains(x));
        }
    }
    assert(l1.to_multiset() =~= l2.to_multiset());
    lemma_sorted_same_multiset_equal(l1, l2);
}

/// Builds the memory map from the firmware's descriptors: every type code is
/// checked first, then each region is inserted in turn (the map sorts itself),
/// and finally usable regions that overlap their successor are trimmed.
pub fn create_from_descriptors(descriptors: &[E820MemoryRegion]) -> (r: Result<MemoryMap, MapError>)
    requires
        forall|i: int| 0 <= i < descriptors@.len() ==> descriptor_in_range(#[trigger] descriptors@[i]),
    ensures
        !all_known(descriptors@) ==> exists|k: int|
            first_unknown(descriptors@, k) && r == Err::<MemoryMap, MapError>(
                MapError::UnknownRegionType(descriptors@[k].region_type),
            ),
        all_known(descriptors@) && !fits(regions_of(descriptors@)) ==> exists|j: int|
            first_overflow(regions_of(descriptors@), j) && r == Err::<MemoryMap, MapError>(
                MapError::CapacityExceeded(regions_of(descriptors@)[j]),
            ),
        all_known(descriptors@) && fits(regions_of(descriptors@)) ==> exists|l: Seq<MemoryRegion>|
            arranges(l, regions_of(descriptors@)) && match r {
                Ok(m) => m.wf() && !has_fatal_overlap(l) && m@ == normalized(l),
                Err(e) => exists|k: int|
                    first_fatal(l, k) && e == MapError::UnresolvedOverlap(l[k], l[k + 1]),
            },
{
    let ghost ds = descriptors@;
    let ghost regs = regions_of(ds);
    let mut i: usize = 0;
    while i < descriptors.len()
        invariant
            ds == descriptors@,
            forall|j: int| 0 <= j < ds.len() ==> descriptor_in_range(#[trigger] ds[j]),
            i <= ds.len(),
            forall|j: int| 0 <= j < i ==> known_type(#[trigger] ds[j]),
        decreases ds.len() - i,
    {
        if let Err(e) = MemoryRegion::from_descriptor(descriptors[i]) {
            proof {
                assert(first_unknown(ds, i as int));
            }
            return Err(e);
        }
        i = i + 1;
    }
    let mut map = MemoryMap::new();
    proof {
        broadcast use vstd::seq_lib::group_to_multiset_ensures;

        assert forall|x: MemoryRegion| !x.range.is_empty() implies map.slots().to_multiset().count(x)
            == regs.subrange(0, 0).to_multiset().count(x) by {
            assert(!map.slots().contains(x));
            assert(regs.subrange(0, 0) =~= Seq::<MemoryRegion>::empty());
        }
        assert(regs.subrange(0, 0) =~= Seq::<MemoryRegion>::empty());
    }
    let mut i: usize = 0;
    while i < descriptors.len()
        invariant
            ds == descriptors@,
            forall|j: int| 0 <= j < ds.len() ==> descriptor_in_range(#[trigger] ds[j]),
            regs == regions_of(ds),
            all_known(ds),
            i <= ds.len(),
            map.wf(),
            forall|x: int| 0 <= x < map@.len() ==> !(#[trigger] map@[x]).range.is_empty(),
            map@.len() == count_nonempty(regs.subrange(0, i as int)),
            forall|x: MemoryRegion|
                !x.range.is_empty() ==> #[trigger] map.slots().to_multiset().count(x)
                    == regs.subrange(0, i as int).to_multiset().count(x),
            forall|j: int|
                0 <= j < i ==> count_nonempty(#[trigger] regs.subrange(0, j)) < MAX_REGIONS,
        decreases ds.len() - i,
    {
        let region = match MemoryRegion::from_descriptor(descriptors[i]) {
            Ok(region) => region,
            Err(e) => {
                return Err(e);
            },
        };
        let ghost before = map;
        proof {
            before.lemma_layout();
        }
        match map.add_region(region) {
            Ok(()) => {},
            Err(e) => {
                proof {
                    assert(first_overflow(regs, i as int));
                    assert(!fits(regs));
                    assert(!(all_known(ds) && fits(regs)));
                }
                return Err(e);
            },
        }
        proof {
            broadcast use vstd::seq_lib::group_to_multiset_ensures;

            let n = before@.len() as int;
            let prev = regs.subrange(0, i as int);
            let next = regs.subrange(0, i + 1);
            assert(region == regs[i as int]);
            assert(next =~= prev.push(region));
            assert(next.drop_last() =~= prev);
            vstd::seq_lib::to_multiset_update(before.slots(), n, region);
            assert forall|x: MemoryRegion| !x.range.is_empty() implies #[trigger] map.slots().to_multiset().count(
                x,
            ) == next.to_multiset().count(x) by {
                assert(x != before.slots()[n]);
            }
        }
        i = i + 1;
    }
    proof {
        assert(regs.subrange(0, ds.len() as int) =~= regs);
    }
    let ghost unsorted = map;
    map.sort();
    let ghost l = map@;
    proof {
        broadcast use vstd::seq_lib::group_to_multiset_ensures;

        map.lemma_layout();
        let tail = map.slots().subrange(l.len() as int, MAX_REGIONS as int);
        assert(map.slots() =~= l + tail);
        vstd::seq_lib::lemma_multiset_commutative(l, tail);
        assert forall|x: MemoryRegion| !x.range.is_empty() implies #[trigger] l.to_multiset().count(x)
            == regs.to_multiset().count(x) by {
            assert(!tail.contains(x));
            assert(map.slots().to_multiset().count(x) == unsorted.slots().to_multiset().count(x));
            assert(unsorted.slots().to_multiset().count(x) == regs.subrange(0, ds.len() as int).to_multiset().count(x));
        }
        assert(arranges(l, regs));
    }
    match map.resolve_overlaps() {
        Ok(()) => Ok(map),
        Err(e) => Err(e),
    }
}

} // verus!
