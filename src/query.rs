use vstd::prelude::*;

use crate::region::{regions, MapRange, MapRangeImpl, RegionView};

verus! {

/// Some region of `rs` holds the address `addr`.
pub open spec fn contains_addr(addr: int, rs: Seq<RegionView>) -> bool {
    exists|i: int| 0 <= i < rs.len() && (#[trigger] rs[i]).holds_addr(addr)
}

/// One single region of `rs` holds the whole non-empty interval `[addr, addr + size)`.
pub open spec fn contains_range(addr: int, size: int, rs: Seq<RegionView>) -> bool {
    exists|i: int| 0 <= i < rs.len() && (#[trigger] rs[i]).holds_range(addr, size)
}

/// Every region is valid, and each ends before the next one starts.
pub open spec fn well_ordered(rs: Seq<RegionView>) -> bool {
    &&& forall|i: int| 0 <= i < rs.len() ==> (#[trigger] rs[i]).valid()
    &&& forall|i: int, j: int| 0 <= i < j < rs.len() ==> (#[trigger] rs[i]).end <= (#[trigger] rs[j]).start
}

/// Whether some region holds `addr` (`start <= addr < end`).
pub fn maps_contain_addr(addr: usize, maps: &[MapRange]) -> (r: bool)
    ensures
        r == contains_addr(addr as int, regions(maps@)),
{
    let ghost rs = regions(maps@);
    let mut i: usize = 0;
    while i < maps.len()
        invariant
            i <= maps@.len(),
            rs == regions(maps@),
            forall|j: int| 0 <= j < i ==> !(#[trigger] rs[j]).holds_addr(addr as int),
        decreases maps@.len() - i,
    {
        let m = &maps[i];
        let start = m.start();
        if addr >= start && addr - start < m.size() {
            assert(rs[i as int].holds_addr(addr as int));
            return true;
        }
        i = i + 1;
    }
    false
}

/// Whether one single region holds the whole interval `[addr, addr + size)`.
/// An empty interval is never held, nor one whose end overflows; an interval
/// that runs on from one region into the next is not held either.
pub fn maps_contain_addr_range(addr: usize, size: usize, maps: &[MapRange]) -> (r: bool)
    ensures
        r == contains_range(addr as int, size as int, regions(maps@)),
        size == 0 ==> !r,
{
    let ghost rs = regions(maps@);
    if size == 0 {
        return false;
    }
    let last = match addr.checked_add(size) {
        Some(v) => v,
        None => {
            assert forall|i: int| 0 <= i < rs.len() implies !(#[trigger] rs[i]).holds_range(
                addr as int,
                size as int,
            ) by {};
            return false;
        },
    };
    let mut i: usize = 0;
    while i < maps.len()
        invariant
            i <= maps@.len(),
            rs == regions(maps@),
            last == addr + size,
            size > 0,
            forall|j: int| 0 <= j < i ==> !(#[trigger] rs[j]).holds_range(addr as int, size as int),
        decreases maps@.len() - i,
    {
        let m = &maps[i];
        let start = m.start();
        let end = m.end();
        if start <= addr && last <= end {
            assert(rs[i as int].holds_range(addr as int, size as int));
            return true;
        }
        i = i + 1;
    }
    false
}

/// The first region that holds `addr`, if any.
pub fn map_containing_addr(addr: usize, maps: &[MapRange]) -> (r: Option<&MapRange>)
    ensures
        r is Some <==> contains_addr(addr as int, regions(maps@)),
        r is Some ==> exists|i: int|
            0 <= i < maps@.len() && maps@[i] == *r->0 && (#[trigger] regions(maps@)[i]).holds_addr(
                addr as int,
            ) && forall|j: int| 0 <= j < i ==> !(#[trigger] regions(maps@)[j]).holds_addr(addr as int),
{
    let ghost rs = regions(maps@);
    let mut i: usize = 0;
    while i < maps.len()
        invariant
            i <= maps@.len(),
            rs == regions(maps@),
            forall|j: int| 0 <= j < i ==> !(#[trigger] rs[j]).holds_addr(addr as int),
        decreases maps@.len() - i,
    {
        let m = &maps[i];
        let start = m.start();
        if addr >= start && addr - start < m.size() {
            assert(rs[i as int].holds_addr(addr as int));
            return Some(m);
        }
        i = i + 1;
    }
    None
}

/// In a well-ordered collection every region holds its own start address, and
/// its end address is held by some region exactly where another region starts
/// at that address.
pub proof fn lemma_start_held_end_not(rs: Seq<RegionView>, i: int)
    requires
        well_ordered(rs),
        0 <= i < rs.len(),
    ensures
        contains_addr(rs[i].start as int, rs),
        contains_addr(rs[i].end as int, rs) <==> exists|j: int|
            0 <= j < rs.len() && j != i && (#[trigger] rs[j]).start == rs[i].end,
{
    assert(rs[i].valid());
    assert(rs[i].holds_addr(rs[i].start as int));
    if contains_addr(rs[i].end as int, rs) {
        let k = choose|k: int| 0 <= k < rs.len() && (#[trigger] rs[k]).holds_addr(rs[i].end as int);
        if k < i {
            assert(rs[k].end <= rs[i].start);
        } else if k > i {
            assert(rs[i].end <= rs[k].start);
        }
        assert(k != i && rs[k].start == rs[i].end);
    }
    if exists|j: int| 0 <= j < rs.len() && j != i && (#[trigger] rs[j]).start == rs[i].end {
        let j = choose|j: int| 0 <= j < rs.len() && j != i && (#[trigger] rs[j]).start == rs[i].end;
        assert(rs[j].valid());
        assert(rs[j].holds_addr(rs[i].end as int));
    }
}

/// An empty interval is held by no region, whatever its address.
pub proof fn lemma_empty_range_not_held(addr: int, rs: Seq<RegionView>)
    ensures
        !contains_range(addr, 0, rs),
{
}

/// In a well-ordered collection, an interval that starts in one region and
/// runs past that region's end is not held, even where the next region
/// continues the address space.
pub proof fn lemma_range_across_end_not_held(rs: Seq<RegionView>, i: int, addr: int, size: int)
    requires
        well_ordered(rs),
        0 <= i < rs.len(),
        rs[i].holds_addr(addr),
        addr + size > rs[i].end,
    ensures
        !contains_range(addr, size, rs),
{
    if contains_range(addr, size, rs) {
        let k = choose|k: int| 0 <= k < rs.len() && (#[trigger] rs[k]).holds_range(addr, size);
        if k < i {
            assert(rs[k].end <= rs[i].start);
        } else if k > i {
            assert(rs[i].end <= rs[k].start);
        }
    }
}

/// An interval whose end lies past the largest address is held by no region.
pub proof fn lemma_overflowing_range_not_held(addr: int, size: int, rs: Seq<RegionView>)
    requires
        addr + size > usize::MAX,
    ensures
        !contains_range(addr, size, rs),
{
}

} // verus!
