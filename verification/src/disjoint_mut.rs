//! Index-addressed buffers and a tracker of disjoint borrowed regions.
use vstd::prelude::*;

verus! {

/// A buffer addressed by index, written in place or by ranges.
pub struct DisjointMut<T> {
    data: Vec<T>,
}

impl<T> View for DisjointMut<T> {
    type V = Seq<T>;

    open spec fn view(&self) -> Seq<T> {
        self.spec_data()
    }
}

impl<T> DisjointMut<T> {
    /// The contents of the buffer.
    pub closed spec fn spec_data(&self) -> Seq<T> {
        self.data@
    }
}

/// Every element of `s` is a clone of `d`.
pub open spec fn filled_with_clones_of<T: Clone>(d: T, s: Seq<T>) -> bool {
    forall|i: int| 0 <= i < s.len() ==> cloned(d, #[trigger] s[i])
}

impl<T: Default + Clone> DisjointMut<T> {
    /// A buffer of `size` elements, each a clone of one `T::default()` value.
    pub fn new(size: usize) -> (r: Self)
        ensures
            r@.len() == size,
            exists|d: T| #[trigger] filled_with_clones_of(d, r@),
    {
        let d = T::default();
        let data = vec![d; size];
        proof {
            assert(filled_with_clones_of(d, data@));
        }
        DisjointMut { data }
    }

    /// A buffer holding `data`.
    pub fn from_vec(data: Vec<T>) -> (r: Self)
        ensures r@ == data@,
    {
        DisjointMut { data }
    }

    /// Number of elements.
    pub fn len(&self) -> (r: usize)
        ensures r == self@.len(),
    {
        self.data.len()
    }

    /// True when the buffer holds no element.
    pub fn is_empty(&self) -> (r: bool)
        ensures r == (self@.len() == 0),
    {
        self.data.len() == 0
    }

    /// The element at `index`.
    pub fn read(&self, index: usize) -> (r: &T)
        requires index < self@.len(),
        ensures *r == self@[index as int],
    {
        &self.data[index]
    }

    /// The elements at positions `start..end`.
    pub fn read_range(&self, start: usize, end: usize) -> (r: &[T])
        requires start <= end <= self@.len(),
        ensures r@ == self@.subrange(start as int, end as int),
    {
        vstd::slice::slice_subrange(self.data.as_slice(), start, end)
    }

    /// Store `value` at `index`.
    pub fn write(&mut self, index: usize, value: T)
        requires index < old(self)@.len(),
        ensures final(self)@ == old(self)@.update(index as int, value),
    {
        self.data.set(index, value);
    }

    /// Store clones of `values` at positions `start..start + values.len()`.
    pub fn write_range(&mut self, start: usize, values: &[T])
        requires start + values@.len() <= old(self)@.len(),
        ensures
            final(self)@.len() == old(self)@.len(),
            forall|i: int| 0 <= i < start ==> #[trigger] final(self)@[i] == old(self)@[i],
            forall|i: int| start + values@.len() <= i < old(self)@.len() ==> #[trigger] final(self)@[i] == old(self)@[i],
            forall|i: int| 0 <= i < values@.len() ==> cloned(values@[i], #[trigger] final(self)@[start + i]),
    {
        let n = values.len();
        let mut k: usize = 0;
        while k < n
            invariant
                n == values@.len(),
                start + n <= old(self)@.len(),
                start + n <= self.data.len(),
                k <= n,
                self@.len() == old(self)@.len(),
                forall|i: int| 0 <= i < start ==> #[trigger] self@[i] == old(self)@[i],
                forall|i: int| start + k <= i < old(self)@.len() ==> #[trigger] self@[i] == old(self)@[i],
                forall|i: int| 0 <= i < k ==> cloned(values@[i], #[trigger] self@[start + i]),
            decreases n - k,
        {
            let v = values[k].clone();
            self.data.set(start + k, v);
            k = k + 1;
        }
    }

    /// The whole buffer as a mutable slice.
    pub fn as_mut_slice(&mut self) -> (r: &mut [T])
        ensures
            r@ == old(self)@,
            final(self)@ == final(r)@,
    {
        self.data.as_mut_slice()
    }

    /// The whole buffer as a slice.
    pub fn as_slice(&self) -> (r: &[T])
        ensures r@ == self@,
    {
        self.data.as_slice()
    }

    /// The positions `start..end` as a mutable slice; writes through it land there.
    pub fn region_mut(&mut self, start: usize, end: usize) -> (r: &mut [T])
        requires start <= end <= old(self)@.len(),
        ensures
            r@ == old(self)@.subrange(start as int, end as int),
            final(self)@ == old(self)@.subrange(0, start as int) + final(r)@
                + old(self)@.subrange(end as int, old(self)@.len() as int),
    {
        let whole = self.data.as_mut_slice();
        let (_, tail) = whole.split_at_mut(start);
        let (mid, _) = tail.split_at_mut(end - start);
        mid
    }
}

/// A half-open range `start..end` of buffer positions.
#[derive(Debug, Clone, Copy, PartialEq, Eq, Structural)]
pub struct Region {
    pub start: usize,
    pub end: usize,
}

/// Two ranges overlap when each starts before the other ends.
pub open spec fn spec_overlaps(a: Region, b: Region) -> bool {
    a.start < b.end && b.start < a.end
}

impl Region {
    /// The range `start..end`.
    pub fn new(start: usize, end: usize) -> (r: Self)
        requires start <= end,
        ensures r.start == start && r.end == end,
    {
        Region { start, end }
    }

    /// True when the two ranges share a position.
    pub fn overlaps(&self, other: &Region) -> (r: bool)
        ensures r == spec_overlaps(*self, *other),
    {
        self.start < other.end && other.start < self.end
    }

    /// Number of positions in the range.
    pub fn len(&self) -> (r: usize)
        requires self.start <= self.end,
        ensures r == self.end - self.start,
    {
        self.end - self.start
    }

    /// True when the range holds no position.
    pub fn is_empty(&self) -> (r: bool)
        ensures r == (self.start == self.end),
    {
        self.start == self.end
    }
}

/// Overlap law: overlap is symmetric, and ranges that meet end to start do not overlap.
pub proof fn lemma_overlap_symmetric_adjacent(a: Region, b: Region)
    ensures
        spec_overlaps(a, b) == spec_overlaps(b, a),
        a.end == b.start ==> !spec_overlaps(a, b),
{
}

/// Records the regions currently borrowed.
pub struct BorrowTracker {
    active: Vec<Region>,
}

impl View for BorrowTracker {
    type V = Seq<Region>;

    open spec fn view(&self) -> Seq<Region> {
        self.spec_active()
    }
}

/// No two recorded regions overlap.
pub open spec fn pairwise_disjoint(s: Seq<Region>) -> bool {
    forall|i: int, j: int| 0 <= i < s.len() && 0 <= j < s.len() && i != j
        ==> !spec_overlaps(#[trigger] s[i], #[trigger] s[j])
}

/// The first position of `r` in `s`, when it occurs there.
pub open spec fn first_index_of(s: Seq<Region>, r: Region) -> int {
    choose|p: int| 0 <= p < s.len() && s[p] == r && forall|q: int| 0 <= q < p ==> s[q] != r
}

impl BorrowTracker {
    /// The regions currently borrowed, in the order kept.
    pub closed spec fn spec_active(&self) -> Seq<Region> {
        self.active@
    }

    /// A tracker with no borrowed region.
    pub fn new() -> (r: Self)
        ensures r@ == Seq::<Region>::empty(),
    {
        BorrowTracker { active: Vec::new() }
    }

    /// Record `region` as borrowed; it must not overlap any region already borrowed.
    pub fn borrow(&mut self, region: Region)
        requires forall|i: int| 0 <= i < old(self)@.len() ==> !spec_overlaps(region, #[trigger] old(self)@[i]),
        ensures
            final(self)@ == old(self)@.push(region),
            pairwise_disjoint(old(self)@) ==> pairwise_disjoint(final(self)@),
    {
        self.active.push(region);
    }

    /// Forget the first recorded copy of `region`; the last entry takes its place.
    pub fn release(&mut self, region: Region)
        ensures
            !old(self)@.contains(region) ==> final(self)@ == old(self)@,
            old(self)@.contains(region) ==> ({
                let p = first_index_of(old(self)@, region);
                final(self)@ == old(self)@.update(p, old(self)@.last()).drop_last()
            }),
            pairwise_disjoint(old(self)@) ==> pairwise_disjoint(final(self)@),
    {
        let n = self.active.len();
        let mut i: usize = 0;
        while i < n
            invariant
                n == self.active@.len(),
                self@ == old(self)@,
                i <= n,
                forall|q: int| 0 <= q < i ==> self.active@[q] != region,
            decreases n - i,
        {
            if self.active[i] == region {
                proof {
                    assert(old(self)@[i as int] == region);
                    let p = first_index_of(old(self)@, region);
                    assert(0 <= p < old(self)@.len() && old(self)@[p] == region
                        && forall|q: int| 0 <= q < p ==> old(self)@[q] != region);
                    assert(p == i);
                }
                let ghost before = self.active@;
                self.active.swap_remove(i);
                proof {
                    let after = self.active@;
                    assert(after =~= before.update(i as int, before.last()).drop_last());
                    if pairwise_disjoint(before) {
                        assert forall|a: int, b: int| 0 <= a < after.len() && 0 <= b < after.len() && a != b
                            implies !spec_overlaps(#[trigger] after[a], #[trigger] after[b]) by {
                            let ia = if a == i { before.len() - 1 } else { a };
                            let ib = if b == i { before.len() - 1 } else { b };
                            assert(after[a] == before[ia]);
                            assert(after[b] == before[ib]);
                        }
                    }
                }
                return;
            }
            i = i + 1;
        }
        proof {
            assert(!old(self)@.contains(region));
        }
    }

    /// True when some region is borrowed.
    pub fn has_active_borrows(&self) -> (r: bool)
        ensures r == (self@.len() > 0),
    {
        self.active.len() > 0
    }
}

} // verus!
