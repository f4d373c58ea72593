use vstd::prelude::*;
use vstd::set_lib::*;
use vstd::arithmetic::div_mod::{lemma_fundamental_div_mod, lemma_mod_bound};

verus! {

/// Size, in bytes, of the sectors in which a backing store reports its allocation.
pub const SECTOR_SIZE: u64 = 512;

/// Indices of the allocation units of `unit` bytes that share at least one byte
/// with the region `[offset, offset + len)`.
pub open spec fn touched_units(unit: int, offset: int, len: int) -> Set<int> {
    Set::new(|i: int| 0 <= i && 0 < len && i * unit < offset + len && offset < (i + 1) * unit)
}

/// Indices of the allocation units of `unit` bytes that lie wholly inside the
/// region `[offset, offset + len)`.
pub open spec fn covered_units(unit: int, offset: int, len: int) -> Set<int> {
    Set::new(|i: int| 0 <= i && offset <= i * unit && (i + 1) * unit <= offset + len)
}

/// Positions below `n` that hold `true`.
pub open spec fn marked_below(s: Seq<bool>, n: int) -> Set<int> {
    Set::new(|j: int| 0 <= j < n && j < s.len() && s[j])
}

/// A sparse backing store: a byte range split into equal allocation units, each of
/// which is either physically allocated or a hole that reads as zeros.
pub struct SparseStore {
    unit: u64,
    map: Vec<bool>,
}

/// `i * u <= x` exactly when `i` is at most `x / u`, and `x <= i * u` exactly when
/// `i` is at least `x / u` rounded up.
proof fn lemma_unit_index(u: int, x: int, i: int)
    requires
        u > 0,
        x >= 0,
        i >= 0,
    ensures
        (i * u <= x) <==> (i <= x / u),
        (x <= i * u) <==> (x / u < i || (x / u == i && x % u == 0)),
{
    lemma_fundamental_div_mod(x, u);
    lemma_mod_bound(x, u);
    let q = x / u;
    let r = x % u;
    assert(x == u * q + r);
    if i < q {
        assert(i * u <= (q - 1) * u) by (nonlinear_arith)
            requires
                i <= q - 1,
                u > 0,
        ;
        assert((q - 1) * u == u * q - u) by (nonlinear_arith);
    } else if i == q {
        assert(i * u == u * q) by (nonlinear_arith)
            requires
                i == q,
        ;
    } else {
        assert(i * u >= (q + 1) * u) by (nonlinear_arith)
            requires
                i >= q + 1,
                u > 0,
        ;
        assert((q + 1) * u == u * q + u) by (nonlinear_arith);
    }
}

proof fn lemma_marked_below_finite(s: Seq<bool>, n: int)
    requires
        n >= 0,
    ensures
        marked_below(s, n).finite(),
        marked_below(s, n).len() <= n,
{
    lemma_int_range(0, n);
    lemma_len_subset(marked_below(s, n), set_int_range(0, n));
}

impl SparseStore {
    /// Size of one allocation unit in bytes.
    pub closed spec fn unit_size(&self) -> int {
        self.unit as int
    }

    /// Number of allocation units in the store.
    pub closed spec fn units(&self) -> int {
        self.map@.len() as int
    }

    /// Indices of the allocation units that are physically allocated.
    pub closed spec fn allocated(&self) -> Set<int> {
        marked_below(self.map@, self.map@.len() as int)
    }

    /// Number of 512-byte sectors that the allocated units occupy.
    pub open spec fn allocated_sectors(&self) -> int {
        self.allocated().len() * (self.unit_size() / SECTOR_SIZE as int)
    }

    pub closed spec fn wf(&self) -> bool {
        &&& self.unit > 0
        &&& self.unit % SECTOR_SIZE == 0
        &&& self.map@.len() * self.unit <= u64::MAX
    }

    /// The allocated units are a finite set of unit indices inside the store.
    pub proof fn lemma_allocated_in_range(&self)
        requires
            self.wf(),
        ensures
            self.allocated().finite(),
            self.allocated().len() <= self.units(),
            forall|i: int| #[trigger] self.allocated().contains(i) ==> 0 <= i < self.units(),
            self.unit_size() > 0,
            self.unit_size() % SECTOR_SIZE as int == 0,
            self.units() * self.unit_size() <= u64::MAX,
    {
        lemma_marked_below_finite(self.map@, self.map@.len() as int);
    }

    /// Where a byte position inside the store falls: its unit index, rounded down,
    /// is at most the number of units, and below it when the position is not on a
    /// unit boundary; the index and the index after it are below `u64::MAX`.
    proof fn lemma_end_unit(&self, end: u64)
        requires
            self.wf(),
            end <= self.units() * self.unit_size(),
        ensures
            end / self.unit <= self.units(),
            end % self.unit != 0 ==> end / self.unit < self.units(),
            end / self.unit < u64::MAX,
    {
        let u = self.unit as int;
        let n = self.map@.len() as int;
        lemma_unit_index(u, end as int, n);
        lemma_fundamental_div_mod(end as int, u);
        lemma_mod_bound(end as int, u);
        assert(n * u <= u64::MAX);
        assert(n < u64::MAX) by (nonlinear_arith)
            requires
                n * u <= u64::MAX,
                u >= 512,
        ;
    }

    /// A store of `units` allocation units of `unit` bytes each, none of them allocated.
    pub fn new(unit: u64, units: usize) -> (r: SparseStore)
        requires
            unit > 0,
            unit % SECTOR_SIZE == 0,
            units * unit <= u64::MAX,
        ensures
            r.wf(),
            r.unit_size() == unit,
            r.units() == units,
            r.allocated() == Set::<int>::empty(),
            r.allocated_sectors() == 0,
    {
        let mut map: Vec<bool> = Vec::new();
        let mut i: usize = 0;
        while i < units
            invariant
                i <= units,
                map@.len() == i,
                forall|j: int| 0 <= j < i ==> !map@[j],
            decreases units - i,
        {
            map.push(false);
            i += 1;
        }
        let r = SparseStore { unit, map };
        assert(r.allocated() =~= Set::<int>::empty());
        r
    }

    /// Size of one allocation unit in bytes.
    pub fn unit(&self) -> (r: u64)
        ensures
            r == self.unit_size(),
    {
        self.unit
    }

    /// Size of the store in bytes.
    pub fn size(&self) -> (r: u64)
        requires
            self.wf(),
        ensures
            r == self.units() * self.unit_size(),
    {
        self.map.len() as u64 * self.unit
    }

    /// Number of 512-byte sectors that are physically allocated.
    pub fn allocated_blocks(&self) -> (r: u64)
        requires
            self.wf(),
        ensures
            r == self.allocated_sectors(),
    {
        let n = self.map.len();
        let mut count: u64 = 0;
        let mut i: usize = 0;
        assert(marked_below(self.map@, 0) =~= Set::<int>::empty());
        while i < n
            invariant
                n == self.map@.len(),
                i <= n,
                marked_below(self.map@, i as int).finite(),
                count == marked_below(self.map@, i as int).len(),
                count <= i,
            decreases n - i,
        {
            proof {
                lemma_marked_below_finite(self.map@, i as int);
            }
            if self.map[i] {
                assert(marked_below(self.map@, i + 1) =~= marked_below(self.map@, i as int).insert(
                    i as int,
                ));
                count += 1;
            } else {
                assert(marked_below(self.map@, i + 1) =~= marked_below(self.map@, i as int));
            }
            i += 1;
            proof {
                lemma_marked_below_finite(self.map@, i as int);
            }
        }
        let per: u64 = self.unit / SECTOR_SIZE;
        proof {
            let u = self.unit as int;
            assert(count * per <= n * u) by (nonlinear_arith)
                requires
                    count <= n,
                    per <= u,
                    per >= 0,
            ;
        }
        count * per
    }

    /// Writes the region `[offset, offset + len)`: every unit that the region touches
    /// becomes allocated, the others keep their state.
    pub fn write_at(&mut self, offset: u64, len: u64)
        requires
            old(self).wf(),
            offset + len <= old(self).units() * old(self).unit_size(),
        ensures
            final(self).wf(),
            final(self).unit_size() == old(self).unit_size(),
            final(self).units() == old(self).units(),
            final(self).allocated() == old(self).allocated().union(
                touched_units(old(self).unit_size(), offset as int, len as int),
            ),
    {
        if len == 0 {
            assert(touched_units(self.unit as int, offset as int, len as int) =~= Set::empty());
            assert(self.allocated().union(touched_units(self.unit as int, offset as int, len as int))
                =~= self.allocated());
            return;
        }
        let u = self.unit;
        let end = offset + len;
        proof {
            self.lemma_end_unit(end);
        }
        let lo = offset / u;
        let hi = if end % u == 0 {
            end / u
        } else {
            end / u + 1
        };
        let ghost before = self.map@;
        let mut i: u64 = lo;
        while i < hi
            invariant
                self.unit == u,
                self.map@.len() == before.len(),
                lo <= i,
                hi <= before.len(),
                i <= hi || i == lo,
                forall|j: int|
                    0 <= j < before.len() ==> #[trigger] self.map@[j] == (before[j] || (lo <= j
                        < i)),
            decreases hi - i,
        {
            self.map.set(i as usize, true);
            i += 1;
        }
        proof {
            let t = touched_units(u as int, offset as int, len as int);
            assert forall|j: int| #[trigger] t.contains(j) <==> (lo <= j < hi && j >= 0) by {
                if j >= 0 {
                    lemma_unit_index(u as int, offset as int, j + 1);
                    lemma_unit_index(u as int, end as int, j);
                    assert((j + 1) * u == j * u + u) by (nonlinear_arith);
                }
            }
            let a = self.allocated();
            let b = marked_below(before, before.len() as int).union(t);
            assert forall|j: int| #[trigger] a.contains(j) <==> b.contains(j) by {
                if t.contains(j) {
                    assert(lo <= j < hi);
                }
            }
            assert(a =~= b);
        }
    }

    /// Deallocates the region `[offset, offset + len)`: every unit that lies wholly
    /// inside it becomes a hole; a partial unit at either edge is only zeroed and
    /// stays allocated.
    pub fn unmap(&mut self, offset: u64, len: u64)
        requires
            old(self).wf(),
            offset + len <= old(self).units() * old(self).unit_size(),
        ensures
            final(self).wf(),
            final(self).unit_size() == old(self).unit_size(),
            final(self).units() == old(self).units(),
            final(self).allocated() == old(self).allocated().difference(
                covered_units(old(self).unit_size(), offset as int, len as int),
            ),
    {
        let u = self.unit;
        let end = offset + len;
        proof {
            self.lemma_end_unit(end);
            self.lemma_end_unit(offset);
        }
        let lo = if offset % u == 0 {
            offset / u
        } else {
            offset / u + 1
        };
        let hi = end / u;
        let ghost before = self.map@;
        let mut i: u64 = lo;
        while i < hi
            invariant
                self.unit == u,
                self.map@.len() == before.len(),
                lo <= i,
                hi <= before.len(),
                i <= hi || i == lo,
                forall|j: int|
                    0 <= j < before.len() ==> #[trigger] self.map@[j] == (before[j] && !(lo <= j
                        < i)),
            decreases hi - i,
        {
            self.map.set(i as usize, false);
            i += 1;
        }
        proof {
            let c = covered_units(u as int, offset as int, len as int);
            assert forall|j: int| #[trigger] c.contains(j) <==> (lo <= j < hi && j >= 0) by {
                if j >= 0 {
                    lemma_unit_index(u as int, offset as int, j);
                    lemma_unit_index(u as int, end as int, j + 1);
                    assert((j + 1) * u == j * u + u) by (nonlinear_arith);
                }
            }
            let a = self.allocated();
            let b = marked_below(before, before.len() as int).difference(c);
            assert forall|j: int| #[trigger] a.contains(j) <==> b.contains(j) by {
                if c.contains(j) {
                    assert(lo <= j < hi);
                }
            }
            assert(a =~= b);
        }
    }
}

/// A region that starts on a unit boundary and spans `k` whole units covers, and
/// (when `k > 0`) touches, exactly the `k` units that start at its first unit.
proof fn lemma_aligned_region(u: int, offset: int, k: int)
    requires
        u > 0,
        offset >= 0,
        offset % u == 0,
        k >= 0,
    ensures
        covered_units(u, offset, k * u) == set_int_range(offset / u, offset / u + k),
        k > 0 ==> touched_units(u, offset, k * u) == set_int_range(offset / u, offset / u + k),
{
    lemma_fundamental_div_mod(offset, u);
    let q = offset / u;
    assert(offset == q * u) by (nonlinear_arith)
        requires
            offset == u * q + offset % u,
            offset % u == 0,
    ;
    assert forall|i: int| #[trigger] covered_units(u, offset, k * u).contains(i) <==> set_int_range(
        q,
        q + k,
    ).contains(i) by {
        assert((q * u <= i * u) == (q <= i)) by (nonlinear_arith)
            requires
                u > 0,
        ;
        assert(((i + 1) * u <= q * u + k * u) == (i + 1 <= q + k)) by (nonlinear_arith)
            requires
                u > 0,
        ;
    }
    assert(covered_units(u, offset, k * u) =~= set_int_range(q, q + k));
    if k > 0 {
        assert(k * u > 0) by (nonlinear_arith)
            requires
                k > 0,
                u > 0,
        ;
        assert forall|i: int| #[trigger] touched_units(u, offset, k * u).contains(i) <==> set_int_range(
            q,
            q + k,
        ).contains(i) by {
            assert((i * u < q * u + k * u) == (i < q + k)) by (nonlinear_arith)
                requires
                    u > 0,
            ;
            assert((q * u < (i + 1) * u) == (q < i + 1)) by (nonlinear_arith)
                requires
                    u > 0,
            ;
        }
        assert(touched_units(u, offset, k * u) =~= set_int_range(q, q + k));
    }
}

/// Writing `k` whole allocation units, from a unit boundary, into a store with
/// nothing allocated leaves exactly `k` units' worth of sectors allocated.
pub proof fn lemma_write_whole_units(before: SparseStore, after: SparseStore, offset: int, k: int)
    requires
        before.wf(),
        before.allocated() == Set::<int>::empty(),
        offset >= 0,
        k >= 0,
        offset % before.unit_size() == 0,
        offset + k * before.unit_size() <= before.units() * before.unit_size(),
        after.unit_size() == before.unit_size(),
        after.allocated() == before.allocated().union(
            touched_units(before.unit_size(), offset, k * before.unit_size()),
        ),
    ensures
        after.allocated_sectors() == k * (before.unit_size() / SECTOR_SIZE as int),
{
    let u = before.unit_size();
    lemma_aligned_region(u, offset, k);
    lemma_int_range(offset / u, offset / u + k);
    if k > 0 {
        assert(after.allocated() =~= set_int_range(offset / u, offset / u + k));
    } else {
        assert(after.allocated() =~= Set::<int>::empty());
    }
}

/// Unmapping a region shorter than one allocation unit deallocates nothing.
pub proof fn lemma_unmap_short_region(before: SparseStore, after: SparseStore, offset: int, len: int)
    requires
        before.wf(),
        offset >= 0,
        0 <= len < before.unit_size(),
        after.unit_size() == before.unit_size(),
        after.allocated() == before.allocated().difference(
            covered_units(before.unit_size(), offset, len),
        ),
    ensures
        after.allocated() == before.allocated(),
        after.allocated_sectors() == before.allocated_sectors(),
{
    let u = before.unit_size();
    assert forall|i: int| !#[trigger] covered_units(u, offset, len).contains(i) by {
        assert((i + 1) * u == i * u + u) by (nonlinear_arith);
    }
    assert(after.allocated() =~= before.allocated());
}

/// Unmapping a region that starts on a unit boundary and spans `k` whole
/// allocation units, all of them allocated, frees exactly those `k` units.
pub proof fn lemma_unmap_whole_units(before: SparseStore, after: SparseStore, offset: int, k: int)
    requires
        before.wf(),
        offset >= 0,
        k >= 0,
        offset % before.unit_size() == 0,
        covered_units(before.unit_size(), offset, k * before.unit_size()).subset_of(
            before.allocated(),
        ),
        after.unit_size() == before.unit_size(),
        after.allocated() == before.allocated().difference(
            covered_units(before.unit_size(), offset, k * before.unit_size()),
        ),
    ensures
        after.allocated().len() == before.allocated().len() - k,
        after.allocated_sectors() == before.allocated_sectors() - k * (before.unit_size()
            / SECTOR_SIZE as int),
{
    let u = before.unit_size();
    let c = covered_units(u, offset, k * u);
    before.lemma_allocated_in_range();
    lemma_aligned_region(u, offset, k);
    lemma_int_range(offset / u, offset / u + k);
    lemma_set_difference_len(before.allocated(), c);
    assert(before.allocated().intersect(c) =~= c);
    let a = before.allocated().len() as int;
    let per = u / SECTOR_SIZE as int;
    assert((a - k) * per == a * per - k * per) by (nonlinear_arith);
}

} // verus!
