//! Compressed sparse storage, shared by the CSC and CSR formats.
//!
//! A `CsMatrix` holds one slice of entries per *major* index (a column for
//! CSC, a row for CSR): `offsets` marks where each slice begins and ends
//! inside the parallel `minor_indices` / `values` arrays. The invariant
//! `wf` keeps the offsets monotone with first element 0 and last element
//! the number of stored entries, every minor index in bounds, and every
//! slice strictly ascending in its minor indices, so each `(major, minor)`
//! cell is stored at most once and `at` is well defined.

use vstd::prelude::*;
use crate::SparseFormatError;
use crate::sums::range_has_minor;

verus! {

/// Compressed storage: one sorted slice of `(minor, value)` pairs per
/// major index.
pub struct CsMatrix {
    pub major_dim: usize,
    pub minor_dim: usize,
    pub offsets: Vec<usize>,
    pub minor_indices: Vec<usize>,
    pub values: Vec<i64>,
}

impl CsMatrix {
    /// The number of explicitly stored entries.
    pub open spec fn nnz(&self) -> int {
        self.minor_indices@.len() as int
    }

    /// The first entry position of the slice of major index `maj`.
    pub open spec fn lo(&self, maj: int) -> int {
        self.offsets@[maj] as int
    }

    /// One past the last entry position of the slice of major index `maj`.
    pub open spec fn hi(&self, maj: int) -> int {
        self.offsets@[maj + 1] as int
    }

    /// The structural invariant of compressed storage.
    pub open spec fn wf(&self) -> bool {
        &&& self.offsets@.len() == self.major_dim as int + 1
        &&& self.offsets@[0] as int == 0
        &&& self.offsets@[self.major_dim as int] as int == self.nnz()
        &&& self.values@.len() == self.nnz()
        &&& (forall|a: int| 0 <= a < self.major_dim as int
            ==> (#[trigger] self.offsets@[a] as int) <= self.offsets@[a + 1] as int)
        &&& (forall|p: int| 0 <= p < self.nnz()
            ==> (#[trigger] self.minor_indices@[p] as int) < self.minor_dim as int)
        &&& (forall|maj: int, p: int, q: int|
            #![trigger self.lo(maj), self.minor_indices@[p], self.minor_indices@[q]]
            0 <= maj < self.major_dim as int && self.lo(maj) <= p < q < self.hi(maj)
                ==> self.minor_indices@[p] < self.minor_indices@[q])
    }

    /// The slice of major index `maj` stores an entry with minor index
    /// `min`.
    pub open spec fn slice_has(&self, maj: int, min: int) -> bool {
        range_has_minor(self.minor_indices@, self.lo(maj), self.hi(maj), min)
    }

    /// The position of the entry `(maj, min)` among the stored entries,
    /// when `slice_has(maj, min)` holds.
    pub open spec fn entry_pos(&self, maj: int, min: int) -> int {
        choose|p: int| self.lo(maj) <= p < self.hi(maj) && #[trigger] self.minor_indices@[p] == min
    }

    /// The value of the represented matrix at major `maj`, minor `min`:
    /// the stored value, or zero when the cell is not stored.
    pub open spec fn at(&self, maj: int, min: int) -> int {
        if self.slice_has(maj, min) {
            self.values@[self.entry_pos(maj, min)] as int
        } else {
            0
        }
    }
}

/// Offsets are monotone over any distance, not just between neighbours.
pub proof fn lemma_offsets_monotone(m: &CsMatrix, a: int, b: int)
    requires
        m.wf(),
        0 <= a <= b <= m.major_dim as int,
    ensures
        m.offsets@[a] as int <= m.offsets@[b] as int,
    decreases b - a,
{
    if a < b {
        lemma_offsets_monotone(m, a, b - 1);
        assert(m.offsets@[b - 1] as int <= m.offsets@[b] as int);
    }
}

/// Every slice lies inside the entry arrays.
pub proof fn lemma_slice_in_bounds(m: &CsMatrix, maj: int)
    requires
        m.wf(),
        0 <= maj < m.major_dim as int,
    ensures
        0 <= m.lo(maj) <= m.hi(maj) <= m.nnz(),
{
    lemma_offsets_monotone(m, 0, maj);
    lemma_offsets_monotone(m, maj, maj + 1);
    lemma_offsets_monotone(m, maj + 1, m.major_dim as int);
}

/// A position inside a slice is the unique stored position of its minor
/// index, so `at` reads exactly that entry.
pub proof fn lemma_entry_at_pos(m: &CsMatrix, maj: int, p: int)
    requires
        m.wf(),
        0 <= maj < m.major_dim as int,
        m.lo(maj) <= p < m.hi(maj),
    ensures
        m.slice_has(maj, m.minor_indices@[p] as int),
        m.entry_pos(maj, m.minor_indices@[p] as int) == p,
        m.at(maj, m.minor_indices@[p] as int) == m.values@[p] as int,
{
    let min = m.minor_indices@[p] as int;
    assert(m.slice_has(maj, min));
    let q = m.entry_pos(maj, min);
    if q < p {
        assert(m.minor_indices@[q] < m.minor_indices@[p]);
    } else if q > p {
        assert(m.minor_indices@[p] < m.minor_indices@[q]);
    }
}

impl CsMatrix {
    /// The slice bounds `(lo, hi)` of major index `maj`.
    pub fn slice_bounds(&self, maj: usize) -> (r: (usize, usize))
        requires
            self.wf(),
            maj < self.major_dim,
        ensures
            r.0 as int == self.lo(maj as int),
            r.1 as int == self.hi(maj as int),
            0 <= r.0 as int <= r.1 as int <= self.nnz(),
    {
        proof {
            lemma_slice_in_bounds(self, maj as int);
        }
        (self.offsets[maj], self.offsets[maj + 1])
    }

    /// Whether the slice of `maj` stores minor index `min` (membership
    /// only; no position information).
    pub fn has_in_slice(&self, maj: usize, min: usize) -> (r: bool)
        requires
            self.wf(),
            maj < self.major_dim,
        ensures
            r == self.slice_has(maj as int, min as int),
    {
        let (lo, hi) = self.slice_bounds(maj);
        let mut p = lo;
        while p < hi
            invariant
                self.wf(),
                maj < self.major_dim,
                lo as int == self.lo(maj as int),
                hi as int == self.hi(maj as int),
                lo <= p <= hi,
                hi as int <= self.nnz(),
                forall|q: int| lo as int <= q < p as int
                    ==> #[trigger] self.minor_indices@[q] != min,
            decreases hi - p,
        {
            if self.minor_indices[p] == min {
                return true;
            }
            p = p + 1;
        }
        proof {
            assert(!self.slice_has(maj as int, min as int));
        }
        false
    }

    /// Search the slice of `maj` for the entry with minor index `min`.
    ///
    /// Returns its position among the stored entries, or `None` when the
    /// cell `(maj, min)` is not stored.
    pub fn find_in_slice(&self, maj: usize, min: usize) -> (r: Option<usize>)
        requires
            self.wf(),
            maj < self.major_dim,
        ensures
            r is Some <==> self.slice_has(maj as int, min as int),
            match r {
                Some(p) => {
                    &&& self.lo(maj as int) <= p as int
                    &&& (p as int) < self.hi(maj as int)
                    &&& self.minor_indices@[p as int] == min
                    &&& p as int == self.entry_pos(maj as int, min as int)
                    &&& self.at(maj as int, min as int) == self.values@[p as int] as int
                },
                None => self.at(maj as int, min as int) == 0,
            },
    {
        let (lo, hi) = self.slice_bounds(maj);
        let mut p = lo;
        while p < hi
            invariant
                self.wf(),
                maj < self.major_dim,
                lo as int == self.lo(maj as int),
                hi as int == self.hi(maj as int),
                lo <= p,
                p <= hi,
                hi as int <= self.nnz(),
                forall|q: int| lo as int <= q < p as int
                    ==> #[trigger] self.minor_indices@[q] != min,
            decreases hi - p,
        {
            if self.minor_indices[p] == min {
                proof {
                    lemma_entry_at_pos(self, maj as int, p as int);
                }
                return Some(p);
            }
            p = p + 1;
        }
        proof {
            assert(!self.slice_has(maj as int, min as int));
        }
        None
    }

    /// The entries of column `j` of the transposed matrix: the majors `i`
    /// with a stored cell `(i, j)`, ascending, with their values.
    #[verifier::rlimit(60)]
    fn gather_minor(&self, j: usize) -> (r: (Vec<usize>, Vec<i64>))
        requires
            self.wf(),
            j < self.minor_dim,
        ensures
            r.0@.len() == r.1@.len(),
            forall|q: int| 0 <= q < r.0@.len()
                ==> (#[trigger] r.0@[q] as int) < self.major_dim as int,
            forall|a: int, b: int| 0 <= a < b < r.0@.len()
                ==> (#[trigger] r.0@[a]) < (#[trigger] r.0@[b]),
            forall|i: int| 0 <= i < self.major_dim as int
                ==> (range_has_minor(r.0@, 0, r.0@.len() as int, i)
                    <==> #[trigger] self.slice_has(i, j as int)),
            forall|q: int| 0 <= q < r.0@.len()
                ==> (#[trigger] r.1@[q] as int) == self.at(r.0@[q] as int, j as int),
    {
        let mut majors: Vec<usize> = Vec::new();
        let mut vals: Vec<i64> = Vec::new();
        let mut i: usize = 0;
        while i < self.major_dim
            invariant
                self.wf(),
                j < self.minor_dim,
                i <= self.major_dim,
                majors@.len() == vals@.len(),
                forall|q: int| 0 <= q < majors@.len()
                    ==> (#[trigger] majors@[q] as int) < i as int,
                forall|a: int, b: int| 0 <= a < b < majors@.len()
                    ==> (#[trigger] majors@[a]) < (#[trigger] majors@[b]),
                forall|ii: int| 0 <= ii < i as int
                    ==> (range_has_minor(majors@, 0, majors@.len() as int, ii)
                        <==> #[trigger] self.slice_has(ii, j as int)),
                forall|q: int| 0 <= q < majors@.len()
                    ==> (#[trigger] vals@[q] as int) == self.at(majors@[q] as int, j as int),
            decreases self.major_dim - i,
        {
            let ghost majors0 = majors@;
            match self.find_in_slice(i, j) {
                Some(p) => {
                    proof {
                        lemma_slice_in_bounds(self, i as int);
                    }
                    majors.push(i);
                    vals.push(self.values[p]);
                    proof {
                        assert(majors@[majors@.len() - 1] == i);
                        assert forall|ii: int| 0 <= ii < i as int + 1
                            implies (range_has_minor(majors@, 0, majors@.len() as int, ii)
                                <==> self.slice_has(ii, j as int)) by {
                            if ii < i as int {
                                if range_has_minor(majors0, 0, majors0.len() as int, ii) {
                                    let w = choose|w: int|
                                        0 <= w < majors0.len() && #[trigger] majors0[w] == ii;
                                    assert(majors@[w] == ii);
                                }
                                if range_has_minor(majors@, 0, majors@.len() as int, ii) {
                                    let w = choose|w: int|
                                        0 <= w < majors@.len() && #[trigger] majors@[w] == ii;
                                    assert(w < majors0.len());
                                    assert(majors0[w] == ii);
                                }
                            }
                        }
                    }
                },
                None => {
                    proof {
                        assert forall|ii: int| 0 <= ii < i as int + 1
                            implies (range_has_minor(majors@, 0, majors@.len() as int, ii)
                                <==> self.slice_has(ii, j as int)) by {
                            if ii == i as int {
                                if range_has_minor(majors@, 0, majors@.len() as int, ii) {
                                    let w = choose|w: int|
                                        0 <= w < majors@.len() && #[trigger] majors@[w] == ii;
                                    assert((majors@[w] as int) < i as int);
                                }
                            }
                        }
                    }
                },
            }
            i = i + 1;
        }
        (majors, vals)
    }

    /// The transpose of this matrix: major and minor roles exchanged,
    /// with every stored cell `(maj, min, v)` stored as `(min, maj, v)`.
    pub fn transpose(&self) -> (r: CsMatrix)
        requires
            self.wf(),
        ensures
            r.wf(),
            r.major_dim == self.minor_dim,
            r.minor_dim == self.major_dim,
            forall|i: int, j: int|
                0 <= i < self.major_dim as int && 0 <= j < self.minor_dim as int
                    ==> (#[trigger] r.slice_has(j, i)) == self.slice_has(i, j),
            forall|i: int, j: int|
                0 <= i < self.major_dim as int && 0 <= j < self.minor_dim as int
                    ==> #[trigger] r.at(j, i) == self.at(i, j),
    {
        let mut offsets: Vec<usize> = Vec::new();
        let mut minor_indices: Vec<usize> = Vec::new();
        let mut values: Vec<i64> = Vec::new();
        let mut j: usize = 0;
        while j < self.minor_dim
            invariant
                self.wf(),
                j <= self.minor_dim,
                offsets@.len() == j as int,
                j as int > 0 ==> offsets@[0] as int == 0,
                j as int == 0 ==> minor_indices@.len() == 0,
                minor_indices@.len() == values@.len(),
                forall|jj: int| 0 <= jj < j as int
                    ==> (#[trigger] offsets@[jj] as int) <= minor_indices@.len() as int,
                forall|a: int, b: int| 0 <= a < b < j as int
                    ==> (#[trigger] offsets@[a] as int) <= (#[trigger] offsets@[b] as int),
                forall|q: int| 0 <= q < minor_indices@.len()
                    ==> (#[trigger] minor_indices@[q] as int) < self.major_dim as int,
                forall|jj: int, a: int, b: int|
                    #![trigger offsets@[jj], minor_indices@[a], minor_indices@[b]]
                    0 <= jj < j as int && offsets@[jj] as int <= a && a < b
                        && b < built_end(offsets@, jj, minor_indices@.len() as int)
                        ==> minor_indices@[a] < minor_indices@[b],
                forall|jj: int, i: int|
                    #![trigger offsets@[jj], self.slice_has(i, jj)]
                    0 <= jj < j as int && 0 <= i < self.major_dim as int
                        ==> (range_has_minor(
                            minor_indices@,
                            offsets@[jj] as int,
                            built_end(offsets@, jj, minor_indices@.len() as int),
                            i,
                        ) <==> self.slice_has(i, jj)),
                forall|jj: int, q: int|
                    #![trigger offsets@[jj], values@[q]]
                    0 <= jj < j as int && offsets@[jj] as int <= q
                        && q < built_end(offsets@, jj, minor_indices@.len() as int)
                        ==> values@[q] as int == self.at(minor_indices@[q] as int, jj),
            decreases self.minor_dim - j,
        {
            let ghost offsets0 = offsets@;
            let ghost minor0 = minor_indices@;
            let ghost values0 = values@;
            let lo_j = minor_indices.len();
            offsets.push(lo_j);
            let (majors, vals) = self.gather_minor(j);
            let mut t: usize = 0;
            let glen = majors.len();
            while t < glen
                invariant
                    t <= glen,
                    glen == majors@.len(),
                    glen == vals@.len(),
                    minor_indices@.len() == lo_j as int + t as int,
                    values@.len() == minor_indices@.len(),
                    minor_indices@ == minor0.add(majors@.subrange(0, t as int)),
                    values@ == values0.add(vals@.subrange(0, t as int)),
                    minor0.len() == lo_j as int,
                    values0.len() == lo_j as int,
                decreases glen - t,
            {
                minor_indices.push(majors[t]);
                values.push(vals[t]);
                proof {
                    assert(majors@.subrange(0, t as int).push(majors@[t as int])
                        == majors@.subrange(0, t as int + 1));
                    assert(vals@.subrange(0, t as int).push(vals@[t as int])
                        == vals@.subrange(0, t as int + 1));
                }
                t = t + 1;
            }
            proof {
                assert(majors@.subrange(0, glen as int) == majors@);
                assert(vals@.subrange(0, glen as int) == vals@);
                assert(minor_indices@ == minor0.add(majors@));
                assert(values@ == values0.add(vals@));
                let total = minor_indices@.len() as int;
                let loj = lo_j as int;
                // earlier slices are untouched: same bounds, same elements
                assert forall|jj: int, i: int|
                    #![trigger offsets@[jj], self.slice_has(i, jj)]
                    0 <= jj < j as int && 0 <= i < self.major_dim as int
                        implies (range_has_minor(
                            minor_indices@,
                            offsets@[jj] as int,
                            built_end(offsets@, jj, total),
                            i,
                        ) <==> self.slice_has(i, jj)) by {
                    assert(offsets@[jj] == offsets0[jj]);
                    assert(built_end(offsets@, jj, total)
                        == built_end(offsets0, jj, loj));
                    crate::sums::lemma_range_has_agree(
                        minor_indices@, minor0, offsets0[jj] as int,
                        built_end(offsets0, jj, loj), i);
                }
                // the fresh slice holds exactly the majors stored with minor j
                assert(offsets@[j as int] as int == loj);
                assert(built_end(offsets@, j as int, total) == total);
                assert forall|q: int| 0 <= q < majors@.len()
                    implies minor_indices@[loj + q] == #[trigger] majors@[q] by {}
                assert forall|i: int| 0 <= i < self.major_dim as int
                    implies (range_has_minor(minor_indices@, loj, total, i)
                        <==> self.slice_has(i, j as int)) by {
                    crate::sums::lemma_range_has_shift(minor_indices@, majors@, loj, i);
                }
                assert forall|jj: int, q: int|
                    #![trigger offsets@[jj], values@[q]]
                    0 <= jj < j as int + 1 && offsets@[jj] as int <= q
                        && q < built_end(offsets@, jj, total)
                        implies values@[q] as int
                            == self.at(minor_indices@[q] as int, jj) by {
                    if jj < j as int {
                        assert(offsets@[jj] == offsets0[jj]);
                        assert(built_end(offsets@, jj, total)
                            == built_end(offsets0, jj, loj));
                        assert(values@[q] == values0[q]);
                        assert(minor_indices@[q] == minor0[q]);
                    } else {
                        assert(values@[q] == vals@[q - loj]);
                        assert(minor_indices@[q] == majors@[q - loj]);
                    }
                }
            }
            j = j + 1;
        }
        let total = minor_indices.len();
        let ghost pre_offsets = offsets@;
        offsets.push(total);
        let r = CsMatrix {
            major_dim: self.minor_dim,
            minor_dim: self.major_dim,
            offsets,
            minor_indices,
            values,
        };
        proof {
            let md = self.minor_dim as int;
            assert(r.offsets@.len() == md + 1);
            assert(r.offsets@[md] as int == total as int);
            assert(r.offsets@[0] as int == 0);
            // adjacent monotonicity, with the sentinel as the last offset
            assert forall|a: int| 0 <= a < md
                implies (#[trigger] r.offsets@[a] as int) <= r.offsets@[a + 1] as int by {
                assert(r.offsets@[a] == pre_offsets[a]);
                if a + 1 < md {
                    assert(pre_offsets[a] as int <= pre_offsets[a + 1] as int);
                } else {
                    assert(pre_offsets[a] as int <= total as int);
                }
            }
            // slice bounds of r coincide with the built slice bounds
            assert forall|maj: int| 0 <= maj < md
                implies r.lo(maj) == pre_offsets[maj] as int
                    && #[trigger] r.hi(maj) == built_end(pre_offsets, maj, total as int) by {}
            // each slice of r ascends strictly
            assert forall|maj: int, p: int, q: int|
                #![trigger r.lo(maj), r.minor_indices@[p], r.minor_indices@[q]]
                0 <= maj < r.major_dim as int && r.lo(maj) <= p < q < r.hi(maj)
                    implies r.minor_indices@[p] < r.minor_indices@[q] by {
                assert(pre_offsets[maj] as int <= p);
                assert(q < built_end(pre_offsets, maj, total as int));
            }
            assert(r.wf());
            assert forall|i: int, j2: int|
                0 <= i < self.major_dim as int && 0 <= j2 < self.minor_dim as int
                    implies (#[trigger] r.slice_has(j2, i)) == self.slice_has(i, j2) by {
                assert(pre_offsets[j2] as int == r.lo(j2));
                assert(built_end(pre_offsets, j2, total as int) == r.hi(j2));
            }
            assert forall|i: int, j2: int|
                0 <= i < self.major_dim as int && 0 <= j2 < self.minor_dim as int
                    implies #[trigger] r.at(j2, i) == self.at(i, j2) by {
                assert(pre_offsets[j2] as int == r.lo(j2));
                assert(built_end(pre_offsets, j2, total as int) == r.hi(j2));
                if r.slice_has(j2, i) {
                    let q = r.entry_pos(j2, i);
                    assert(r.lo(j2) <= q < r.hi(j2) && r.minor_indices@[q] == i);
                    assert(r.values@[q] as int == self.at(r.minor_indices@[q] as int, j2));
                }
            }
        }
        r
    }
}

/// The end of slice `jj` in a partially built offsets array: the next
/// offset when one exists, else the current total entry count.
pub open spec fn built_end(offsets: Seq<usize>, jj: int, total: int) -> int {
    if jj + 1 < offsets.len() {
        offsets[jj + 1] as int
    } else {
        total
    }
}

/// Two matrices share dimensions and structural pattern, differing at most
/// in their stored values.
pub open spec fn same_pattern(a: &CsMatrix, b: &CsMatrix) -> bool {
    &&& a.major_dim == b.major_dim
    &&& a.minor_dim == b.minor_dim
    &&& a.offsets@ == b.offsets@
    &&& a.minor_indices@ == b.minor_indices@
    &&& a.values@.len() == b.values@.len()
}

/// Matrices with the same pattern agree on well-formedness, slice bounds,
/// stored cells and entry positions.
#[verifier::rlimit(80)]
pub proof fn lemma_same_pattern_structure(a: &CsMatrix, b: &CsMatrix)
    requires
        same_pattern(a, b),
        a.wf(),
    ensures
        b.wf(),
        forall|maj: int| 0 <= maj < a.major_dim as int
            ==> #[trigger] b.lo(maj) == a.lo(maj) && b.hi(maj) == a.hi(maj),
        forall|maj: int, min: int| #[trigger] b.slice_has(maj, min) == a.slice_has(maj, min),
        forall|maj: int, min: int|
            0 <= maj < a.major_dim as int && a.slice_has(maj, min)
                ==> #[trigger] b.entry_pos(maj, min) == a.entry_pos(maj, min),
{
    assert forall|maj: int, p: int, q: int|
        #![trigger b.lo(maj), b.minor_indices@[p], b.minor_indices@[q]]
        0 <= maj < b.major_dim as int && b.lo(maj) <= p && p < q && q < b.hi(maj)
            implies b.minor_indices@[p] < b.minor_indices@[q] by {
        assert(a.lo(maj) == b.lo(maj));
        assert(a.minor_indices@[p] == b.minor_indices@[p]);
        assert(a.minor_indices@[q] == b.minor_indices@[q]);
    }
    assert(b.wf());
    assert forall|maj: int, min: int|
        0 <= maj < a.major_dim as int && a.slice_has(maj, min)
            implies #[trigger] b.entry_pos(maj, min) == a.entry_pos(maj, min) by {
        let pa = a.entry_pos(maj, min);
        assert(a.lo(maj) <= pa < a.hi(maj) && a.minor_indices@[pa] == min);
        assert(b.slice_has(maj, min));
        let pb = b.entry_pos(maj, min);
        assert(b.lo(maj) <= pb < b.hi(maj) && b.minor_indices@[pb] == min);
        lemma_entry_at_pos(a, maj, pa);
        lemma_entry_at_pos(a, maj, pb);
    }
}

/// Slices of distinct major indices occupy disjoint position ranges.
pub proof fn lemma_slices_disjoint(m: &CsMatrix, maj1: int, maj2: int)
    requires
        m.wf(),
        0 <= maj1 < maj2 < m.major_dim as int,
    ensures
        m.hi(maj1) <= m.lo(maj2),
{
    lemma_offsetsmonotone_pair(m, maj1 + 1, maj2);
}

proof fn lemma_offsetsmonotone_pair(m: &CsMatrix, a: int, b: int)
    requires
        m.wf(),
        0 <= a <= b <= m.major_dim as int,
    ensures
        m.offsets@[a] as int <= m.offsets@[b] as int,
{
    lemma_offsets_monotone(m, a, b);
}

/// The structural conditions on compressed-storage arrays, apart from the
/// minor-index bounds: offsets shaped and monotone with the entry count as
/// sentinel, parallel arrays, and strictly ascending slices.
pub open spec fn parts_structure_ok(
    major_dim: int,
    offsets: Seq<usize>,
    minors: Seq<usize>,
    values: Seq<i64>,
) -> bool {
    &&& offsets.len() == major_dim + 1
    &&& offsets[0] as int == 0
    &&& offsets[major_dim] as int == minors.len()
    &&& values.len() == minors.len()
    &&& (forall|a: int| 0 <= a < major_dim
        ==> (#[trigger] offsets[a] as int) <= offsets[a + 1] as int)
    &&& (forall|maj: int, p: int, q: int|
        #![trigger offsets[maj], minors[p], minors[q]]
        0 <= maj < major_dim && offsets[maj] as int <= p && p < q
            && q < offsets[maj + 1] as int ==> minors[p] < minors[q])
}

/// Every minor index lies below the minor dimension.
pub open spec fn parts_bounds_ok(minor_dim: int, minors: Seq<usize>) -> bool {
    forall|p: int| 0 <= p < minors.len() ==> (#[trigger] minors[p] as int) < minor_dim
}

/// Pairwise monotonicity of an adjacently monotone offsets array.
pub proof fn lemma_seq_monotone(offsets: Seq<usize>, bound: int, a: int, b: int)
    requires
        forall|x: int| 0 <= x < bound
            ==> (#[trigger] offsets[x] as int) <= offsets[x + 1] as int,
        bound < offsets.len(),
        0 <= a <= b <= bound,
    ensures
        offsets[a] as int <= offsets[b] as int,
    decreases b - a,
{
    if a < b {
        lemma_seq_monotone(offsets, bound, a, b - 1);
    }
}

/// Pairwise ascent of an adjacently ascending range.
pub proof fn lemma_adjacent_ascending(s: Seq<usize>, lo: int, hi: int, p: int, q: int)
    requires
        forall|x: int| lo <= x && x + 1 < hi ==> (#[trigger] s[x]) < s[x + 1],
        0 <= lo <= p < q < hi <= s.len(),
    ensures
        s[p] < s[q],
    decreases q - p,
{
    if p + 1 < q {
        lemma_adjacent_ascending(s, lo, hi, p + 1, q);
    }
}

/// Updating one stored value changes `at` at that entry's cell alone.
#[verifier::rlimit(60)]
pub proof fn lemma_value_update_frame(a: &CsMatrix, b: &CsMatrix, maj: int, p: int, v: i64)
    requires
        a.wf(),
        0 <= maj < a.major_dim as int,
        a.lo(maj) <= p,
        p < a.hi(maj),
        b.major_dim == a.major_dim,
        b.minor_dim == a.minor_dim,
        b.offsets@ == a.offsets@,
        b.minor_indices@ == a.minor_indices@,
        b.values@ == a.values@.update(p, v),
    ensures
        b.wf(),
        same_pattern(a, b),
        b.at(maj, a.minor_indices@[p] as int) == v as int,
        forall|m2: int, n2: int|
            0 <= m2 < a.major_dim as int && a.slice_has(m2, n2)
                && !(m2 == maj && n2 == a.minor_indices@[p] as int)
                ==> #[trigger] b.at(m2, n2) == a.at(m2, n2),
        forall|m2: int, n2: int| #[trigger] b.slice_has(m2, n2) == a.slice_has(m2, n2),
{
    lemma_slice_in_bounds(a, maj);
    let minp = a.minor_indices@[p] as int;
    lemma_same_pattern_structure(a, b);
    lemma_entry_at_pos(a, maj, p);
    lemma_entry_at_pos(b, maj, p);
    assert forall|m2: int, n2: int|
        0 <= m2 < a.major_dim as int && a.slice_has(m2, n2)
            && !(m2 == maj && n2 == minp)
            implies #[trigger] b.at(m2, n2) == a.at(m2, n2) by {
        let q = a.entry_pos(m2, n2);
        lemma_slice_in_bounds(a, m2);
        if m2 != maj {
            if m2 < maj {
                lemma_slices_disjoint(a, m2, maj);
            } else {
                lemma_slices_disjoint(a, maj, m2);
            }
            assert(q != p);
        } else {
            lemma_entry_at_pos(a, m2, q);
            assert(q != p);
        }
    }
}

impl CsMatrix {
    /// Build a compressed matrix from raw arrays, validating the whole
    /// structural invariant.
    ///
    /// The structure checks (`InvalidStructure`) run first: the offsets
    /// array must have one entry per major index plus a sentinel, start at
    /// zero, end at the entry count, be monotone, the entry arrays must be
    /// parallel, and each slice must ascend strictly. Then every minor
    /// index must be in bounds (`IndexOutOfBounds`).
    /// Whether the offsets array is adjacently monotone.
    fn check_monotone(offsets: &Vec<usize>, major_dim: usize) -> (r: bool)
        requires
            offsets@.len() == major_dim as int + 1,
        ensures
            r <==> (forall|a: int| 0 <= a < major_dim as int
                ==> (#[trigger] offsets@[a] as int) <= offsets@[a + 1] as int),
    {
        let mut a: usize = 0;
        while a < major_dim
            invariant
                a <= major_dim,
                offsets@.len() == major_dim as int + 1,
                forall|x: int| 0 <= x < a as int
                    ==> (#[trigger] offsets@[x] as int) <= offsets@[x + 1] as int,
            decreases major_dim - a,
        {
            if offsets[a] > offsets[a + 1] {
                proof {
                    assert((offsets@[a as int] as int) > offsets@[a as int + 1] as int);
                }
                return false;
            }
            a = a + 1;
        }
        true
    }

    /// Whether every slice delimited by the offsets ascends strictly.
    #[verifier::rlimit(60)]
    fn check_sorted(offsets: &Vec<usize>, minor_indices: &Vec<usize>, major_dim: usize)
        -> (r: bool)
        requires
            offsets@.len() == major_dim as int + 1,
            offsets@[major_dim as int] as int == minor_indices@.len(),
            forall|a: int| 0 <= a < major_dim as int
                ==> (#[trigger] offsets@[a] as int) <= offsets@[a + 1] as int,
        ensures
            r <==> (forall|maj: int, p: int, q: int|
                #![trigger offsets@[maj], minor_indices@[p], minor_indices@[q]]
                0 <= maj < major_dim as int && offsets@[maj] as int <= p && p < q
                    && q < offsets@[maj + 1] as int
                    ==> minor_indices@[p] < minor_indices@[q]),
    {
        let mut maj: usize = 0;
        while maj < major_dim
            invariant
                maj <= major_dim,
                offsets@.len() == major_dim as int + 1,
                offsets@[major_dim as int] as int == minor_indices@.len(),
                forall|x: int| 0 <= x < major_dim as int
                    ==> (#[trigger] offsets@[x] as int) <= offsets@[x + 1] as int,
                forall|m2: int, x: int|
                    #![trigger offsets@[m2], minor_indices@[x]]
                    0 <= m2 < maj as int && offsets@[m2] as int <= x
                        && x + 1 < offsets@[m2 + 1] as int
                        ==> minor_indices@[x] < minor_indices@[x + 1],
            decreases major_dim - maj,
        {
            let lo = offsets[maj];
            let hi = offsets[maj + 1];
            proof {
                lemma_seq_monotone(offsets@, major_dim as int, maj as int + 1, major_dim as int);
            }
            if lo < hi {
                let mut p = lo;
                while p + 1 < hi
                    invariant
                        lo <= p,
                        p < hi,
                        maj < major_dim,
                        offsets@.len() == major_dim as int + 1,
                        lo as int == offsets@[maj as int] as int,
                        hi as int == offsets@[maj as int + 1] as int,
                        hi as int <= minor_indices@.len(),
                        forall|x: int| lo as int <= x && x + 1 < p as int + 1
                            ==> (#[trigger] minor_indices@[x]) < minor_indices@[x + 1],
                    decreases hi - p,
                {
                    if minor_indices[p] >= minor_indices[p + 1] {
                        proof {
                            assert(offsets@[maj as int] as int <= p as int);
                            assert(minor_indices@[p as int] >= minor_indices@[p as int + 1]);
                        }
                        return false;
                    }
                    p = p + 1;
                }
            }
            maj = maj + 1;
        }
        proof {
            assert forall|mj: int, pp: int, q: int|
                #![trigger offsets@[mj], minor_indices@[pp], minor_indices@[q]]
                0 <= mj < major_dim as int && offsets@[mj] as int <= pp && pp < q
                    && q < offsets@[mj + 1] as int
                    implies minor_indices@[pp] < minor_indices@[q] by {
                lemma_seq_monotone(offsets@, major_dim as int, mj + 1, major_dim as int);
                lemma_adjacent_ascending(
                    minor_indices@, offsets@[mj] as int, offsets@[mj + 1] as int, pp, q);
            }
        }
        true
    }

    /// Whether every minor index lies below the minor dimension.
    fn check_bounds(minor_indices: &Vec<usize>, minor_dim: usize) -> (r: bool)
        ensures
            r <==> parts_bounds_ok(minor_dim as int, minor_indices@),
    {
        let n = minor_indices.len();
        let mut p: usize = 0;
        while p < n
            invariant
                p <= n,
                n == minor_indices@.len(),
                forall|q: int| 0 <= q < p as int
                    ==> (#[trigger] minor_indices@[q] as int) < minor_dim as int,
            decreases n - p,
        {
            if minor_indices[p] >= minor_dim {
                proof {
                    assert((minor_indices@[p as int] as int) >= minor_dim as int);
                }
                return false;
            }
            p = p + 1;
        }
        true
    }

    #[verifier::rlimit(100)]
    pub fn try_from_parts(
        major_dim: usize,
        minor_dim: usize,
        offsets: Vec<usize>,
        minor_indices: Vec<usize>,
        values: Vec<i64>,
    ) -> (r: Result<CsMatrix, SparseFormatError>)
        ensures
            r is Ok <==> (parts_structure_ok(
                major_dim as int, offsets@, minor_indices@, values@)
                && parts_bounds_ok(minor_dim as int, minor_indices@)),
            match r {
                Ok(m) => {
                    &&& m.wf()
                    &&& m.major_dim == major_dim
                    &&& m.minor_dim == minor_dim
                    &&& m.offsets@ == offsets@
                    &&& m.minor_indices@ == minor_indices@
                    &&& m.values@ == values@
                },
                Err(SparseFormatError::InvalidStructure(_)) => !parts_structure_ok(
                    major_dim as int, offsets@, minor_indices@, values@),
                Err(SparseFormatError::IndexOutOfBounds(_)) => parts_structure_ok(
                    major_dim as int, offsets@, minor_indices@, values@)
                    && !parts_bounds_ok(minor_dim as int, minor_indices@),
            },
    {
        if offsets.len() == 0 || offsets.len() - 1 != major_dim {
            return Err(SparseFormatError::InvalidStructure(
                "Offsets array must have one entry per major index plus one.",
            ));
        }
        if offsets[0] != 0 {
            return Err(SparseFormatError::InvalidStructure("First offset must be zero."));
        }
        if offsets[major_dim] != minor_indices.len() {
            return Err(SparseFormatError::InvalidStructure(
                "Last offset must equal the number of stored entries.",
            ));
        }
        if values.len() != minor_indices.len() {
            return Err(SparseFormatError::InvalidStructure(
                "Minor index and value arrays must have the same length.",
            ));
        }
        if !Self::check_monotone(&offsets, major_dim) {
            return Err(SparseFormatError::InvalidStructure(
                "Offsets must be monotonically non-decreasing.",
            ));
        }
        if !Self::check_sorted(&offsets, &minor_indices, major_dim) {
            return Err(SparseFormatError::InvalidStructure(
                "Minor indices must be strictly ascending within each slice.",
            ));
        }
        if !Self::check_bounds(&minor_indices, minor_dim) {
            return Err(SparseFormatError::IndexOutOfBounds("Minor index out of bounds."));
        }
        let m = CsMatrix { major_dim, minor_dim, offsets, minor_indices, values };
        proof {
            assert forall|mj: int, pp: int, q: int|
                #![trigger m.lo(mj), m.minor_indices@[pp], m.minor_indices@[q]]
                0 <= mj < m.major_dim as int && m.lo(mj) <= pp && pp < q && q < m.hi(mj)
                    implies m.minor_indices@[pp] < m.minor_indices@[q] by {
                assert(m.lo(mj) == offsets@[mj] as int);
                assert(m.hi(mj) == offsets@[mj + 1] as int);
            }
            assert(m.wf());
        }
        Ok(m)
    }
}

} // verus!
