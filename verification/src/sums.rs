//! Wrapped sums over an index range.
//!
//! `wsum(lo, hi, f)` is the wrapping sum `f(lo) + ... + f(hi - 1)`,
//! accumulated left to right, exactly as the kernels' loops accumulate.
//! The lemmas here let a sum over the stored entries of a sparse slice be
//! exchanged for a sum over a full dense index range when the absent
//! positions contribute the additive identity.

use vstd::prelude::*;
use crate::scalar::{wadd, fits_i64, lemma_wrap_in_range, lemma_wadd_zero};

verus! {

/// The wrapping sum of `f` over `[lo, hi)`, folded from the left.
pub open spec fn wsum(lo: int, hi: int, f: spec_fn(int) -> int) -> int
    decreases hi - lo,
{
    if hi <= lo {
        0
    } else {
        wadd(wsum(lo, hi - 1, f), f(hi - 1))
    }
}

/// Every wrapped sum is a valid cell value.
pub proof fn lemma_wsum_in_range(lo: int, hi: int, f: spec_fn(int) -> int)
    ensures
        fits_i64(wsum(lo, hi, f)),
    decreases hi - lo,
{
    if hi <= lo {
    } else {
        lemma_wrap_in_range(wsum(lo, hi - 1, f) + f(hi - 1));
    }
}

/// Functions equal on the range have equal sums over it.
pub proof fn lemma_wsum_congruence(lo: int, hi: int, f: spec_fn(int) -> int, g: spec_fn(int) -> int)
    requires
        forall|k: int| lo <= k < hi ==> #[trigger] f(k) == g(k),
    ensures
        wsum(lo, hi, f) == wsum(lo, hi, g),
    decreases hi - lo,
{
    if hi > lo {
        lemma_wsum_congruence(lo, hi - 1, f, g);
    }
}

/// A sum of zero terms is zero.
pub proof fn lemma_wsum_zero(lo: int, hi: int, f: spec_fn(int) -> int)
    requires
        forall|k: int| lo <= k < hi ==> #[trigger] f(k) == 0,
    ensures
        wsum(lo, hi, f) == 0,
    decreases hi - lo,
{
    if hi > lo {
        lemma_wsum_zero(lo, hi - 1, f);
        lemma_wadd_zero(0);
    }
}

/// A tail of zero terms does not change a wrapped sum.
pub proof fn lemma_wsum_tail_zero(lo: int, mid: int, hi: int, f: spec_fn(int) -> int)
    requires
        0 <= lo <= mid <= hi,
        forall|k: int| mid <= k < hi ==> #[trigger] f(k) == 0,
    ensures
        wsum(lo, hi, f) == wsum(lo, mid, f),
    decreases hi - mid,
{
    if mid < hi {
        lemma_wsum_tail_zero(lo, mid, hi - 1, f);
        lemma_wsum_in_range(lo, hi - 1, f);
        lemma_wadd_zero(wsum(lo, hi - 1, f));
    }
}

/// Dropping a single term that is zero in the other function shifts a
/// wrapped sum by exactly that term.
pub proof fn lemma_wsum_except(lo: int, hi: int, f: spec_fn(int) -> int, g: spec_fn(int) -> int, x: int)
    requires
        forall|k: int| lo <= k < hi && k != x ==> #[trigger] f(k) == g(k),
        g(x) == 0,
        lo <= x < hi,
    ensures
        wsum(lo, hi, f) == wadd(wsum(lo, hi, g), f(x)),
    decreases hi - lo,
{
    if hi - 1 == x {
        lemma_wsum_congruence(lo, hi - 1, f, g);
        lemma_wsum_in_range(lo, hi - 1, g);
        lemma_wadd_zero(wsum(lo, hi - 1, g));
    } else {
        lemma_wsum_except(lo, hi - 1, f, g, x);
        crate::scalar::lemma_wadd_assoc(wsum(lo, hi - 1, g), f(x), g(hi - 1));
        crate::scalar::lemma_wadd_comm(f(x), g(hi - 1));
        crate::scalar::lemma_wadd_assoc(wsum(lo, hi - 1, g), g(hi - 1), f(x));
    }
}

/// Some position in `[lo, hi)` of `minors` holds the minor index `k`.
pub open spec fn range_has_minor(minors: Seq<usize>, lo: int, hi: int, k: int) -> bool {
    exists|p: int| lo <= p < hi && #[trigger] minors[p] == k
}

/// Two ranges that agree elementwise hold the same minor indices.
pub proof fn lemma_range_has_agree(s1: Seq<usize>, s2: Seq<usize>, lo: int, hi: int, k: int)
    requires
        0 <= lo,
        hi <= s1.len(),
        hi <= s2.len(),
        forall|q: int| lo <= q < hi ==> s1[q] == #[trigger] s2[q],
    ensures
        range_has_minor(s1, lo, hi, k) <==> range_has_minor(s2, lo, hi, k),
{
    if range_has_minor(s1, lo, hi, k) {
        let w = choose|w: int| lo <= w < hi && #[trigger] s1[w] == k;
        assert(s2[w] == k);
    }
    if range_has_minor(s2, lo, hi, k) {
        let w = choose|w: int| lo <= w < hi && #[trigger] s2[w] == k;
        assert(s1[w] == k);
    }
}

/// A range of `big` starting at `off` holds a minor index exactly when the
/// sequence it copies holds it.
pub proof fn lemma_range_has_shift(big: Seq<usize>, small: Seq<usize>, off: int, k: int)
    requires
        0 <= off,
        off + small.len() <= big.len(),
        forall|q: int| 0 <= q < small.len() ==> big[off + q] == #[trigger] small[q],
    ensures
        range_has_minor(big, off, off + small.len(), k)
            <==> range_has_minor(small, 0, small.len() as int, k),
{
    if range_has_minor(big, off, off + small.len(), k) {
        let w = choose|w: int| off <= w < off + small.len() && #[trigger] big[w] == k;
        assert(small[w - off] == big[off + (w - off)]);
        assert(small[w - off] == k);
    }
    if range_has_minor(small, 0, small.len() as int, k) {
        let w = choose|w: int| 0 <= w < small.len() && #[trigger] small[w] == k;
        assert(big[off + w] == k);
    }
}

/// A sparse sum over the entries of a sorted slice equals the dense sum
/// over the whole minor range when absent positions contribute zero.
///
/// `f(p)` is the term of the entry at position `p`; `g(k)` is the term of
/// minor index `k` in the dense sum.
pub proof fn lemma_wsum_sparse_dense(
    minors: Seq<usize>,
    lo: int,
    hi: int,
    k_hi: int,
    f: spec_fn(int) -> int,
    g: spec_fn(int) -> int,
)
    requires
        0 <= lo <= hi <= minors.len(),
        forall|p: int, q: int| lo <= p < q < hi ==> #[trigger] minors[p] < #[trigger] minors[q],
        forall|p: int| lo <= p < hi ==> (#[trigger] minors[p] as int) < k_hi,
        forall|p: int| lo <= p < hi ==> g(minors[p] as int) == #[trigger] f(p),
        forall|k: int| 0 <= k < k_hi && !range_has_minor(minors, lo, hi, k) ==> #[trigger] g(k) == 0,
        0 <= k_hi,
    ensures
        wsum(lo, hi, f) == wsum(0, k_hi, g),
    decreases k_hi,
{
    if k_hi == 0 {
        if lo < hi {
            assert((minors[lo] as int) < 0);
        }
        assert(hi <= lo);
    } else {
        let k = k_hi - 1;
        if lo < hi && minors[hi - 1] == k {
            assert(forall|p: int| lo <= p < hi - 1 ==> (#[trigger] minors[p] as int) < k);
            assert forall|kk: int|
                0 <= kk < k && !range_has_minor(minors, lo, hi - 1, kk) implies #[trigger] g(kk)
                == 0 by {
                assert(!range_has_minor(minors, lo, hi, kk));
            }
            lemma_wsum_sparse_dense(minors, lo, hi - 1, k, f, g);
            assert(wsum(lo, hi, f) == wadd(wsum(lo, hi - 1, f), f(hi - 1)));
            assert(g(k) == f(hi - 1));
        } else {
            assert(forall|p: int| lo <= p < hi ==> (#[trigger] minors[p] as int) < k);
            assert(!range_has_minor(minors, lo, hi, k));
            assert(g(k) == 0);
            lemma_wsum_sparse_dense(minors, lo, hi, k, f, g);
            lemma_wsum_in_range(0, k, g);
            lemma_wadd_zero(wsum(0, k, g));
        }
    }
}

} // verus!
