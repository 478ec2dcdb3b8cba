//! Scaled sparse addition: `C <- beta * C + alpha * op(A)` in place, with
//! the pattern of `C` preallocated.
//!
//! The pattern of `C` is a hard contract: when `op(A)` stores a cell that
//! `C` has no slot for, the kernel reports `InvalidPattern` instead of
//! reallocating or dropping the entry. The pattern of `C` never changes.

use vstd::prelude::*;
use crate::{OperationError, OperationErrorKind};
use crate::scalar::{wadd, wmul, mul_w, add_w, lemma_wadd_zero, lemma_wmul_zero};
use crate::cs::{
    CsMatrix, same_pattern, lemma_same_pattern_structure, lemma_entry_at_pos,
    lemma_slice_in_bounds, lemma_value_update_frame,
};
use crate::csc::CscMatrix;
use crate::csr::CsrMatrix;
use crate::ops::Op;
use crate::kernel_spec::{cs_at_or_t, cs_stored_or_t, spadd_pattern_ok, spadd_cell};
use crate::sums::range_has_minor;

verus! {

/// The stored cell of `op(A)` at `(maj2, min2)`, in destination
/// coordinates, lies in a source slice strictly before `maj`.
pub open spec fn spadd_done_major(am: &CsMatrix, at: bool, maj: int, maj2: int, min2: int)
    -> bool {
    if !at {
        maj2 < maj && am.slice_has(maj2, min2)
    } else {
        min2 < maj && am.slice_has(min2, maj2)
    }
}

/// Scale every stored value of `c` by `beta`, wrapping; the pattern is
/// untouched.
fn scale_cs(beta: i64, c: &mut CsMatrix)
    requires
        old(c).wf(),
    ensures
        final(c).wf(),
        same_pattern(old(c), final(c)),
        forall|maj: int, min: int|
            0 <= maj < old(c).major_dim as int
                ==> #[trigger] final(c).at(maj, min) == wmul(beta as int, old(c).at(maj, min)),
{
    let n = c.values.len();
    let mut p: usize = 0;
    while p < n
        invariant
            n == old(c).values@.len(),
            p <= n,
            c.major_dim == old(c).major_dim,
            c.minor_dim == old(c).minor_dim,
            c.offsets@ == old(c).offsets@,
            c.minor_indices@ == old(c).minor_indices@,
            c.values@.len() == n,
            old(c).wf(),
            forall|q: int| 0 <= q < p as int
                ==> (#[trigger] c.values@[q] as int)
                    == wmul(beta as int, old(c).values@[q] as int),
            forall|q: int| p as int <= q < n ==> #[trigger] c.values@[q] == old(c).values@[q],
        decreases n - p,
    {
        let v = c.values[p];
        c.values.set(p, mul_w(beta, v));
        p = p + 1;
    }
    proof {
        lemma_same_pattern_structure(old(c), c);
        assert forall|maj: int, min: int|
            0 <= maj < old(c).major_dim as int
                implies #[trigger] c.at(maj, min) == wmul(beta as int, old(c).at(maj, min)) by {
            if old(c).slice_has(maj, min) {
                let q = old(c).entry_pos(maj, min);
                lemma_slice_in_bounds(old(c), maj);
                assert(c.values@[q] as int == wmul(beta as int, old(c).values@[q] as int));
            } else {
                lemma_wmul_zero(beta as int);
            }
        }
    }
}

/// Fold one source slice into the destination: every cell stored in slice
/// `maj` of the source is scaled by `alpha` and added to its destination
/// slot. Returns `false`, with the destination pattern intact, when a
/// slot is missing.
#[verifier::rlimit(100)]
fn spadd_slice(c: &mut CsMatrix, alpha: i64, am: &CsMatrix, at: bool, maj: usize) -> (ok: bool)
    requires
        old(c).wf(),
        am.wf(),
        maj < am.major_dim,
        !at ==> old(c).major_dim == am.major_dim && old(c).minor_dim == am.minor_dim,
        at ==> old(c).major_dim == am.minor_dim && old(c).minor_dim == am.major_dim,
    ensures
        final(c).wf(),
        same_pattern(old(c), final(c)),
        !ok ==> !spadd_pattern_ok(old(c), am, at),
        ok ==> forall|maj2: int, min2: int|
            0 <= maj2 < old(c).major_dim as int && 0 <= min2 < old(c).minor_dim as int
                && (if !at { maj2 == maj as int && am.slice_has(maj as int, min2) }
                    else { min2 == maj as int && am.slice_has(maj as int, maj2) })
                ==> #[trigger] old(c).slice_has(maj2, min2),
        ok ==> forall|maj2: int, min2: int|
            0 <= maj2 < old(c).major_dim as int && 0 <= min2 < old(c).minor_dim as int
                ==> #[trigger] final(c).at(maj2, min2) == (
                    if (if !at { maj2 == maj as int && am.slice_has(maj as int, min2) }
                        else { min2 == maj as int && am.slice_has(maj as int, maj2) }) {
                        wadd(old(c).at(maj2, min2), wmul(alpha as int, cs_at_or_t(
                            am, at, maj2, min2)))
                    } else {
                        old(c).at(maj2, min2)
                    }),
{
    let ghost c0 = *c;
    let (lo, hi) = am.slice_bounds(maj);
    proof {
        lemma_spadd_slice_init(c, am, at, alpha as int, maj as int, lo as int);
    }
    let mut p = lo;
    while p < hi
        invariant
            c.wf(),
            am.wf(),
            maj < am.major_dim,
            lo as int == am.lo(maj as int),
            hi as int == am.hi(maj as int),
            lo <= p <= hi,
            hi as int <= am.nnz(),
            c0 == *old(c),
            c0.wf(),
            same_pattern(&c0, c),
            !at ==> c0.major_dim == am.major_dim && c0.minor_dim == am.minor_dim,
            at ==> c0.major_dim == am.minor_dim && c0.minor_dim == am.major_dim,
            spadd_slice_state(c, &c0, am, at, alpha as int, maj as int, lo as int, p as int),
        decreases hi - p,
    {
        if !spadd_entry(c, alpha, am, at, maj, lo, p, Ghost(c0)) {
            return false;
        }
        p = p + 1;
    }
    proof {
        lemma_spadd_slice_finish(c, &c0, am, at, alpha as int, maj as int);
    }
    true
}

/// The cell of `op(A)`'s slice `maj`, in destination coordinates, has
/// already been folded: its minor index lies in `[lo, p)` of the source.
pub open spec fn spadd_slice_done(
    am: &CsMatrix,
    at: bool,
    maj: int,
    lo: int,
    p: int,
    maj2: int,
    min2: int,
) -> bool {
    if !at {
        maj2 == maj && range_has_minor(am.minor_indices@, lo, p, min2)
    } else {
        min2 == maj && range_has_minor(am.minor_indices@, lo, p, maj2)
    }
}

/// The value a destination cell holds midway through folding slice `maj`.
pub open spec fn spadd_slice_cell(
    c0: &CsMatrix,
    am: &CsMatrix,
    at: bool,
    alpha: int,
    maj: int,
    lo: int,
    p: int,
    maj2: int,
    min2: int,
) -> int {
    if spadd_slice_done(am, at, maj, lo, p, maj2, min2) {
        wadd(c0.at(maj2, min2), wmul(alpha, cs_at_or_t(am, at, maj2, min2)))
    } else {
        c0.at(maj2, min2)
    }
}

/// The folding invariant of one slice: every destination cell holds its
/// mid-fold value, and every folded cell has a destination slot.
#[verifier::opaque]
pub open spec fn spadd_slice_state(
    c: &CsMatrix,
    c0: &CsMatrix,
    am: &CsMatrix,
    at: bool,
    alpha: int,
    maj: int,
    lo: int,
    p: int,
) -> bool {
    &&& (forall|maj2: int, min2: int|
        0 <= maj2 < c0.major_dim as int && 0 <= min2 < c0.minor_dim as int
            ==> #[trigger] c.at(maj2, min2) == spadd_slice_cell(
                c0, am, at, alpha, maj, lo, p, maj2, min2))
    &&& (forall|maj2: int, min2: int|
        0 <= maj2 < c0.major_dim as int && 0 <= min2 < c0.minor_dim as int
            && #[trigger] spadd_slice_done(am, at, maj, lo, p, maj2, min2)
            ==> c0.slice_has(maj2, min2))
}

/// At the start of a slice nothing is folded yet: the state holds of the
/// unchanged destination.
pub proof fn lemma_spadd_slice_init(
    c: &CsMatrix,
    am: &CsMatrix,
    at: bool,
    alpha: int,
    maj: int,
    lo: int,
)
    ensures
        spadd_slice_state(c, c, am, at, alpha, maj, lo, lo),
{
    reveal(spadd_slice_state);
    assert forall|maj2: int, min2: int|
        !spadd_slice_done(am, at, maj, lo, lo, maj2, min2) by {
        if spadd_slice_done(am, at, maj, lo, lo, maj2, min2) {
            let mm = if !at { min2 } else { maj2 };
            let w = choose|w: int|
                lo <= w < lo && #[trigger] am.minor_indices@[w] == mm;
        }
    }
}

/// A finished slice has folded exactly its stored cells.
pub proof fn lemma_spadd_slice_finish(
    c: &CsMatrix,
    c0: &CsMatrix,
    am: &CsMatrix,
    at: bool,
    alpha: int,
    maj: int,
)
    requires
        am.wf(),
        c0.wf(),
        same_pattern(c0, c),
        0 <= maj < am.major_dim as int,
        spadd_slice_state(c, c0, am, at, alpha, maj, am.lo(maj), am.hi(maj)),
    ensures
        forall|maj2: int, min2: int|
            0 <= maj2 < c0.major_dim as int && 0 <= min2 < c0.minor_dim as int
                ==> #[trigger] c.at(maj2, min2) == (
                    if (if !at { maj2 == maj && am.slice_has(maj, min2) }
                        else { min2 == maj && am.slice_has(maj, maj2) }) {
                        wadd(c0.at(maj2, min2), wmul(alpha, cs_at_or_t(am, at, maj2, min2)))
                    } else {
                        c0.at(maj2, min2)
                    }),
        forall|maj2: int, min2: int|
            0 <= maj2 < c0.major_dim as int && 0 <= min2 < c0.minor_dim as int
                && (if !at { maj2 == maj && am.slice_has(maj, min2) }
                    else { min2 == maj && am.slice_has(maj, maj2) })
                ==> #[trigger] c0.slice_has(maj2, min2),
{
    reveal(spadd_slice_state);
    assert forall|min2: int|
        #[trigger] range_has_minor(am.minor_indices@, am.lo(maj), am.hi(maj), min2)
            == am.slice_has(maj, min2) by {}
    assert forall|maj2: int, min2: int|
        0 <= maj2 < c0.major_dim as int && 0 <= min2 < c0.minor_dim as int
            && (if !at { maj2 == maj && am.slice_has(maj, min2) }
                else { min2 == maj && am.slice_has(maj, maj2) })
            implies #[trigger] c0.slice_has(maj2, min2) by {
        assert(spadd_slice_done(am, at, maj, am.lo(maj), am.hi(maj), maj2, min2));
    }
}

/// Pattern insufficiency carries across matrices with the same pattern.
pub proof fn lemma_pattern_not_ok_transfer(c0: &CsMatrix, cpre: &CsMatrix, am: &CsMatrix, at: bool)
    requires
        c0.wf(),
        same_pattern(c0, cpre),
        !spadd_pattern_ok(cpre, am, at),
    ensures
        !spadd_pattern_ok(c0, am, at),
{
    lemma_same_pattern_structure(c0, cpre);
    let (maj, min) = choose|maj: int, min: int|
        0 <= maj < cpre.major_dim as int && 0 <= min < cpre.minor_dim as int
            && #[trigger] cs_stored_or_t(am, at, maj, min) && !cpre.slice_has(maj, min);
    assert(!c0.slice_has(maj, min));
    assert(!spadd_pattern_ok(c0, am, at));
}

/// Before the first slice nothing is folded: the state holds of the
/// scaled destination.
pub proof fn lemma_spadd_major_init(c: &CsMatrix, am: &CsMatrix, at: bool, alpha: int)
    ensures
        spadd_major_state(c, c, am, at, alpha, 0),
{
    reveal(spadd_major_state);
}

/// A source entry whose destination slot is missing witnesses that the
/// destination pattern is insufficient.
pub proof fn lemma_spadd_missing_slot(
    c: &CsMatrix,
    c0: &CsMatrix,
    am: &CsMatrix,
    at: bool,
    maj: int,
    p: int,
    cmaj: int,
    cmin: int,
)
    requires
        c0.wf(),
        am.wf(),
        same_pattern(c0, c),
        0 <= maj < am.major_dim as int,
        am.lo(maj) <= p,
        p < am.hi(maj),
        !at ==> c0.major_dim == am.major_dim && c0.minor_dim == am.minor_dim,
        at ==> c0.major_dim == am.minor_dim && c0.minor_dim == am.major_dim,
        cmaj == (if at { am.minor_indices@[p] as int } else { maj }),
        cmin == (if at { maj } else { am.minor_indices@[p] as int }),
        !c.slice_has(cmaj, cmin),
    ensures
        !spadd_pattern_ok(c0, am, at),
{
    lemma_same_pattern_structure(c0, c);
    lemma_entry_at_pos(am, maj, p);
    lemma_slice_in_bounds(am, maj);
    assert(cs_stored_or_t(am, at, cmaj, cmin));
    assert(!c0.slice_has(cmaj, cmin));
    assert(0 <= cmaj < c0.major_dim as int);
    assert(0 <= cmin < c0.minor_dim as int);
    assert(!spadd_pattern_ok(c0, am, at));
}

/// Fold the single source entry at position `p` of slice `maj` into its
/// destination slot; `false` when the slot is missing.
#[verifier::rlimit(100)]
fn spadd_entry(
    c: &mut CsMatrix,
    alpha: i64,
    am: &CsMatrix,
    at: bool,
    maj: usize,
    lo: usize,
    p: usize,
    Ghost(c0): Ghost<CsMatrix>,
) -> (ok: bool)
    requires
        old(c).wf(),
        am.wf(),
        c0.wf(),
        same_pattern(&c0, old(c)),
        maj < am.major_dim,
        lo as int == am.lo(maj as int),
        am.lo(maj as int) <= p as int,
        (p as int) < am.hi(maj as int),
        !at ==> c0.major_dim == am.major_dim && c0.minor_dim == am.minor_dim,
        at ==> c0.major_dim == am.minor_dim && c0.minor_dim == am.major_dim,
        spadd_slice_state(old(c), &c0, am, at, alpha as int, maj as int, lo as int, p as int),
    ensures
        final(c).wf(),
        same_pattern(&c0, final(c)),
        !ok ==> *final(c) == *old(c) && !spadd_pattern_ok(&c0, am, at),
        ok ==> spadd_slice_state(
            final(c), &c0, am, at, alpha as int, maj as int, lo as int, p as int + 1),
{
    proof {
        lemma_slice_in_bounds(am, maj as int);
    }
    let amin = am.minor_indices[p];
    let av = am.values[p];
    let cmaj_x = if at { amin } else { maj };
    let cmin_x = if at { maj } else { amin };
    proof {
        assert(cmaj_x < c.major_dim);
    }
    let (clo, chi) = c.slice_bounds(cmaj_x);
    let mut w = clo;
    let mut found: bool = false;
    let mut q: usize = 0;
    while w < chi
        invariant
            c == old(c),
            c.wf(),
            cmaj_x < c.major_dim,
            clo as int == c.lo(cmaj_x as int),
            chi as int == c.hi(cmaj_x as int),
            clo <= w <= chi,
            chi as int <= c.nnz(),
            !found ==> forall|x: int| clo as int <= x < w as int
                ==> #[trigger] c.minor_indices@[x] != cmin_x,
            found ==> clo as int <= q as int && (q as int) < chi as int
                && c.minor_indices@[q as int] == cmin_x,
            found ==> w as int == chi as int,
        decreases chi - w,
    {
        if c.minor_indices[w] == cmin_x {
            found = true;
            q = w;
            w = chi;
        } else {
            w = w + 1;
        }
    }
    if !found {
        proof {
            assert(!c.slice_has(cmaj_x as int, cmin_x as int));
            lemma_spadd_missing_slot(
                c, &c0, am, at, maj as int, p as int, cmaj_x as int, cmin_x as int);
        }
        return false;
    }
    let cur = c.values[q];
    let ghost cprev = *c;
    let v = add_w(cur, mul_w(alpha, av));
    c.values.set(q, v);
    proof {
        lemma_spadd_entry_step(
            &cprev, c, &c0, am, at, alpha as int, maj as int, lo as int, p as int,
            q as int, v);
    }
    true
}

/// The folding invariant across slices: cells of slices before `maj`
/// hold their final value, the rest still hold the scaled value.
#[verifier::opaque]
pub open spec fn spadd_major_state(
    c: &CsMatrix,
    c2: &CsMatrix,
    am: &CsMatrix,
    at: bool,
    alpha: int,
    maj: int,
) -> bool {
    &&& (forall|maj2: int, min2: int|
        0 <= maj2 < c.major_dim as int && 0 <= min2 < c.minor_dim as int
            ==> #[trigger] c.at(maj2, min2) == (
                if spadd_done_major(am, at, maj, maj2, min2) {
                    wadd(c2.at(maj2, min2), wmul(alpha, cs_at_or_t(am, at, maj2, min2)))
                } else {
                    c2.at(maj2, min2)
                }))
    &&& (forall|maj2: int, min2: int|
        0 <= maj2 < c.major_dim as int && 0 <= min2 < c.minor_dim as int
            && #[trigger] spadd_done_major(am, at, maj, maj2, min2)
            ==> c.slice_has(maj2, min2))
}

/// Folding one whole slice advances the across-slices invariant.
#[verifier::rlimit(100)]
pub proof fn lemma_spadd_major_step(
    cpre: &CsMatrix,
    cnew: &CsMatrix,
    c0: &CsMatrix,
    c2: &CsMatrix,
    am: &CsMatrix,
    at: bool,
    alpha: int,
    maj: int,
)
    requires
        c0.wf(),
        am.wf(),
        same_pattern(c0, c2),
        same_pattern(c0, cpre),
        same_pattern(c0, cnew),
        0 <= maj < am.major_dim as int,
        !at ==> c0.major_dim == am.major_dim && c0.minor_dim == am.minor_dim,
        at ==> c0.major_dim == am.minor_dim && c0.minor_dim == am.major_dim,
        spadd_major_state(cpre, c2, am, at, alpha, maj),
        forall|maj2: int, min2: int|
            0 <= maj2 < c0.major_dim as int && 0 <= min2 < c0.minor_dim as int
                ==> #[trigger] cnew.at(maj2, min2) == (
                    if (if !at { maj2 == maj && am.slice_has(maj, min2) }
                        else { min2 == maj && am.slice_has(maj, maj2) }) {
                        wadd(cpre.at(maj2, min2), wmul(alpha, cs_at_or_t(am, at, maj2, min2)))
                    } else {
                        cpre.at(maj2, min2)
                    }),
        forall|maj2: int, min2: int|
            0 <= maj2 < c0.major_dim as int && 0 <= min2 < c0.minor_dim as int
                && (if !at { maj2 == maj && am.slice_has(maj, min2) }
                    else { min2 == maj && am.slice_has(maj, maj2) })
                ==> #[trigger] cpre.slice_has(maj2, min2),
    ensures
        spadd_major_state(cnew, c2, am, at, alpha, maj + 1),
{
    reveal(spadd_major_state);
    lemma_same_pattern_structure(c0, cpre);
    lemma_same_pattern_structure(c0, cnew);
    lemma_same_pattern_structure(c0, c2);
    assert forall|maj2: int, min2: int|
        0 <= maj2 < cnew.major_dim as int && 0 <= min2 < cnew.minor_dim as int
            implies #[trigger] cnew.at(maj2, min2) == (
                if spadd_done_major(am, at, maj + 1, maj2, min2) {
                    wadd(c2.at(maj2, min2), wmul(alpha, cs_at_or_t(am, at, maj2, min2)))
                } else {
                    c2.at(maj2, min2)
                }) by {
        if (if !at { maj2 == maj && am.slice_has(maj, min2) }
            else { min2 == maj && am.slice_has(maj, maj2) }) {
            assert(!spadd_done_major(am, at, maj, maj2, min2));
            assert(cpre.at(maj2, min2) == c2.at(maj2, min2));
            assert(spadd_done_major(am, at, maj + 1, maj2, min2));
        } else {
            assert(cnew.at(maj2, min2) == cpre.at(maj2, min2));
            assert(spadd_done_major(am, at, maj + 1, maj2, min2)
                == spadd_done_major(am, at, maj, maj2, min2));
        }
    }
    assert forall|maj2: int, min2: int|
        0 <= maj2 < cnew.major_dim as int && 0 <= min2 < cnew.minor_dim as int
            && #[trigger] spadd_done_major(am, at, maj + 1, maj2, min2)
            implies cnew.slice_has(maj2, min2) by {
        if spadd_done_major(am, at, maj, maj2, min2) {
            assert(cpre.slice_has(maj2, min2));
        } else {
            assert(cpre.slice_has(maj2, min2));
        }
    }
}

/// After the last slice the across-slices invariant yields the final cell
/// formula and the pattern-coverage condition.
#[verifier::rlimit(60)]
pub proof fn lemma_spadd_finish(
    c: &CsMatrix,
    c0: &CsMatrix,
    c2: &CsMatrix,
    am: &CsMatrix,
    at: bool,
    alpha: int,
    beta: int,
)
    requires
        c0.wf(),
        am.wf(),
        same_pattern(c0, c2),
        same_pattern(c0, c),
        !at ==> c0.major_dim == am.major_dim && c0.minor_dim == am.minor_dim,
        at ==> c0.major_dim == am.minor_dim && c0.minor_dim == am.major_dim,
        spadd_major_state(c, c2, am, at, alpha, am.major_dim as int),
        forall|maj: int, min: int|
            0 <= maj < c0.major_dim as int
                ==> #[trigger] c2.at(maj, min) == wmul(beta, c0.at(maj, min)),
    ensures
        spadd_pattern_ok(c0, am, at),
        forall|maj: int, min: int|
            0 <= maj < c0.major_dim as int && 0 <= min < c0.minor_dim as int
                ==> #[trigger] c.at(maj, min) == spadd_cell(
                    beta, c0.at(maj, min), alpha, cs_at_or_t(am, at, maj, min)),
{
    reveal(spadd_major_state);
    lemma_same_pattern_structure(c0, c);
    lemma_same_pattern_structure(c0, c2);
    assert forall|maj: int, min: int|
        0 <= maj < c0.major_dim as int && 0 <= min < c0.minor_dim as int
            implies #[trigger] c.at(maj, min) == spadd_cell(
                beta, c0.at(maj, min), alpha, cs_at_or_t(am, at, maj, min)) by {
        if spadd_done_major(am, at, am.major_dim as int, maj, min) {
        } else {
            assert(!cs_stored_or_t(am, at, maj, min));
            assert(cs_at_or_t(am, at, maj, min) == 0);
            lemma_wmul_zero(alpha);
            lemma_wadd_zero(c2.at(maj, min));
        }
    }
    assert forall|maj: int, min: int|
        0 <= maj < c0.major_dim as int && 0 <= min < c0.minor_dim as int
            && #[trigger] cs_stored_or_t(am, at, maj, min)
            implies c0.slice_has(maj, min) by {
        assert(spadd_done_major(am, at, am.major_dim as int, maj, min));
        assert(c.slice_has(maj, min));
    }
}

/// The fold of one entry advances the one-slice invariant: position `q`
/// of the destination (the slot of the entry's cell) was overwritten with
/// the old value plus `alpha * values[p]`.
#[verifier::rlimit(100)]
pub proof fn lemma_spadd_entry_step(
    cprev: &CsMatrix,
    cnew: &CsMatrix,
    c0: &CsMatrix,
    am: &CsMatrix,
    at: bool,
    alpha: int,
    maj: int,
    lo: int,
    p: int,
    q: int,
    v: i64,
)
    requires
        c0.wf(),
        am.wf(),
        same_pattern(c0, cprev),
        cprev.wf(),
        0 <= maj < am.major_dim as int,
        lo == am.lo(maj),
        lo <= p,
        p < am.hi(maj),
        p < am.nnz(),
        !at ==> c0.major_dim == am.major_dim && c0.minor_dim == am.minor_dim,
        at ==> c0.major_dim == am.minor_dim && c0.minor_dim == am.major_dim,
        spadd_slice_state(cprev, c0, am, at, alpha, maj, lo, p),
        0 <= (if at { am.minor_indices@[p] as int } else { maj }),
        (if at { am.minor_indices@[p] as int } else { maj }) < cprev.major_dim as int,
        cprev.lo(if at { am.minor_indices@[p] as int } else { maj }) <= q,
        q < cprev.hi(if at { am.minor_indices@[p] as int } else { maj }),
        cprev.minor_indices@[q] as int == (if at { maj } else { am.minor_indices@[p] as int }),
        v as int == wadd(cprev.values@[q] as int, wmul(alpha, am.values@[p] as int)),
        cnew.major_dim == cprev.major_dim,
        cnew.minor_dim == cprev.minor_dim,
        cnew.offsets@ == cprev.offsets@,
        cnew.minor_indices@ == cprev.minor_indices@,
        cnew.values@ == cprev.values@.update(q, v),
    ensures
        cnew.wf(),
        same_pattern(c0, cnew),
        spadd_slice_state(cnew, c0, am, at, alpha, maj, lo, p + 1),
{
    reveal(spadd_slice_state);
    let amin = am.minor_indices@[p] as int;
    let cmaj = if at { amin } else { maj };
    let cmin = if at { maj } else { amin };
    lemma_entry_at_pos(am, maj, p);
    lemma_same_pattern_structure(c0, cprev);
    lemma_value_update_frame(cprev, cnew, cmaj, q, v);
    lemma_entry_at_pos(cprev, cmaj, q);
    assert(cprev.at(cmaj, cmin) == cprev.values@[q] as int);
    assert(cnew.at(cmaj, cmin) == v as int);
    assert(cs_at_or_t(am, at, cmaj, cmin) == am.values@[p] as int);
    assert(!range_has_minor(am.minor_indices@, lo, p, amin));
    assert(!spadd_slice_done(am, at, maj, lo, p, cmaj, cmin));
    assert(cprev.at(cmaj, cmin) == c0.at(cmaj, cmin));
    assert forall|mm: int|
        range_has_minor(am.minor_indices@, lo, p + 1, mm) && mm != amin
            implies range_has_minor(am.minor_indices@, lo, p, mm) by {
        let w = choose|w: int| lo <= w < p + 1 && #[trigger] am.minor_indices@[w] == mm;
        assert(lo <= w < p);
    }
    assert(range_has_minor(am.minor_indices@, lo, p + 1, amin));
    assert forall|maj2: int, min2: int|
        0 <= maj2 < c0.major_dim as int && 0 <= min2 < c0.minor_dim as int
            implies #[trigger] cnew.at(maj2, min2) == spadd_slice_cell(
                c0, am, at, alpha, maj, lo, p + 1, maj2, min2) by {
        if maj2 == cmaj && min2 == cmin {
            assert(spadd_slice_done(am, at, maj, lo, p + 1, maj2, min2));
        } else {
            if c0.slice_has(maj2, min2) {
                assert(cnew.at(maj2, min2) == cprev.at(maj2, min2));
            } else {
                assert(!cnew.slice_has(maj2, min2) && !cprev.slice_has(maj2, min2));
            }
            assert(spadd_slice_done(am, at, maj, lo, p + 1, maj2, min2)
                == spadd_slice_done(am, at, maj, lo, p, maj2, min2));
        }
    }
    assert forall|maj2: int, min2: int|
        0 <= maj2 < c0.major_dim as int && 0 <= min2 < c0.minor_dim as int
            && #[trigger] spadd_slice_done(am, at, maj, lo, p + 1, maj2, min2)
            implies c0.slice_has(maj2, min2) by {
        if !spadd_slice_done(am, at, maj, lo, p, maj2, min2) {
            assert(maj2 == cmaj && min2 == cmin);
        }
    }
}

/// The core scaled addition over compressed storage; `at` tells whether
/// the source is read transposed.
#[verifier::rlimit(60)]
fn spadd_cs_prealloc(beta: i64, c: &mut CsMatrix, alpha: i64, am: &CsMatrix, at: bool)
    -> (r: Result<(), OperationError>)
    requires
        old(c).wf(),
        am.wf(),
        !at ==> old(c).major_dim == am.major_dim && old(c).minor_dim == am.minor_dim,
        at ==> old(c).major_dim == am.minor_dim && old(c).minor_dim == am.major_dim,
    ensures
        final(c).wf(),
        same_pattern(old(c), final(c)),
        r is Ok <==> spadd_pattern_ok(old(c), am, at),
        r is Ok ==> forall|maj: int, min: int|
            0 <= maj < old(c).major_dim as int && 0 <= min < old(c).minor_dim as int
                ==> #[trigger] final(c).at(maj, min) == spadd_cell(
                    beta as int, old(c).at(maj, min), alpha as int,
                    cs_at_or_t(am, at, maj, min)),
{
    let ghost c0 = *c;
    scale_cs(beta, c);
    let ghost c2 = *c;
    proof {
        lemma_spadd_major_init(c, am, at, alpha as int);
    }
    let a_majors = am.major_dim;
    let mut maj: usize = 0;
    while maj < a_majors
        invariant
            c.wf(),
            am.wf(),
            maj <= a_majors,
            a_majors == am.major_dim,
            c0 == *old(c),
            c0.wf(),
            c2.wf(),
            same_pattern(&c0, &c2),
            same_pattern(&c0, c),
            !at ==> c0.major_dim == am.major_dim && c0.minor_dim == am.minor_dim,
            at ==> c0.major_dim == am.minor_dim && c0.minor_dim == am.major_dim,
            spadd_major_state(c, &c2, am, at, alpha as int, maj as int),
        decreases a_majors - maj,
    {
        let ghost cpre = *c;
        if !spadd_slice(c, alpha, am, at, maj) {
            proof {
                lemma_pattern_not_ok_transfer(&c0, &cpre, am, at);
            }
            return Err(OperationError::from_kind_and_message(
                OperationErrorKind::InvalidPattern,
                "Found entry in `a` that is not present in `c`.",
            ));
        }
        proof {
            lemma_spadd_major_step(&cpre, c, &c0, &c2, am, at, alpha as int, maj as int);
        }
        maj = maj + 1;
    }
    proof {
        lemma_spadd_finish(c, &c0, &c2, am, at, alpha as int, beta as int);
    }
    Ok(())
}

/// Sparse matrix addition `C <- beta * C + alpha * op(A)` for CSR
/// matrices. Returns `InvalidPattern` exactly when `op(A)` stores a cell
/// outside the pattern of `C`; the pattern of `C` never changes.
#[verifier::rlimit(100)]
pub fn spadd_csr_prealloc(beta: i64, c: &mut CsrMatrix, alpha: i64, a: Op<&CsrMatrix>)
    -> (r: Result<(), OperationError>)
    requires
        old(c).wf(),
        a.inner_spec().wf(),
        !a.is_transpose() ==> old(c).nrows_spec() == a.inner_spec().nrows_spec()
            && old(c).ncols_spec() == a.inner_spec().ncols_spec(),
        a.is_transpose() ==> old(c).nrows_spec() == a.inner_spec().ncols_spec()
            && old(c).ncols_spec() == a.inner_spec().nrows_spec(),
    ensures
        final(c).wf(),
        same_pattern(&old(c).cs, &final(c).cs),
        r is Ok <==> spadd_pattern_ok(&old(c).cs, &a.inner_spec().cs, a.is_transpose()),
        r is Ok ==> forall|i: int, j: int|
            0 <= i < old(c).nrows_spec() && 0 <= j < old(c).ncols_spec()
                ==> #[trigger] final(c).at(i, j) == spadd_cell(
                    beta as int, old(c).at(i, j), alpha as int,
                    cs_at_or_t(&a.inner_spec().cs, a.is_transpose(), i, j)),
{
    let at = match &a {
        Op::NoOp(_) => false,
        Op::Transpose(_) => true,
    };
    let am = a.inner_ref();
    spadd_cs_prealloc(beta, &mut c.cs, alpha, &am.cs, at)
}

/// Sparse matrix addition `C <- beta * C + alpha * op(A)` for CSC
/// matrices. Returns `InvalidPattern` exactly when `op(A)` stores a cell
/// outside the pattern of `C`; the pattern of `C` never changes.
#[verifier::rlimit(100)]
pub fn spadd_csc_prealloc(beta: i64, c: &mut CscMatrix, alpha: i64, a: Op<&CscMatrix>)
    -> (r: Result<(), OperationError>)
    requires
        old(c).wf(),
        a.inner_spec().wf(),
        !a.is_transpose() ==> old(c).nrows_spec() == a.inner_spec().nrows_spec()
            && old(c).ncols_spec() == a.inner_spec().ncols_spec(),
        a.is_transpose() ==> old(c).nrows_spec() == a.inner_spec().ncols_spec()
            && old(c).ncols_spec() == a.inner_spec().nrows_spec(),
    ensures
        final(c).wf(),
        same_pattern(&old(c).cs, &final(c).cs),
        r is Ok <==> spadd_pattern_ok(&old(c).cs, &a.inner_spec().cs, a.is_transpose()),
        r is Ok ==> forall|i: int, j: int|
            0 <= i < old(c).nrows_spec() && 0 <= j < old(c).ncols_spec()
                ==> #[trigger] final(c).at(i, j) == spadd_cell(
                    beta as int, old(c).at(i, j), alpha as int,
                    cs_at_or_t(&a.inner_spec().cs, a.is_transpose(), j, i)),
{
    let at = match &a {
        Op::NoOp(_) => false,
        Op::Transpose(_) => true,
    };
    let am = a.inner_ref();
    spadd_cs_prealloc(beta, &mut c.cs, alpha, &am.cs, at)
}

} // verus!
