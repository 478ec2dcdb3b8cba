//! The scalar type of the library: `i64` with wrapping arithmetic.
//!
//! Every numeric entry of a matrix or vector in this crate is an `i64`.
//! Addition, subtraction and multiplication wrap around two's complement;
//! division truncates toward zero and wraps in the single overflowing case.
//! The spec functions `wadd`, `wsub`, `wmul` and `wdiv` give the
//! mathematical meaning of those operations on unbounded integers, and the
//! lemmas below establish the ring laws that the matrix kernels rely on.

use vstd::prelude::*;
use vstd::arithmetic::div_mod::{
    lemma_small_mod, lemma_mod_bound, lemma_add_mod_noop, lemma_mul_mod_noop_left,
    lemma_mod_sub_multiples_vanish, lemma_mod_add_multiples_vanish,
};

verus! {

/// The value of one cell of a 64-bit two's complement register holding the
/// integer `x`: the unique integer congruent to `x` modulo `2^64` that lies
/// in `[-2^63, 2^63)`.
pub open spec fn wrap(x: int) -> int {
    if x % 0x1_0000_0000_0000_0000 >= 0x8000_0000_0000_0000 {
        x % 0x1_0000_0000_0000_0000 - 0x1_0000_0000_0000_0000
    } else {
        x % 0x1_0000_0000_0000_0000
    }
}

/// `x` fits in an `i64`.
pub open spec fn fits_i64(x: int) -> bool {
    -0x8000_0000_0000_0000 <= x <= 0x7fff_ffff_ffff_ffff
}

/// Wrapping addition on unbounded integers.
pub open spec fn wadd(a: int, b: int) -> int {
    wrap(a + b)
}

/// Wrapping subtraction on unbounded integers.
pub open spec fn wsub(a: int, b: int) -> int {
    wrap(a - b)
}

/// Wrapping multiplication on unbounded integers.
pub open spec fn wmul(a: int, b: int) -> int {
    wrap(a * b)
}

/// Truncated (round toward zero) integer quotient, for `d != 0`.
pub open spec fn tdiv(x: int, d: int) -> int {
    if x == 0 {
        0
    } else if x > 0 && d > 0 {
        x / d
    } else if x < 0 && d < 0 {
        (x * -1) / (d * -1)
    } else if x < 0 {
        ((x * -1) / d) * -1
    } else {
        (x / (d * -1)) * -1
    }
}

/// Wrapping truncated division: wraps in the single case `MIN / -1`.
pub open spec fn wdiv(x: int, d: int) -> int {
    wrap(tdiv(x, d))
}

/// `wrap` always lands in the `i64` range.
pub proof fn lemma_wrap_in_range(x: int)
    ensures
        fits_i64(wrap(x)),
{
    lemma_mod_bound(x, 0x1_0000_0000_0000_0000);
}

/// `wrap` is the identity on values that already fit in an `i64`.
pub proof fn lemma_wrap_id(x: int)
    requires
        fits_i64(x),
    ensures
        wrap(x) == x,
{
    if x >= 0 {
        lemma_small_mod(x as nat, 0x1_0000_0000_0000_0000);
    } else {
        lemma_mod_add_multiples_vanish(x, 0x1_0000_0000_0000_0000);
        lemma_small_mod((x + 0x1_0000_0000_0000_0000) as nat, 0x1_0000_0000_0000_0000);
    }
}

/// Congruent integers wrap to the same cell value.
pub proof fn lemma_wrap_congruent(a: int, b: int)
    requires
        a % 0x1_0000_0000_0000_0000 == b % 0x1_0000_0000_0000_0000,
    ensures
        wrap(a) == wrap(b),
{
}

/// `wrap(x)` is congruent to `x` modulo `2^64`.
pub proof fn lemma_wrap_congruence_self(x: int)
    ensures
        wrap(x) % 0x1_0000_0000_0000_0000 == x % 0x1_0000_0000_0000_0000,
{
    if x % 0x1_0000_0000_0000_0000 >= 0x8000_0000_0000_0000 {
        lemma_mod_sub_multiples_vanish(x, 0x1_0000_0000_0000_0000);
    }
    lemma_mod_bound(x, 0x1_0000_0000_0000_0000);
    if wrap(x) >= 0 {
        lemma_small_mod(wrap(x) as nat, 0x1_0000_0000_0000_0000);
    } else {
        lemma_mod_add_multiples_vanish(wrap(x), 0x1_0000_0000_0000_0000);
        lemma_small_mod((wrap(x) + 0x1_0000_0000_0000_0000) as nat, 0x1_0000_0000_0000_0000);
    }
}

/// Wrapping one summand first does not change a wrapped sum.
pub proof fn lemma_wadd_wrap_left(a: int, b: int)
    ensures
        wadd(wrap(a), b) == wadd(a, b),
{
    lemma_wrap_congruence_self(a);
    lemma_add_mod_noop(wrap(a), b, 0x1_0000_0000_0000_0000);
    lemma_add_mod_noop(a, b, 0x1_0000_0000_0000_0000);
    lemma_wrap_congruent(wrap(a) + b, a + b);
}

/// Wrapping one factor first does not change a wrapped product.
pub proof fn lemma_wmul_wrap_left(a: int, b: int)
    ensures
        wmul(wrap(a), b) == wmul(a, b),
{
    lemma_wrap_congruence_self(a);
    lemma_mul_mod_noop_left(wrap(a), b, 0x1_0000_0000_0000_0000);
    lemma_mul_mod_noop_left(a, b, 0x1_0000_0000_0000_0000);
    lemma_wrap_congruent(wrap(a) * b, a * b);
}

/// Adding the wrapped zero is the identity on cell values.
pub proof fn lemma_wadd_zero(a: int)
    requires
        fits_i64(a),
    ensures
        wadd(a, 0) == a,
{
    lemma_wrap_id(a);
}

/// Wrapping addition is commutative.
pub proof fn lemma_wadd_comm(a: int, b: int)
    ensures
        wadd(a, b) == wadd(b, a),
{
}

/// Wrapping addition is associative on cell values.
pub proof fn lemma_wadd_assoc(a: int, b: int, c: int)
    ensures
        wadd(wadd(a, b), c) == wadd(a, wadd(b, c)),
{
    lemma_wadd_wrap_left(a + b, c);
    lemma_wadd_wrap_left(b + c, a);
    lemma_wrap_congruent(a + (b + c), (a + b) + c);
}

/// Multiplying by the additive identity gives the additive identity.
pub proof fn lemma_wmul_zero(a: int)
    ensures
        wmul(a, 0) == 0,
        wmul(0, a) == 0,
{
    lemma_wrap_id(0);
}

/// Multiplying by one is the identity on cell values.
pub proof fn lemma_wmul_one(a: int)
    requires
        fits_i64(a),
    ensures
        wmul(1, a) == a,
        wmul(a, 1) == a,
{
    lemma_wrap_id(a);
}

/// Wrapping multiplication distributes over wrapping addition.
pub proof fn lemma_wmul_distrib(a: int, b: int, c: int)
    ensures
        wmul(wadd(a, b), c) == wadd(wmul(a, c), wmul(b, c)),
{
    lemma_wmul_wrap_left(a + b, c);
    vstd::arithmetic::mul::lemma_mul_is_distributive_add_other_way(c, a, b);
    lemma_wadd_wrap_left(a * c, b * c);
    lemma_wadd_comm(wrap(a * c), b * c);
    lemma_wadd_wrap_left(b * c, wrap(a * c));
    lemma_wadd_comm(b * c, wrap(a * c));
    lemma_wrap_congruent(wrap(a * c) + b * c, a * c + b * c);
}

/// Wrapping 64-bit addition.
pub fn add_w(a: i64, b: i64) -> (r: i64)
    ensures
        r as int == wadd(a as int, b as int),
{
    proof {
        let s = a as int + b as int;
        if s > i64::MAX {
            lemma_mod_sub_multiples_vanish(s, 0x1_0000_0000_0000_0000);
            lemma_wrap_congruent(s - 0x1_0000_0000_0000_0000, s);
            lemma_wrap_id(s - 0x1_0000_0000_0000_0000);
        } else if s < i64::MIN {
            lemma_mod_add_multiples_vanish(s, 0x1_0000_0000_0000_0000);
            lemma_wrap_congruent(s + 0x1_0000_0000_0000_0000, s);
            lemma_wrap_id(s + 0x1_0000_0000_0000_0000);
        } else {
            lemma_wrap_id(s);
        }
    }
    a.wrapping_add(b)
}

/// Wrapping 64-bit subtraction.
pub fn sub_w(a: i64, b: i64) -> (r: i64)
    ensures
        r as int == wsub(a as int, b as int),
{
    proof {
        let s = a as int - b as int;
        if s > i64::MAX {
            lemma_mod_sub_multiples_vanish(s, 0x1_0000_0000_0000_0000);
            lemma_wrap_congruent(s - 0x1_0000_0000_0000_0000, s);
            lemma_wrap_id(s - 0x1_0000_0000_0000_0000);
        } else if s < i64::MIN {
            lemma_mod_add_multiples_vanish(s, 0x1_0000_0000_0000_0000);
            lemma_wrap_congruent(s + 0x1_0000_0000_0000_0000, s);
            lemma_wrap_id(s + 0x1_0000_0000_0000_0000);
        } else {
            lemma_wrap_id(s);
        }
    }
    a.wrapping_sub(b)
}

/// Wrapping 64-bit multiplication.
pub fn mul_w(a: i64, b: i64) -> (r: i64)
    ensures
        r as int == wmul(a as int, b as int),
{
    a.wrapping_mul(b)
}

/// Absolute value of a cell value, wrapping on the most negative cell.
pub open spec fn wabs(x: int) -> int {
    if x >= 0 {
        x
    } else {
        wrap(-x)
    }
}

/// The floor of the square root of a nonnegative integer (0 below zero).
pub open spec fn sqrt_floor(x: int) -> int
    decreases x,
{
    if x <= 0 {
        0
    } else {
        let p = sqrt_floor(x - 1);
        if (p + 1) * (p + 1) <= x {
            p + 1
        } else {
            p
        }
    }
}

/// `sqrt_floor(x)` is the largest integer whose square does not exceed `x`.
pub proof fn lemma_sqrt_floor_bounds(x: int)
    requires
        x >= 0,
    ensures
        sqrt_floor(x) >= 0,
        sqrt_floor(x) * sqrt_floor(x) <= x,
        x < (sqrt_floor(x) + 1) * (sqrt_floor(x) + 1),
    decreases x,
{
    if x > 0 {
        lemma_sqrt_floor_bounds(x - 1);
        let p = sqrt_floor(x - 1);
        assert((p + 1) * (p + 1) < (p + 2) * (p + 2)) by (nonlinear_arith)
            requires p >= 0;
    }
}

/// Any integer meeting the floor-square-root bounds is `sqrt_floor(x)`.
pub proof fn lemma_sqrt_floor_unique(x: int, r: int)
    requires
        x >= 0,
        r >= 0,
        r * r <= x,
        x < (r + 1) * (r + 1),
    ensures
        r == sqrt_floor(x),
{
    let s = sqrt_floor(x);
    lemma_sqrt_floor_bounds(x);
    if r < s {
        vstd::arithmetic::mul::lemma_mul_inequality(r + 1, s, r + 1);
        vstd::arithmetic::mul::lemma_mul_inequality(r + 1, s, s);
        vstd::arithmetic::mul::lemma_mul_is_commutative(r + 1, s);
    }
    if s < r {
        vstd::arithmetic::mul::lemma_mul_inequality(s + 1, r, s + 1);
        vstd::arithmetic::mul::lemma_mul_inequality(s + 1, r, r);
        vstd::arithmetic::mul::lemma_mul_is_commutative(s + 1, r);
    }
}

/// Wrapping truncated 64-bit division; the divisor must be nonzero.
pub fn div_w(a: i64, b: i64) -> (r: i64)
    requires
        b != 0,
    ensures
        r as int == wdiv(a as int, b as int),
{
    match a.checked_div(b) {
        Some(q) => {
            proof {
                lemma_wrap_id(tdiv(a as int, b as int));
            }
            q
        },
        None => {
            proof {
                lemma_small_mod(0x8000_0000_0000_0000nat, 0x1_0000_0000_0000_0000nat);
            }
            i64::MIN
        },
    }
}

/// Wrapping 64-bit absolute value.
pub fn abs_w(a: i64) -> (r: i64)
    ensures
        r as int == wabs(a as int),
{
    if a == i64::MIN {
        proof {
            lemma_small_mod(0x8000_0000_0000_0000nat, 0x1_0000_0000_0000_0000nat);
        }
        a
    } else if a < 0 {
        proof {
            lemma_wrap_id(-a as int);
        }
        -a
    } else {
        a
    }
}

/// Floor of the square root of a nonnegative 64-bit value, by bisection.
pub fn isqrt(x: i64) -> (r: i64)
    requires
        x >= 0,
    ensures
        r as int == sqrt_floor(x as int),
        r >= 0,
{
    let xu: u64 = x as u64;
    let mut lo: u64 = 0;
    let mut hi: u64 = 3037000500;
    proof {
        assert(3037000500 * 3037000500 > xu as int) by (nonlinear_arith)
            requires xu <= 0x7fff_ffff_ffff_ffff;
    }
    while lo + 1 < hi
        invariant
            lo < hi <= 3037000500,
            lo * lo <= xu,
            hi * hi > xu,
            xu as int == x as int,
        decreases hi - lo,
    {
        let mid = lo + (hi - lo) / 2;
        proof {
            vstd::arithmetic::mul::lemma_mul_upper_bound(
                mid as int, 3037000499, mid as int, 3037000499,
            );
        }
        if mid * mid <= xu {
            lo = mid;
        } else {
            hi = mid;
        }
    }
    proof {
        lemma_sqrt_floor_unique(x as int, lo as int);
    }
    lo as i64
}

/// Wrapping addition closed over 64-bit cell values.
pub open spec fn wadd64(a: i64, b: i64) -> i64 {
    wadd(a as int, b as int) as i64
}

/// Wrapping subtraction closed over 64-bit cell values.
pub open spec fn wsub64(a: i64, b: i64) -> i64 {
    wsub(a as int, b as int) as i64
}

/// Wrapping multiplication closed over 64-bit cell values.
pub open spec fn wmul64(a: i64, b: i64) -> i64 {
    wmul(a as int, b as int) as i64
}

/// Wrapping truncated division closed over 64-bit cell values.
pub open spec fn wdiv64(a: i64, b: i64) -> i64 {
    wdiv(a as int, b as int) as i64
}

/// Floor square root closed over 64-bit cell values.
pub open spec fn sqrt64(a: i64) -> i64 {
    sqrt_floor(a as int) as i64
}

/// The floor square root of a nonnegative value does not exceed it.
pub proof fn lemma_sqrt_floor_le(x: int)
    requires
        x >= 0,
    ensures
        0 <= sqrt_floor(x) <= x,
{
    lemma_sqrt_floor_bounds(x);
    let s = sqrt_floor(x);
    if s >= 1 {
        vstd::arithmetic::mul::lemma_mul_inequality(1, s, s);
    }
}

/// The closed 64-bit operations agree with the wrapped operations on
/// unbounded integers.
pub proof fn lemma_w64_ops(a: i64, b: i64)
    ensures
        wadd64(a, b) as int == wadd(a as int, b as int),
        wsub64(a, b) as int == wsub(a as int, b as int),
        wmul64(a, b) as int == wmul(a as int, b as int),
        wdiv64(a, b) as int == wdiv(a as int, b as int),
        a >= 0 ==> sqrt64(a) as int == sqrt_floor(a as int),
{
    lemma_wrap_in_range(a as int + b as int);
    lemma_wrap_in_range(a as int - b as int);
    lemma_wrap_in_range((a as int) * (b as int));
    lemma_wrap_in_range(tdiv(a as int, b as int));
    if a >= 0 {
        lemma_sqrt_floor_le(a as int);
    }
}

/// The wrapped power: `b^e` with each multiplication wrapped.
pub open spec fn wpow(b: int, e: nat) -> int
    decreases e,
{
    if e == 0 {
        1
    } else {
        wmul(b, wpow(b, (e - 1) as nat))
    }
}

/// True powers are monotone in a nonnegative base.
pub proof fn lemma_pow_base_le(a: int, b: int, e: nat)
    requires
        0 <= a <= b,
    ensures
        0 <= vstd::arithmetic::power::pow(a, e),
        vstd::arithmetic::power::pow(a, e) <= vstd::arithmetic::power::pow(b, e),
    decreases e,
{
    reveal(vstd::arithmetic::power::pow);
    if e > 0 {
        lemma_pow_base_le(a, b, (e - 1) as nat);
        let pa = vstd::arithmetic::power::pow(a, (e - 1) as nat);
        let pb = vstd::arithmetic::power::pow(b, (e - 1) as nat);
        vstd::arithmetic::mul::lemma_mul_nonnegative(a, pa);
        vstd::arithmetic::mul::lemma_mul_inequality(a, b, pa);
        vstd::arithmetic::mul::lemma_mul_inequality(pa, pb, b);
        vstd::arithmetic::mul::lemma_mul_is_commutative(b, pa);
        vstd::arithmetic::mul::lemma_mul_is_commutative(b, pb);
    }
}

/// True powers are strictly monotone in a nonnegative base once the
/// exponent is positive.
pub proof fn lemma_pow_base_lt(a: int, b: int, e: nat)
    requires
        0 <= a < b,
        e >= 1,
    ensures
        vstd::arithmetic::power::pow(a, e) < vstd::arithmetic::power::pow(b, e),
    decreases e,
{
    reveal(vstd::arithmetic::power::pow);
    if e == 1 {
        vstd::arithmetic::power::lemma_pow1(a);
        vstd::arithmetic::power::lemma_pow1(b);
    } else {
        lemma_pow_base_lt(a, b, (e - 1) as nat);
        lemma_pow_base_le(a, b, (e - 1) as nat);
        let pa = vstd::arithmetic::power::pow(a, (e - 1) as nat);
        let pb = vstd::arithmetic::power::pow(b, (e - 1) as nat);
        vstd::arithmetic::power::lemma_pow_positive(b, (e - 1) as nat);
        vstd::arithmetic::mul::lemma_mul_inequality(a, b, pa);
        vstd::arithmetic::mul::lemma_mul_strict_inequality(pa, pb, b);
        vstd::arithmetic::mul::lemma_mul_is_commutative(b, pa);
        vstd::arithmetic::mul::lemma_mul_is_commutative(b, pb);
    }
}

/// The floor of the `e`-th root of a nonnegative integer (0 below zero or
/// for a zero exponent).
pub open spec fn root_floor(x: int, e: nat) -> int
    decreases x,
{
    if x <= 0 || e == 0 {
        0
    } else {
        let p = root_floor(x - 1, e);
        if vstd::arithmetic::power::pow(p + 1, e) <= x {
            p + 1
        } else {
            p
        }
    }
}

/// `root_floor(x, e)` is the largest integer whose `e`-th power does not
/// exceed `x`.
pub proof fn lemma_root_floor_bounds(x: int, e: nat)
    requires
        x >= 0,
        e >= 1,
    ensures
        root_floor(x, e) >= 0,
        vstd::arithmetic::power::pow(root_floor(x, e), e) <= x,
        x < vstd::arithmetic::power::pow(root_floor(x, e) + 1, e),
    decreases x,
{
    reveal(vstd::arithmetic::power::pow);
    if x == 0 {
        vstd::arithmetic::power::lemma_pow_positive(1, e);
        lemma_pow_base_lt(0, 1, e);
        vstd::arithmetic::power::lemma0_pow(e);
    } else {
        lemma_root_floor_bounds(x - 1, e);
        let p = root_floor(x - 1, e);
        lemma_pow_base_lt(p + 1, p + 2, e);
    }
}

/// Any integer meeting the floor-root bounds is `root_floor(x, e)`.
pub proof fn lemma_root_floor_unique(x: int, e: nat, r: int)
    requires
        x >= 0,
        e >= 1,
        r >= 0,
        vstd::arithmetic::power::pow(r, e) <= x,
        x < vstd::arithmetic::power::pow(r + 1, e),
    ensures
        r == root_floor(x, e),
{
    let s = root_floor(x, e);
    lemma_root_floor_bounds(x, e);
    if r < s {
        lemma_pow_base_le(r + 1, s, e);
    }
    if s < r {
        lemma_pow_base_le(s + 1, r, e);
    }
}

/// The wrapped power of a 64-bit value.
pub fn pow_w(b: i64, e: u32) -> (r: i64)
    ensures
        r as int == wpow(b as int, e as nat),
{
    let mut acc: i64 = 1;
    let mut t: u32 = 0;
    while t < e
        invariant
            t <= e,
            acc as int == wpow(b as int, t as nat),
        decreases e - t,
    {
        acc = mul_w(b, acc);
        t = t + 1;
    }
    acc
}

/// Whether `base ^ e <= x`, decided without overflowing.
fn pow_le(base: i64, e: u32, x: i64) -> (r: bool)
    requires
        base >= 0,
        x >= 0,
        e >= 1,
    ensures
        r == (vstd::arithmetic::power::pow(base as int, e as nat) <= x as int),
{
    if base == 0 {
        proof {
            vstd::arithmetic::power::lemma0_pow(e as nat);
        }
        return true;
    }
    let mut acc: i64 = 1;
    let mut t: u32 = 0;
    proof {
        vstd::arithmetic::power::lemma_pow0(base as int);
    }
    while t < e
        invariant
            base >= 1,
            x >= 0,
            e >= 1,
            t <= e,
            acc >= 1,
            acc as int == vstd::arithmetic::power::pow(base as int, t as nat),
        decreases e - t,
    {
        match acc.checked_mul(base) {
            None => {
                proof {
                    reveal(vstd::arithmetic::power::pow);
                    assert(acc as int * base as int
                        == vstd::arithmetic::power::pow(base as int, t as nat + 1))
                        by {
                        vstd::arithmetic::mul::lemma_mul_is_commutative(
                            acc as int, base as int);
                    }
                    vstd::arithmetic::mul::lemma_mul_strictly_positive(
                        acc as int, base as int);
                    vstd::arithmetic::power::lemma_pow_increases(
                        base as nat, (t + 1) as nat, e as nat);
                }
                return false;
            },
            Some(v) => {
                proof {
                    reveal(vstd::arithmetic::power::pow);
                    vstd::arithmetic::mul::lemma_mul_is_commutative(acc as int, base as int);
                    vstd::arithmetic::mul::lemma_mul_strictly_positive(
                        acc as int, base as int);
                }
                acc = v;
            },
        }
        t = t + 1;
    }
    acc <= x
}

/// Floor of the `e`-th root of a nonnegative 64-bit value, by bisection.
pub fn iroot(x: i64, e: u32) -> (r: i64)
    requires
        x >= 0,
        e >= 1,
    ensures
        r as int == root_floor(x as int, e as nat),
        r >= 0,
{
    let xu: u64 = x as u64;
    let mut lo: u64 = 0;
    let mut hi: u64 = xu + 1;
    proof {
        vstd::arithmetic::power::lemma0_pow(e as nat);
        vstd::arithmetic::power::lemma_pow1(xu as int + 1);
        vstd::arithmetic::power::lemma_pow_increases(
            (xu + 1) as nat, 1nat, e as nat);
    }
    while lo + 1 < hi
        invariant
            x >= 0,
            e >= 1,
            xu as int == x as int,
            lo < hi <= xu + 1,
            vstd::arithmetic::power::pow(lo as int, e as nat) <= xu as int,
            vstd::arithmetic::power::pow(hi as int, e as nat) > xu as int,
        decreases hi - lo,
    {
        let mid = lo + (hi - lo) / 2;
        if pow_le(mid as i64, e, x) {
            lo = mid;
        } else {
            hi = mid;
        }
    }
    proof {
        lemma_root_floor_unique(x as int, e as nat, lo as int);
    }
    lo as i64
}

} // verus!
