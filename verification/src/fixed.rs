//! Fixed-point arithmetic primitives shared by the signal and accounting
//! components: truncating division (the machine's signed division), saturating
//! accumulation, and clamping of wide intermediates back to 64 bits.

use vstd::prelude::*;

verus! {

/// Sign of an integer: 1, -1 or 0.
pub open spec fn sign_of(x: int) -> int {
    if x > 0 {
        1
    } else if x < 0 {
        -1
    } else {
        0
    }
}

/// Absolute value.
pub open spec fn abs_of(x: int) -> int {
    if x >= 0 {
        x
    } else {
        -x
    }
}

/// The smaller of two integers.
pub open spec fn min_of(a: int, b: int) -> int {
    if a <= b {
        a
    } else {
        b
    }
}

/// Truncating (round-toward-zero) division, the behaviour of `/` on the
/// machine's signed integers.  Spec-level `/` is Euclidean, so the negative
/// cases are spelled out through non-negative quotients.
pub open spec fn div_tr(a: int, b: int) -> int
    recommends
        b != 0,
{
    if a == 0 {
        0
    } else if a > 0 && b > 0 {
        a / b
    } else if a < 0 && b < 0 {
        (-a) / (-b)
    } else if a < 0 {
        -((-a) / b)
    } else {
        -(a / (-b))
    }
}

/// Saturation of an unbounded integer to the `i64` range.
pub open spec fn sat_i64(x: int) -> int {
    if x > i64::MAX {
        i64::MAX as int
    } else if x < i64::MIN {
        i64::MIN as int
    } else {
        x
    }
}

/// Saturating 64-bit addition.
pub fn sat_add_i64(a: i64, b: i64) -> (r: i64)
    ensures
        r == sat_i64(a + b),
{
    match a.checked_add(b) {
        Some(v) => v,
        None => {
            if b >= 0 {
                i64::MAX
            } else {
                i64::MIN
            }
        },
    }
}

/// Clamp a 128-bit intermediate to the `i64` range.
pub fn clamp_i128_to_i64(x: i128) -> (r: i64)
    ensures
        r == sat_i64(x as int),
{
    if x > i64::MAX as i128 {
        i64::MAX
    } else if x < i64::MIN as i128 {
        i64::MIN
    } else {
        x as i64
    }
}

proof fn lemma_div_tr_small(a: int, b: int)
    requires
        b != 0,
        !(a == i64::MIN && b == -1),
        i64::MIN <= a <= i64::MAX,
    ensures
        i64::MIN <= div_tr(a, b) <= i64::MAX,
{
    broadcast use vstd::arithmetic::div_mod::lemma_div_nonincreasing;
    broadcast use vstd::arithmetic::div_mod::lemma_div_pos_is_pos;

    if a == 0 {
    } else if a > 0 && b > 0 {
        assert(a / b <= a);
        assert(a / b >= 0);
    } else if a < 0 && b < 0 {
        if a == i64::MIN {
            assert(-b >= 2);
            vstd::arithmetic::div_mod::lemma_div_is_ordered_by_denominator(-a, 2, -b);
            assert((-a) / 2 == 0x4000_0000_0000_0000);
        } else {
            assert((-a) / (-b) <= -a);
        }
        assert((-a) / (-b) >= 0);
    } else if a < 0 {
        assert((-a) / b <= -a);
        assert((-a) / b >= 0);
    } else {
        assert(a / (-b) <= a);
        assert(a / (-b) >= 0);
    }
}

/// Truncating 64-bit division; `i64::MIN / -1` is excluded because its
/// quotient does not fit.
pub fn div_i64(a: i64, b: i64) -> (r: i64)
    requires
        b != 0,
        !(a == i64::MIN && b == -1),
    ensures
        r == div_tr(a as int, b as int),
{
    proof {
        lemma_div_tr_small(a as int, b as int);
    }
    match a.checked_div(b) {
        Some(v) => v,
        None => 0,
    }
}

proof fn lemma_div_tr_small_128(a: int, b: int)
    requires
        b != 0,
        !(a == i128::MIN && b == -1),
        i128::MIN <= a <= i128::MAX,
    ensures
        i128::MIN <= div_tr(a, b) <= i128::MAX,
{
    broadcast use vstd::arithmetic::div_mod::lemma_div_nonincreasing;
    broadcast use vstd::arithmetic::div_mod::lemma_div_pos_is_pos;

    if a == 0 {
    } else if a > 0 && b > 0 {
        assert(a / b <= a);
        assert(a / b >= 0);
    } else if a < 0 && b < 0 {
        if a == i128::MIN {
            assert(-b >= 2);
            vstd::arithmetic::div_mod::lemma_div_is_ordered_by_denominator(-a, 2, -b);
            assert((-a) / 2 == 0x4000_0000_0000_0000_0000_0000_0000_0000);
        } else {
            assert((-a) / (-b) <= -a);
        }
        assert((-a) / (-b) >= 0);
    } else if a < 0 {
        assert((-a) / b <= -a);
        assert((-a) / b >= 0);
    } else {
        assert(a / (-b) <= a);
        assert(a / (-b) >= 0);
    }
}

/// Truncating 128-bit division for wide intermediates.
pub fn div_i128(a: i128, b: i128) -> (r: i128)
    requires
        b != 0,
        !(a == i128::MIN && b == -1),
    ensures
        r == div_tr(a as int, b as int),
{
    proof {
        lemma_div_tr_small_128(a as int, b as int);
    }
    match a.checked_div(b) {
        Some(v) => v,
        None => 0,
    }
}

} // verus!
