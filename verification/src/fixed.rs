//! Q16.16 fixed-point arithmetic on `i64`.
//!
//! Continuous quantities (positions, directions, distances, normalized
//! audio samples) are represented as integers scaled by `ONE = 2^16`.

use vstd::prelude::*;

verus! {

/// The fixed-point scale: the representation of 1.0.
pub const ONE: i64 = 65536;

/// Sentinel for an unbounded ray step along an axis the ray never crosses.
/// Far larger than any reachable traversal length.
pub const INF: i64 = 0x4_0000_0000_0000;

/// A signed Q16 direction component scaled by a non-negative magnitude:
/// the product's magnitude divided by ONE, carrying the component's sign.
pub open spec fn spec_scale_dir(c: int, m: int) -> int {
    if c < 0 {
        -((-c) * m / (ONE as int))
    } else {
        c * m / (ONE as int)
    }
}

/// Executable form of `spec_scale_dir`.
pub fn scale_dir(c: i64, m: i64) -> (r: i64)
    requires
        -ONE <= c <= ONE,
        0 <= m <= 0x7FFF_FFFF,
    ensures
        r == spec_scale_dir(c as int, m as int),
        -m <= r <= m,
{
    let a: i64 = if c < 0 { -c } else { c };
    proof {
        assert(0 <= a * m <= ONE * m) by (nonlinear_arith)
            requires
                0 <= a <= ONE,
                0 <= m,
        ;
        vstd::arithmetic::div_mod::lemma_div_pos_is_pos(a * m, ONE as int);
        vstd::arithmetic::div_mod::lemma_div_is_ordered(a * m, ONE * m, ONE as int);
        vstd::arithmetic::div_mod::lemma_div_multiples_vanish(m as int, ONE as int);
    }
    let d: i64 = (a * m) / ONE;
    if c < 0 { -d } else { d }
}

/// Division of non-negative fixed-point values, exact integer quotient.
pub fn div_pos(a: i64, b: i64) -> (r: i64)
    requires
        a >= 0,
        b > 0,
    ensures
        r == a as int / b as int,
{
    a / b
}

} // verus!
