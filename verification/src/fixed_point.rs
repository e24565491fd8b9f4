//! Integer helpers shared by the fixed-point computations of the library.
use vstd::arithmetic::div_mod::{lemma_fundamental_div_mod, lemma_fundamental_div_mod_converse};
use vstd::prelude::*;

verus! {

/// `v` brought into the range of a 32-bit signed integer.
pub open spec fn clamp_i32(v: int) -> int {
    if v < i32::MIN as int {
        i32::MIN as int
    } else if v > i32::MAX as int {
        i32::MAX as int
    } else {
        v
    }
}

/// Quotient rounded towards minus infinity.
pub fn floor_div(n: i128, d: i128) -> (q: i128)
    requires
        d > 0,
    ensures
        q == n / d,
{
    if n >= 0 {
        n / d
    } else {
        let m: i128 = -(n + 1);
        let r: i128 = m / d;
        proof {
            let rem = (m as int) % (d as int);
            lemma_fundamental_div_mod(m as int, d as int);
            assert(0 <= rem < d) by (nonlinear_arith)
                requires
                    rem == (m as int) % (d as int),
                    d > 0,
            ;
            assert((n as int) == (-(r as int) - 1) * (d as int) + ((d as int) - 1 - rem))
                by (nonlinear_arith)
                requires
                    (m as int) == (d as int) * (r as int) + rem,
                    (m as int) == -((n as int) + 1),
            ;
            lemma_fundamental_div_mod_converse(
                n as int,
                d as int,
                -(r as int) - 1,
                (d as int) - 1 - rem,
            );
        }
        -r - 1
    }
}

/// Saturating conversion to a 32-bit signed integer.
pub fn saturate_i32(v: i128) -> (c: i32)
    ensures
        c == clamp_i32(v as int),
{
    if v < i32::MIN as i128 {
        i32::MIN
    } else if v > i32::MAX as i128 {
        i32::MAX
    } else {
        v as i32
    }
}

} // verus!
