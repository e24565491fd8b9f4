//! Embedding vectors in fixed point, and their normalisation to unit
//! length.
//!
//! A component of a normalised vector is a multiple of `1 / EMBEDDING_ONE`.
use vstd::arithmetic::div_mod::{lemma_fundamental_div_mod, lemma_div_is_ordered,
    lemma_div_multiples_vanish};
use vstd::prelude::*;

verus! {

/// The value one in the fixed-point scale of normalised embeddings.
pub const EMBEDDING_ONE: i32 = 1_073_741_824;

/// Length of a whole-image or text embedding.
pub const IMAGE_EMBEDDING_LENGTH: usize = 768;

/// Length of a face embedding.
pub const FACE_EMBEDDING_LENGTH: usize = 512;

/// `EMBEDDING_ONE` squared: the squared length of a unit vector.
pub open spec fn unit_square() -> int {
    (EMBEDDING_ONE as int) * (EMBEDDING_ONE as int)
}

/// Sum of the squares of the components.
pub open spec fn sum_of_squares(v: Seq<i32>) -> int
    decreases v.len(),
{
    if v.len() == 0 {
        0
    } else {
        sum_of_squares(v.drop_last()) + (v.last() as int) * (v.last() as int)
    }
}

/// The share of a component's square in the squared length `total`,
/// measured against the unit square and rounded down.
pub open spec fn scaled_square(component: i32, total: int) -> int {
    ((component as int) * (component as int) * unit_square()) / total
}

/// `root` is the square root of `x`, rounded down.
pub open spec fn is_floor_root(root: int, x: int) -> bool {
    0 <= root && root * root <= x < (root + 1) * (root + 1)
}

pub open spec fn magnitude(c: int) -> int {
    if c < 0 {
        -c
    } else {
        c
    }
}

/// `out` is `v` brought to unit length: every component keeps its sign and
/// its magnitude is the rounded-down root of its share of the unit square.
pub open spec fn is_normalised(out: Seq<i32>, v: Seq<i32>) -> bool {
    &&& out.len() == v.len()
    &&& forall|i: int|
        0 <= i < v.len() ==> {
            &&& is_floor_root(
                magnitude(#[trigger] out[i] as int),
                scaled_square(v[i], sum_of_squares(v)),
            )
            &&& (v[i] < 0 ==> out[i] <= 0)
            &&& (v[i] >= 0 ==> out[i] >= 0)
        }
}

/// The unit-length form of `v`. It is only meaningful for a vector that is
/// not zero.
pub open spec fn unit_vector(v: Seq<i32>) -> Seq<i32> {
    choose|out: Seq<i32>| is_normalised(out, v)
}

/// The floor root of a number is unique.
pub proof fn lemma_floor_root_unique(a: int, b: int, x: int)
    requires
        is_floor_root(a, x),
        is_floor_root(b, x),
    ensures
        a == b,
{
    if a < b {
        assert((a + 1) * (a + 1) <= b * b) by (nonlinear_arith)
            requires
                0 <= a,
                a + 1 <= b,
        ;
    } else if b < a {
        assert((b + 1) * (b + 1) <= a * a) by (nonlinear_arith)
            requires
                0 <= b,
                b + 1 <= a,
        ;
    }
}

/// A vector has at most one normalised form.
pub proof fn lemma_normalised_unique(a: Seq<i32>, b: Seq<i32>, v: Seq<i32>)
    requires
        is_normalised(a, v),
        is_normalised(b, v),
    ensures
        a == b,
{
    assert forall|i: int| 0 <= i < v.len() implies a[i] == b[i] by {
        lemma_floor_root_unique(
            magnitude(a[i] as int),
            magnitude(b[i] as int),
            scaled_square(v[i], sum_of_squares(v)),
        );
    }
    assert(a =~= b);
}

/// Square root rounded down.
pub fn isqrt(x: u64) -> (root: u32)
    ensures
        is_floor_root(root as int, x as int),
{
    let mut lo: u64 = 0;
    let mut hi: u64 = 0x1_0000_0000;
    while hi - lo > 1
        invariant
            lo < hi <= 0x1_0000_0000,
            lo * lo <= x,
            x < hi * hi,
        decreases hi - lo,
    {
        let mid: u64 = lo + (hi - lo) / 2;
        assert(mid * mid < 0x1_0000_0000 * 0x1_0000_0000) by (nonlinear_arith)
            requires
                0 <= mid < 0x1_0000_0000,
        ;
        if mid * mid <= x {
            lo = mid;
        } else {
            hi = mid;
        }
    }
    lo as u32
}

/// Bounds of the squares of components and of their sum.
pub proof fn lemma_sum_of_squares_bounds(v: Seq<i32>)
    ensures
        0 <= sum_of_squares(v) <= v.len() * 0x4000_0000_0000_0000,
        forall|i: int|
            0 <= i < v.len() ==> 0 <= (#[trigger] v[i] as int) * (v[i] as int) <= sum_of_squares(v),
    decreases v.len(),
{
    if v.len() > 0 {
        let init = v.drop_last();
        let c = v.last() as int;
        lemma_sum_of_squares_bounds(init);
        assert(0 <= c * c <= 0x4000_0000_0000_0000) by (nonlinear_arith)
            requires
                -0x8000_0000 <= c <= 0x8000_0000,
        ;
        assert((init.len() + 1) * 0x4000_0000_0000_0000 == init.len() * 0x4000_0000_0000_0000
            + 0x4000_0000_0000_0000) by (nonlinear_arith);
        assert forall|i: int| 0 <= i < v.len() implies 0 <= (#[trigger] v[i] as int) * (
        v[i] as int) <= sum_of_squares(v) by {
            if i < init.len() {
                assert(init[i] == v[i]);
            }
        }
    }
}

fn squared_length(v: &Vec<i32>) -> (total: u128)
    ensures
        total == sum_of_squares(v@),
{
    let mut total: u128 = 0;
    let mut i: usize = 0;
    while i < v.len()
        invariant
            i <= v.len(),
            total == sum_of_squares(v@.take(i as int)),
        decreases v.len() - i,
    {
        let c: i128 = v[i] as i128;
        proof {
            assert(v@.take(i + 1).drop_last() =~= v@.take(i as int));
            lemma_sum_of_squares_bounds(v@.take(i as int));
            lemma_sum_of_squares_bounds(v@.take(i + 1));
            assert(i * 0x4000_0000_0000_0000 <= 0x1_0000_0000_0000_0000 * 0x4000_0000_0000_0000)
                by (nonlinear_arith)
                requires
                    0 <= i <= 0x1_0000_0000_0000_0000,
            ;
            assert(0 <= c * c <= 0x4000_0000_0000_0000) by (nonlinear_arith)
                requires
                    -0x8000_0000 <= c <= 0x8000_0000,
            ;
        }
        total = total + (c * c) as u128;
        i += 1;
    }
    proof {
        assert(v@.take(v.len() as int) =~= v@);
    }
    total
}

fn normalise_component(component: i32, total: u128) -> (out: i32)
    requires
        total > 0,
        (component as int) * (component as int) <= total,
    ensures
        is_floor_root(magnitude(out as int), scaled_square(component, total as int)),
        component < 0 ==> out <= 0,
        component >= 0 ==> out >= 0,
{
    let c: i128 = component as i128;
    assert(0 <= c * c <= 0x4000_0000_0000_0000) by (nonlinear_arith)
        requires
            -0x8000_0000 <= c <= 0x8000_0000,
    ;
    let square: u128 = (c * c) as u128;
    assert(square * 0x1000_0000_0000_0000 <= 0x4000_0000_0000_0000 * 0x1000_0000_0000_0000)
        by (nonlinear_arith)
        requires
            0 <= square <= 0x4000_0000_0000_0000,
    ;
    let scaled: u128 = square * 0x1000_0000_0000_0000;
    let share: u128 = scaled / total;
    proof {
        assert(unit_square() == 0x1000_0000_0000_0000) by (nonlinear_arith);
        assert((component as int) * (component as int) * unit_square() == scaled) by (nonlinear_arith)
            requires
                scaled == square * 0x1000_0000_0000_0000,
                square == (component as int) * (component as int),
                unit_square() == 0x1000_0000_0000_0000,
        ;
        assert(square * 0x1000_0000_0000_0000 <= total * 0x1000_0000_0000_0000)
            by (nonlinear_arith)
            requires
                square <= total,
        ;
        lemma_div_is_ordered(scaled as int, total * 0x1000_0000_0000_0000, total as int);
        lemma_div_multiples_vanish(0x1000_0000_0000_0000, total as int);
        assert(share <= 0x1000_0000_0000_0000);
    }
    let root: u32 = isqrt(share as u64);
    proof {
        if root > 0x4000_0000 {
            assert(root * root >= 0x4000_0001 * 0x4000_0001) by (nonlinear_arith)
                requires
                    root >= 0x4000_0001,
            ;
        }
    }
    if component < 0 {
        -(root as i32)
    } else {
        root as i32
    }
}

/// Brings `v` to unit length: every component is divided by the length of
/// the vector. The zero vector has no direction and yields `None`.
pub fn l2_normalize(v: &Vec<i32>) -> (unit: Option<Vec<i32>>)
    ensures
        unit.is_some() == (sum_of_squares(v@) > 0),
        unit.is_some() ==> is_normalised(unit.unwrap()@, v@),
        unit.is_some() ==> unit.unwrap()@ == unit_vector(v@),
{
    let total = squared_length(v);
    if total == 0 {
        return None;
    }
    let mut out: Vec<i32> = Vec::new();
    let mut i: usize = 0;
    while i < v.len()
        invariant
            i <= v.len(),
            total == sum_of_squares(v@),
            total > 0,
            out@.len() == i,
            forall|j: int|
                0 <= j < i ==> {
                    &&& is_floor_root(
                        magnitude(#[trigger] out@[j] as int),
                        scaled_square(v@[j], sum_of_squares(v@)),
                    )
                    &&& (v@[j] < 0 ==> out@[j] <= 0)
                    &&& (v@[j] >= 0 ==> out@[j] >= 0)
                },
        decreases v.len() - i,
    {
        proof {
            lemma_sum_of_squares_bounds(v@);
        }
        let c = normalise_component(v[i], total);
        out.push(c);
        i += 1;
    }
    proof {
        assert(is_normalised(out@, v@));
        lemma_normalised_unique(out@, unit_vector(v@), v@);
    }
    Some(out)
}

/// Sum of the shares of all components, each rounded down.
pub open spec fn sum_of_shares(v: Seq<i32>, total: int) -> int
    decreases v.len(),
{
    if v.len() == 0 {
        0
    } else {
        sum_of_shares(v.drop_last(), total) + scaled_square(v.last(), total)
    }
}

/// The rounded-down shares of the components of a prefix add up to no more
/// than the exact share of the prefix, and fall short of it by less than
/// one per component.
pub proof fn lemma_sum_of_shares(v: Seq<i32>, total: int)
    requires
        total > 0,
    ensures
        sum_of_shares(v, total) * total <= sum_of_squares(v) * unit_square(),
        sum_of_squares(v) * unit_square() - v.len() * total < sum_of_shares(v, total) * total
            || v.len() == 0,
        0 <= sum_of_shares(v, total),
    decreases v.len(),
{
    if v.len() > 0 {
        let init = v.drop_last();
        let c = v.last() as int;
        lemma_sum_of_shares(init, total);
        let x = c * c * unit_square();
        let q = scaled_square(v.last(), total);
        lemma_fundamental_div_mod(x, total);
        let r = x % total;
        assert(0 <= r < total) by (nonlinear_arith)
            requires
                r == x % total,
                total > 0,
        ;
        assert(unit_square() > 0) by (nonlinear_arith);
        assert(x >= 0) by (nonlinear_arith)
            requires
                x == c * c * unit_square(),
                unit_square() > 0,
        ;
        assert(q >= 0) by (nonlinear_arith)
            requires
                x == total * q + r,
                0 <= r < total,
                x >= 0,
                total > 0,
        ;
        let s0 = sum_of_shares(init, total);
        let q0 = sum_of_squares(init);
        assert((s0 + q) * total == s0 * total + total * q) by (nonlinear_arith);
        assert((q0 + c * c) * unit_square() == q0 * unit_square() + x) by (nonlinear_arith)
            requires
                x == c * c * unit_square(),
        ;
        assert((init.len() + 1) * total == init.len() * total + total) by (nonlinear_arith);
        if init.len() == 0 {
            assert(s0 == 0);
            assert(q0 == 0);
            assert(s0 * total == 0);
            assert(q0 * unit_square() == 0);
        }
    }
}

/// Sum of the squares of the components of the normalised vector exceeds
/// no unit square and misses it by at most `2 * EMBEDDING_ONE + 1` per
/// component.
pub proof fn lemma_normalised_length(out: Seq<i32>, v: Seq<i32>)
    requires
        sum_of_squares(v) > 0,
        is_normalised(out, v),
    ensures
        unit_square() - v.len() * (2 * (EMBEDDING_ONE as int) + 1) <= sum_of_squares(out)
            <= unit_square(),
{
    let total = sum_of_squares(v);
    lemma_sum_of_squares_bounds(v);
    assert forall|i: int| 0 <= i < v.len() implies (v[i] as int) * (v[i] as int) <= total by {
        assert(0 <= (v[i] as int) * (v[i] as int) <= sum_of_squares(v));
    }
    lemma_squares_against_shares(out, v, total);
    lemma_sum_of_shares(v, total);
    let shares = sum_of_shares(v, total);
    let n = v.len() as int;
    assert(v.len() > 0);
    assert(shares <= unit_square()) by (nonlinear_arith)
        requires
            shares * total <= total * unit_square(),
            total > 0,
    ;
    assert(shares > unit_square() - n) by (nonlinear_arith)
        requires
            total * unit_square() - n * total < shares * total,
            total > 0,
    ;
    assert(n * (2 * (EMBEDDING_ONE as int) + 1) == 2 * (EMBEDDING_ONE as int) * n + n)
        by (nonlinear_arith);
}

/// Component by component, the square of the normalised component lies
/// below its share and above the share less twice the unit.
proof fn lemma_squares_against_shares(out: Seq<i32>, v: Seq<i32>, total: int)
    requires
        total > 0,
        out.len() == v.len(),
        forall|i: int| 0 <= i < v.len() ==> (v[i] as int) * (v[i] as int) <= total,
        forall|i: int|
            0 <= i < v.len() ==> is_floor_root(
                magnitude(#[trigger] out[i] as int),
                scaled_square(v[i], total),
            ),
    ensures
        sum_of_shares(v, total) - 2 * (EMBEDDING_ONE as int) * v.len() <= sum_of_squares(out)
            <= sum_of_shares(v, total),
    decreases v.len(),
{
    if v.len() > 0 {
        let vi = v.drop_last();
        let oi = out.drop_last();
        assert forall|i: int| 0 <= i < vi.len() implies is_floor_root(
            magnitude(#[trigger] oi[i] as int),
            scaled_square(vi[i], total),
        ) by {
            assert(oi[i] == out[i]);
            assert(vi[i] == v[i]);
        }
        assert forall|i: int| 0 <= i < vi.len() implies (vi[i] as int) * (vi[i] as int)
            <= total by {
            assert(vi[i] == v[i]);
        }
        lemma_squares_against_shares(oi, vi, total);
        let o = out.last() as int;
        let m = magnitude(o);
        let share = scaled_square(v.last(), total);
        assert(is_floor_root(magnitude(out[v.len() - 1] as int), scaled_square(v[v.len() - 1], total)));
        assert(o * o == m * m) by (nonlinear_arith)
            requires
                m == o || m == -o,
        ;
        let c = v.last() as int;
        assert(c * c <= total);
        assert(unit_square() > 0) by (nonlinear_arith);
        assert(c * c * unit_square() <= total * unit_square()) by (nonlinear_arith)
            requires
                c * c <= total,
                unit_square() > 0,
        ;
        lemma_div_is_ordered(c * c * unit_square(), total * unit_square(), total);
        lemma_div_multiples_vanish(unit_square(), total);
        assert(share <= unit_square());
        assert(m <= EMBEDDING_ONE) by (nonlinear_arith)
            requires
                0 <= m,
                m * m <= share,
                share <= (EMBEDDING_ONE as int) * (EMBEDDING_ONE as int),
        ;
        assert(m * m >= share - 2 * (EMBEDDING_ONE as int)) by (nonlinear_arith)
            requires
                share < (m + 1) * (m + 1),
                0 <= m <= EMBEDDING_ONE,
        ;
        assert(2 * (EMBEDDING_ONE as int) * v.len() == 2 * (EMBEDDING_ONE as int) * vi.len() + 2
            * (EMBEDDING_ONE as int)) by (nonlinear_arith)
            requires
                v.len() == vi.len() + 1,
        ;
    }
}

/// Every number from zero on has a floor root.
pub proof fn lemma_floor_root_exists(x: int)
    requires
        0 <= x,
    ensures
        exists|root: int| is_floor_root(root, x),
    decreases x,
{
    if x == 0 {
        assert(is_floor_root(0, 0));
    } else {
        let below = x - 1;
        lemma_floor_root_exists(below);
        let r = choose|root: int| is_floor_root(root, below);
        assert((r + 1) * (r + 1) == r * r + 2 * r + 1) by (nonlinear_arith);
        assert((r + 2) * (r + 2) == r * r + 4 * r + 4) by (nonlinear_arith);
        if x < (r + 1) * (r + 1) {
            assert(is_floor_root(r, x));
        } else {
            assert(is_floor_root(r + 1, x));
        }
    }
}

/// A vector that is not zero has a unit-length form, and `unit_vector` is
/// that form.
pub proof fn lemma_unit_vector_is_normalised(v: Seq<i32>)
    requires
        sum_of_squares(v) > 0,
    ensures
        is_normalised(unit_vector(v), v),
{
    let total = sum_of_squares(v);
    lemma_sum_of_squares_bounds(v);
    assert(unit_square() > 0) by (nonlinear_arith);
    let root_of = |i: int| choose|root: int| is_floor_root(root, scaled_square(v[i], total));
    let out = Seq::new(
        v.len(),
        |i: int|
            if v[i] < 0 {
                (-root_of(i)) as i32
            } else {
                root_of(i) as i32
            },
    );
    assert forall|i: int| 0 <= i < v.len() implies {
        &&& is_floor_root(magnitude(#[trigger] out[i] as int), scaled_square(v[i], total))
        &&& (v[i] < 0 ==> out[i] <= 0)
        &&& (v[i] >= 0 ==> out[i] >= 0)
    } by {
        let c = v[i] as int;
        let share = scaled_square(v[i], total);
        assert(0 <= c * c <= total);
        assert(0 <= c * c * unit_square() <= total * unit_square()) by (nonlinear_arith)
            requires
                0 <= c * c <= total,
                unit_square() > 0,
        ;
        lemma_div_is_ordered(0, c * c * unit_square(), total);
        lemma_div_is_ordered(c * c * unit_square(), total * unit_square(), total);
        lemma_div_multiples_vanish(unit_square(), total);
        assert(0int / total == 0) by (nonlinear_arith)
            requires
                total > 0,
        ;
        assert(0 <= share <= unit_square());
        lemma_floor_root_exists(share);
        let r = root_of(i);
        assert(is_floor_root(r, share));
        assert(r <= EMBEDDING_ONE) by (nonlinear_arith)
            requires
                0 <= r,
                r * r <= share,
                share <= (EMBEDDING_ONE as int) * (EMBEDDING_ONE as int),
        ;
    }
    assert(is_normalised(out, v));
}

/// The unit-length form of a vector that is not zero has a squared length
/// of at most the unit square, and short of it by at most
/// `2 * EMBEDDING_ONE + 1` per component.
pub proof fn lemma_unit_vector_length(v: Seq<i32>)
    requires
        sum_of_squares(v) > 0,
    ensures
        unit_square() - v.len() * (2 * (EMBEDDING_ONE as int) + 1) <= sum_of_squares(
            unit_vector(v),
        ) <= unit_square(),
{
    lemma_unit_vector_is_normalised(v);
    lemma_normalised_length(unit_vector(v), v);
}

} // verus!
