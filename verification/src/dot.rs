//! Dot-product reduction kernels.
//!
//! Every kernel tier is pinned to an exact spec-level summation tree over the
//! abstract scalar operations, so the accumulation order — which decides the
//! rounding behaviour of a machine arithmetic — is part of each contract.
//! The baseline [`dot`] folds left to right from zero. The unrolled and
//! lane-oriented tiers keep several independent partial sums, combine them
//! left to right, and hand any remaining elements to the baseline; their
//! common shape is captured by [`dot_lanes_spec`].

use vstd::prelude::*;

use crate::scalar::Scalar;

verus! {

/// The baseline dot product: a single running sum, folded left to right
/// from zero.
pub open spec fn dot_seq<T: Scalar>(u: Seq<T>, v: Seq<T>) -> T
    decreases u.len(),
{
    if u.len() == 0 {
        T::zero_spec()
    } else {
        dot_seq(u.drop_last(), v.drop_last()).add_spec(u.last().mul_spec(v.last()))
    }
}

/// The partial sum one accumulator lane holds after `blocks` blocks of
/// `width` elements: the products at positions `lane`, `lane + width`, ...,
/// `lane + (blocks - 1) * width`, accumulated in that order from zero.
pub open spec fn lane_partial<T: Scalar>(
    u: Seq<T>,
    v: Seq<T>,
    lane: int,
    width: int,
    blocks: int,
) -> T
    decreases blocks,
{
    if blocks <= 0 {
        T::zero_spec()
    } else {
        lane_partial(u, v, lane, width, blocks - 1).add_spec(
            u[(blocks - 1) * width + lane].mul_spec(v[(blocks - 1) * width + lane]),
        )
    }
}

/// The number of whole `width`-blocks in `u`.
pub open spec fn full_blocks<T>(u: Seq<T>, width: int) -> int {
    u.len() as int / width
}

/// The left-to-right combination of the first `lanes` lane partials over all
/// whole blocks.
pub open spec fn lanes_combined<T: Scalar>(u: Seq<T>, v: Seq<T>, width: int, lanes: int) -> T
    decreases lanes,
{
    if lanes <= 1 {
        lane_partial(u, v, 0, width, full_blocks(u, width))
    } else {
        lanes_combined(u, v, width, lanes - 1).add_spec(
            lane_partial(u, v, lanes - 1, width, full_blocks(u, width)),
        )
    }
}

/// The value a `width`-lane kernel returns: all lanes run over the whole
/// blocks, the lane sums are combined left to right, and the tail of fewer
/// than `width` elements is folded in through the baseline sum.
pub open spec fn dot_lanes_spec<T: Scalar>(u: Seq<T>, v: Seq<T>, width: int) -> T {
    let m = width * full_blocks(u, width);
    lanes_combined(u, v, width, width).add_spec(dot_seq(u.skip(m), v.skip(m)))
}

/// Computes the dot product of two equal-length slices with a single
/// left-to-right running sum. This order is the reference all other tiers
/// are measured against.
pub fn dot<T: Scalar>(u: &[T], v: &[T]) -> (r: T)
    requires
        u@.len() == v@.len(),
    ensures
        r == dot_seq(u@, v@),
{
    let n = u.len();
    let mut dp = T::zero();
    let mut i: usize = 0;
    while i < n
        invariant
            0 <= i <= n,
            n == u@.len(),
            v@.len() == n,
            dp == dot_seq(u@.take(i as int), v@.take(i as int)),
        decreases n - i,
    {
        proof {
            assert(u@.take(i + 1).drop_last() =~= u@.take(i as int));
            assert(v@.take(i + 1).drop_last() =~= v@.take(i as int));
        }
        dp = dp.add(u[i].mul(v[i]));
        i = i + 1;
    }
    proof {
        assert(u@.take(n as int) =~= u@);
        assert(v@.take(n as int) =~= v@);
    }
    dp
}

/// The checked entry to the baseline dot product: operands of unequal
/// length are rejected rather than truncated.
pub fn try_dot<T: Scalar>(u: &[T], v: &[T]) -> (r: Option<T>)
    ensures
        match r {
            Some(d) => u@.len() == v@.len() && d == dot_seq(u@, v@),
            None => u@.len() != v@.len(),
        },
{
    if u.len() != v.len() {
        None
    } else {
        Some(dot(u, v))
    }
}

/// Computes the dot product with eight independent partial sums, one per
/// position modulo eight, breaking the sequential dependency chain of the
/// baseline. Any tail of fewer than eight elements goes through [`dot`].
/// The resulting summation tree is exactly [`dot_lanes_spec`] at width 8 —
/// the same tree the eight-wide vector kernel produces.
pub fn dot_unrolled<T: Scalar>(u: &[T], v: &[T]) -> (r: T)
    requires
        u@.len() == v@.len(),
    ensures
        r == dot_lanes_spec(u@, v@, 8),
{
    let ghost gu = u@;
    let ghost gv = v@;
    let mut u = u;
    let mut v = v;
    let mut dp0 = T::zero();
    let mut dp1 = T::zero();
    let mut dp2 = T::zero();
    let mut dp3 = T::zero();
    let mut dp4 = T::zero();
    let mut dp5 = T::zero();
    let mut dp6 = T::zero();
    let mut dp7 = T::zero();
    let ghost mut t: int = 0;

    while u.len() >= 8
        invariant
            0 <= t,
            8 * t + u@.len() == gu.len(),
            u@ == gu.skip(8 * t),
            v@ == gv.skip(8 * t),
            gu.len() == gv.len(),
            dp0 == lane_partial(gu, gv, 0, 8, t),
            dp1 == lane_partial(gu, gv, 1, 8, t),
            dp2 == lane_partial(gu, gv, 2, 8, t),
            dp3 == lane_partial(gu, gv, 3, 8, t),
            dp4 == lane_partial(gu, gv, 4, 8, t),
            dp5 == lane_partial(gu, gv, 5, 8, t),
            dp6 == lane_partial(gu, gv, 6, 8, t),
            dp7 == lane_partial(gu, gv, 7, 8, t),
        decreases u@.len(),
    {
        proof {
            assert forall|l: int| 0 <= l < 8 implies gu[8 * t + l] == u@[l] && gv[8 * t + l]
                == v@[l] by {
                assert(gu.skip(8 * t)[l] == gu[8 * t + l]);
                assert(gv.skip(8 * t)[l] == gv[8 * t + l]);
            }
        }
        dp0 = dp0.add(u[0].mul(v[0]));
        dp1 = dp1.add(u[1].mul(v[1]));
        dp2 = dp2.add(u[2].mul(v[2]));
        dp3 = dp3.add(u[3].mul(v[3]));
        dp4 = dp4.add(u[4].mul(v[4]));
        dp5 = dp5.add(u[5].mul(v[5]));
        dp6 = dp6.add(u[6].mul(v[6]));
        dp7 = dp7.add(u[7].mul(v[7]));
        let n = u.len();
        u = vstd::slice::slice_subrange(u, 8, n);
        v = vstd::slice::slice_subrange(v, 8, n);
        proof {
            t = t + 1;
            assert(u@ =~= gu.skip(8 * t));
            assert(v@ =~= gv.skip(8 * t));
        }
    }
    proof {
        assert(t == full_blocks(gu, 8)) by {
            assert(8 * t <= gu.len() < 8 * t + 8);
        }
        assert(lanes_combined(gu, gv, 8, 1) == lane_partial(gu, gv, 0, 8, t));
        assert(lanes_combined(gu, gv, 8, 2) == lanes_combined(gu, gv, 8, 1).add_spec(
            lane_partial(gu, gv, 1, 8, t),
        ));
        assert(lanes_combined(gu, gv, 8, 3) == lanes_combined(gu, gv, 8, 2).add_spec(
            lane_partial(gu, gv, 2, 8, t),
        ));
        assert(lanes_combined(gu, gv, 8, 4) == lanes_combined(gu, gv, 8, 3).add_spec(
            lane_partial(gu, gv, 3, 8, t),
        ));
        assert(lanes_combined(gu, gv, 8, 5) == lanes_combined(gu, gv, 8, 4).add_spec(
            lane_partial(gu, gv, 4, 8, t),
        ));
        assert(lanes_combined(gu, gv, 8, 6) == lanes_combined(gu, gv, 8, 5).add_spec(
            lane_partial(gu, gv, 5, 8, t),
        ));
        assert(lanes_combined(gu, gv, 8, 7) == lanes_combined(gu, gv, 8, 6).add_spec(
            lane_partial(gu, gv, 6, 8, t),
        ));
        assert(lanes_combined(gu, gv, 8, 8) == lanes_combined(gu, gv, 8, 7).add_spec(
            lane_partial(gu, gv, 7, 8, t),
        ));
    }
    dp0.add(dp1).add(dp2).add(dp3).add(dp4).add(dp5).add(dp6).add(dp7).add(dot(u, v))
}

} // verus!
