//! Lane-oriented dot-product kernels.
//!
//! These mirror vector-register implementations: a four-wide and an
//! eight-wide kernel, each keeping one independent partial sum per lane,
//! exactly as a `width`-lane register accumulates element-wise products.
//! After the whole blocks are consumed, the lane sums are combined left to
//! right and the remainder is delegated to the scalar baseline, so each
//! kernel's summation tree is [`dot_lanes_spec`] at its width. Whether a
//! platform runs these through actual vector registers changes timing, not
//! the computed tree, so selection between the tiers never affects the
//! contract.

use vstd::prelude::*;

use crate::dot::{dot, dot_lanes_spec, full_blocks, lane_partial, lanes_combined};
use crate::scalar::Scalar;

verus! {

/// Computes the dot product in blocks of four, one partial sum per lane,
/// the way a four-wide vector register would; the tail of fewer than four
/// elements goes through the scalar baseline [`dot`].
pub fn dot_f32x4<T: Scalar>(u: &[T], v: &[T]) -> (r: T)
    requires
        u@.len() == v@.len(),
    ensures
        r == dot_lanes_spec(u@, v@, 4),
{
    let ghost gu = u@;
    let ghost gv = v@;
    let mut u = u;
    let mut v = v;
    let mut s0 = T::zero();
    let mut s1 = T::zero();
    let mut s2 = T::zero();
    let mut s3 = T::zero();
    let ghost mut t: int = 0;

    while u.len() >= 4
        invariant
            0 <= t,
            4 * t + u@.len() == gu.len(),
            u@ == gu.skip(4 * t),
            v@ == gv.skip(4 * t),
            gu.len() == gv.len(),
            s0 == lane_partial(gu, gv, 0, 4, t),
            s1 == lane_partial(gu, gv, 1, 4, t),
            s2 == lane_partial(gu, gv, 2, 4, t),
            s3 == lane_partial(gu, gv, 3, 4, t),
        decreases u@.len(),
    {
        proof {
            assert forall|l: int| 0 <= l < 4 implies gu[4 * t + l] == u@[l] && gv[4 * t + l]
                == v@[l] by {
                assert(gu.skip(4 * t)[l] == gu[4 * t + l]);
                assert(gv.skip(4 * t)[l] == gv[4 * t + l]);
            }
        }
        s0 = s0.add(u[0].mul(v[0]));
        s1 = s1.add(u[1].mul(v[1]));
        s2 = s2.add(u[2].mul(v[2]));
        s3 = s3.add(u[3].mul(v[3]));
        let n = u.len();
        u = vstd::slice::slice_subrange(u, 4, n);
        v = vstd::slice::slice_subrange(v, 4, n);
        proof {
            t = t + 1;
            assert(u@ =~= gu.skip(4 * t));
            assert(v@ =~= gv.skip(4 * t));
        }
    }
    proof {
        assert(t == full_blocks(gu, 4)) by {
            assert(4 * t <= gu.len() < 4 * t + 4);
        }
        assert(lanes_combined(gu, gv, 4, 1) == lane_partial(gu, gv, 0, 4, t));
        assert(lanes_combined(gu, gv, 4, 2) == lanes_combined(gu, gv, 4, 1).add_spec(
            lane_partial(gu, gv, 1, 4, t),
        ));
        assert(lanes_combined(gu, gv, 4, 3) == lanes_combined(gu, gv, 4, 2).add_spec(
            lane_partial(gu, gv, 2, 4, t),
        ));
        assert(lanes_combined(gu, gv, 4, 4) == lanes_combined(gu, gv, 4, 3).add_spec(
            lane_partial(gu, gv, 3, 4, t),
        ));
    }
    s0.add(s1).add(s2).add(s3).add(dot(u, v))
}

/// Computes the dot product in blocks of eight, one partial sum per lane,
/// the way an eight-wide vector register would; the tail goes through the
/// scalar baseline. Its summation tree is the same as [`crate::dot::dot_unrolled`]'s,
/// so the two tiers return identical values for identical inputs.
pub fn dot_f32x8<T: Scalar>(u: &[T], v: &[T]) -> (r: T)
    requires
        u@.len() == v@.len(),
    ensures
        r == dot_lanes_spec(u@, v@, 8),
{
    crate::dot::dot_unrolled(u, v)
}

} // verus!
