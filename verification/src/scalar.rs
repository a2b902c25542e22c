//! The abstract element type of all kernels.
//!
//! The kernels in this crate never look inside an element: every arithmetic
//! step goes through the [`Scalar`] trait, and every contract describes the
//! result as a fold of the trait's uninterpreted spec-level operations. A
//! caller instantiates the kernels with a concrete arithmetic type (for
//! example a machine floating-point number wrapped in a newtype); the shape
//! handling, summation order and selection logic proved here then hold for
//! any such instantiation whose comparison obeys the stated order laws.

use vstd::prelude::*;

verus! {

/// An arithmetic element type for the dense kernels.
///
/// The exec methods are each pinned to a spec-level counterpart, so verified
/// code can track values symbolically without knowing the arithmetic itself.
/// `le_spec` must be a total preorder; that is all the selection and maximum
/// routines of this crate rely on.
pub trait Scalar: Sized + Copy {
    /// The additive identity used to seed every reduction.
    spec fn zero_spec() -> Self;

    spec fn add_spec(self, other: Self) -> Self;

    spec fn sub_spec(self, other: Self) -> Self;

    spec fn mul_spec(self, other: Self) -> Self;

    /// The absolute value, as used by the L1 and infinity norms.
    spec fn abs_spec(self) -> Self;

    /// The square root, as used by the L2 norm.
    spec fn sqrt_spec(self) -> Self;

    /// `self` is less than or equal to `other`: a total preorder.
    spec fn le_spec(self, other: Self) -> bool;

    /// `le_spec` relates every pair of elements, one way or the other.
    proof fn le_total(a: Self, b: Self)
        ensures
            a.le_spec(b) || b.le_spec(a),
    ;

    /// `le_spec` is transitive.
    proof fn le_transitive(a: Self, b: Self, c: Self)
        requires
            a.le_spec(b),
            b.le_spec(c),
        ensures
            a.le_spec(c),
    ;

    fn zero() -> (r: Self)
        ensures
            r == Self::zero_spec(),
    ;

    fn add(self, other: Self) -> (r: Self)
        ensures
            r == self.add_spec(other),
    ;

    fn sub(self, other: Self) -> (r: Self)
        ensures
            r == self.sub_spec(other),
    ;

    fn mul(self, other: Self) -> (r: Self)
        ensures
            r == self.mul_spec(other),
    ;

    fn abs(self) -> (r: Self)
        ensures
            r == self.abs_spec(),
    ;

    fn sqrt(self) -> (r: Self)
        ensures
            r == self.sqrt_spec(),
    ;

    fn le(self, other: Self) -> (r: bool)
        ensures
            r == self.le_spec(other),
    ;
}

/// `a` is strictly below `b` in the preorder: `b` does not come back down
/// to `a`.
pub open spec fn scalar_lt<T: Scalar>(a: T, b: T) -> bool {
    !b.le_spec(a)
}

} // verus!
