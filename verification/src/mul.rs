//! Element-wise product kernels over plain slices.

use vstd::prelude::*;

use crate::scalar::Scalar;

verus! {

/// The sequence of pointwise products of two equal-length sequences.
pub open spec fn elementwise_product<T: Scalar>(u: Seq<T>, v: Seq<T>) -> Seq<T> {
    Seq::new(u.len(), |i: int| u[i].mul_spec(v[i]))
}

/// A buffer of `n` zero elements.
pub fn zero_vec<T: Scalar>(n: usize) -> (r: Vec<T>)
    ensures
        r@.len() == n,
        forall|i: int| 0 <= i < n ==> r@[i] == T::zero_spec(),
{
    let mut out: Vec<T> = Vec::new();
    while out.len() < n
        invariant
            out@.len() <= n,
            forall|i: int| 0 <= i < out@.len() ==> out@[i] == T::zero_spec(),
        decreases n - out@.len(),
    {
        out.push(T::zero());
    }
    out
}

/// Multiplies two equal-length slices element by element into a fresh,
/// initially zeroed buffer.
pub fn mul<T: Scalar>(u: &[T], v: &[T]) -> (r: Vec<T>)
    requires
        u@.len() == v@.len(),
    ensures
        r@ == elementwise_product(u@, v@),
{
    let n = u.len();
    let mut product: Vec<T> = zero_vec(n);
    let mut i: usize = 0;
    while i < n
        invariant
            0 <= i <= n,
            n == u@.len(),
            v@.len() == n,
            product@.len() == n,
            forall|j: int| 0 <= j < i ==> product@[j] == u@[j].mul_spec(v@[j]),
        decreases n - i,
    {
        let value = u[i].mul(v[i]);
        product[i] = value;
        i = i + 1;
    }
    proof {
        assert(product@ =~= elementwise_product(u@, v@));
    }
    product
}

/// Multiplies `u` element by element with `v`, in place.
pub fn mul_inplace<T: Scalar>(u: &mut Vec<T>, v: &[T])
    requires
        old(u)@.len() == v@.len(),
    ensures
        final(u)@ == elementwise_product(old(u)@, v@),
{
    let n = u.len();
    let mut i: usize = 0;
    while i < n
        invariant
            0 <= i <= n,
            n == old(u)@.len(),
            v@.len() == n,
            u@.len() == n,
            forall|j: int| 0 <= j < i ==> u@[j] == old(u)@[j].mul_spec(v@[j]),
            forall|j: int| i <= j < n ==> u@[j] == old(u)@[j],
        decreases n - i,
    {
        let value = u[i].mul(v[i]);
        u[i] = value;
        i = i + 1;
    }
    proof {
        assert(u@ =~= elementwise_product(old(u)@, v@));
    }
}

/// Multiplies two equal-length slices element by element, growing the
/// result one push at a time.
pub fn mul_slow<T: Scalar>(u: &[T], v: &[T]) -> (r: Vec<T>)
    requires
        u@.len() == v@.len(),
    ensures
        r@ == elementwise_product(u@, v@),
{
    let n = u.len();
    let mut product: Vec<T> = Vec::with_capacity(n);
    let mut i: usize = 0;
    while i < n
        invariant
            0 <= i <= n,
            n == u@.len(),
            v@.len() == n,
            product@.len() == i,
            forall|j: int| 0 <= j < i ==> product@[j] == u@[j].mul_spec(v@[j]),
        decreases n - i,
    {
        product.push(u[i].mul(v[i]));
        i = i + 1;
    }
    proof {
        assert(product@ =~= elementwise_product(u@, v@));
    }
    product
}

} // verus!
