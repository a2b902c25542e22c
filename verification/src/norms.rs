//! Vector norms and Euclidean distances.
//!
//! The closed set of norms is [`Norms`]: L1 (sum of absolute values), L2
//! (square root of the sum of squares) and Infinity (the maximum absolute
//! value, a tie going to the later element). Distances are L2 norms of
//! element-wise differences;
//! the matrix form yields one distance per row.

use vstd::prelude::*;

use crate::array::{arr_row, lemma_product_rank1, lemma_product_rank2, Array};
use crate::dims::{Dim, Ix1, Ix2};
use crate::dot::dot;
use crate::matrix::l2_seq;
use crate::scalar::Scalar;

verus! {

/// The closed set of supported norms.
#[derive(Clone, Copy, Debug)]
pub enum Norms {
    L1,
    L2,
    Infinity,
}

/// The element-wise absolute values of a sequence.
pub open spec fn abs_seq<T: Scalar>(s: Seq<T>) -> Seq<T> {
    Seq::new(s.len(), |i: int| s[i].abs_spec())
}

/// The element-wise difference of two equal-length sequences.
pub open spec fn diff_seq<T: Scalar>(u: Seq<T>, v: Seq<T>) -> Seq<T> {
    Seq::new(u.len(), |i: int| u[i].sub_spec(v[i]))
}

/// The left-to-right sum of absolute values, from zero.
pub open spec fn l1_seq<T: Scalar>(s: Seq<T>) -> T
    decreases s.len(),
{
    if s.len() == 0 {
        T::zero_spec()
    } else {
        l1_seq(s.drop_last()).add_spec(s.last().abs_spec())
    }
}

/// The left-to-right maximum of a non-empty sequence, a later element
/// replacing the running maximum whenever the running maximum is less than
/// or equal to it.
pub open spec fn max_fold<T: Scalar>(s: Seq<T>) -> T
    decreases s.len(),
{
    if s.len() <= 1 {
        s[0]
    } else {
        let prev = max_fold(s.drop_last());
        if prev.le_spec(s.last()) {
            s.last()
        } else {
            prev
        }
    }
}

/// The fold maximum is an element of the sequence, and no element of the
/// sequence is above it. This rests on the scalar order being a total,
/// transitive preorder.
pub proof fn lemma_max_fold_bounds<T: Scalar>(s: Seq<T>)
    requires
        s.len() >= 1,
    ensures
        exists|w: int| 0 <= w < s.len() && max_fold(s) == s[w],
        forall|i: int| 0 <= i < s.len() ==> s[i].le_spec(max_fold(s)),
    decreases s.len(),
{
    if s.len() == 1 {
        assert(max_fold(s) == s[0]);
        T::le_total(s[0], s[0]);
    } else {
        let head = s.drop_last();
        lemma_max_fold_bounds(head);
        let prev = max_fold(head);
        let m = max_fold(s);
        if prev.le_spec(s.last()) {
            assert(m == s.last());
            assert forall|i: int| 0 <= i < s.len() implies s[i].le_spec(m) by {
                if i < s.len() - 1 {
                    assert(head[i] == s[i]);
                    T::le_transitive(s[i], prev, s.last());
                } else {
                    T::le_total(s.last(), s.last());
                }
            }
        } else {
            assert(m == prev);
            T::le_total(prev, s.last());
            assert forall|i: int| 0 <= i < s.len() implies s[i].le_spec(m) by {
                if i < s.len() - 1 {
                    assert(head[i] == s[i]);
                }
            }
            let w = choose|w: int| 0 <= w < head.len() && prev == head[w];
            assert(s[w] == head[w]);
        }
    }
}

/// The value of each norm over a buffer.
pub open spec fn norm_seq<T: Scalar>(s: Seq<T>, norm: Norms) -> T {
    match norm {
        Norms::L1 => l1_seq(s),
        Norms::L2 => l2_seq(s),
        Norms::Infinity => max_fold(abs_seq(s)),
    }
}

/// The Euclidean distance of two equal-length buffers: the L2 norm of
/// their element-wise difference.
pub open spec fn euclid_seq<T: Scalar>(u: Seq<T>, v: Seq<T>) -> T {
    l2_seq(diff_seq(u, v))
}

/// Computes a norm of a slice; the infinity norm needs at least one
/// element.
pub fn norm_slice<T: Scalar>(s: &[T], norm: Norms) -> (r: T)
    requires
        (norm is Infinity) ==> s@.len() >= 1,
    ensures
        r == norm_seq(s@, norm),
{
    match norm {
        Norms::L1 => {
            let n = s.len();
            let mut acc = T::zero();
            let mut i: usize = 0;
            while i < n
                invariant
                    0 <= i <= n,
                    n == s@.len(),
                    acc == l1_seq(s@.take(i as int)),
                decreases n - i,
            {
                proof {
                    assert(s@.take(i + 1).drop_last() =~= s@.take(i as int));
                }
                acc = acc.add(s[i].abs());
                i = i + 1;
            }
            proof {
                assert(s@.take(n as int) =~= s@);
            }
            acc
        },
        Norms::L2 => dot(s, s).sqrt(),
        Norms::Infinity => {
            let n = s.len();
            let mut m = s[0].abs();
            let mut i: usize = 1;
            proof {
                assert(abs_seq(s@).take(1)[0] == s@[0].abs_spec());
            }
            while i < n
                invariant
                    1 <= i <= n,
                    n == s@.len(),
                    m == max_fold(abs_seq(s@).take(i as int)),
                decreases n - i,
            {
                proof {
                    assert(abs_seq(s@).take(i + 1).drop_last() =~= abs_seq(s@).take(i as int));
                    assert(abs_seq(s@).take(i + 1).last() == s@[i as int].abs_spec());
                }
                let a = s[i].abs();
                if m.le(a) {
                    m = a;
                }
                i = i + 1;
            }
            proof {
                assert(abs_seq(s@).take(n as int) =~= abs_seq(s@));
            }
            m
        },
    }
}

/// Subtracts two equal-length slices element by element.
fn sub_slices<T: Scalar>(u: &[T], v: &[T]) -> (r: Vec<T>)
    requires
        u@.len() == v@.len(),
    ensures
        r@ == diff_seq(u@, v@),
{
    let n = u.len();
    let mut out: Vec<T> = Vec::with_capacity(n);
    let mut i: usize = 0;
    while i < n
        invariant
            0 <= i <= n,
            n == u@.len(),
            v@.len() == n,
            out@.len() == i,
            forall|j: int| 0 <= j < i ==> out@[j] == u@[j].sub_spec(v@[j]),
        decreases n - i,
    {
        out.push(u[i].sub(v[i]));
        i = i + 1;
    }
    proof {
        assert(out@ =~= diff_seq(u@, v@));
    }
    out
}

/// A norm of a whole value, over the closed set [`Norms`].
pub trait Norm {
    type Output;

    /// When the requested norm is defined for this value.
    spec fn norm_req(&self, norm: Norms) -> bool;

    /// The exact value of the requested norm.
    spec fn norm_spec(&self, norm: Norms) -> Self::Output;

    fn norm(&self, norm: Norms) -> (r: Self::Output)
        requires
            self.norm_req(norm),
        ensures
            r == self.norm_spec(norm),
    ;
}

impl<D: Dim, T: Scalar> Norm for Array<D, T> {
    type Output = T;

    /// A well-formed array of any rank is non-empty — every extent is
    /// positive — which is all the infinity norm needs.
    open spec fn norm_req(&self, norm: Norms) -> bool {
        self.wf()
    }

    /// The norm of the whole buffer in physical order.
    open spec fn norm_spec(&self, norm: Norms) -> T {
        norm_seq(self.buf(), norm)
    }

    fn norm(&self, norm: Norms) -> (r: T) {
        proof {
            crate::dims::lemma_dims_product_positive(self.shape_dims());
        }
        norm_slice(self.as_slice(), norm)
    }
}

/// The Euclidean distance from `self` to a value of type `Rhs`.
pub trait EuclideanDistance<Rhs> {
    type Output;

    /// When the operands conform.
    spec fn euclidean_req(&self, other: &Rhs) -> bool;

    /// How the result relates to the operands.
    spec fn euclidean_ensures(&self, other: &Rhs, r: &Self::Output) -> bool;

    fn euclidean_distance(&self, other: &Rhs) -> (r: Self::Output)
        requires
            self.euclidean_req(other),
        ensures
            self.euclidean_ensures(other, &r),
    ;
}

impl<T: Scalar> EuclideanDistance<Array<Ix1, T>> for Array<Ix1, T> {
    type Output = T;

    /// The two vectors have the same shape.
    open spec fn euclidean_req(&self, other: &Array<Ix1, T>) -> bool {
        &&& self.wf()
        &&& other.wf()
        &&& self.shape_dims() == other.shape_dims()
    }

    /// The distance is the L2 norm of the element-wise difference.
    open spec fn euclidean_ensures(&self, other: &Array<Ix1, T>, r: &T) -> bool {
        *r == euclid_seq(self.buf(), other.buf())
    }

    fn euclidean_distance(&self, other: &Array<Ix1, T>) -> (r: T) {
        proof {
            self.lemma_rank();
            other.lemma_rank();
            lemma_product_rank1(self.shape_dims());
            lemma_product_rank1(other.shape_dims());
        }
        let diff = sub_slices(self.as_slice(), other.as_slice());
        dot(diff.as_slice(), diff.as_slice()).sqrt()
    }
}

impl<T: Scalar> EuclideanDistance<Array<Ix1, T>> for Array<Ix2, T> {
    type Output = Array<Ix1, T>;

    /// The vector's length matches this matrix's row length.
    open spec fn euclidean_req(&self, other: &Array<Ix1, T>) -> bool {
        &&& self.wf()
        &&& other.wf()
        &&& self.shape_dims()[1] == other.shape_dims()[0]
    }

    /// One distance per row, in row order: the L2 norm of the difference
    /// between that row and the vector.
    open spec fn euclidean_ensures(&self, other: &Array<Ix1, T>, r: &Array<Ix1, T>) -> bool {
        &&& r.wf()
        &&& r.shape_dims() =~= seq![self.shape_dims()[0]]
        &&& forall|i: int|
            0 <= i < self.shape_dims()[0] ==> r.buf()[i] == euclid_seq(
                arr_row(self, i),
                other.buf(),
            )
    }

    fn euclidean_distance(&self, other: &Array<Ix1, T>) -> (r: Array<Ix1, T>) {
        proof {
            self.lemma_rank();
            other.lemma_rank();
            lemma_product_rank2(self.shape_dims());
            lemma_product_rank1(other.shape_dims());
        }
        let m: usize = self.shape_slice()[0];
        let cols: usize = self.shape_slice()[1];
        let mut out: Vec<T> = Vec::with_capacity(m);
        let mut i: usize = 0;
        while i < m
            invariant
                0 <= i <= m,
                m == self.shape_dims()[0],
                cols == self.shape_dims()[1],
                self.euclidean_req(other),
                self.buf().len() == m * cols,
                other.buf().len() == cols,
                out@.len() == i,
                forall|i2: int|
                    0 <= i2 < i ==> out@[i2] == euclid_seq(arr_row(self, i2), other.buf()),
            decreases m - i,
        {
            let ghost rs = arr_row(self, i as int);
            let mut row: Vec<T> = Vec::with_capacity(cols);
            let mut k: usize = 0;
            while k < cols
                invariant
                    0 <= k <= cols,
                    0 <= i < m,
                    m == self.shape_dims()[0],
                    cols == self.shape_dims()[1],
                    self.euclidean_req(other),
                    self.buf().len() == m * cols,
                    rs == arr_row(self, i as int),
                    row@.len() == k,
                    forall|k2: int| 0 <= k2 < k ==> row@[k2] == rs[k2],
                decreases cols - k,
            {
                proof {
                    self.lemma_rank();
                    crate::dims::lemma_grid_offset_bound(m as int, cols as int, i as int, k as int);
                    crate::dims::lemma_offset_rank2(
                        self.shape_dims(),
                        seq![i as usize, k as usize],
                    );
                }
                let cell: Ix2 = [i, k];
                proof {
                    assert(cell.dims() =~= seq![i as usize, k as usize]);
                }
                row.push(self.get(cell));
                k = k + 1;
            }
            proof {
                assert(row@ =~= rs);
            }
            let diff = sub_slices(row.as_slice(), other.as_slice());
            out.push(dot(diff.as_slice(), diff.as_slice()).sqrt());
            i = i + 1;
        }
        let shape: Ix1 = [m];
        proof {
            assert(shape.dims() =~= seq![m]);
            lemma_product_rank1(shape.dims());
        }
        Array::from_vec(shape, out)
    }
}

} // verus!
