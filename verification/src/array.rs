//! Module for tensors.
//!
//! [`Array`] owns a contiguous buffer of elements together with a fixed
//! shape of rank 0 to 3; the shape never changes after construction. Every
//! access recomputes the row-major offset of its multi-index, and the
//! contracts tie each access to [`linear_offset`], so the set/get round-trip
//! behaviour follows from the offset lemmas of [`crate::dims`].

use vstd::prelude::*;

use crate::dims::{
    all_positive, checked_size, dims_positive, dims_product, index_in_bounds,
    lemma_grid_offset_bound, lemma_grid_offset_injective, lemma_offset_rank2, linear_offset,
    suffix_product, Dim, Ix0, Ix1, Ix2,
};
use crate::dot::{dot, dot_seq};
use crate::mul::{elementwise_product, zero_vec};
use crate::scalar::Scalar;

verus! {

/// A dense tensor: a contiguous buffer in row-major order plus its shape.
pub struct Array<D, T> {
    data: Vec<T>,
    shape: D,
}

impl<D: Dim, T> Array<D, T> {
    /// The stored elements in physical (row-major) order.
    pub closed spec fn buf(&self) -> Seq<T> {
        self.data@
    }

    /// The extents of this tensor's shape.
    pub closed spec fn shape_dims(&self) -> Seq<usize> {
        self.shape.dims()
    }

    /// The shape has as many extents as the shape type has axes.
    pub proof fn lemma_rank(&self)
        ensures
            self.shape_dims().len() == D::rank(),
    {
        self.shape.lemma_rank();
    }

    /// The construction invariant: positive extents and a buffer of exactly
    /// the shape's size.
    pub open spec fn wf(&self) -> bool {
        &&& dims_positive(self.shape_dims())
        &&& self.buf().len() == dims_product(self.shape_dims())
    }

    /// Wraps an existing buffer in a shape. The buffer must hold exactly
    /// one element per cell of the shape.
    pub fn from_vec(shape: D, data: Vec<T>) -> (r: Self)
        requires
            dims_positive(shape.dims()),
            data@.len() == dims_product(shape.dims()),
        ensures
            r.wf(),
            r.shape_dims() == shape.dims(),
            r.buf() == data@,
    {
        Array { data, shape }
    }

    /// Wraps an existing buffer in a shape, rejecting a non-positive extent
    /// or a buffer whose length does not match the shape's size.
    pub fn try_from_vec(shape: D, data: Vec<T>) -> (r: Option<Self>)
        ensures
            match r {
                Some(a) => {
                    &&& dims_positive(shape.dims())
                    &&& data@.len() == dims_product(shape.dims())
                    &&& a.wf()
                    &&& a.shape_dims() == shape.dims()
                    &&& a.buf() == data@
                },
                None => !(dims_positive(shape.dims()) && data@.len() == dims_product(
                    shape.dims(),
                )),
            },
    {
        if !all_positive(shape.as_slice()) {
            return None;
        }
        match checked_size(shape.as_slice()) {
            Some(n) => {
                if data.len() == n {
                    Some(Array { data, shape })
                } else {
                    None
                }
            },
            None => {
                proof {
                    vstd::std_specs::vec::axiom_spec_len(&data);
                }
                None
            },
        }
    }

    /// The extents as a slice, for rank-generic shape inspection within
    /// the crate.
    pub(crate) fn shape_slice(&self) -> (r: &[usize])
        ensures
            r@ == self.shape_dims(),
    {
        self.shape.as_slice()
    }

    /// The whole buffer, in its physical layout, for kernel consumption.
    pub fn as_slice(&self) -> (r: &[T])
        ensures
            r@ == self.buf(),
    {
        self.data.as_slice()
    }

    /// The row-major offset of a multi-index, recomputed on every access.
    fn index(&self, index: D) -> (r: usize)
        requires
            self.wf(),
            index_in_bounds(self.shape_dims(), index.dims()),
        ensures
            r == linear_offset(self.shape_dims(), index.dims()),
            r < self.buf().len(),
    {
        let ghost d = self.shape_dims();
        let ghost x = index.dims();
        proof {
            crate::dims::lemma_offset_in_bounds(d, x);
            vstd::std_specs::vec::axiom_spec_len(&self.data);
            assert(d.skip(0) =~= d);
            assert(x.skip(0) =~= x);
        }
        let index_s = index.as_slice();
        let shape_s = self.shape.as_slice();
        let n = index_s.len();
        let mut idx: usize = 0;
        let mut i: usize = 0;
        while i < n
            invariant
                0 <= i <= n,
                n == x.len(),
                d.len() == n,
                index_s@ == x,
                shape_s@ == d,
                dims_positive(d),
                dims_product(d) <= usize::MAX,
                linear_offset(d, x) < dims_product(d),
                idx + linear_offset(d.skip(i as int), x.skip(i as int)) == linear_offset(d, x),
            decreases n - i,
        {
            proof {
                assert(d.skip(i as int)[0] == d[i as int]);
                assert(x.skip(i as int)[0] == x[i as int]);
                assert(d.skip(i as int).skip(1) =~= d.skip(i + 1));
                assert(x.skip(i as int).skip(1) =~= x.skip(i + 1));
            }
            let sp = suffix_product(shape_s, i + 1);
            idx = idx + index_s[i] * sp;
            i = i + 1;
        }
        proof {
            assert(d.skip(n as int) =~= Seq::<usize>::empty());
            assert(x.skip(n as int) =~= Seq::<usize>::empty());
        }
        idx
    }

    /// Reads the element a multi-index addresses.
    pub fn get(&self, index: D) -> (r: T)
        where
            T: Copy,
        requires
            self.wf(),
            index_in_bounds(self.shape_dims(), index.dims()),
        ensures
            r == self.buf()[linear_offset(self.shape_dims(), index.dims()) as int],
    {
        self.data[self.index(index)]
    }

    /// Overwrites the element a multi-index addresses; every other cell of
    /// the buffer keeps its value.
    pub fn set(&mut self, index: D, val: T)
        requires
            old(self).wf(),
            index_in_bounds(old(self).shape_dims(), index.dims()),
        ensures
            final(self).wf(),
            final(self).shape_dims() == old(self).shape_dims(),
            final(self).buf() == old(self).buf().update(
                linear_offset(old(self).shape_dims(), index.dims()) as int,
                val,
            ),
    {
        let idx = self.index(index);
        self.data[idx] = val;
    }
}

impl<D: Dim, T: Scalar> Array<D, T> {
    /// Construct a new array of the given shape. The array will be
    /// zero-initialized.
    pub fn zeros(shape: D) -> (r: Self)
        requires
            dims_positive(shape.dims()),
            dims_product(shape.dims()) <= usize::MAX,
        ensures
            r.wf(),
            r.shape_dims() == shape.dims(),
            r.buf().len() == dims_product(shape.dims()),
            forall|i: int| 0 <= i < r.buf().len() ==> r.buf()[i] == T::zero_spec(),
    {
        let n = shape.size();
        Array { data: zero_vec(n), shape }
    }

    /// Multiplies two arrays of identical shape element by element into a
    /// fresh array of the same shape.
    pub fn mul(&self, rhs: &Self) -> (r: Self)
        requires
            self.wf(),
            rhs.wf(),
            self.shape_dims() == rhs.shape_dims(),
        ensures
            r.wf(),
            r.shape_dims() == self.shape_dims(),
            r.buf() == elementwise_product(self.buf(), rhs.buf()),
    {
        let data = crate::mul::mul(self.data.as_slice(), rhs.data.as_slice());
        Array { data, shape: self.shape }
    }

    /// Multiplies two arrays of identical shape element by element,
    /// rejecting operands whose shapes differ.
    pub fn try_mul(&self, rhs: &Self) -> (r: Option<Self>)
        requires
            self.wf(),
            rhs.wf(),
        ensures
            match r {
                Some(p) => {
                    &&& self.shape_dims() == rhs.shape_dims()
                    &&& p.wf()
                    &&& p.shape_dims() == self.shape_dims()
                    &&& p.buf() == elementwise_product(self.buf(), rhs.buf())
                },
                None => self.shape_dims() != rhs.shape_dims(),
            },
    {
        if shapes_equal(self.shape.as_slice(), rhs.shape.as_slice()) {
            proof {
                assert(self.shape_dims() =~= rhs.shape_dims());
            }
            Some(self.mul(rhs))
        } else {
            None
        }
    }
}

/// A dot product between two values of one type; what it returns depends on
/// the rank, so each implementation supplies its own conformance condition
/// and result description.
pub trait Dot {
    type Output;

    /// The operands conform: the contracted extents agree (and the result
    /// fits the machine).
    spec fn dot_req(&self, rhs: &Self) -> bool;

    /// How the result relates to the operands.
    spec fn dot_ensures(&self, rhs: &Self, r: &Self::Output) -> bool;

    fn dot(&self, rhs: &Self) -> (r: Self::Output)
        requires
            self.dot_req(rhs),
        ensures
            self.dot_ensures(rhs, &r),
    ;
}

impl<T: Scalar> Dot for Array<Ix1, T> {
    type Output = Array<Ix0, T>;

    /// The two vectors have one common extent.
    open spec fn dot_req(&self, rhs: &Self) -> bool {
        &&& self.wf()
        &&& rhs.wf()
        &&& self.shape_dims()[0] == rhs.shape_dims()[0]
    }

    /// The result is a scalar array holding the left-to-right dot product
    /// of the two buffers.
    open spec fn dot_ensures(&self, rhs: &Self, r: &Self::Output) -> bool {
        &&& r.wf()
        &&& r.shape_dims().len() == 0
        &&& r.buf() =~= seq![dot_seq(self.buf(), rhs.buf())]
    }

    fn dot(&self, rhs: &Self) -> (r: Self::Output) {
        proof {
            lemma_product_rank1(self.shape_dims());
            lemma_product_rank1(rhs.shape_dims());
        }
        let shape: Ix0 = [];
        let mut data: Vec<T> = Vec::new();
        data.push(dot(self.as_slice(), rhs.as_slice()));
        proof {
            assert(shape.dims() =~= Seq::<usize>::empty());
        }
        Array::from_vec(shape, data)
    }
}

impl<T: Scalar> Dot for Array<Ix2, T> {
    type Output = Array<Ix2, T>;

    /// The inner extents agree and the result's cell count fits the
    /// machine.
    open spec fn dot_req(&self, rhs: &Self) -> bool {
        &&& self.wf()
        &&& rhs.wf()
        &&& self.shape_dims()[1] == rhs.shape_dims()[0]
        &&& self.shape_dims()[0] * rhs.shape_dims()[1] <= usize::MAX
    }

    /// The result is the row-major matrix product: cell (i, j) is the
    /// left-to-right inner product of row i of `self` with column j of
    /// `rhs`.
    open spec fn dot_ensures(&self, rhs: &Self, r: &Self::Output) -> bool {
        &&& r.wf()
        &&& r.shape_dims() =~= seq![self.shape_dims()[0], rhs.shape_dims()[1]]
        &&& forall|i: int, j: int|
            0 <= i < self.shape_dims()[0] && 0 <= j < rhs.shape_dims()[1] ==> r.buf()[i
                * rhs.shape_dims()[1] + j] == dot_seq(arr_row(self, i), arr_col(rhs, j))
    }

    fn dot(&self, rhs: &Self) -> (r: Self::Output) {
        let m: usize = self.shape.as_slice()[0];
        let inner: usize = self.shape.as_slice()[1];
        let n: usize = rhs.shape.as_slice()[1];
        let shape: Ix2 = [m, n];
        proof {
            assert(shape.dims() =~= seq![m, n]);
            lemma_product_rank2(shape.dims());
        }
        let mut c = Array::<Ix2, T>::zeros(shape);
        let mut i: usize = 0;
        while i < m
            invariant
                0 <= i <= m,
                m == self.shape_dims()[0],
                inner == self.shape_dims()[1],
                n == rhs.shape_dims()[1],
                self.dot_req(rhs),
                c.wf(),
                c.shape_dims() == seq![m, n],
                c.buf().len() == m * n,
                forall|i2: int, j2: int|
                    0 <= i2 < i && 0 <= j2 < n ==> c.buf()[i2 * n + j2] == dot_seq(
                        arr_row(self, i2),
                        arr_col(rhs, j2),
                    ),
            decreases m - i,
        {
            let mut j: usize = 0;
            while j < n
                invariant
                    0 <= i < m,
                    0 <= j <= n,
                    m == self.shape_dims()[0],
                    inner == self.shape_dims()[1],
                    n == rhs.shape_dims()[1],
                    self.dot_req(rhs),
                    c.wf(),
                    c.shape_dims() == seq![m, n],
                    c.buf().len() == m * n,
                    forall|i2: int, j2: int|
                        0 <= i2 < i && 0 <= j2 < n ==> c.buf()[i2 * n + j2] == dot_seq(
                            arr_row(self, i2),
                            arr_col(rhs, j2),
                        ),
                    forall|j2: int|
                        0 <= j2 < j ==> c.buf()[i * n + j2] == dot_seq(
                            arr_row(self, i as int),
                            arr_col(rhs, j2),
                        ),
                decreases n - j,
            {
                let ghost rs = arr_row(self, i as int);
                let ghost cs = arr_col(rhs, j as int);
                let mut sum = T::zero();
                let mut k: usize = 0;
                proof {
                    assert(rs.take(0) =~= Seq::<T>::empty());
                    assert(cs.take(0) =~= Seq::<T>::empty());
                    lemma_product_rank2(self.shape_dims());
                    lemma_product_rank2(rhs.shape_dims());
                }
                while k < inner
                    invariant
                        0 <= k <= inner,
                        0 <= i < m,
                        0 <= j < n,
                        m == self.shape_dims()[0],
                        inner == self.shape_dims()[1],
                        n == rhs.shape_dims()[1],
                        self.dot_req(rhs),
                        rs == arr_row(self, i as int),
                        cs == arr_col(rhs, j as int),
                        sum == dot_seq(rs.take(k as int), cs.take(k as int)),
                    decreases inner - k,
                {
                    proof {
                        assert(rs.take(k + 1).drop_last() =~= rs.take(k as int));
                        assert(cs.take(k + 1).drop_last() =~= cs.take(k as int));
                        lemma_product_rank2(self.shape_dims());
                        lemma_product_rank2(rhs.shape_dims());
                        lemma_offset_rank2(self.shape_dims(), seq![i as usize, k as usize]);
                        lemma_offset_rank2(rhs.shape_dims(), seq![k as usize, j as usize]);
                        lemma_grid_offset_bound(m as int, inner as int, i as int, k as int);
                        lemma_grid_offset_bound(
                            rhs.shape_dims()[0] as int,
                            n as int,
                            k as int,
                            j as int,
                        );
                    }
                    let left: Ix2 = [i, k];
                    let right: Ix2 = [k, j];
                    proof {
                        assert(left.dims() =~= seq![i as usize, k as usize]);
                        assert(right.dims() =~= seq![k as usize, j as usize]);
                    }
                    sum = sum.add(self.get(left).mul(rhs.get(right)));
                    k = k + 1;
                }
                proof {
                    assert(rs.take(inner as int) =~= rs);
                    assert(cs.take(inner as int) =~= cs);
                    lemma_product_rank2(c.shape_dims());
                    lemma_grid_offset_bound(m as int, n as int, i as int, j as int);
                }
                let ghost c0 = c;
                let cell: Ix2 = [i, j];
                proof {
                    assert(cell.dims() =~= seq![i as usize, j as usize]);
                    lemma_offset_rank2(c.shape_dims(), cell.dims());
                }
                c.set(cell, sum);
                proof {
                    assert forall|i2: int, j2: int|
                        (0 <= i2 < i && 0 <= j2 < n) || (i2 == i && 0 <= j2 < j) implies c.buf()[i2
                        * n + j2] == dot_seq(arr_row(self, i2), arr_col(rhs, j2)) by {
                        lemma_grid_offset_bound(m as int, n as int, i2, j2);
                        lemma_grid_offset_injective(n as int, i2, j2, i as int, j as int);
                    }
                }
                j = j + 1;
            }
            i = i + 1;
        }
        c
    }
}

/// Row `i` of a row-major rank-2 array.
pub open spec fn arr_row<T>(a: &Array<Ix2, T>, i: int) -> Seq<T> {
    Seq::new(a.shape_dims()[1] as nat, |k: int| a.buf()[i * a.shape_dims()[1] + k])
}

/// Column `j` of a row-major rank-2 array.
pub open spec fn arr_col<T>(b: &Array<Ix2, T>, j: int) -> Seq<T> {
    Seq::new(b.shape_dims()[0] as nat, |k: int| b.buf()[k * b.shape_dims()[1] + j])
}

/// The size of a rank-1 shape is its single extent.
pub proof fn lemma_product_rank1(dims: Seq<usize>)
    requires
        dims.len() == 1,
    ensures
        dims_product(dims) == dims[0],
{
    assert(dims.skip(1) =~= Seq::<usize>::empty());
    assert(dims_product(Seq::<usize>::empty()) == 1);
    assert(dims_product(dims) == dims[0] * dims_product(dims.skip(1)));
}

/// The size of a rank-2 shape is the product of its two extents.
pub proof fn lemma_product_rank2(dims: Seq<usize>)
    requires
        dims.len() == 2,
    ensures
        dims_product(dims) == dims[0] * dims[1],
{
    let tail = dims.skip(1);
    lemma_product_rank1(tail);
    assert(tail[0] == dims[1]);
}

/// The set/get round trip: writing cell `i` of a buffer and reading it
/// back yields the written value, and a read at any other valid cell `j`
/// returns what it held before the write. `Array::set` produces exactly
/// the updated buffer and `Array::get` reads exactly these offsets, so
/// this is the storage law for every rank.
pub proof fn lemma_set_get_round_trip<T>(
    dims: Seq<usize>,
    i: Seq<usize>,
    j: Seq<usize>,
    buf: Seq<T>,
    x: T,
)
    requires
        dims_positive(dims),
        buf.len() == dims_product(dims),
        index_in_bounds(dims, i),
        index_in_bounds(dims, j),
    ensures
        buf.update(linear_offset(dims, i) as int, x)[linear_offset(dims, i) as int] == x,
        i != j ==> buf.update(linear_offset(dims, i) as int, x)[linear_offset(dims, j) as int]
            == buf[linear_offset(dims, j) as int],
{
    crate::dims::lemma_offset_in_bounds(dims, i);
    crate::dims::lemma_offset_in_bounds(dims, j);
    if i != j {
        crate::dims::lemma_offset_injective(dims, i, j);
    }
}

/// Compares two extent tuples axis by axis.
fn shapes_equal(a: &[usize], b: &[usize]) -> (r: bool)
    ensures
        r == (a@ =~= b@),
{
    if a.len() != b.len() {
        return false;
    }
    let n = a.len();
    let mut k: usize = 0;
    while k < n
        invariant
            0 <= k <= n,
            n == a@.len(),
            b@.len() == n,
            forall|j: int| 0 <= j < k ==> a@[j] == b@[j],
        decreases n - k,
    {
        if a[k] != b[k] {
            return false;
        }
        k = k + 1;
    }
    true
}

} // verus!
