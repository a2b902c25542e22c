//! Module for matrices.
//!
//! [`Matrix`] is the rank-2 storage type with an explicit storage order,
//! chosen at construction: the order decides only how a (row, column) pair
//! maps to a buffer offset, never what `get` and `set` mean logically. The
//! logical cell value is the spec function [`Matrix::at`]; every contract in
//! this module is stated through it, so the order is invisible to callers.

use vstd::prelude::*;

use crate::dims::{lemma_grid_offset_bound, lemma_grid_offset_injective};
use crate::dot::{dot, dot_lanes_spec, dot_seq};
use crate::mul::zero_vec;
use crate::scalar::Scalar;

verus! {

/// Matrix storage orders.
#[derive(Copy, Clone, Debug)]
pub enum Order {
    /// Column-major order.
    ColumnMajor,
    /// Row-major order.
    RowMajor,
}

/// A matrix data type, represents two-dimensional tensors.
pub struct Matrix<T> {
    order: Order,
    data: Vec<T>,
    n_rows: usize,
    n_cols: usize,
}

/// The L2 norm of a buffer: the square root of the left-to-right sum of
/// squares.
pub open spec fn l2_seq<T: Scalar>(s: Seq<T>) -> T {
    dot_seq(s, s).sqrt_spec()
}

impl<T> Matrix<T> {
    /// The stored elements in physical order.
    pub closed spec fn buf(&self) -> Seq<T> {
        self.data@
    }

    /// The storage order.
    pub closed spec fn order_spec(&self) -> Order {
        self.order
    }

    /// The number of rows.
    pub closed spec fn rows(&self) -> usize {
        self.n_rows
    }

    /// The number of columns.
    pub closed spec fn cols(&self) -> usize {
        self.n_cols
    }

    /// The construction invariant: both extents positive and a buffer of
    /// exactly one element per cell.
    pub open spec fn wf(&self) -> bool {
        &&& self.rows() >= 1
        &&& self.cols() >= 1
        &&& self.buf().len() == self.rows() * self.cols()
    }

    /// The buffer offset of a cell under this matrix's storage order.
    pub open spec fn offset_spec(&self, row: int, col: int) -> int {
        match self.order_spec() {
            Order::RowMajor => row * self.cols() + col,
            Order::ColumnMajor => col * self.rows() + row,
        }
    }

    /// The logical value of cell (`row`, `col`), independent of the storage
    /// order.
    pub open spec fn at(&self, row: int, col: int) -> T {
        self.buf()[self.offset_spec(row, col)]
    }

    /// A cell's offset lands inside the buffer, and distinct cells have
    /// distinct offsets, whichever the storage order.
    pub proof fn lemma_offset(&self, r1: int, c1: int, r2: int, c2: int)
        requires
            self.wf(),
            0 <= r1 < self.rows(),
            0 <= c1 < self.cols(),
            0 <= r2 < self.rows(),
            0 <= c2 < self.cols(),
        ensures
            0 <= self.offset_spec(r1, c1) < self.buf().len(),
            (r1, c1) != (r2, c2) ==> self.offset_spec(r1, c1) != self.offset_spec(r2, c2),
    {
        match self.order_spec() {
            Order::RowMajor => {
                lemma_grid_offset_bound(self.rows() as int, self.cols() as int, r1, c1);
                if (r1, c1) != (r2, c2) {
                    lemma_grid_offset_injective(self.cols() as int, r1, c1, r2, c2);
                }
            },
            Order::ColumnMajor => {
                lemma_grid_offset_bound(self.cols() as int, self.rows() as int, c1, r1);
                assert(self.buf().len() == self.cols() * self.rows()) by (nonlinear_arith)
                    requires
                        self.buf().len() == self.rows() * self.cols(),
                ;
                if (r1, c1) != (r2, c2) {
                    lemma_grid_offset_injective(self.rows() as int, c1, r1, c2, r2);
                }
            },
        }
    }

    /// Wraps an existing buffer, which must hold exactly `n_rows * n_cols`
    /// elements laid out in the given order.
    pub fn from_vec(order: Order, data: Vec<T>, n_rows: usize, n_cols: usize) -> (r: Self)
        requires
            n_rows >= 1,
            n_cols >= 1,
            data@.len() == n_rows * n_cols,
        ensures
            r.wf(),
            r.order_spec() == order,
            r.rows() == n_rows,
            r.cols() == n_cols,
            r.buf() == data@,
    {
        Matrix { order, data, n_rows, n_cols }
    }

    /// Wraps an existing buffer, rejecting a zero extent or a buffer whose
    /// length does not match the requested extents.
    pub fn try_from_vec(order: Order, data: Vec<T>, n_rows: usize, n_cols: usize) -> (r: Option<
        Self,
    >)
        ensures
            match r {
                Some(m) => {
                    &&& n_rows >= 1
                    &&& n_cols >= 1
                    &&& data@.len() == n_rows * n_cols
                    &&& m.wf()
                    &&& m.order_spec() == order
                    &&& m.rows() == n_rows
                    &&& m.cols() == n_cols
                    &&& m.buf() == data@
                },
                None => !(n_rows >= 1 && n_cols >= 1 && data@.len() == n_rows * n_cols),
            },
    {
        proof {
            vstd::std_specs::vec::axiom_spec_len(&data);
        }
        if n_rows == 0 || n_cols == 0 {
            return None;
        }
        match n_rows.checked_mul(n_cols) {
            Some(size) => {
                if data.len() == size {
                    Some(Matrix { order, data, n_rows, n_cols })
                } else {
                    None
                }
            },
            None => None,
        }
    }

    /// The whole buffer in its physical layout, for kernel consumption.
    pub fn as_slice(&self) -> (r: &[T])
        ensures
            r@ == self.buf(),
    {
        self.data.as_slice()
    }

    /// The storage order this matrix was constructed with.
    pub fn order(&self) -> (r: Order)
        ensures
            r == self.order_spec(),
    {
        self.order
    }

    /// The buffer offset of a cell, recomputed on every access.
    fn index(&self, row: usize, col: usize) -> (r: usize)
        requires
            self.wf(),
            row < self.rows(),
            col < self.cols(),
        ensures
            r == self.offset_spec(row as int, col as int),
            r < self.buf().len(),
    {
        proof {
            self.lemma_offset(row as int, col as int, row as int, col as int);
            vstd::std_specs::vec::axiom_spec_len(&self.data);
        }
        match self.order {
            Order::RowMajor => row * self.n_cols + col,
            Order::ColumnMajor => col * self.n_rows + row,
        }
    }

    /// Reads the logical value of cell (`row`, `col`).
    pub fn get(&self, row: usize, col: usize) -> (r: T)
        where
            T: Copy,
        requires
            self.wf(),
            row < self.rows(),
            col < self.cols(),
        ensures
            r == self.at(row as int, col as int),
    {
        self.data[self.index(row, col)]
    }

    /// Overwrites the logical value of cell (`row`, `col`); every other
    /// cell keeps its value.
    pub fn set(&mut self, row: usize, col: usize, val: T)
        requires
            old(self).wf(),
            row < old(self).rows(),
            col < old(self).cols(),
        ensures
            final(self).wf(),
            final(self).order_spec() == old(self).order_spec(),
            final(self).rows() == old(self).rows(),
            final(self).cols() == old(self).cols(),
            final(self).buf() == old(self).buf().update(
                old(self).offset_spec(row as int, col as int),
                val,
            ),
            final(self).at(row as int, col as int) == val,
    {
        let idx = self.index(row, col);
        self.data[idx] = val;
    }
}

impl<T: Scalar> Matrix<T> {
    /// Construct a new matrix with the given order, number of rows,
    /// and columns. The matrix will be zero-initialized.
    pub fn zeros(order: Order, n_rows: usize, n_cols: usize) -> (r: Self)
        requires
            n_rows >= 1,
            n_cols >= 1,
            n_rows * n_cols <= usize::MAX,
        ensures
            r.wf(),
            r.order_spec() == order,
            r.rows() == n_rows,
            r.cols() == n_cols,
            r.buf().len() == n_rows * n_cols,
            forall|i: int| 0 <= i < r.buf().len() ==> r.buf()[i] == T::zero_spec(),
    {
        let len = n_rows * n_cols;
        Matrix { order, data: zero_vec(len), n_rows, n_cols }
    }

    /// The L2 norm of the whole buffer read in physical order. A sum of
    /// squares does not depend on the traversal order's meaning, so this is
    /// the same quantity for a row-major and a column-major layout of the
    /// same cells, up to summation order.
    pub fn frobenius_norm(&self) -> (r: T)
        ensures
            r == l2_seq(self.buf()),
    {
        l2_norm(self.data.as_slice())
    }
}

/// Row `i` of a matrix, read through the logical accessor.
pub open spec fn row_seq<T>(a: &Matrix<T>, i: int) -> Seq<T> {
    Seq::new(a.cols() as nat, |k: int| a.at(i, k))
}

/// Column `j` of a matrix, read through the logical accessor.
pub open spec fn col_seq<T>(b: &Matrix<T>, j: int) -> Seq<T> {
    Seq::new(b.rows() as nat, |k: int| b.at(k, j))
}

/// One cell of a matrix product: the left-to-right inner product of row `i`
/// of `a` with column `j` of `b`.
pub open spec fn matmul_cell<T: Scalar>(a: &Matrix<T>, b: &Matrix<T>, i: int, j: int) -> T {
    dot_seq(row_seq(a, i), col_seq(b, j))
}

impl<T: Scalar> Matrix<T> {
    /// Multiplies two conforming matrices into a freshly allocated
    /// row-major result; each cell is the inner product of the
    /// corresponding row of `self` and column of `other`, read through the
    /// logical accessor, so the operands' storage orders are irrelevant.
    pub fn matmul(&self, other: &Self) -> (r: Self)
        requires
            self.wf(),
            other.wf(),
            self.cols() == other.rows(),
            self.rows() * other.cols() <= usize::MAX,
        ensures
            r.wf(),
            r.order_spec() == Order::RowMajor,
            r.rows() == self.rows(),
            r.cols() == other.cols(),
            forall|i: int, j: int|
                0 <= i < self.rows() && 0 <= j < other.cols() ==> r.at(i, j) == matmul_cell(
                    self,
                    other,
                    i,
                    j,
                ),
    {
        let m = self.n_rows;
        let n = other.n_cols;
        let inner = self.n_cols;
        let mut c = Matrix::<T>::zeros(Order::RowMajor, m, n);
        let mut i: usize = 0;
        while i < m
            invariant
                0 <= i <= m,
                m == self.rows(),
                n == other.cols(),
                inner == self.cols(),
                self.wf(),
                other.wf(),
                self.cols() == other.rows(),
                c.wf(),
                c.order_spec() == Order::RowMajor,
                c.rows() == m,
                c.cols() == n,
                forall|i2: int, j2: int|
                    0 <= i2 < i && 0 <= j2 < n ==> c.at(i2, j2) == matmul_cell(self, other, i2, j2),
            decreases m - i,
        {
            let mut j: usize = 0;
            while j < n
                invariant
                    0 <= i < m,
                    0 <= j <= n,
                    m == self.rows(),
                    n == other.cols(),
                    inner == self.cols(),
                    self.wf(),
                    other.wf(),
                    self.cols() == other.rows(),
                    c.wf(),
                    c.order_spec() == Order::RowMajor,
                    c.rows() == m,
                    c.cols() == n,
                    forall|i2: int, j2: int|
                        0 <= i2 < i && 0 <= j2 < n ==> c.at(i2, j2) == matmul_cell(
                            self,
                            other,
                            i2,
                            j2,
                        ),
                    forall|j2: int|
                        0 <= j2 < j ==> c.at(i as int, j2) == matmul_cell(self, other, i as int, j2),
                decreases n - j,
            {
                let ghost rs = row_seq(self, i as int);
                let ghost cs = col_seq(other, j as int);
                let mut sum = T::zero();
                let mut k: usize = 0;
                proof {
                    assert(rs.take(0) =~= Seq::<T>::empty());
                    assert(cs.take(0) =~= Seq::<T>::empty());
                }
                while k < inner
                    invariant
                        0 <= k <= inner,
                        0 <= i < m,
                        0 <= j < n,
                        m == self.rows(),
                        n == other.cols(),
                        inner == self.cols(),
                        self.wf(),
                        other.wf(),
                        self.cols() == other.rows(),
                        rs == row_seq(self, i as int),
                        cs == col_seq(other, j as int),
                        sum == dot_seq(rs.take(k as int), cs.take(k as int)),
                    decreases inner - k,
                {
                    proof {
                        assert(rs.take(k + 1).drop_last() =~= rs.take(k as int));
                        assert(cs.take(k + 1).drop_last() =~= cs.take(k as int));
                        assert(rs.take(k + 1).last() == self.at(i as int, k as int));
                        assert(cs.take(k + 1).last() == other.at(k as int, j as int));
                    }
                    sum = sum.add(self.get(i, k).mul(other.get(k, j)));
                    k = k + 1;
                }
                proof {
                    assert(rs.take(inner as int) =~= rs);
                    assert(cs.take(inner as int) =~= cs);
                }
                let ghost c0 = c;
                c.set(i, j, sum);
                proof {
                    assert forall|i2: int, j2: int|
                        (0 <= i2 < i && 0 <= j2 < n) || (i2 == i && 0 <= j2 < j) implies c.at(
                        i2,
                        j2,
                    ) == matmul_cell(self, other, i2, j2) by {
                        c0.lemma_offset(i2, j2, i as int, j as int);
                        c0.lemma_offset(i as int, j as int, i2, j2);
                        assert(c.at(i2, j2) == c0.at(i2, j2));
                    }
                }
                j = j + 1;
            }
            i = i + 1;
        }
        c
    }

    /// Multiplies two matrices, rejecting non-conforming operands (and a
    /// result too large for the machine) rather than truncating.
    pub fn try_matmul(&self, other: &Self) -> (r: Option<Self>)
        requires
            self.wf(),
            other.wf(),
        ensures
            match r {
                Some(p) => {
                    &&& self.cols() == other.rows()
                    &&& self.rows() * other.cols() <= usize::MAX
                    &&& p.wf()
                    &&& p.order_spec() == Order::RowMajor
                    &&& p.rows() == self.rows()
                    &&& p.cols() == other.cols()
                    &&& forall|i: int, j: int|
                        0 <= i < self.rows() && 0 <= j < other.cols() ==> p.at(i, j) == matmul_cell(
                            self,
                            other,
                            i,
                            j,
                        )
                },
                None => self.cols() != other.rows() || self.rows() * other.cols() > usize::MAX,
            },
    {
        if self.n_cols != other.n_rows {
            return None;
        }
        match self.n_rows.checked_mul(other.n_cols) {
            Some(_) => Some(self.matmul(other)),
            None => None,
        }
    }
}

/// The set/get round trip on a matrix: writing cell (`r1`, `c1`) and
/// reading it back yields the written value, and a read at any other valid
/// cell is unaffected, whichever storage order the matrix uses.
pub proof fn lemma_matrix_set_get<T>(m: &Matrix<T>, r1: int, c1: int, r2: int, c2: int, x: T)
    requires
        m.wf(),
        0 <= r1 < m.rows(),
        0 <= c1 < m.cols(),
        0 <= r2 < m.rows(),
        0 <= c2 < m.cols(),
    ensures
        m.buf().update(m.offset_spec(r1, c1), x)[m.offset_spec(r1, c1)] == x,
        (r1, c1) != (r2, c2) ==> m.buf().update(m.offset_spec(r1, c1), x)[m.offset_spec(r2, c2)]
            == m.at(r2, c2),
{
    m.lemma_offset(r1, c1, r2, c2);
    m.lemma_offset(r2, c2, r1, c1);
}

/// The Frobenius norm of a single-row matrix built from a vector `v` is
/// the L2 norm of `v` itself: the square root of the left-to-right sum of
/// the squares of `v`'s elements. `Matrix::frobenius_norm` returns exactly
/// `l2_seq` of the buffer, and a one-row matrix's buffer is `v` in either
/// storage order.
pub proof fn lemma_frobenius_of_vector<T: Scalar>(m: &Matrix<T>, v: Seq<T>)
    requires
        m.wf(),
        m.rows() == 1,
        m.buf() == v,
    ensures
        l2_seq(m.buf()) == dot_seq(v, v).sqrt_spec(),
{
}

/// The default L2 kernel: the scalar baseline tier.
fn l2_norm<T: Scalar>(s: &[T]) -> (r: T)
    ensures
        r == l2_seq(s@),
{
    l2_norm_unvectorized(s)
}

/// The square root of the left-to-right sum of squares, one running sum.
pub fn l2_norm_unvectorized<T: Scalar>(s: &[T]) -> (r: T)
    ensures
        r == l2_seq(s@),
{
    dot(s, s).sqrt()
}

/// The sum of squares computed in four lanes, as by a four-wide vector
/// register, the remainder through the scalar sum; then the square root.
pub fn l2_norm_f32x4<T: Scalar>(s: &[T]) -> (r: T)
    ensures
        r == dot_lanes_spec(s@, s@, 4).sqrt_spec(),
{
    crate::dot_simd::dot_f32x4(s, s).sqrt()
}

/// The sum of squares computed in eight lanes, as by an eight-wide vector
/// register, the remainder through the scalar sum; then the square root.
pub fn l2_norm_f32x8<T: Scalar>(s: &[T]) -> (r: T)
    ensures
        r == dot_lanes_spec(s@, s@, 8).sqrt_spec(),
{
    crate::dot_simd::dot_f32x8(s, s).sqrt()
}

} // verus!
