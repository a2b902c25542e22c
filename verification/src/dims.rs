//! Shapes and multi-index arithmetic.
//!
//! A shape is a fixed-length sequence of extents, one per axis; ranks 0
//! through 3 are supported through the [`Dim`] trait and the `Ix0`..`Ix3`
//! aliases. This module defines the row-major linearization of a
//! multi-index and proves the two facts every storage proof rests on: a
//! valid index lands strictly inside the buffer, and two distinct valid
//! indices never collide.

use vstd::prelude::*;

verus! {

/// A rank-0 (scalar) shape.
pub type Ix0 = [usize; 0];

/// A rank-1 (vector) shape.
pub type Ix1 = [usize; 1];

/// A rank-2 (matrix) shape.
pub type Ix2 = [usize; 2];

/// A rank-3 shape.
pub type Ix3 = [usize; 3];

/// The product of all extents: the number of elements a shape addresses.
/// An empty shape has size 1 (a single scalar).
pub open spec fn dims_product(dims: Seq<usize>) -> nat
    decreases dims.len(),
{
    if dims.len() == 0 {
        1
    } else {
        (dims[0] * dims_product(dims.skip(1))) as nat
    }
}

/// Every extent is at least 1.
pub open spec fn dims_positive(dims: Seq<usize>) -> bool {
    forall|k: int| 0 <= k < dims.len() ==> dims[k] >= 1
}

/// `idx` addresses a cell of a shape `dims`: one coordinate per axis, each
/// strictly below its extent.
pub open spec fn index_in_bounds(dims: Seq<usize>, idx: Seq<usize>) -> bool {
    &&& idx.len() == dims.len()
    &&& forall|k: int| 0 <= k < dims.len() ==> idx[k] < dims[k]
}

/// The row-major linear offset of `idx` in a buffer of shape `dims`:
/// each coordinate is scaled by the product of all later extents.
pub open spec fn linear_offset(dims: Seq<usize>, idx: Seq<usize>) -> nat
    decreases dims.len(),
{
    if dims.len() == 0 {
        0
    } else {
        (idx[0] * dims_product(dims.skip(1)) + linear_offset(dims.skip(1), idx.skip(1))) as nat
    }
}

/// A product of positive extents is positive.
pub proof fn lemma_dims_product_positive(dims: Seq<usize>)
    requires
        dims_positive(dims),
    ensures
        dims_product(dims) >= 1,
    decreases dims.len(),
{
    if dims.len() > 0 {
        assert(dims_positive(dims.skip(1)));
        lemma_dims_product_positive(dims.skip(1));
        assert(dims[0] * dims_product(dims.skip(1)) >= 1) by (nonlinear_arith)
            requires
                dims[0] >= 1,
                dims_product(dims.skip(1)) >= 1,
        ;
    }
}

/// A valid index lands strictly inside the buffer.
pub proof fn lemma_offset_in_bounds(dims: Seq<usize>, idx: Seq<usize>)
    requires
        dims_positive(dims),
        index_in_bounds(dims, idx),
    ensures
        linear_offset(dims, idx) < dims_product(dims),
    decreases dims.len(),
{
    if dims.len() > 0 {
        let tail_dims = dims.skip(1);
        let tail_idx = idx.skip(1);
        assert(dims_positive(tail_dims));
        assert(index_in_bounds(tail_dims, tail_idx));
        lemma_offset_in_bounds(tail_dims, tail_idx);
        assert(idx[0] * dims_product(tail_dims) + linear_offset(tail_dims, tail_idx) < dims[0]
            * dims_product(tail_dims)) by (nonlinear_arith)
            requires
                idx[0] < dims[0],
                linear_offset(tail_dims, tail_idx) < dims_product(tail_dims),
        ;
    }
}

/// Distinct valid indices of one shape have distinct linear offsets: the
/// row-major layout stores every cell in a slot of its own.
pub proof fn lemma_offset_injective(dims: Seq<usize>, a: Seq<usize>, b: Seq<usize>)
    requires
        dims_positive(dims),
        index_in_bounds(dims, a),
        index_in_bounds(dims, b),
        a != b,
    ensures
        linear_offset(dims, a) != linear_offset(dims, b),
    decreases dims.len(),
{
    if dims.len() == 0 {
        assert(a =~= b);
    } else {
        let tail_dims = dims.skip(1);
        let p = dims_product(tail_dims);
        lemma_offset_in_bounds(tail_dims, a.skip(1));
        lemma_offset_in_bounds(tail_dims, b.skip(1));
        if a[0] != b[0] {
            assert(linear_offset(dims, a) != linear_offset(dims, b)) by (nonlinear_arith)
                requires
                    a[0] != b[0],
                    linear_offset(tail_dims, a.skip(1)) < p,
                    linear_offset(tail_dims, b.skip(1)) < p,
                    linear_offset(dims, a) == a[0] * p + linear_offset(tail_dims, a.skip(1)),
                    linear_offset(dims, b) == b[0] * p + linear_offset(tail_dims, b.skip(1)),
            ;
        } else {
            if a.skip(1) =~= b.skip(1) {
                assert forall|i: int| 0 <= i < a.len() implies a[i] == b[i] by {
                    if i >= 1 {
                        assert(a.skip(1)[i - 1] == a[i]);
                        assert(b.skip(1)[i - 1] == b[i]);
                    }
                }
                assert(a =~= b);
            }
            lemma_offset_injective(tail_dims, a.skip(1), b.skip(1));
        }
    }
}

/// Computes the product of the extents of `s` from position `from` on.
/// The caller must know the whole product fits a machine word and that the
/// extents are positive, which bounds every suffix product.
pub fn suffix_product(s: &[usize], from: usize) -> (r: usize)
    requires
        from <= s@.len(),
        dims_positive(s@),
        dims_product(s@) <= usize::MAX,
    ensures
        r == dims_product(s@.skip(from as int)),
{
    proof {
        lemma_suffix_product_fits(s@, from as int);
    }
    let n = s.len();
    let mut acc: usize = 1;
    let mut i: usize = n;
    while i > from
        invariant
            from <= i <= n,
            n == s@.len(),
            dims_positive(s@),
            dims_product(s@) <= usize::MAX,
            acc == dims_product(s@.skip(i as int)),
        decreases i,
    {
        i = i - 1;
        proof {
            lemma_suffix_product_fits(s@, i as int);
            assert(s@.skip(i as int)[0] == s@[i as int]);
            assert(s@.skip(i as int).skip(1) =~= s@.skip(i as int + 1));
        }
        acc = s[i] * acc;
    }
    acc
}

/// Every suffix product of a positive shape is bounded by the whole product.
pub proof fn lemma_suffix_product_fits(dims: Seq<usize>, from: int)
    requires
        0 <= from <= dims.len(),
        dims_positive(dims),
    ensures
        dims_product(dims.skip(from)) <= dims_product(dims),
    decreases from,
{
    if from == 0 {
        assert(dims.skip(0) =~= dims);
    } else {
        lemma_suffix_product_fits(dims, from - 1);
        let s = dims.skip(from - 1);
        assert(dims_positive(s));
        assert(s.skip(1) =~= dims.skip(from));
        lemma_dims_product_positive(s.skip(1));
        assert(dims_product(s) == s[0] * dims_product(s.skip(1)));
        assert(s[0] * dims_product(s.skip(1)) >= dims_product(s.skip(1))) by (nonlinear_arith)
            requires
                s[0] >= 1,
        ;
        assert(dims_product(s.skip(1)) == dims_product(dims.skip(from)));
        assert(dims_product(s) <= dims_product(dims));
        assert(dims_product(dims.skip(from)) <= dims_product(s));
    }
}

/// Checks that every extent of `s` is at least 1.
pub fn all_positive(s: &[usize]) -> (r: bool)
    ensures
        r == dims_positive(s@),
{
    let n = s.len();
    let mut k: usize = 0;
    while k < n
        invariant
            0 <= k <= n,
            n == s@.len(),
            forall|j: int| 0 <= j < k ==> s@[j] >= 1,
        decreases n - k,
    {
        if s[k] == 0 {
            return false;
        }
        k = k + 1;
    }
    true
}

/// Computes the size of a positive shape, reporting rather than wrapping
/// when the product exceeds the machine word.
pub fn checked_size(s: &[usize]) -> (r: Option<usize>)
    requires
        dims_positive(s@),
    ensures
        match r {
            Some(n) => n == dims_product(s@),
            None => dims_product(s@) > usize::MAX,
        },
{
    let n = s.len();
    let mut acc: usize = 1;
    let mut i: usize = n;
    while i > 0
        invariant
            0 <= i <= n,
            n == s@.len(),
            dims_positive(s@),
            acc == dims_product(s@.skip(i as int)),
        decreases i,
    {
        proof {
            assert(s@.skip(i - 1)[0] == s@[i - 1]);
            assert(s@.skip(i - 1).skip(1) =~= s@.skip(i as int));
            assert(dims_positive(s@.skip(i - 1)));
        }
        match s[i - 1].checked_mul(acc) {
            Some(next) => {
                acc = next;
            },
            None => {
                proof {
                    lemma_suffix_product_fits(s@, i - 1);
                }
                return None;
            },
        }
        i = i - 1;
    }
    proof {
        assert(s@.skip(0) =~= s@);
    }
    Some(acc)
}

/// The linear offset of a rank-2 index, written out: row times row length
/// plus column.
pub proof fn lemma_offset_rank2(dims: Seq<usize>, idx: Seq<usize>)
    requires
        dims.len() == 2,
        idx.len() == 2,
    ensures
        linear_offset(dims, idx) == idx[0] * dims[1] + idx[1],
{
    let d1 = dims.skip(1);
    let x1 = idx.skip(1);
    assert(d1.len() == 1);
    assert(d1[0] == dims[1]);
    assert(x1[0] == idx[1]);
    assert(d1.skip(1) =~= Seq::<usize>::empty());
    assert(x1.skip(1) =~= Seq::<usize>::empty());
    assert(dims_product(d1.skip(1)) == 1);
    assert(linear_offset(d1.skip(1), x1.skip(1)) == 0);
    assert(linear_offset(d1, x1) == x1[0] * 1 + 0);
    assert(dims_product(d1) == d1[0] * 1);
}

/// A cell of an `n_rows` by `n_cols` grid has its row-major offset inside
/// the grid's buffer.
pub proof fn lemma_grid_offset_bound(n_rows: int, n_cols: int, r: int, c: int) by (nonlinear_arith)
    requires
        0 <= r < n_rows,
        0 <= c < n_cols,
    ensures
        0 <= r * n_cols + c < n_rows * n_cols,
{
}

/// Two distinct cells of a grid with `n_cols` columns have distinct
/// row-major offsets.
pub proof fn lemma_grid_offset_injective(
    n_cols: int,
    r1: int,
    c1: int,
    r2: int,
    c2: int,
) by (nonlinear_arith)
    requires
        0 <= c1 < n_cols,
        0 <= c2 < n_cols,
        0 <= r1,
        0 <= r2,
        (r1, c1) != (r2, c2),
    ensures
        r1 * n_cols + c1 != r2 * n_cols + c2,
{
}

/// A fixed-rank shape: an ordered tuple of extents.
pub trait Dim: Sized + Copy {
    /// The extents, one per axis.
    spec fn dims(&self) -> Seq<usize>;

    /// The number of axes, fixed by the shape type.
    spec fn rank() -> nat;

    /// Every value of the shape type has exactly `rank` extents.
    proof fn lemma_rank(&self)
        ensures
            self.dims().len() == Self::rank(),
    ;

    /// The extents as a slice, outermost axis first.
    fn as_slice(&self) -> (r: &[usize])
        ensures
            r@ == self.dims(),
    ;

    /// The size of this shape.
    ///
    /// The size is the total number of elements.
    fn size(&self) -> (r: usize)
        requires
            dims_positive(self.dims()),
            dims_product(self.dims()) <= usize::MAX,
        ensures
            r == dims_product(self.dims()),
    ;

    /// Whether `idx` addresses a cell of this shape.
    fn valid_index(&self, idx: &Self) -> (r: bool)
        ensures
            r == index_in_bounds(self.dims(), idx.dims()),
    ;
}

/// Computes the product of all extents left to right, as a rank-generic
/// helper for the `Dim` implementations.
fn dims_size_exec(s: &[usize]) -> (r: usize)
    requires
        dims_positive(s@),
        dims_product(s@) <= usize::MAX,
    ensures
        r == dims_product(s@),
{
    proof {
        assert(s@.skip(0) =~= s@);
    }
    suffix_product(s, 0)
}

/// Compares a candidate index against the extents, axis by axis.
fn valid_index_exec(dims: &[usize], idx: &[usize]) -> (r: bool)
    requires
        dims@.len() == idx@.len(),
    ensures
        r == index_in_bounds(dims@, idx@),
{
    let n = dims.len();
    let mut k: usize = 0;
    while k < n
        invariant
            0 <= k <= n,
            n == dims@.len(),
            idx@.len() == n,
            forall|j: int| 0 <= j < k ==> idx@[j] < dims@[j],
        decreases n - k,
    {
        if idx[k] >= dims[k] {
            return false;
        }
        k = k + 1;
    }
    true
}

impl Dim for Ix0 {
    open spec fn dims(&self) -> Seq<usize> {
        self@
    }

    open spec fn rank() -> nat {
        0
    }

    proof fn lemma_rank(&self) {
    }

    fn as_slice(&self) -> (r: &[usize]) {
        vstd::array::array_as_slice(self)
    }

    fn size(&self) -> (r: usize) {
        dims_size_exec(vstd::array::array_as_slice(self))
    }

    fn valid_index(&self, idx: &Self) -> (r: bool) {
        valid_index_exec(vstd::array::array_as_slice(self), vstd::array::array_as_slice(idx))
    }
}

impl Dim for Ix1 {
    open spec fn dims(&self) -> Seq<usize> {
        self@
    }

    open spec fn rank() -> nat {
        1
    }

    proof fn lemma_rank(&self) {
    }

    fn as_slice(&self) -> (r: &[usize]) {
        vstd::array::array_as_slice(self)
    }

    fn size(&self) -> (r: usize) {
        dims_size_exec(vstd::array::array_as_slice(self))
    }

    fn valid_index(&self, idx: &Self) -> (r: bool) {
        valid_index_exec(vstd::array::array_as_slice(self), vstd::array::array_as_slice(idx))
    }
}

impl Dim for Ix2 {
    open spec fn dims(&self) -> Seq<usize> {
        self@
    }

    open spec fn rank() -> nat {
        2
    }

    proof fn lemma_rank(&self) {
    }

    fn as_slice(&self) -> (r: &[usize]) {
        vstd::array::array_as_slice(self)
    }

    fn size(&self) -> (r: usize) {
        dims_size_exec(vstd::array::array_as_slice(self))
    }

    fn valid_index(&self, idx: &Self) -> (r: bool) {
        valid_index_exec(vstd::array::array_as_slice(self), vstd::array::array_as_slice(idx))
    }
}

impl Dim for Ix3 {
    open spec fn dims(&self) -> Seq<usize> {
        self@
    }

    open spec fn rank() -> nat {
        3
    }

    proof fn lemma_rank(&self) {
    }

    fn as_slice(&self) -> (r: &[usize]) {
        vstd::array::array_as_slice(self)
    }

    fn size(&self) -> (r: usize) {
        dims_size_exec(vstd::array::array_as_slice(self))
    }

    fn valid_index(&self, idx: &Self) -> (r: bool) {
        valid_index_exec(vstd::array::array_as_slice(self), vstd::array::array_as_slice(idx))
    }
}

} // verus!
