//! A k-nearest-neighbour classifier over the dense kernels.
//!
//! Classification selects the `k` training points nearest to the query —
//! nearness compares distance first and arrival order second, so the
//! first-seen point wins a distance tie — and returns the most frequent
//! label among them, the smallest label winning a frequency tie.

use vstd::prelude::*;

use crate::array::{arr_row, lemma_product_rank1, lemma_product_rank2, Array};
use crate::dims::{Dim, Ix1, Ix2};
use crate::instance::Instance;
use crate::norms::{euclid_seq, EuclideanDistance};
use crate::scalar::{scalar_lt, Scalar};

verus! {

/// Training point `a` is nearer to the query than `b`: its distance is
/// strictly smaller, or the distances tie and `a` arrived first.
pub open spec fn nearer<T: Scalar>(d: Seq<T>, a: int, b: int) -> bool {
    ||| scalar_lt(d[a], d[b])
    ||| (d[a].le_spec(d[b]) && d[b].le_spec(d[a]) && a < b)
}

/// `nearer` relates every two distinct points, one way only.
pub proof fn lemma_nearer_connects<T: Scalar>(d: Seq<T>, a: int, b: int)
    requires
        a != b,
    ensures
        nearer(d, a, b) || nearer(d, b, a),
        !(nearer(d, a, b) && nearer(d, b, a)),
{
    T::le_total(d[a], d[b]);
}

/// `nearer` is transitive.
pub proof fn lemma_nearer_trans<T: Scalar>(d: Seq<T>, a: int, b: int, c: int)
    requires
        nearer(d, a, b),
        nearer(d, b, c),
    ensures
        nearer(d, a, c),
{
    T::le_total(d[a], d[b]);
    T::le_total(d[b], d[c]);
    T::le_total(d[a], d[c]);
    if d[c].le_spec(d[a]) {
        if d[a].le_spec(d[b]) {
            T::le_transitive(d[c], d[a], d[b]);
        }
        if d[b].le_spec(d[c]) {
            T::le_transitive(d[b], d[c], d[a]);
        }
        if d[a].le_spec(d[b]) && d[b].le_spec(d[c]) {
            T::le_transitive(d[a], d[b], d[c]);
        }
    }
}

/// `sel` lists the `k` nearest training points (all of them, if there are
/// fewer than `k`): the right number of distinct indices, each nearer than
/// every index left out.
pub open spec fn is_selection<T: Scalar>(d: Seq<T>, k: nat, sel: Seq<int>) -> bool {
    &&& sel.len() == if k <= d.len() {
        k as int
    } else {
        d.len() as int
    }
    &&& forall|p: int| 0 <= p < sel.len() ==> 0 <= #[trigger] sel[p] < d.len()
    &&& forall|p: int, q: int| 0 <= p < q < sel.len() ==> sel[p] != sel[q]
    &&& forall|p: int, j: int|
        #![trigger sel[p], sel.contains(j)]
        0 <= p < sel.len() && 0 <= j < d.len() && !sel.contains(j) ==> nearer(d, sel[p], j)
}

/// Any two selections of the `k` nearest points hold exactly the same
/// points: whichever selection a classifier materializes, the set of
/// voters — and with it the vote — is determined by the distances alone.
pub proof fn lemma_selection_unique<T: Scalar>(
    d: Seq<T>,
    k: nat,
    sel1: Seq<int>,
    sel2: Seq<int>,
    j: int,
)
    requires
        is_selection(d, k, sel1),
        is_selection(d, k, sel2),
        sel1.contains(j),
    ensures
        sel2.contains(j),
{
    broadcast use vstd::set::group_set_axioms;
    broadcast use vstd::seq_lib::seq_to_set_is_finite;

    if !sel2.contains(j) {
        let p = choose|p: int| 0 <= p < sel1.len() && sel1[p] == j;
        assert(0 <= j < d.len());
        if forall|q: int| 0 <= q < sel2.len() ==> sel1.contains(#[trigger] sel2[q]) {
            // Every point of sel2 also stands in sel1, yet none of them is
            // j: too many distinct points for a set one element smaller.
            assert(sel1.no_duplicates());
            assert(sel2.no_duplicates());
            sel1.unique_seq_to_set();
            sel2.unique_seq_to_set();
            let s1 = sel1.to_set();
            let s2 = sel2.to_set();
            let shrunk = s1.remove(j);
            assert forall|y: int| s2.contains(y) implies shrunk.contains(y) by {
                let qy = choose|qy: int| 0 <= qy < sel2.len() && sel2[qy] == y;
                assert(sel1.contains(sel2[qy]));
            }
            assert(s2.subset_of(shrunk));
            vstd::set_lib::lemma_len_subset(s2, shrunk);
            assert(s1.contains(j));
            assert(shrunk.len() == s1.len() - 1);
            assert(false);
        } else {
            // Some point x of sel2 is outside sel1; each selection then
            // calls the other's point strictly nearer — impossible.
            let q = choose|q: int| 0 <= q < sel2.len() && !sel1.contains(#[trigger] sel2[q]);
            let x = sel2[q];
            assert(nearer(d, x, j));
            assert(nearer(d, j, x));
            lemma_nearer_connects(d, j, x);
            assert(false);
        }
    }
}

/// How many selected points carry the label `lab`.
pub open spec fn label_count(labels: Seq<usize>, sel: Seq<int>, lab: usize) -> nat
    decreases sel.len(),
{
    if sel.len() == 0 {
        0
    } else {
        label_count(labels, sel.drop_last(), lab) + if labels[sel.last()] == lab {
            1nat
        } else {
            0nat
        }
    }
}

/// A label with at least one vote can be found among the selected points.
pub proof fn lemma_label_count_pos(labels: Seq<usize>, sel: Seq<int>, lab: usize)
    requires
        label_count(labels, sel, lab) >= 1,
    ensures
        exists|p: int| 0 <= p < sel.len() && labels[#[trigger] sel[p]] == lab,
    decreases sel.len(),
{
    if labels[sel.last()] == lab {
        assert(0 <= sel.len() - 1 < sel.len() && labels[sel[sel.len() - 1]] == lab);
    } else {
        lemma_label_count_pos(labels, sel.drop_last(), lab);
        let p = choose|p: int|
            0 <= p < sel.drop_last().len() && labels[#[trigger] sel.drop_last()[p]] == lab;
        assert(sel.drop_last()[p] == sel[p]);
    }
}

/// `r` wins the vote over the selected points: it has at least one vote,
/// no label has more, and no smaller label has as many.
pub open spec fn is_vote_winner(labels: Seq<usize>, sel: Seq<int>, r: usize) -> bool {
    &&& label_count(labels, sel, r) >= 1
    &&& forall|lab: usize| #[trigger] label_count(labels, sel, lab) <= label_count(labels, sel, r)
    &&& forall|lab: usize|
        #[trigger] label_count(labels, sel, lab) == label_count(labels, sel, r) ==> r <= lab
}

/// Point `j` occurs among the kept (index, distance) pairs.
spec fn kept_has<T>(kept: Seq<(usize, T)>, j: int) -> bool {
    exists|p: int| 0 <= p < kept.len() && #[trigger] kept[p].0 == j
}

/// A selected point's label has at least one vote.
proof fn lemma_label_count_mem(labels: Seq<usize>, sel: Seq<int>, p: int)
    requires
        0 <= p < sel.len(),
    ensures
        label_count(labels, sel, labels[sel[p]]) >= 1,
    decreases sel.len(),
{
    if p == sel.len() - 1 {
    } else {
        lemma_label_count_mem(labels, sel.drop_last(), p);
        assert(sel.drop_last()[p] == sel[p]);
    }
}

/// Counts the kept points whose label is `lab`.
fn count_label<T: Scalar>(kept: &Vec<(usize, T)>, labels: &Vec<usize>, lab: usize) -> (c: usize)
    requires
        forall|p: int| 0 <= p < kept@.len() ==> (#[trigger] kept@[p]).0 < labels@.len(),
    ensures
        c == label_count(labels@, kept@.map_values(|pr: (usize, T)| pr.0 as int), lab),
{
    let ghost sel = kept@.map_values(|pr: (usize, T)| pr.0 as int);
    let n = kept.len();
    let mut c: usize = 0;
    let mut p: usize = 0;
    while p < n
        invariant
            0 <= p <= n,
            n == kept@.len(),
            sel == kept@.map_values(|pr: (usize, T)| pr.0 as int),
            forall|q: int| 0 <= q < kept@.len() ==> (#[trigger] kept@[q]).0 < labels@.len(),
            c <= p,
            c == label_count(labels@, sel.take(p as int), lab),
        decreases n - p,
    {
        proof {
            assert(sel.take(p + 1).drop_last() =~= sel.take(p as int));
            assert(sel.take(p + 1).last() == kept@[p as int].0 as int);
        }
        if labels[kept[p].0] == lab {
            c += 1;
        }
        p += 1;
    }
    proof {
        assert(sel.take(n as int) =~= sel);
    }
    c
}

/// `KNNBuilder` collects data points for KNN classification.
pub struct KNNBuilder<T> {
    labels: Vec<usize>,
    features: Vec<T>,
    n_instances: usize,
}

impl<T> KNNBuilder<T> {
    /// The labels pushed so far, in arrival order.
    pub closed spec fn labels_spec(&self) -> Seq<usize> {
        self.labels@
    }

    /// The concatenated feature rows pushed so far.
    pub closed spec fn features_spec(&self) -> Seq<T> {
        self.features@
    }

    /// How many data points have been pushed.
    pub closed spec fn count(&self) -> usize {
        self.n_instances
    }

    /// One label per data point, and feature rows of one common width.
    pub open spec fn wf(&self) -> bool {
        &&& self.labels_spec().len() == self.count()
        &&& if self.count() == 0 {
            self.features_spec().len() == 0
        } else {
            self.features_spec().len() == self.count() * self.width()
        }
    }

    /// The common width of the feature rows seen so far.
    pub open spec fn width(&self) -> int {
        if self.count() == 0 {
            0
        } else {
            self.features_spec().len() as int / self.count() as int
        }
    }

    /// Push a new data point into the builder. Every point after the first
    /// must bring exactly as many features as the first one did.
    pub fn push(&mut self, inst: Instance<T>)
        requires
            old(self).wf(),
            old(self).count() < usize::MAX,
            old(self).count() > 0 ==> inst.features@.len() == old(self).width(),
            old(self).features_spec().len() + inst.features@.len() <= usize::MAX,
        ensures
            final(self).wf(),
            final(self).count() == old(self).count() + 1,
            final(self).labels_spec() == old(self).labels_spec().push(inst.label),
            final(self).features_spec() == old(self).features_spec() + inst.features@,
            final(self).count() > 0,
            old(self).count() > 0 ==> final(self).width() == old(self).width(),
            old(self).count() == 0 ==> final(self).width() == inst.features@.len(),
    {
        let ghost old_len = self.features@.len();
        let ghost old_n = self.n_instances;
        if self.n_instances != 0 {
            let features_len = self.features.len() / self.n_instances;
            proof {
                vstd::arithmetic::div_mod::lemma_div_multiples_vanish(
                    inst.features@.len() as int,
                    old_n as int,
                );
            }
            assert(features_len == inst.features@.len());
        }
        self.n_instances += 1;
        let mut fresh = inst.features;
        self.features.append(&mut fresh);
        self.labels.push(inst.label);
        proof {
            let n = old_n as int;
            let w = inst.features@.len() as int;
            vstd::arithmetic::div_mod::lemma_div_multiples_vanish(w, n + 1);
            assert((n + 1) * w == n * w + w) by (nonlinear_arith);
        }
    }
}

impl<T> Default for KNNBuilder<T> {
    /// A builder holding no data points.
    fn default() -> (r: Self)
        ensures
            r.wf(),
            r.count() == 0,
            r.labels_spec().len() == 0,
            r.features_spec().len() == 0,
    {
        KNNBuilder { features: Vec::new(), labels: Vec::new(), n_instances: 0 }
    }
}

/// A K Nearest Neighbor classifier.
pub struct KNN<T> {
    labels: Vec<usize>,
    features: Array<Ix2, T>,
}

impl<T: Scalar> KNN<T> {
    /// The training labels, one per row of the feature matrix.
    pub closed spec fn labels_spec(&self) -> Seq<usize> {
        self.labels@
    }

    /// The training points, one row each.
    pub closed spec fn features_spec(&self) -> Array<Ix2, T> {
        self.features
    }

    /// The number of training points.
    pub open spec fn rows(&self) -> int {
        self.features_spec().shape_dims()[0] as int
    }

    /// The number of features per training point.
    pub open spec fn cols(&self) -> int {
        self.features_spec().shape_dims()[1] as int
    }

    /// A well-formed feature matrix with one label per row.
    pub open spec fn wf(&self) -> bool {
        &&& self.features_spec().wf()
        &&& self.features_spec().shape_dims().len() == 2
        &&& self.labels_spec().len() == self.rows()
    }

    /// The distance from the query `q` to each training row.
    pub open spec fn distances(&self, q: Seq<T>) -> Seq<T> {
        Seq::new(self.rows() as nat, |i: int| euclid_seq(arr_row(&self.features_spec(), i), q))
    }

    /// Builds the classifier from the collected points: one matrix row per
    /// point, in arrival order.
    pub fn from_builder(builder: KNNBuilder<T>) -> (r: Self)
        requires
            builder.wf(),
            builder.count() > 0,
            builder.width() > 0,
        ensures
            r.wf(),
            r.labels_spec() == builder.labels_spec(),
            r.rows() == builder.count(),
            r.cols() == builder.width(),
            r.features_spec().buf() == builder.features_spec(),
    {
        let ghost b = builder;
        let KNNBuilder { labels, features, n_instances } = builder;
        let features_len = features.len() / n_instances;
        proof {
            vstd::std_specs::vec::axiom_spec_len(&features);
            vstd::arithmetic::div_mod::lemma_div_multiples_vanish(b.width(), n_instances as int);
        }
        let shape: Ix2 = [n_instances, features_len];
        proof {
            assert(shape.dims() =~= seq![n_instances, features_len]);
            lemma_product_rank2(shape.dims());
        }
        let matrix = Array::from_vec(shape, features);
        proof {
            matrix.lemma_rank();
        }
        KNN { labels, features: matrix }
    }

    /// Classify a data point.
    ///
    /// The feature vector and the number of nearest neighbors to use are
    /// specified as arguments. The predicted class is the most frequent
    /// label among the `k` nearest training points — nearest by distance,
    /// the earlier point winning a distance tie — with the smallest label
    /// winning a frequency tie.
    pub fn classify(&self, features: &[T], k: usize) -> (r: usize)
        requires
            self.wf(),
            k > 0,
            features@.len() == self.cols(),
        ensures
            exists|sel: Seq<int>|
                #[trigger] is_selection(self.distances(features@), k as nat, sel)
                    && is_vote_winner(self.labels_spec(), sel, r),
    {
        proof {
            self.features.lemma_rank();
        }
        let shape_q: Ix1 = [features.len()];
        proof {
            assert(shape_q.dims() =~= seq![features.len()]);
            lemma_product_rank1(shape_q.dims());
            assert(self.features_spec().shape_dims()[1] >= 1);
        }
        let query: Array<Ix1, T> = Array::from_vec(shape_q, vstd::slice::slice_to_vec(features));
        let dists = self.features.euclidean_distance(&query);
        proof {
            dists.lemma_rank();
            lemma_product_rank1(dists.shape_dims());
        }
        let dslice = dists.as_slice();
        let ghost d = self.distances(features@);
        proof {
            assert(d =~= dists.buf());
        }
        let n = self.labels.len();

        // Keep the k nearest points seen so far; once full, replace the
        // farthest kept point whenever a strictly nearer one arrives.
        let mut kept: Vec<(usize, T)> = Vec::new();
        let mut i: usize = 0;
        while i < n
            invariant
                0 <= i <= n,
                n == d.len(),
                k > 0,
                dslice@ == d,
                kept@.len() == if k <= i {
                    k as int
                } else {
                    i as int
                },
                kept@.len() < k ==> forall|p: int|
                    0 <= p < kept@.len() ==> (#[trigger] kept@[p]).0 == p,
                forall|p: int| 0 <= p < kept@.len() ==> (#[trigger] kept@[p]).0 < i,
                forall|p: int|
                    0 <= p < kept@.len() ==> (#[trigger] kept@[p]).1 == d[kept@[p].0 as int],
                forall|p: int, q: int|
                    0 <= p < q < kept@.len() ==> (#[trigger] kept@[p]).0 != (#[trigger] kept@[q]).0,
                forall|p: int, j: int|
                    #![trigger kept@[p], kept_has(kept@, j)]
                    0 <= p < kept@.len() && 0 <= j < i && !kept_has(kept@, j) ==> nearer(
                        d,
                        kept@[p].0 as int,
                        j,
                    ),
            decreases n - i,
        {
            let dist_i = dslice[i];
            if kept.len() < k {
                kept.push((i, dist_i));
                proof {
                    assert forall|p: int, j: int|
                        #![trigger kept@[p], kept_has(kept@, j)]
                        0 <= p < kept@.len() && 0 <= j < i + 1 && !kept_has(kept@, j) implies nearer(
                        d,
                        kept@[p].0 as int,
                        j,
                    ) by {
                        assert(kept@[j].0 == j);
                        assert(kept_has(kept@, j));
                    }
                }
            } else {
                // Find the farthest kept point.
                let mut m: usize = 0;
                let mut q: usize = 1;
                while q < kept.len()
                    invariant
                        0 <= m < q <= kept@.len(),
                        kept@.len() == k,
                        dslice@ == d,
                        forall|p: int|
                            0 <= p < kept@.len() ==> (#[trigger] kept@[p]).1 == d[kept@[p].0 as int],
                        forall|p: int, p2: int|
                            0 <= p < p2 < kept@.len() ==> (#[trigger] kept@[p]).0 != (
                            #[trigger] kept@[p2]).0,
                        forall|q2: int|
                            0 <= q2 < q ==> q2 == m || nearer(
                                d,
                                (#[trigger] kept@[q2]).0 as int,
                                kept@[m as int].0 as int,
                            ),
                    decreases kept@.len() - q,
                {
                    let (im, dm) = kept[m];
                    let (iq, dq) = kept[q];
                    let m_le_q = dm.le(dq);
                    let q_le_m = dq.le(dm);
                    proof {
                        lemma_nearer_connects(d, im as int, iq as int);
                    }
                    if !q_le_m || (m_le_q && q_le_m && im < iq) {
                        // The point at q is farther than the one at m.
                        proof {
                            assert(nearer(d, im as int, iq as int));
                            assert forall|q2: int|
                                0 <= q2 < q + 1 implies q2 == q as int || nearer(
                                d,
                                (#[trigger] kept@[q2]).0 as int,
                                kept@[q as int].0 as int,
                            ) by {
                                if q2 < q && q2 != m {
                                    lemma_nearer_trans(
                                        d,
                                        kept@[q2].0 as int,
                                        im as int,
                                        iq as int,
                                    );
                                }
                            }
                        }
                        m = q;
                    } else {
                        proof {
                            assert(nearer(d, iq as int, im as int));
                        }
                    }
                    q += 1;
                }
                let (im, dm) = kept[m];
                let m_le_i = dm.le(dist_i);
                proof {
                    assert(nearer(d, im as int, i as int) || !m_le_i) by {
                        if m_le_i {
                            T::le_total(d[i as int], d[im as int]);
                        }
                    }
                }
                if !m_le_i {
                    // The new point is strictly nearer than the farthest
                    // kept one; it takes that slot.
                    let ghost kept0 = kept@;
                    kept[m] = (i, dist_i);
                    proof {
                        assert(nearer(d, i as int, im as int));
                        assert forall|p: int, j: int|
                            #![trigger kept@[p], kept_has(kept@, j)]
                            0 <= p < kept@.len() && 0 <= j < i + 1 && !kept_has(kept@, j) implies
                            nearer(d, kept@[p].0 as int, j) by {
                            assert(0 <= m < kept0.len());
                            assert(kept0[m as int].0 == im);
                            assert(kept@[m as int].0 == i);
                            assert(!kept_has(kept0, j) || j == im as int) by {
                                if kept_has(kept0, j) && j != im as int {
                                    let p0 = choose|p0: int|
                                        0 <= p0 < kept0.len() && #[trigger] kept0[p0].0 == j;
                                    assert(kept@[p0] == kept0[p0]);
                                    assert(kept@[p0].0 == j);
                                }
                            }
                            if p == m as int {
                                if j == im as int {
                                } else if j < i {
                                    lemma_nearer_trans(d, i as int, im as int, j);
                                }
                            } else {
                                assert(kept@[p] == kept0[p]);
                                assert(nearer(d, kept0[p].0 as int, im as int));
                                if j == im as int {
                                } else if j < i {
                                    lemma_nearer_trans(d, kept0[p].0 as int, im as int, j);
                                }
                            }
                        }
                    }
                } else {
                    proof {
                        assert(nearer(d, im as int, i as int));
                        assert forall|p: int, j: int|
                            #![trigger kept@[p], kept_has(kept@, j)]
                            0 <= p < kept@.len() && 0 <= j < i + 1 && !kept_has(kept@, j) implies
                            nearer(d, kept@[p].0 as int, j) by {
                            if j == i as int {
                                if p != m as int {
                                    lemma_nearer_trans(
                                        d,
                                        kept@[p].0 as int,
                                        im as int,
                                        i as int,
                                    );
                                }
                            }
                        }
                    }
                }
            }
            i += 1;
        }

        let ghost sel = kept@.map_values(|pr: (usize, T)| pr.0 as int);
        proof {
            assert forall|p: int, j: int|
                #![trigger sel[p], sel.contains(j)]
                0 <= p < sel.len() && 0 <= j < d.len() && !sel.contains(j) implies nearer(
                d,
                sel[p],
                j,
            ) by {
                assert(!kept_has(kept@, j)) by {
                    if kept_has(kept@, j) {
                        let p0 = choose|p0: int|
                            0 <= p0 < kept@.len() && #[trigger] kept@[p0].0 == j;
                        assert(sel[p0] == j);
                    }
                }
                assert(kept@[p].0 as int == sel[p]);
            }
            assert(is_selection(d, k as nat, sel));
        }

        // Vote: the most frequent label among the kept points, the
        // smallest label winning a tie.
        let mut best_label = self.labels[kept[0].0];
        let mut best_count = count_label(&kept, &self.labels, best_label);
        proof {
            assert(sel[0] == kept@[0].0 as int);
            lemma_label_count_mem(self.labels_spec(), sel, 0);
        }
        let mut p: usize = 1;
        while p < kept.len()
            invariant
                1 <= p <= kept@.len(),
                sel == kept@.map_values(|pr: (usize, T)| pr.0 as int),
                forall|q: int|
                    0 <= q < kept@.len() ==> (#[trigger] kept@[q]).0 < self.labels_spec().len(),
                best_count == label_count(self.labels_spec(), sel, best_label),
                best_count >= 1,
                forall|q: int|
                    0 <= q < p ==> label_count(
                        self.labels_spec(),
                        sel,
                        self.labels_spec()[#[trigger] sel[q]],
                    ) <= best_count,
                forall|q: int|
                    0 <= q < p && label_count(
                        self.labels_spec(),
                        sel,
                        self.labels_spec()[#[trigger] sel[q]],
                    ) == best_count ==> best_label <= self.labels_spec()[sel[q]],
            decreases kept@.len() - p,
        {
            let lab = self.labels[kept[p].0];
            let cnt = count_label(&kept, &self.labels, lab);
            proof {
                assert(sel[p as int] == kept@[p as int].0 as int);
                lemma_label_count_mem(self.labels_spec(), sel, p as int);
            }
            if cnt > best_count || (cnt == best_count && lab < best_label) {
                best_label = lab;
                best_count = cnt;
            }
            p += 1;
        }
        proof {
            assert forall|lab: usize| #[trigger]
                label_count(self.labels_spec(), sel, lab) <= best_count by {
                if label_count(self.labels_spec(), sel, lab) >= 1 {
                    lemma_label_count_pos(self.labels_spec(), sel, lab);
                }
            }
            assert forall|lab: usize| #[trigger]
                label_count(self.labels_spec(), sel, lab) == best_count implies best_label
                <= lab by {
                lemma_label_count_pos(self.labels_spec(), sel, lab);
            }
            assert(is_vote_winner(self.labels_spec(), sel, best_label));
        }
        best_label
    }
}

} // verus!
