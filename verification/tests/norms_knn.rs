use dense_linalg::array::Array;
use dense_linalg::evaluation::Evaluator;
use dense_linalg::instance::Instance;
use dense_linalg::knn::{KNNBuilder, KNN};
use dense_linalg::norms::{EuclideanDistance, Norm, Norms};
use dense_linalg::scalar::Scalar;

#[derive(Clone, Copy, Debug, PartialEq)]
struct Fl(f32);

impl Scalar for Fl {
    fn zero_spec() -> Fl {
        Fl(0.0)
    }

    fn add_spec(self, other: Fl) -> Fl {
        Fl(self.0 + other.0)
    }

    fn sub_spec(self, other: Fl) -> Fl {
        Fl(self.0 - other.0)
    }

    fn mul_spec(self, other: Fl) -> Fl {
        Fl(self.0 * other.0)
    }

    fn abs_spec(self) -> Fl {
        Fl(self.0.abs())
    }

    fn sqrt_spec(self) -> Fl {
        Fl(self.0.sqrt())
    }

    fn le_spec(self, other: Fl) -> bool {
        self.0 <= other.0
    }

    fn le_total(_a: Fl, _b: Fl) {
    }

    fn le_transitive(_a: Fl, _b: Fl, _c: Fl) {
    }

    fn zero() -> Fl {
        Fl(0.0)
    }

    fn add(self, other: Fl) -> Fl {
        Fl(self.0 + other.0)
    }

    fn sub(self, other: Fl) -> Fl {
        Fl(self.0 - other.0)
    }

    fn mul(self, other: Fl) -> Fl {
        Fl(self.0 * other.0)
    }

    fn abs(self) -> Fl {
        Fl(self.0.abs())
    }

    fn sqrt(self) -> Fl {
        Fl(self.0.sqrt())
    }

    fn le(self, other: Fl) -> bool {
        self.0 <= other.0
    }
}

fn fl(values: &[f32]) -> Vec<Fl> {
    values.iter().map(|&v| Fl(v)).collect()
}

fn close(a: Fl, b: f32, eps: f32) -> bool {
    (a.0 - b).abs() <= eps
}

#[test]
fn l1_norm_test() {
    let a = Array::from_vec([4], fl(&[0.0, -1.0, 2.0, -3.0]));
    assert_eq!(a.norm(Norms::L1), Fl(6.0));
}

#[test]
fn l2_norm_test() {
    let a = Array::from_vec([4], fl(&[0.0, -1.0, 2.0, -3.0]));
    assert!(close(a.norm(Norms::L2), 3.741657, 1e-6));
}

#[test]
fn infinity_norm_test() {
    let a = Array::from_vec([4], fl(&[1.0, -4.0, 3.0, 1.5]));
    assert_eq!(a.norm(Norms::Infinity), Fl(4.0));
}

#[test]
fn matrix_norm_test() {
    let m = Array::from_vec([2, 2], fl(&[1.0, -2.0, 3.0, -4.0]));
    assert_eq!(m.norm(Norms::L1), Fl(10.0));
    assert_eq!(m.norm(Norms::Infinity), Fl(4.0));
    assert!(close(m.norm(Norms::L2), 30.0f32.sqrt(), 1e-6));
}

#[test]
fn euclidean_distance_test() {
    let a = Array::from_vec([4], fl(&[1.0, 0.0, 2.0, -1.0]));
    let b = Array::from_vec([4], fl(&[1.0, 1.0, 1.0, -3.0]));
    assert!(close(a.euclidean_distance(&b), 2.449490, 1e-6));

    let m = Array::from_vec([2, 4], fl(&[1.0, 0.0, 2.0, -1.0, -2.0, 3.0, 1.5, 6.0]));
    let q = Array::from_vec([4], fl(&[1.0, 1.0, 1.0, -3.0]));
    let dists = m.euclidean_distance(&q);
    assert!(close(dists.get([0]), 2.449490, 1e-6));
    assert!(close(dists.get([1]), 9.708244, 1e-6));
}

#[test]
fn knn_classify_test() {
    let mut builder = KNNBuilder::default();
    builder.push(Instance { label: 1, features: fl(&[1.0, 1.0]) });
    builder.push(Instance { label: 1, features: fl(&[1.5, 1.0]) });
    builder.push(Instance { label: 0, features: fl(&[-1.0, -1.0]) });
    builder.push(Instance { label: 0, features: fl(&[-1.5, -1.0]) });
    builder.push(Instance { label: 0, features: fl(&[-1.0, -1.5]) });
    let model = KNN::from_builder(builder);

    assert_eq!(model.classify(&fl(&[1.2, 1.0]), 1), 1);
    assert_eq!(model.classify(&fl(&[-1.2, -1.0]), 3), 0);
    // With all five voting, label 0 has the majority.
    assert_eq!(model.classify(&fl(&[0.0, 0.0]), 5), 0);
}

#[test]
fn knn_tie_breaks_test() {
    // Two training points at the same distance from the query: the
    // first-seen one fills the single slot.
    let mut builder = KNNBuilder::default();
    builder.push(Instance { label: 7, features: fl(&[1.0, 0.0]) });
    builder.push(Instance { label: 3, features: fl(&[-1.0, 0.0]) });
    let model = KNN::from_builder(builder);
    assert_eq!(model.classify(&fl(&[0.0, 0.0]), 1), 7);

    // A frequency tie goes to the smallest label.
    let mut builder = KNNBuilder::default();
    builder.push(Instance { label: 9, features: fl(&[2.0, 0.0]) });
    builder.push(Instance { label: 4, features: fl(&[0.0, 2.0]) });
    let model = KNN::from_builder(builder);
    assert_eq!(model.classify(&fl(&[1.0, 1.0]), 2), 4);
}

#[test]
fn evaluator_test() {
    let mut eval = Evaluator::default();
    eval.count(1, 1);
    eval.count(0, 1);
    eval.count(2, 2);
    eval.count(3, 0);
    assert_eq!(eval.n_instances(), 4);
    assert_eq!(eval.n_correct(), 2);
}
