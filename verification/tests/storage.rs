use dense_linalg::array::{Array, Dot};
use dense_linalg::dims::Dim;
use dense_linalg::matrix::{l2_norm_f32x4, l2_norm_f32x8, l2_norm_unvectorized, Matrix, Order};
use dense_linalg::scalar::Scalar;

#[derive(Clone, Copy, Debug, PartialEq)]
struct Fl(f32);

impl Scalar for Fl {
    fn zero_spec() -> Fl {
        Fl(0.0)
    }

    fn add_spec(self, other: Fl) -> Fl {
        Fl(self.0 + other.0)
    }

    fn sub_spec(self, other: Fl) -> Fl {
        Fl(self.0 - other.0)
    }

    fn mul_spec(self, other: Fl) -> Fl {
        Fl(self.0 * other.0)
    }

    fn abs_spec(self) -> Fl {
        Fl(self.0.abs())
    }

    fn sqrt_spec(self) -> Fl {
        Fl(self.0.sqrt())
    }

    fn le_spec(self, other: Fl) -> bool {
        self.0 <= other.0
    }

    fn le_total(_a: Fl, _b: Fl) {
    }

    fn le_transitive(_a: Fl, _b: Fl, _c: Fl) {
    }

    fn zero() -> Fl {
        Fl(0.0)
    }

    fn add(self, other: Fl) -> Fl {
        Fl(self.0 + other.0)
    }

    fn sub(self, other: Fl) -> Fl {
        Fl(self.0 - other.0)
    }

    fn mul(self, other: Fl) -> Fl {
        Fl(self.0 * other.0)
    }

    fn abs(self) -> Fl {
        Fl(self.0.abs())
    }

    fn sqrt(self) -> Fl {
        Fl(self.0.sqrt())
    }

    fn le(self, other: Fl) -> bool {
        self.0 <= other.0
    }
}

fn fl(values: &[f32]) -> Vec<Fl> {
    values.iter().map(|&v| Fl(v)).collect()
}

fn close(a: Fl, b: f32, eps: f32) -> bool {
    (a.0 - b).abs() <= eps
}

fn all_close(a: &[Fl], b: &[f32], eps: f32) -> bool {
    a.len() == b.len() && a.iter().zip(b).all(|(&av, &bv)| close(av, bv, eps))
}

#[test]
pub fn get_order0_test() {
    let a = Array::from_vec([], vec![Fl(42.0)]);
    assert_eq!(a.get([]), Fl(42.0));
}

#[test]
pub fn get_order1_test() {
    let a = Array::from_vec([6], (1..=6).map(|v| Fl(v as f32)).collect());
    assert_eq!(a.get([0]), Fl(1.0));
    assert_eq!(a.get([1]), Fl(2.0));
    assert_eq!(a.get([2]), Fl(3.0));
    assert_eq!(a.get([3]), Fl(4.0));
    assert_eq!(a.get([4]), Fl(5.0));
    assert_eq!(a.get([5]), Fl(6.0));
}

#[test]
pub fn get_order2_test() {
    let rm = Array::from_vec([3, 2], (1..=6).map(|v| Fl(v as f32)).collect());
    assert_eq!(rm.get([0, 0]), Fl(1.0));
    assert_eq!(rm.get([0, 1]), Fl(2.0));
    assert_eq!(rm.get([1, 0]), Fl(3.0));
    assert_eq!(rm.get([1, 1]), Fl(4.0));
    assert_eq!(rm.get([2, 0]), Fl(5.0));
    assert_eq!(rm.get([2, 1]), Fl(6.0))
}

#[test]
pub fn get_order3_test() {
    let rm = Array::from_vec([2, 2, 2], (1..=8).map(|v| Fl(v as f32)).collect());
    assert_eq!(rm.get([0, 0, 0]), Fl(1.0));
    assert_eq!(rm.get([0, 0, 1]), Fl(2.0));
    assert_eq!(rm.get([0, 1, 0]), Fl(3.0));
    assert_eq!(rm.get([0, 1, 1]), Fl(4.0));
    assert_eq!(rm.get([1, 0, 0]), Fl(5.0));
    assert_eq!(rm.get([1, 0, 1]), Fl(6.0));
    assert_eq!(rm.get([1, 1, 0]), Fl(7.0));
    assert_eq!(rm.get([1, 1, 1]), Fl(8.0));
}

#[test]
pub fn array_mul_test() {
    let u = Array::from_vec([6], (1..=6).map(|v| Fl(v as f32)).collect());
    let v = Array::from_vec([6], (1..=6).map(|v| Fl(v as f32)).collect());
    let p = u.mul(&v);

    assert!(all_close(
        p.as_slice(),
        &[1.0, 4.0, 9.0, 16.0, 25.0, 36.0],
        1e-6
    ));
}

#[test]
pub fn dot_rank_1_test() {
    let a = Array::from_vec([5], (1..=5).map(|v| Fl(v as f32)).collect());
    let b = Array::from_vec([5], (1..=5).map(|v| Fl(v as f32)).collect());

    assert!(all_close(a.dot(&b).as_slice(), &[55.0], 1e-6));
}

#[test]
pub fn dot_rank_2_test() {
    let a = Array::from_vec([3, 3], (1..=9).map(|v| Fl(v as f32)).collect());
    let b = Array::from_vec([3, 2], (1..=6).map(|v| Fl(v as f32)).collect());

    let result = a.dot(&b);

    assert!(all_close(
        result.as_slice(),
        &[22.0, 28.0, 49.0, 64.0, 76.0, 100.0],
        1e-6
    ));
}

#[test]
pub fn array_set_order_test() {
    let mut rm = Array::zeros([3, 2]);
    rm.set([0, 0], Fl(1.0));
    rm.set([0, 1], Fl(2.0));
    rm.set([1, 0], Fl(3.0));
    rm.set([1, 1], Fl(4.0));
    rm.set([2, 0], Fl(5.0));
    rm.set([2, 1], Fl(6.0));
    assert!(all_close(
        rm.as_slice(),
        &[1.0, 2.0, 3.0, 4.0, 5.0, 6.0],
        1e-6
    ));
}

#[test]
fn set_get_round_trip_test() {
    let mut a = Array::zeros([2, 3, 2]);
    a.set([1, 2, 0], Fl(7.5));
    a.set([0, 1, 1], Fl(-3.0));
    assert_eq!(a.get([1, 2, 0]), Fl(7.5));
    assert_eq!(a.get([0, 1, 1]), Fl(-3.0));
    assert_eq!(a.get([0, 0, 0]), Fl(0.0));
    assert_eq!(a.get([1, 2, 1]), Fl(0.0));
}

#[test]
pub fn l2_norm_unvectorized_test() {
    let v = fl(&[1.0, -2.0, 3.0, -4.0, 5.0, -6.0, 7.0, -8.0, 9.0]);
    assert!(close(l2_norm_unvectorized(&v), 16.881943, 1e-6));
}

#[test]
fn frobenius_norm_test() {
    for _ in 0..50 {
        let len = 1 + rand::random::<u32>() as usize % 40;
        let u: Vec<Fl> = (0..len)
            .map(|_| Fl(rand::random::<f32>() * 8.0 - 4.0))
            .collect();
        let m = Matrix::from_vec(Order::ColumnMajor, u.clone(), 1, len);
        assert!(close(
            m.frobenius_norm(),
            l2_norm_unvectorized(m.as_slice()).0,
            1e-2
        ));
        assert!(close(
            m.frobenius_norm(),
            u.iter().map(|v| v.0 * v.0).sum::<f32>().sqrt(),
            1e-2
        ));
    }
}

#[test]
pub fn get_order_test() {
    let rm = Matrix::from_vec(
        Order::RowMajor,
        (1..=6).map(|v| Fl(v as f32)).collect(),
        3,
        2,
    );
    assert!(close(rm.get(0, 0), 1.0, 0.0));
    assert!(close(rm.get(0, 1), 2.0, 0.0));
    assert!(close(rm.get(1, 0), 3.0, 0.0));
    assert!(close(rm.get(1, 1), 4.0, 0.0));
    assert!(close(rm.get(2, 0), 5.0, 0.0));
    assert!(close(rm.get(2, 1), 6.0, 0.0));

    let cm = Matrix::from_vec(
        Order::ColumnMajor,
        (1..=6).map(|v| Fl(v as f32)).collect(),
        3,
        2,
    );
    assert!(close(cm.get(0, 0), 1.0, 0.0));
    assert!(close(cm.get(0, 1), 4.0, 0.0));
    assert!(close(cm.get(1, 0), 2.0, 0.0));
    assert!(close(cm.get(1, 1), 5.0, 0.0));
    assert!(close(cm.get(2, 0), 3.0, 0.0));
    assert!(close(cm.get(2, 1), 6.0, 0.0));
}

#[test]
pub fn matmul_test() {
    let a = Matrix::from_vec(
        Order::RowMajor,
        (1..=9).map(|v| Fl(v as f32)).collect(),
        3,
        3,
    );
    let b = Matrix::from_vec(
        Order::RowMajor,
        (1..=6).map(|v| Fl(v as f32)).collect(),
        3,
        2,
    );

    let result = a.matmul(&b);

    assert!(all_close(
        result.as_slice(),
        &[22.0, 28.0, 49.0, 64.0, 76.0, 100.0],
        1e-6
    ));
}

#[test]
fn matmul_identity_test() {
    let a = Matrix::from_vec(
        Order::RowMajor,
        fl(&[0.5, -2.25, 7.0, 3.5, 1.25, -8.0, 42.0, 0.0, 9.5]),
        3,
        3,
    );
    let eye = Matrix::from_vec(
        Order::RowMajor,
        fl(&[1.0, 0.0, 0.0, 0.0, 1.0, 0.0, 0.0, 0.0, 1.0]),
        3,
        3,
    );
    let product = a.matmul(&eye);
    assert!(all_close(
        product.as_slice(),
        &[0.5, -2.25, 7.0, 3.5, 1.25, -8.0, 42.0, 0.0, 9.5],
        1e-6
    ));
}

#[test]
pub fn matrix_set_order_test() {
    let mut rm = Matrix::zeros(Order::RowMajor, 3, 2);
    rm.set(0, 0, Fl(1.0));
    rm.set(0, 1, Fl(2.0));
    rm.set(1, 0, Fl(3.0));
    rm.set(1, 1, Fl(4.0));
    rm.set(2, 0, Fl(5.0));
    rm.set(2, 1, Fl(6.0));
    assert!(all_close(
        rm.as_slice(),
        &[1.0, 2.0, 3.0, 4.0, 5.0, 6.0],
        1e-6
    ));

    let mut cm = Matrix::zeros(Order::ColumnMajor, 3, 2);
    cm.set(0, 0, Fl(1.0));
    cm.set(0, 1, Fl(2.0));
    cm.set(1, 0, Fl(3.0));
    cm.set(1, 1, Fl(4.0));
    cm.set(2, 0, Fl(5.0));
    cm.set(2, 1, Fl(6.0));
    assert!(all_close(
        cm.as_slice(),
        &[1.0, 3.0, 5.0, 2.0, 4.0, 6.0],
        1e-6
    ));
}

#[test]
fn try_from_vec_rejects_test() {
    assert!(Array::<[usize; 1], Fl>::try_from_vec([4], fl(&[1.0, 2.0, 3.0])).is_none());
    assert!(Array::<[usize; 2], Fl>::try_from_vec([0, 3], Vec::new()).is_none());
    assert!(Array::<[usize; 2], Fl>::try_from_vec([2, 2], fl(&[1.0, 2.0, 3.0, 4.0])).is_some());
    assert!(Matrix::try_from_vec(Order::RowMajor, fl(&[1.0, 2.0]), 2, 2).is_none());
    assert!(Matrix::try_from_vec(Order::RowMajor, fl(&[1.0, 2.0]), 0, 2).is_none());
    assert!(Matrix::try_from_vec(Order::RowMajor, fl(&[1.0, 2.0]), 1, 2).is_some());
}

#[test]
fn try_matmul_mismatch_test() {
    let a = Matrix::from_vec(Order::RowMajor, fl(&[1.0, 2.0, 3.0, 4.0]), 2, 2);
    let b = Matrix::from_vec(Order::RowMajor, fl(&[1.0, 2.0, 3.0]), 3, 1);
    assert!(a.try_matmul(&b).is_none());
    let c = Matrix::from_vec(Order::RowMajor, fl(&[1.0, 2.0]), 2, 1);
    let product = a.try_matmul(&c);
    assert!(product.is_some());
    assert!(all_close(product.unwrap().as_slice(), &[5.0, 11.0], 1e-6));
}

#[test]
fn try_mul_mismatch_test() {
    let a = Array::from_vec([2, 2], fl(&[1.0, 2.0, 3.0, 4.0]));
    let b = Array::from_vec([2, 2], fl(&[2.0, 2.0, 2.0, 2.0]));
    let c = Array::from_vec([4, 1], fl(&[1.0, 1.0, 1.0, 1.0]));
    assert!(a.try_mul(&c).is_none());
    let p = a.try_mul(&b);
    assert!(p.is_some());
    assert!(all_close(p.unwrap().as_slice(), &[2.0, 4.0, 6.0, 8.0], 1e-6));
}

#[test]
fn dim_size_test() {
    assert_eq!([3usize, 2].size(), 6);
    assert_eq!([5usize].size(), 5);
    assert_eq!([2usize, 2, 2].size(), 8);
    assert!([3usize, 2].valid_index(&[2, 1]));
    assert!(![3usize, 2].valid_index(&[3, 0]));
    assert!(![3usize, 2].valid_index(&[0, 2]));
    assert_eq!([2usize, 3, 4].as_slice(), &[2, 3, 4]);
}

#[test]
fn l2_norm_lanes_test() {
    let v = fl(&[1.0, -2.0, 3.0, -4.0, 5.0, -6.0, 7.0, -8.0, 9.0]);
    assert!(close(l2_norm_f32x4(&v), 16.881943, 1e-4));
    assert!(close(l2_norm_f32x8(&v), 16.881943, 1e-4));
    assert!(close(l2_norm_f32x4(&[]), 0.0, 0.0));
}

#[test]
fn matrix_order_test() {
    let rm = Matrix::from_vec(Order::RowMajor, fl(&[1.0, 2.0]), 1, 2);
    let cm = Matrix::from_vec(Order::ColumnMajor, fl(&[1.0, 2.0]), 2, 1);
    assert!(matches!(rm.order(), Order::RowMajor));
    assert!(matches!(cm.order(), Order::ColumnMajor));
}
