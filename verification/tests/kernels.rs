use dense_linalg::dot::{dot, dot_unrolled, try_dot};
use dense_linalg::dot_simd::{dot_f32x4, dot_f32x8};
use dense_linalg::mul::{mul, mul_inplace, mul_slow};
use dense_linalg::scalar::Scalar;

#[derive(Clone, Copy, Debug, PartialEq)]
struct Fl(f32);

impl Scalar for Fl {
    fn zero_spec() -> Fl {
        Fl(0.0)
    }

    fn add_spec(self, other: Fl) -> Fl {
        Fl(self.0 + other.0)
    }

    fn sub_spec(self, other: Fl) -> Fl {
        Fl(self.0 - other.0)
    }

    fn mul_spec(self, other: Fl) -> Fl {
        Fl(self.0 * other.0)
    }

    fn abs_spec(self) -> Fl {
        Fl(self.0.abs())
    }

    fn sqrt_spec(self) -> Fl {
        Fl(self.0.sqrt())
    }

    fn le_spec(self, other: Fl) -> bool {
        self.0 <= other.0
    }

    fn le_total(_a: Fl, _b: Fl) {
    }

    fn le_transitive(_a: Fl, _b: Fl, _c: Fl) {
    }

    fn zero() -> Fl {
        Fl(0.0)
    }

    fn add(self, other: Fl) -> Fl {
        Fl(self.0 + other.0)
    }

    fn sub(self, other: Fl) -> Fl {
        Fl(self.0 - other.0)
    }

    fn mul(self, other: Fl) -> Fl {
        Fl(self.0 * other.0)
    }

    fn abs(self) -> Fl {
        Fl(self.0.abs())
    }

    fn sqrt(self) -> Fl {
        Fl(self.0.sqrt())
    }

    fn le(self, other: Fl) -> bool {
        self.0 <= other.0
    }
}

fn fl(values: &[f32]) -> Vec<Fl> {
    values.iter().map(|&v| Fl(v)).collect()
}

fn approx_eq(a: f32, b: f32, eps: f32) -> bool {
    (a - b).abs() < eps
}

#[test]
fn dot_simple_test() {
    let u = fl(&[1.0, -2.0, -3.0]);
    let v = fl(&[2.0, 4.0, -2.0]);
    let w = fl(&[-1.0, 3.0, 2.5]);

    assert!(approx_eq(dot(&u, &v).0, 0.0, 1e-6));
    assert!(approx_eq(dot(&u, &w).0, -14.5, 1e-6));
    assert!(approx_eq(dot(&v, &w).0, 5.0, 1e-6));
}

#[test]
fn dot_tiers_fixed_test() {
    let u = fl(&[1.0, -2.0, -3.0, 4.0, 0.5, -0.25, 8.0, 1.5, 2.0, -1.0]);
    let v = fl(&[2.0, 4.0, -2.0, 1.0, -3.5, 4.0, 0.125, -2.5, 1.0, 6.0]);
    let baseline = dot(&u, &v).0;
    assert!(approx_eq(dot_unrolled(&u, &v).0, baseline, 1e-6));
    assert!(approx_eq(dot_f32x4(&u, &v).0, baseline, 1e-6));
    assert!(approx_eq(dot_f32x8(&u, &v).0, baseline, 1e-6));
}

#[test]
fn dot_tiers_fuzz_test() {
    for _ in 0..50 {
        let len = rand::random::<u32>() as usize % 64;
        let u: Vec<Fl> = (0..len)
            .map(|_| Fl(rand::random::<f32>() * 2.0 - 1.0))
            .collect();
        let v: Vec<Fl> = (0..len)
            .map(|_| Fl(rand::random::<f32>() * 2.0 - 1.0))
            .collect();
        let baseline = dot(&u, &v).0;
        assert!(approx_eq(dot_unrolled(&u, &v).0, baseline, 1e-1));
        assert!(approx_eq(dot_f32x4(&u, &v).0, baseline, 1e-1));
        assert!(approx_eq(dot_f32x8(&u, &v).0, baseline, 1e-1));
        // The unrolled tier and the eight-lane tier share one summation
        // tree, so they agree exactly, not just within tolerance.
        assert_eq!(dot_unrolled(&u, &v), dot_f32x8(&u, &v));
    }
}

#[test]
fn try_dot_mismatch_test() {
    let u = fl(&[1.0, 2.0]);
    let v = fl(&[1.0, 2.0, 3.0]);
    assert!(try_dot(&u, &v).is_none());
    let w = fl(&[3.0, 4.0]);
    assert_eq!(try_dot(&u, &w), Some(Fl(11.0)));
}

#[test]
fn mul_mul_test() {
    let u = fl(&[1.0, -2.0, -3.0]);
    let v = fl(&[2.0, 4.0, -2.0]);

    assert_eq!(mul(&u, &v), fl(&[2.0, -8.0, 6.0]));
}

#[test]
fn mul_slow_test() {
    let u = fl(&[1.0, -2.0, -3.0]);
    let v = fl(&[2.0, 4.0, -2.0]);

    assert_eq!(mul_slow(&u, &v), fl(&[2.0, -8.0, 6.0]));
}

#[test]
fn mul_inplace_test() {
    let mut u = fl(&[1.0, -2.0, -3.0]);
    let v = fl(&[2.0, 4.0, -2.0]);

    mul_inplace(&mut u, &v);

    assert_eq!(u, fl(&[2.0, -8.0, 6.0]));
}
