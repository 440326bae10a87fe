use root_locus::complex::Complex;
use root_locus::polynomials::roots::{Root, RootFinding};
use root_locus::polynomials::Polynomial;
use root_locus::scalar::Scalar;

/// Double-precision scalars for the numeric interface.
#[derive(Clone, Copy, PartialEq, Debug)]
struct F64(f64);

/// Single-precision scalars for the numeric interface.
#[derive(Clone, Copy, PartialEq, Debug)]
struct F32(f32);

// The `sp_` members are the specification-level counterparts of the
// operations; for a machine float they are the operations themselves.
impl Scalar for F64 {
    fn sp_add(self, o: Self) -> Self {
        F64(self.0 + o.0)
    }
    fn sp_sub(self, o: Self) -> Self {
        F64(self.0 - o.0)
    }
    fn sp_mul(self, o: Self) -> Self {
        F64(self.0 * o.0)
    }
    fn sp_div(self, o: Self) -> Self {
        F64(self.0 / o.0)
    }
    fn sp_neg(self) -> Self {
        F64(-self.0)
    }
    fn sp_abs(self) -> Self {
        F64(self.0.abs())
    }
    fn sp_max(self, o: Self) -> Self {
        F64(self.0.max(o.0))
    }
    fn sp_min(self, o: Self) -> Self {
        F64(self.0.min(o.0))
    }
    fn sp_powf(self, e: Self) -> Self {
        F64(self.0.powf(e.0))
    }
    fn sp_cos(self) -> Self {
        F64(self.0.cos())
    }
    fn sp_sin(self) -> Self {
        F64(self.0.sin())
    }
    fn sp_lt(self, o: Self) -> bool {
        self.0 < o.0
    }
    fn sp_is_nan(self) -> bool {
        self.0.is_nan()
    }
    fn sp_is_zero(self) -> bool {
        self.0 == 0.0
    }
    fn sp_sign_positive(self) -> bool {
        self.0.is_sign_positive()
    }
    fn sp_key(self) -> u64 {
        let b = self.0.to_bits();
        if b & (1u64 << 63) != 0 {
            !b
        } else {
            b ^ (1u64 << 63)
        }
    }
    fn sp_zero() -> Self {
        F64(0.0)
    }
    fn sp_one() -> Self {
        F64(1.0)
    }
    fn sp_infinity() -> Self {
        F64(f64::INFINITY)
    }
    fn sp_from_usize(n: usize) -> Self {
        F64(n as f64)
    }
    fn sp_from_ratio(num: i64, den: i64) -> Self {
        F64(num as f64 / den as f64)
    }
    fn add(self, o: Self) -> Self {
        F64(self.0 + o.0)
    }
    fn sub(self, o: Self) -> Self {
        F64(self.0 - o.0)
    }
    fn mul(self, o: Self) -> Self {
        F64(self.0 * o.0)
    }
    fn div(self, o: Self) -> Self {
        F64(self.0 / o.0)
    }
    fn neg(self) -> Self {
        F64(-self.0)
    }
    fn abs(self) -> Self {
        F64(self.0.abs())
    }
    fn max(self, o: Self) -> Self {
        F64(self.0.max(o.0))
    }
    fn min(self, o: Self) -> Self {
        F64(self.0.min(o.0))
    }
    fn powf(self, e: Self) -> Self {
        F64(self.0.powf(e.0))
    }
    fn cos(self) -> Self {
        F64(self.0.cos())
    }
    fn sin(self) -> Self {
        F64(self.0.sin())
    }
    fn lt(self, o: Self) -> bool {
        self.0 < o.0
    }
    fn is_nan(self) -> bool {
        self.0.is_nan()
    }
    fn is_zero(self) -> bool {
        self.0 == 0.0
    }
    fn is_sign_positive(self) -> bool {
        self.0.is_sign_positive()
    }
    fn key(self) -> u64 {
        let b = self.0.to_bits();
        if b & (1u64 << 63) != 0 {
            !b
        } else {
            b ^ (1u64 << 63)
        }
    }
    fn zero() -> Self {
        F64(0.0)
    }
    fn one() -> Self {
        F64(1.0)
    }
    fn infinity() -> Self {
        F64(f64::INFINITY)
    }
    fn from_usize(n: usize) -> Self {
        F64(n as f64)
    }
    fn from_ratio(num: i64, den: i64) -> Self {
        F64(num as f64 / den as f64)
    }
}

// The `sp_` members are the specification-level counterparts of the
// operations; for a machine float they are the operations themselves.
impl Scalar for F32 {
    fn sp_add(self, o: Self) -> Self {
        F32(self.0 + o.0)
    }
    fn sp_sub(self, o: Self) -> Self {
        F32(self.0 - o.0)
    }
    fn sp_mul(self, o: Self) -> Self {
        F32(self.0 * o.0)
    }
    fn sp_div(self, o: Self) -> Self {
        F32(self.0 / o.0)
    }
    fn sp_neg(self) -> Self {
        F32(-self.0)
    }
    fn sp_abs(self) -> Self {
        F32(self.0.abs())
    }
    fn sp_max(self, o: Self) -> Self {
        F32(self.0.max(o.0))
    }
    fn sp_min(self, o: Self) -> Self {
        F32(self.0.min(o.0))
    }
    fn sp_powf(self, e: Self) -> Self {
        F32(self.0.powf(e.0))
    }
    fn sp_cos(self) -> Self {
        F32(self.0.cos())
    }
    fn sp_sin(self) -> Self {
        F32(self.0.sin())
    }
    fn sp_lt(self, o: Self) -> bool {
        self.0 < o.0
    }
    fn sp_is_nan(self) -> bool {
        self.0.is_nan()
    }
    fn sp_is_zero(self) -> bool {
        self.0 == 0.0
    }
    fn sp_sign_positive(self) -> bool {
        self.0.is_sign_positive()
    }
    fn sp_key(self) -> u64 {
        let b = self.0.to_bits();
        let m = if b & (1u32 << 31) != 0 { !b } else { b ^ (1u32 << 31) };
        m as u64
    }
    fn sp_zero() -> Self {
        F32(0.0)
    }
    fn sp_one() -> Self {
        F32(1.0)
    }
    fn sp_infinity() -> Self {
        F32(f32::INFINITY)
    }
    fn sp_from_usize(n: usize) -> Self {
        F32(n as f32)
    }
    fn sp_from_ratio(num: i64, den: i64) -> Self {
        F32(num as f32 / den as f32)
    }
    fn add(self, o: Self) -> Self {
        F32(self.0 + o.0)
    }
    fn sub(self, o: Self) -> Self {
        F32(self.0 - o.0)
    }
    fn mul(self, o: Self) -> Self {
        F32(self.0 * o.0)
    }
    fn div(self, o: Self) -> Self {
        F32(self.0 / o.0)
    }
    fn neg(self) -> Self {
        F32(-self.0)
    }
    fn abs(self) -> Self {
        F32(self.0.abs())
    }
    fn max(self, o: Self) -> Self {
        F32(self.0.max(o.0))
    }
    fn min(self, o: Self) -> Self {
        F32(self.0.min(o.0))
    }
    fn powf(self, e: Self) -> Self {
        F32(self.0.powf(e.0))
    }
    fn cos(self) -> Self {
        F32(self.0.cos())
    }
    fn sin(self) -> Self {
        F32(self.0.sin())
    }
    fn lt(self, o: Self) -> bool {
        self.0 < o.0
    }
    fn is_nan(self) -> bool {
        self.0.is_nan()
    }
    fn is_zero(self) -> bool {
        self.0 == 0.0
    }
    fn is_sign_positive(self) -> bool {
        self.0.is_sign_positive()
    }
    fn key(self) -> u64 {
        let b = self.0.to_bits();
        let m = if b & (1u32 << 31) != 0 { !b } else { b ^ (1u32 << 31) };
        m as u64
    }
    fn zero() -> Self {
        F32(0.0)
    }
    fn one() -> Self {
        F32(1.0)
    }
    fn infinity() -> Self {
        F32(f32::INFINITY)
    }
    fn from_usize(n: usize) -> Self {
        F32(n as f32)
    }
    fn from_ratio(num: i64, den: i64) -> Self {
        F32(num as f32 / den as f32)
    }
}

fn poly64(terms: &[f64]) -> Polynomial<F64> {
    Polynomial::new(terms.iter().map(|&t| F64(t)).collect())
}

fn poly32(terms: &[f32]) -> Polynomial<F32> {
    Polynomial::new(terms.iter().map(|&t| F32(t)).collect())
}

#[test]
fn max_bound() {
    let terms: Vec<F64> = [1.0, 2.0, -8.0, 4.0].iter().map(|&t| F64(t)).collect();
    let roots = [-0.2406f64, 0.6555, 1.5850];

    let max_bound = Polynomial::determine_max_bound(&terms);

    for root in roots {
        assert!(
            root.abs() <= max_bound.0,
            "There are roots larger than the max bound"
        );
    }
}

#[test]
fn bounds() {
    let terms = [1.0, 2.0, -8.0, 4.0];
    let roots = [-0.2406f64, 0.6555, 1.5850];

    let (min, max) = poly64(&terms).determine_roots_bounds();

    for root in roots {
        assert!(
            root.abs() >= min.0,
            "There are roots smaller than the min bound"
        );
        assert!(
            root.abs() <= max.0,
            "There are roots larger than the max bound"
        );
    }
}

#[test]
fn find_roots_from() {
    let terms = [2.0, 0.0, -1.0, 1.0];

    let mut out = vec![Complex::new(F64(0.0), F64(0.0)); 3];

    poly64(&terms).find_roots(&mut out, F64(1e-6));

    let expected = vec![
        Complex::new(F64(1.0), F64(-1.0)),
        Complex::new(F64(1.0), F64(1.0)),
        Complex::new(F64(-1.0), F64(0.0)),
    ];

    out.into_iter().zip(expected).for_each(|(a, b)| {
        assert!(Root(a).abs_diff_eq(&Root(b), F64(1e-6)));
    });
}

#[test]
fn find_roots_1() {
    // 1 x^8 + 16.214523 x^7 + 99.22398 x^6 + 315.04803 x^5 + 580.4285 x^4 +
    // 642.7921 x^3 + 420.23093 x^2 + 148.0922 x^1 + 21.712877 x^0
    let terms = [
        17.459405899048f32,
        99.495834350586,
        400.352294921875,
        723.051147460938,
        746.077880859375,
        429.666961669922,
        131.812713623047,
        19.517898559570,
        1.000000000000,
    ];

    let mut out = vec![Complex::new(F32(0.0), F32(0.0)); 8];

    poly32(&terms).find_roots(&mut out, F32(1e-6));

    assert!(!out.iter().any(|x| x.is_nan()));
}

#[test]
fn find_roots_2() {
    let terms = [
        20.418222f32, 156.24036, 484.42987, 777.31366, 710.4121, 376.51474, 112.86154, 17.351707,
        1.0,
    ];

    let mut out = vec![Complex::new(F32(0.0), F32(0.0)); 8];

    poly32(&terms).find_roots(&mut out, F32(1e-6));

    assert!(!out.iter().any(|x| x.is_nan()));
}

#[test]
fn find_roots_3() {
    let at = [0.0f32, 0.7103154, 2.7176692, 4.3875217, 3.2997167, 1.0];
    let bt = [28.745289f32, 46.750034, 29.540403, 8.675855, 1.0];

    let pa = poly32(&at);
    let pb = poly32(&bt);

    let int = pa.derivative().mul(&pb).sub(pb.derivative().mul(&pa));

    let mut out = vec![Complex::new(F32(0.0), F32(0.0)); int.order()];

    int.find_roots(&mut out, F32(1e-6));

    assert!(!out.iter().any(|x| x.is_nan()));
}

#[test]
fn roots_within_bounds() {
    // Polynomials built from known roots: every true root modulus must
    // lie inside the estimated bounds.
    let cases: Vec<(f64, Vec<f64>)> = vec![
        (1.0, vec![1.0, -2.0, 0.5]),
        (3.5, vec![3.0, 4.0, -5.0, 0.25]),
        (-2.0, vec![0.125, -0.125, 10.0, -7.5]),
        (0.75, vec![-1.0, -1.5, 2.25, 6.0, -0.4]),
    ];

    for (gain, roots) in cases {
        let wrapped: Vec<F64> = roots.iter().map(|&r| F64(r)).collect();
        let p = Polynomial::from_real_roots(F64(gain), &wrapped);
        let (min, max) = p.determine_roots_bounds();
        for r in roots {
            assert!(r.abs() >= min.0, "root below the lower bound");
            assert!(r.abs() <= max.0, "root above the upper bound");
        }
    }
}

#[test]
fn max_bound_exact_value() {
    // The Lagrange bound is max(1, |-8/4| + |2/4| + |1/4|) = 2.75 and the
    // Cauchy bound is 1 + |-8/4| = 3; the estimate takes the smaller.
    let terms: Vec<F64> = [1.0, 2.0, -8.0, 4.0].iter().map(|&t| F64(t)).collect();
    assert_eq!(Polynomial::determine_max_bound(&terms).0, 2.75);
}
