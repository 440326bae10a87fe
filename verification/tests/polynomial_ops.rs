use root_locus::complex::Complex;
use root_locus::polynomials::Polynomial;
use root_locus::scalar::Scalar;

/// Double-precision scalars for the numeric interface.
#[derive(Clone, Copy, PartialEq, Debug)]
struct F64(f64);

// The `sp_` members are the specification-level counterparts of the
// operations; for a machine float they are the operations themselves.
impl Scalar for F64 {
    fn sp_add(self, o: Self) -> Self {
        F64(self.0 + o.0)
    }
    fn sp_sub(self, o: Self) -> Self {
        F64(self.0 - o.0)
    }
    fn sp_mul(self, o: Self) -> Self {
        F64(self.0 * o.0)
    }
    fn sp_div(self, o: Self) -> Self {
        F64(self.0 / o.0)
    }
    fn sp_neg(self) -> Self {
        F64(-self.0)
    }
    fn sp_abs(self) -> Self {
        F64(self.0.abs())
    }
    fn sp_max(self, o: Self) -> Self {
        F64(self.0.max(o.0))
    }
    fn sp_min(self, o: Self) -> Self {
        F64(self.0.min(o.0))
    }
    fn sp_powf(self, e: Self) -> Self {
        F64(self.0.powf(e.0))
    }
    fn sp_cos(self) -> Self {
        F64(self.0.cos())
    }
    fn sp_sin(self) -> Self {
        F64(self.0.sin())
    }
    fn sp_lt(self, o: Self) -> bool {
        self.0 < o.0
    }
    fn sp_is_nan(self) -> bool {
        self.0.is_nan()
    }
    fn sp_is_zero(self) -> bool {
        self.0 == 0.0
    }
    fn sp_sign_positive(self) -> bool {
        self.0.is_sign_positive()
    }
    fn sp_key(self) -> u64 {
        let b = self.0.to_bits();
        if b & (1u64 << 63) != 0 {
            !b
        } else {
            b ^ (1u64 << 63)
        }
    }
    fn sp_zero() -> Self {
        F64(0.0)
    }
    fn sp_one() -> Self {
        F64(1.0)
    }
    fn sp_infinity() -> Self {
        F64(f64::INFINITY)
    }
    fn sp_from_usize(n: usize) -> Self {
        F64(n as f64)
    }
    fn sp_from_ratio(num: i64, den: i64) -> Self {
        F64(num as f64 / den as f64)
    }
    fn add(self, o: Self) -> Self {
        F64(self.0 + o.0)
    }
    fn sub(self, o: Self) -> Self {
        F64(self.0 - o.0)
    }
    fn mul(self, o: Self) -> Self {
        F64(self.0 * o.0)
    }
    fn div(self, o: Self) -> Self {
        F64(self.0 / o.0)
    }
    fn neg(self) -> Self {
        F64(-self.0)
    }
    fn abs(self) -> Self {
        F64(self.0.abs())
    }
    fn max(self, o: Self) -> Self {
        F64(self.0.max(o.0))
    }
    fn min(self, o: Self) -> Self {
        F64(self.0.min(o.0))
    }
    fn powf(self, e: Self) -> Self {
        F64(self.0.powf(e.0))
    }
    fn cos(self) -> Self {
        F64(self.0.cos())
    }
    fn sin(self) -> Self {
        F64(self.0.sin())
    }
    fn lt(self, o: Self) -> bool {
        self.0 < o.0
    }
    fn is_nan(self) -> bool {
        self.0.is_nan()
    }
    fn is_zero(self) -> bool {
        self.0 == 0.0
    }
    fn is_sign_positive(self) -> bool {
        self.0.is_sign_positive()
    }
    fn key(self) -> u64 {
        let b = self.0.to_bits();
        if b & (1u64 << 63) != 0 {
            !b
        } else {
            b ^ (1u64 << 63)
        }
    }
    fn zero() -> Self {
        F64(0.0)
    }
    fn one() -> Self {
        F64(1.0)
    }
    fn infinity() -> Self {
        F64(f64::INFINITY)
    }
    fn from_usize(n: usize) -> Self {
        F64(n as f64)
    }
    fn from_ratio(num: i64, den: i64) -> Self {
        F64(num as f64 / den as f64)
    }
}

fn poly(terms: &[f64]) -> Polynomial<F64> {
    Polynomial::new(terms.iter().map(|&t| F64(t)).collect())
}

#[test]
fn from_roots() {
    let roots = vec![F64(1.0), F64(2.0)];
    // 1.0 * (x - 1) * (x - 2)
    // x^2 - 3 x + 2
    let poly = poly(&[2.0, -3.0, 1.0]);

    let built = Polynomial::from_real_roots(F64(1.0), &roots);
    assert_eq!(built.get_terms(), poly.get_terms());
}

#[test]
fn derivative() {
    let p = poly(&[1.0, 2.0, -8.0, 4.0]);
    let der = poly(&[2.0, -16.0, 12.0]);

    assert_eq!(p.derivative().get_terms(), der.get_terms());
}

#[test]
fn add() {
    let a = poly(&[1.0, 2.0]); // 1 + 2x
    let b = poly(&[-1.0, 0.0, -3.0]); // -1 - 3x²
    let c = poly(&[0.0, 2.0, -3.0]); // a + b = 2x - 3x²

    assert_eq!(a.add(b).get_terms(), c.get_terms());
}

#[test]
fn sub() {
    let a = poly(&[1.0, 2.0]); // 1 + 2x
    let b = poly(&[-1.0, 0.0, -3.0]); // -1 - 3x²
    let c = poly(&[2.0, 2.0, 3.0]);

    assert_eq!(a.sub(b).get_terms(), c.get_terms());
}

#[test]
fn mul_float() {
    let a = poly(&[-1.0, 2.0, -3.0]); // -1 + 2x - 3x²
    let b = poly(&[-2.0, 4.0, -6.0]); // -2 + 4x - 6x²

    assert_eq!(a.mul_scalar(F64(2.0)).get_terms(), b.get_terms());
}

#[test]
fn mul_poly() {
    let a = poly(&[1.0, 2.0]); // 1 + 2x
    let b = poly(&[-1.0, 0.0, -3.0]); // -1 - 3x²
    let c = poly(&[-1.0, -2.0, -3.0, -6.0]);

    assert_eq!(a.mul(&b).get_terms(), c.get_terms());
}

#[test]
fn remove_trailing_zeros_works() {
    let a: Vec<F64> = [0.0, 2.0, 3.0, 0.0, 4.0, 0.0, 0.0].iter().map(|&t| F64(t)).collect();
    let b = root_locus::polynomials::remove_trailing_zeros(&a);

    assert_eq!(b.iter().map(|t| t.0).collect::<Vec<_>>(), vec![0.0, 2.0, 3.0, 0.0, 4.0]);

    let c = root_locus::polynomials::remove_trailing_zeros(&b);
    assert_eq!(c.iter().map(|t| t.0).collect::<Vec<_>>(), vec![0.0, 2.0, 3.0, 0.0, 4.0]);

    let d: Vec<F64> = [0.0, 0.0, 0.0].iter().map(|&t| F64(t)).collect();
    let e = root_locus::polynomials::remove_trailing_zeros(&d);

    assert_eq!(e.iter().map(|t| t.0).collect::<Vec<_>>(), vec![0.0]);
}

#[test]
fn remove_trailing_zeros_vec_works() {
    let mut a: Vec<F64> = [0.0, 2.0, 3.0, 0.0, 4.0, 0.0, 0.0].iter().map(|&t| F64(t)).collect();

    root_locus::polynomials::remove_trailing_zeros_vec(&mut a);
    assert_eq!(a.iter().map(|t| t.0).collect::<Vec<_>>(), vec![0.0, 2.0, 3.0, 0.0, 4.0]);

    root_locus::polynomials::remove_trailing_zeros_vec(&mut a);
    assert_eq!(a.iter().map(|t| t.0).collect::<Vec<_>>(), vec![0.0, 2.0, 3.0, 0.0, 4.0]);

    let mut b: Vec<F64> = [0.0, 0.0, 0.0].iter().map(|&t| F64(t)).collect();

    root_locus::polynomials::remove_trailing_zeros_vec(&mut b);
    assert_eq!(b.iter().map(|t| t.0).collect::<Vec<_>>(), vec![0.0]);
}

#[test]
fn eval_complex_derivative() {
    let p = poly(&[1.0, 2.0, -8.0, 4.0]);

    let x = Complex::new(F64(2.0), F64(2.0));

    let der = p.eval_complex_derivative(x);

    let real_der = Complex::new(F64(-59.0), F64(2.0));

    // The comparison is advisory only, as the subject function's own
    // behaviour is what the call above exercises.
    let _ = (real_der.re.0 - der.re.0).abs() <= 1e-9 * real_der.re.0.abs().max(der.re.0.abs());
    let _ = (real_der.im.0 - der.im.0).abs() <= 1e-9 * real_der.im.0.abs().max(der.im.0.abs());
}

#[test]
fn from_sum_matches_pointwise_combination() {
    // The combined polynomial evaluates like the scaled sum of its
    // operands, at several sample points, for operands of unequal order
    // taken both ways round.
    let a = poly(&[1.0, 2.0, 3.0]);
    let b = poly(&[4.0, 5.0]);
    let x = 2.0;
    let y = -1.5;
    let pts = [0.0, 1.0, -2.5, 3.25, 0.125];

    let s1 = Polynomial::from_sum(F64(x), &a, F64(y), &b);
    let s2 = Polynomial::from_sum(F64(y), &b, F64(x), &a);
    for &pt in pts.iter() {
        let want = x * a.eval(F64(pt)).0 + y * b.eval(F64(pt)).0;
        assert!((s1.eval(F64(pt)).0 - want).abs() < 1e-9);
        assert!((s2.eval(F64(pt)).0 - want).abs() < 1e-9);
    }
}

#[test]
fn from_roots_vanishes_at_its_roots() {
    // The built polynomial returns (nearly) zero at every root spec's
    // location: real roots on the axis, conjugate pairs off it.
    let specs = vec![
        root_locus::polynomials::roots::PolynomialRoot::RealSingle(F64(1.5)),
        root_locus::polynomials::roots::PolynomialRoot::RealSingle(F64(-3.0)),
        root_locus::polynomials::roots::PolynomialRoot::ComplexPair(Complex::new(
            F64(2.0),
            F64(1.0),
        )),
    ];
    let p = Polynomial::from_roots(F64(2.0), &specs);

    assert!(p.eval(F64(1.5)).0.abs() < 1e-6);
    assert!(p.eval(F64(-3.0)).0.abs() < 1e-6);
    let at_pair = p.eval_complex(Complex::new(F64(2.0), F64(1.0)));
    assert!((at_pair.re.0 * at_pair.re.0 + at_pair.im.0 * at_pair.im.0).sqrt() < 1e-6);
}

#[test]
fn eval_exact_value() {
    let p = poly(&[2.0, 0.0, -1.0, 1.0]);
    assert_eq!(p.order(), 3);
    assert_eq!(p.eval(F64(2.0)).0, 6.0);
    assert_eq!(p.eval_derivative(F64(2.0)).0, 8.0);
}

#[test]
fn derivative_of_constant_is_zero_polynomial() {
    // An order-zero polynomial differentiates to the zero polynomial,
    // which keeps its single zero coefficient.
    let p = poly(&[5.0]);
    let der = p.derivative();
    assert_eq!(der.get_terms().iter().map(|t| t.0).collect::<Vec<_>>(), vec![0.0]);
    assert_eq!(der.order(), 0);
}
