use root_locus::complex::Complex;
use root_locus::midware::curves::{Curves, Point};
use root_locus::midware::Midware;
use root_locus::polynomials::root_locus::{RootLocus, RootLocusError};
use root_locus::polynomials::roots::PolynomialRoot;
use root_locus::polynomials::Polynomial;
use root_locus::scalar::Scalar;
use root_locus::NotNanFloat;

/// Double-precision scalars for the numeric interface.
#[derive(Clone, Copy, PartialEq, Debug)]
struct F64(f64);

/// A plain test vertex: the root position as two machine floats.
#[derive(Clone, Copy, PartialEq, Debug)]
struct Vertex {
    px: f64,
    py: f64,
}

impl Point<F64> for Vertex {
    fn sp_x(&self) -> F64 {
        F64(self.px)
    }
    fn sp_y(&self) -> F64 {
        F64(self.py)
    }
    fn sp_default() -> Self {
        Vertex { px: 0.0, py: 0.0 }
    }
    fn from_complex(c: &Complex<F64>) -> Self {
        Vertex { px: c.re.0, py: c.im.0 }
    }
    fn default_point() -> Self {
        Vertex { px: 0.0, py: 0.0 }
    }
    fn x(&self) -> F64 {
        F64(self.px)
    }
    fn y(&self) -> F64 {
        F64(self.py)
    }
}

// The `sp_` members are the specification-level counterparts of the
// operations; for a machine float they are the operations themselves.
impl Scalar for F64 {
    fn sp_add(self, o: Self) -> Self {
        F64(self.0 + o.0)
    }
    fn sp_sub(self, o: Self) -> Self {
        F64(self.0 - o.0)
    }
    fn sp_mul(self, o: Self) -> Self {
        F64(self.0 * o.0)
    }
    fn sp_div(self, o: Self) -> Self {
        F64(self.0 / o.0)
    }
    fn sp_neg(self) -> Self {
        F64(-self.0)
    }
    fn sp_abs(self) -> Self {
        F64(self.0.abs())
    }
    fn sp_max(self, o: Self) -> Self {
        F64(self.0.max(o.0))
    }
    fn sp_min(self, o: Self) -> Self {
        F64(self.0.min(o.0))
    }
    fn sp_powf(self, e: Self) -> Self {
        F64(self.0.powf(e.0))
    }
    fn sp_cos(self) -> Self {
        F64(self.0.cos())
    }
    fn sp_sin(self) -> Self {
        F64(self.0.sin())
    }
    fn sp_lt(self, o: Self) -> bool {
        self.0 < o.0
    }
    fn sp_is_nan(self) -> bool {
        self.0.is_nan()
    }
    fn sp_is_zero(self) -> bool {
        self.0 == 0.0
    }
    fn sp_sign_positive(self) -> bool {
        self.0.is_sign_positive()
    }
    fn sp_key(self) -> u64 {
        let b = self.0.to_bits();
        if b & (1u64 << 63) != 0 {
            !b
        } else {
            b ^ (1u64 << 63)
        }
    }
    fn sp_zero() -> Self {
        F64(0.0)
    }
    fn sp_one() -> Self {
        F64(1.0)
    }
    fn sp_infinity() -> Self {
        F64(f64::INFINITY)
    }
    fn sp_from_usize(n: usize) -> Self {
        F64(n as f64)
    }
    fn sp_from_ratio(num: i64, den: i64) -> Self {
        F64(num as f64 / den as f64)
    }
    fn add(self, o: Self) -> Self {
        F64(self.0 + o.0)
    }
    fn sub(self, o: Self) -> Self {
        F64(self.0 - o.0)
    }
    fn mul(self, o: Self) -> Self {
        F64(self.0 * o.0)
    }
    fn div(self, o: Self) -> Self {
        F64(self.0 / o.0)
    }
    fn neg(self) -> Self {
        F64(-self.0)
    }
    fn abs(self) -> Self {
        F64(self.0.abs())
    }
    fn max(self, o: Self) -> Self {
        F64(self.0.max(o.0))
    }
    fn min(self, o: Self) -> Self {
        F64(self.0.min(o.0))
    }
    fn powf(self, e: Self) -> Self {
        F64(self.0.powf(e.0))
    }
    fn cos(self) -> Self {
        F64(self.0.cos())
    }
    fn sin(self) -> Self {
        F64(self.0.sin())
    }
    fn lt(self, o: Self) -> bool {
        self.0 < o.0
    }
    fn is_nan(self) -> bool {
        self.0.is_nan()
    }
    fn is_zero(self) -> bool {
        self.0 == 0.0
    }
    fn is_sign_positive(self) -> bool {
        self.0.is_sign_positive()
    }
    fn key(self) -> u64 {
        let b = self.0.to_bits();
        if b & (1u64 << 63) != 0 {
            !b
        } else {
            b ^ (1u64 << 63)
        }
    }
    fn zero() -> Self {
        F64(0.0)
    }
    fn one() -> Self {
        F64(1.0)
    }
    fn infinity() -> Self {
        F64(f64::INFINITY)
    }
    fn from_usize(n: usize) -> Self {
        F64(n as f64)
    }
    fn from_ratio(num: i64, den: i64) -> Self {
        F64(num as f64 / den as f64)
    }
}

fn poly(terms: &[f64]) -> Polynomial<F64> {
    Polynomial::new(terms.iter().map(|&t| F64(t)).collect())
}

fn rng_seq() -> Vec<F64> {
    [0.37, 0.88, 0.11, 0.64, 0.52, 0.29, 0.93, 0.06].iter().map(|&v| F64(v)).collect()
}

#[test]
fn curves_index_layout() {
    let mut data: Vec<u16> = vec![0; 3 * (4 - 1) * 2];
    Curves::<3, 4, Vertex, F64>::get_indices(&mut data);
    assert_eq!(data, vec![0, 1, 1, 2, 2, 3, 4, 5, 5, 6, 6, 7, 8, 9, 9, 10, 10, 11]);
}

#[test]
fn curves_write_and_ranges() {
    let mut curves = Curves::<3, 4, Vertex, F64>::new();
    let rows: Vec<Vec<Vertex>> = vec![
        vec![
            Vertex { px: 1.0, py: 2.0 },
            Vertex { px: 3.0, py: 4.0 },
            Vertex { px: 5.0, py: 6.0 },
        ],
        vec![
            Vertex { px: -1.0, py: -2.0 },
            Vertex { px: -3.0, py: -4.0 },
            Vertex { px: -5.0, py: -6.0 },
        ],
    ];
    curves.write(&rows);

    let mut index_ranges: Vec<Option<std::ops::Range<u32>>> = vec![None, None, None];
    curves.get_index_ranges(&mut index_ranges);
    assert_eq!(index_ranges, vec![Some(0..4), Some(6..10), None]);

    let mut vertex_ranges: Vec<Option<std::ops::Range<usize>>> = vec![None, None, None];
    curves.get_vertex_ranges(&mut vertex_ranges);
    assert_eq!(vertex_ranges, vec![Some(0..3), Some(4..7), None]);

    let verts = curves.get_vertices();
    assert_eq!(verts[0], Vertex { px: 1.0, py: 2.0 });
    assert_eq!(verts[2], Vertex { px: 5.0, py: 6.0 });
    assert_eq!(verts[4], Vertex { px: -1.0, py: -2.0 });
    assert_eq!(verts[6], Vertex { px: -5.0, py: -6.0 });
}

#[test]
fn locus_rejects_higher_order_b() {
    let a = poly(&[1.0, 1.0]);
    let b = poly(&[2.0, 3.0, 1.0]);
    let r = RootLocus::new(a, b);
    assert!(matches!(r, Err(RootLocusError::InvalidPrecondition)));
}

#[test]
fn compute_gain_matches_ratio() {
    let a = poly(&[2.0, 1.0]);
    let b = poly(&[1.0]);
    let rl = RootLocus::new(a, b).unwrap();
    let k = rl.compute_gain(Complex::new(F64(3.0), F64(0.0)));
    assert!((k.re.0 + 5.0).abs() < 1e-12);
    assert!(k.im.0.abs() < 1e-12);
}

#[test]
fn not_nan_float_wraps_value() {
    let w = NotNanFloat::new(F64(2.5));
    assert_eq!(w.0, F64(2.5));
}

#[test]
fn continuation_sweep_full_pass() {
    // A = (x + 1)(x + 2), B = 1: two branches colliding at gain 1/4.
    let a = Polynomial::from_real_roots(F64(1.0), &vec![F64(-1.0), F64(-2.0)]);
    let b = poly(&[1.0]);
    let mut rl = RootLocus::new(a, b).unwrap();
    let mut curves = Curves::<2, 1100, Vertex, F64>::new();
    let rng = rng_seq();

    rl.calculate_all(F64(1e-6), F64(0.01), F64(1000.0), &rng, &mut curves);

    let gains = rl.get_gains();
    let roots = rl.get_roots();
    let branches = rl.get_branches();
    assert_eq!(branches, 2);
    assert!(gains.len() >= 3);
    assert_eq!(roots.len(), gains.len() * branches);

    // The sweep starts at zero gain and ascends strictly.
    assert_eq!(gains[0].0.0.0, 0.0);
    assert_eq!(gains[0].1, 0);
    for (t, entry) in gains.iter().enumerate() {
        assert_eq!(entry.1, t);
        assert!(!entry.0.0.0.is_nan());
        if t >= 2 {
            assert!(gains[t - 1].0.0.0 < entry.0.0.0);
        }
    }

    // Zero-gain block: the roots of A, within the cold-start precision.
    let mut zero_roots = [roots[0], roots[1]];
    zero_roots.sort_by(|p, q| p.re.0.partial_cmp(&q.re.0).unwrap());
    assert!((zero_roots[0].re.0 + 2.0).abs() < 1e-6 && zero_roots[0].im.0.abs() < 1e-6);
    assert!((zero_roots[1].re.0 + 1.0).abs() < 1e-6 && zero_roots[1].im.0.abs() < 1e-6);

    // Continuation sanity: between fine consecutive gain steps, every
    // branch moves by only a small multiple of its scale.
    let mut checked = 0;
    for t in 1..gains.len() - 1 {
        let k0 = gains[t].0.0.0;
        let k1 = gains[t + 1].0.0.0;
        if k1 <= k0 * 1.2 + 0.02 {
            for o in 0..branches {
                let p = roots[t * branches + o];
                let q = roots[(t + 1) * branches + o];
                let d = ((p.re.0 - q.re.0).powi(2) + (p.im.0 - q.im.0).powi(2)).sqrt();
                let scale = 1.0 + (p.re.0 * p.re.0 + p.im.0 * p.im.0).sqrt();
                assert!(d <= 0.08 * scale, "branch {} jumped {} at gain {}", o, d, k0);
                checked += 1;
            }
        }
    }
    assert!(checked > 100);

    // The curve buffer holds the swept blocks, one column per sample.
    let verts = curves.get_vertices();
    for t in 1..gains.len() {
        for o in 0..branches {
            let v = verts[o * 1100 + (t - 1)];
            let r = roots[t * branches + o];
            assert_eq!(v.px, r.re.0);
            assert_eq!(v.py, r.im.0);
        }
    }
}

#[test]
fn constant_system_keeps_branch_count() {
    // An empty root list gives a pure constant-gain system: zero
    // branches, but still a valid pass with a valid gain sweep.
    let a = Polynomial::from_real_roots(F64(1.0), &Vec::new());
    let b = poly(&[1.0]);
    let mut rl = RootLocus::new(a, b).unwrap();
    assert_eq!(rl.get_branches(), 0);

    let mut curves = Curves::<1, 1100, Vertex, F64>::new();
    let rng = rng_seq();
    rl.calculate_all(F64(1e-6), F64(0.01), F64(1000.0), &rng, &mut curves);

    assert_eq!(rl.get_branches(), 0);
    assert_eq!(rl.get_roots().len(), 0);
    let gains = rl.get_gains();
    assert!(gains.len() >= 3);
    assert_eq!(gains[0].0.0.0, 0.0);
    for t in 2..gains.len() {
        assert!(gains[t - 1].0.0.0 < gains[t].0.0.0);
    }
}

#[test]
fn midware_update_runs_pass() {
    let mut mw = Midware::new(rng_seq());
    mw.zeros_mut().push(PolynomialRoot::RealSingle(F64(-1.0)));
    mw.zeros_mut().push(PolynomialRoot::RealSingle(F64(-2.0)));
    mw.poles_mut().push(PolynomialRoot::RealSingle(F64(-3.0)));

    let mut curves = Curves::<4, 1100, Vertex, F64>::new();
    let r = mw.update(&mut curves);
    assert!(r.is_ok());
}

#[test]
fn midware_update_rejects_excess_poles() {
    let mut mw = Midware::new(rng_seq());
    mw.poles_mut().push(PolynomialRoot::RealSingle(F64(-3.0)));

    let mut curves = Curves::<4, 1100, Vertex, F64>::new();
    let r = mw.update(&mut curves);
    assert!(matches!(r, Err(RootLocusError::InvalidPrecondition)));
}
