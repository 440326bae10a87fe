use vstd::prelude::*;

use crate::complex::Complex;
use crate::scalar::Scalar;

pub mod root_locus;
pub mod roots;

use crate::polynomials::roots::PolynomialRoot;

verus! {

/// A sequence of `n` zero coefficients.
pub open spec fn sp_zero_seq<S: Scalar>(n: nat) -> Seq<S> {
    Seq::new(n, |i: int| S::sp_zero())
}

/// The coefficient buffer after the first `cols` cells of row `i` of the
/// convolution: cell `i + j` accumulates `a[i] * b[j]`.
pub open spec fn sp_conv_row<S: Scalar>(a: Seq<S>, b: Seq<S>, o: Seq<S>, i: int, cols: nat) -> Seq<
    S,
>
    decreases cols,
{
    if cols == 0 {
        o
    } else {
        let prev = sp_conv_row(a, b, o, i, (cols - 1) as nat);
        let j = cols - 1;
        prev.update(i + j, prev[i + j].sp_add(a[i].sp_mul(b[j])))
    }
}

/// The coefficient buffer after the first `rows` full rows of the
/// convolution.
pub open spec fn sp_conv_rows<S: Scalar>(a: Seq<S>, b: Seq<S>, o: Seq<S>, rows: nat) -> Seq<S>
    decreases rows,
{
    if rows == 0 {
        o
    } else {
        sp_conv_row(a, b, sp_conv_rows(a, b, o, (rows - 1) as nat), rows - 1, b.len())
    }
}

/// The convolution of `a` and `b` accumulated into a fresh zero buffer of
/// length `out_len`: the coefficient product of the two polynomials.
pub open spec fn sp_conv<S: Scalar>(a: Seq<S>, b: Seq<S>, out_len: nat) -> Seq<S> {
    sp_conv_rows(a, b, sp_zero_seq(out_len), a.len())
}

/// `s` with its trailing zero coefficients removed; a polynomial that is
/// zero everywhere keeps a single coefficient.
pub open spec fn sp_trim<S: Scalar>(s: Seq<S>) -> Seq<S>
    decreases s.len(),
{
    if s.len() <= 1 {
        s
    } else if s.last().sp_is_zero() {
        sp_trim(s.drop_last())
    } else {
        s
    }
}

/// `x` to the power `n`, as the iterated product the evaluators compute.
pub open spec fn sp_pow<S: Scalar>(x: S, n: nat) -> S
    decreases n,
{
    if n == 0 {
        S::sp_one()
    } else {
        sp_pow(x, (n - 1) as nat).sp_mul(x)
    }
}

/// `x` to the power `n` over the complex numbers.
pub open spec fn sp_cpow<S: Scalar>(x: Complex<S>, n: nat) -> Complex<S>
    decreases n,
{
    if n == 0 {
        Complex::sp_one()
    } else {
        sp_cpow(x, (n - 1) as nat).sp_mul(x)
    }
}

/// The power-sum evaluation of the first `n` coefficients of `p` at `x`.
pub open spec fn sp_eval_prefix<S: Scalar>(p: Seq<S>, x: S, n: nat) -> S
    decreases n,
{
    if n == 0 {
        S::sp_zero()
    } else {
        sp_eval_prefix(p, x, (n - 1) as nat).sp_add(p[n - 1].sp_mul(sp_pow(x, (n - 1) as nat)))
    }
}

/// The value of the polynomial with coefficients `p` at the real point `x`.
pub open spec fn sp_eval<S: Scalar>(p: Seq<S>, x: S) -> S {
    sp_eval_prefix(p, x, p.len())
}

/// The power-sum evaluation of the first `n` coefficients at a complex
/// point.
pub open spec fn sp_eval_complex_prefix<S: Scalar>(p: Seq<S>, x: Complex<S>, n: nat) -> Complex<S>
    decreases n,
{
    if n == 0 {
        Complex::sp_zero()
    } else {
        sp_eval_complex_prefix(p, x, (n - 1) as nat).sp_add(
            Complex::sp_from_real(p[n - 1]).sp_mul(sp_cpow(x, (n - 1) as nat)),
        )
    }
}

/// The value of the polynomial with coefficients `p` at the complex point
/// `x`.
pub open spec fn sp_eval_complex<S: Scalar>(p: Seq<S>, x: Complex<S>) -> Complex<S> {
    sp_eval_complex_prefix(p, x, p.len())
}

/// The exponent `i - 1`, saturated at zero, used by the derivative
/// evaluators.
pub open spec fn sp_sat_dec(i: nat) -> nat {
    if i == 0 {
        0
    } else {
        (i - 1) as nat
    }
}

/// The power-sum evaluation of the first `n` terms of the derivative
/// series `i·p[i]·x^(i-1)` at the real point `x`.
pub open spec fn sp_eval_deriv_prefix<S: Scalar>(p: Seq<S>, x: S, n: nat) -> S
    decreases n,
{
    if n == 0 {
        S::sp_zero()
    } else {
        sp_eval_deriv_prefix(p, x, (n - 1) as nat).sp_add(
            p[n - 1].sp_mul(S::sp_from_usize((n - 1) as usize)).sp_mul(
                sp_pow(x, sp_sat_dec((n - 1) as nat)),
            ),
        )
    }
}

/// The value of the derivative series of `p` at the real point `x`.
pub open spec fn sp_eval_deriv<S: Scalar>(p: Seq<S>, x: S) -> S {
    sp_eval_deriv_prefix(p, x, p.len())
}

/// The power-sum evaluation of the first `n` terms of the derivative
/// series at a complex point.
pub open spec fn sp_eval_complex_deriv_prefix<S: Scalar>(
    p: Seq<S>,
    x: Complex<S>,
    n: nat,
) -> Complex<S>
    decreases n,
{
    if n == 0 {
        Complex::sp_zero()
    } else {
        sp_eval_complex_deriv_prefix(p, x, (n - 1) as nat).sp_add(
            Complex::sp_from_real(p[n - 1]).sp_mul(
                Complex::sp_from_real(S::sp_from_usize((n - 1) as usize)),
            ).sp_mul(sp_cpow(x, sp_sat_dec((n - 1) as nat))),
        )
    }
}

/// The value of the derivative series of `p` at the complex point `x`.
pub open spec fn sp_eval_complex_deriv<S: Scalar>(p: Seq<S>, x: Complex<S>) -> Complex<S> {
    sp_eval_complex_deriv_prefix(p, x, p.len())
}

/// The coefficients of the derivative polynomial: `i·p[i]` for `i ≥ 1`.
pub open spec fn sp_derivative_terms<S: Scalar>(p: Seq<S>) -> Seq<S> {
    Seq::new(sp_sat_dec(p.len()), |i: int| S::sp_from_usize((i + 1) as usize).sp_mul(p[i + 1]))
}

/// The elementwise combination `x·a + y·b` with `b` zero-padded to the
/// length of `a`; meaningful when `a` is at least as long as `b`.
pub open spec fn sp_sum_terms<S: Scalar>(x: S, a: Seq<S>, y: S, b: Seq<S>) -> Seq<S> {
    Seq::new(
        a.len(),
        |i: int|
            x.sp_mul(a[i]).sp_add(
                y.sp_mul(
                    if i < b.len() {
                        b[i]
                    } else {
                        S::sp_zero()
                    },
                ),
            ),
    )
}

/// The elementwise sum `first + second` with `first` zero-padded to the
/// length of `second`; meaningful when `second` is at least as long.
pub open spec fn sp_padded_sum<S: Scalar>(first: Seq<S>, second: Seq<S>) -> Seq<S> {
    Seq::new(
        second.len(),
        |i: int|
            (if i < first.len() {
                first[i]
            } else {
                S::sp_zero()
            }).sp_add(second[i]),
    )
}

/// The elementwise difference `a - b` with the shorter operand
/// zero-padded to the longer one's length.
pub open spec fn sp_padded_sub<S: Scalar>(a: Seq<S>, b: Seq<S>) -> Seq<S> {
    Seq::new(
        if a.len() > b.len() {
            a.len()
        } else {
            b.len()
        },
        |i: int|
            (if i < a.len() {
                a[i]
            } else {
                S::sp_zero()
            }).sp_sub(
                if i < b.len() {
                    b[i]
                } else {
                    S::sp_zero()
                },
            ),
    )
}

/// Each coefficient scaled by `s`, the scalar on the left.
pub open spec fn sp_scaled_terms<S: Scalar>(s: S, p: Seq<S>) -> Seq<S> {
    Seq::new(p.len(), |i: int| s.sp_mul(p[i]))
}

/// The real coefficient factor a root contributes to the product: a real
/// root `r` contributes `x − r`; a conjugate pair `c` contributes
/// `x² − 2·Re(c)·x + |c|²`.
pub open spec fn sp_root_factor<S: Scalar>(root: PolynomialRoot<S>) -> Seq<S> {
    match root {
        PolynomialRoot::RealSingle(r) => seq![r.sp_neg(), S::sp_one()],
        PolynomialRoot::ComplexPair(c) => seq![
            c.re.sp_mul(c.re).sp_add(c.im.sp_mul(c.im)),
            S::sp_from_ratio(-2i64, 1).sp_mul(c.re),
            S::sp_one(),
        ],
    }
}

/// The degree a root contributes to the product: one for a real root,
/// two for a conjugate pair.
pub open spec fn sp_root_degree<S: Scalar>(root: PolynomialRoot<S>) -> nat {
    match root {
        PolynomialRoot::RealSingle(_) => 1,
        PolynomialRoot::ComplexPair(_) => 2,
    }
}

/// The degree contributed by the first `k` roots together.
pub open spec fn sp_roots_degree<S: Scalar>(roots: Seq<PolynomialRoot<S>>, k: nat) -> nat
    decreases k,
{
    if k == 0 {
        0
    } else {
        sp_roots_degree(roots, (k - 1) as nat) + sp_root_degree(roots[k - 1])
    }
}

/// The coefficient buffer (of fixed length `len`) after the first `k`
/// root factors have been convolved into the running product, which
/// starts as `gain` at degree zero.
pub open spec fn sp_from_roots_state<S: Scalar>(
    gain: S,
    roots: Seq<PolynomialRoot<S>>,
    k: nat,
    len: nat,
) -> Seq<S>
    decreases k,
{
    if k == 0 {
        sp_zero_seq(len).update(0, gain)
    } else {
        let prev = sp_from_roots_state(gain, roots, (k - 1) as nat, len);
        sp_conv(
            prev.take(sp_roots_degree(roots, (k - 1) as nat) + 1 as int),
            sp_root_factor(roots[k - 1]),
            len,
        )
    }
}

/// The degree of the first `k` roots is at most `2·k`.
pub proof fn lemma_roots_degree_bound<S: Scalar>(roots: Seq<PolynomialRoot<S>>, k: nat)
    ensures
        sp_roots_degree(roots, k) <= 2 * k,
    decreases k,
{
    if k > 0 {
        lemma_roots_degree_bound(roots, (k - 1) as nat);
    }
}

/// Trimming never lengthens a sequence.
pub proof fn lemma_trim_len_le<S: Scalar>(s: Seq<S>)
    ensures
        sp_trim(s).len() <= s.len(),
    decreases s.len(),
{
    if s.len() > 1 && s.last().sp_is_zero() {
        lemma_trim_len_le(s.drop_last());
    }
}

/// Trimming never lengthens a sequence, keeps at least one coefficient of
/// a non-empty one, and leaves no trailing zero behind.
pub proof fn lemma_trim_shape<S: Scalar>(s: Seq<S>)
    requires
        s.len() >= 1,
    ensures
        1 <= sp_trim(s).len() <= s.len(),
        sp_trim(s).len() == 1 || !sp_trim(s).last().sp_is_zero(),
    decreases s.len(),
{
    if s.len() > 1 && s.last().sp_is_zero() {
        lemma_trim_shape(s.drop_last());
    }
}

/// An exact copy of a vector.
pub(crate) fn copy_vec<T: Copy>(v: &Vec<T>) -> (r: Vec<T>)
    ensures
        r@ == v@,
{
    let mut out: Vec<T> = Vec::new();
    let mut i: usize = 0;
    while i < v.len()
        invariant
            i <= v@.len(),
            out@ == v@.take(i as int),
        decreases v@.len() - i,
    {
        out.push(v[i]);
        assert(out@ =~= v@.take(i + 1 as int));
        i = i + 1;
    }
    assert(out@ =~= v@);
    out
}

/// A vector of `n` zero scalars.
fn zero_vec<S: Scalar>(n: usize) -> (r: Vec<S>)
    ensures
        r@ == sp_zero_seq::<S>(n as nat),
{
    let mut out: Vec<S> = Vec::new();
    let mut i: usize = 0;
    while i < n
        invariant
            i <= n,
            out@ == sp_zero_seq::<S>(i as nat),
        decreases n - i,
    {
        out.push(S::zero());
        assert(out@ =~= sp_zero_seq::<S>((i + 1) as nat));
        i = i + 1;
    }
    out
}

/// The shared coefficient-convolution primitive, accumulating the product
/// of the first `alen` coefficients of `a` with all of `b` into `out`,
/// which it first clears to zero.
fn conv_prefix<S: Scalar>(a: &Vec<S>, alen: usize, b: &Vec<S>, out: &mut Vec<S>)
    requires
        alen <= a@.len(),
        alen + b@.len() <= old(out)@.len() + 1,
    ensures
        final(out)@ == sp_conv(a@.take(alen as int), b@, old(out)@.len() as nat),
        final(out)@.len() == old(out)@.len(),
{
    let ghost aseq = a@.take(alen as int);
    let out_len: usize = out.len();
    let mut i: usize = 0;
    while i < out_len
        invariant
            i <= out_len,
            out_len == out@.len(),
            forall|k: int| 0 <= k < i ==> out@[k] == S::sp_zero(),
        decreases out_len - i,
    {
        out[i] = S::zero();
        i = i + 1;
    }
    assert(out@ =~= sp_zero_seq::<S>(out_len as nat));

    let mut i: usize = 0;
    while i < alen
        invariant
            i <= alen,
            alen <= a@.len(),
            alen + b@.len() <= out_len + 1,
            out_len == out@.len(),
            aseq == a@.take(alen as int),
            out@ == sp_conv_rows(aseq, b@, sp_zero_seq::<S>(out_len as nat), i as nat),
        decreases alen - i,
    {
        let ghost row_start = out@;
        let mut j: usize = 0;
        while j < b.len()
            invariant
                j <= b@.len(),
                i < alen,
                alen <= a@.len(),
                alen + b@.len() <= out_len + 1,
                out_len == out@.len(),
                aseq == a@.take(alen as int),
                row_start == sp_conv_rows(aseq, b@, sp_zero_seq::<S>(out_len as nat), i as nat),
                out@ == sp_conv_row(aseq, b@, row_start, i as int, j as nat),
            decreases b@.len() - j,
        {
            let idx: usize = i + j;
            out[idx] = out[idx].add(a[i].mul(b[j]));
            assert(aseq[i as int] == a@[i as int]);
            j = j + 1;
        }
        assert(out@ == sp_conv_rows(aseq, b@, sp_zero_seq::<S>(out_len as nat), (i + 1) as nat));
        i = i + 1;
    }
}

/// The shared O(n·m) coefficient-convolution primitive: accumulates into
/// `out` (cleared first) the product `out[i + j] += a[i] * b[j]` over all
/// coefficient pairs.
pub fn conv<S: Scalar>(a: &Vec<S>, b: &Vec<S>, out: &mut Vec<S>)
    requires
        a@.len() + b@.len() <= old(out)@.len() + 1,
    ensures
        final(out)@ == sp_conv(a@, b@, old(out)@.len() as nat),
        final(out)@.len() == old(out)@.len(),
{
    let alen: usize = a.len();
    conv_prefix(a, alen, b, out);
    assert(a@.take(alen as int) =~= a@);
}

/// Removes trailing zero coefficients from the end of a vector by
/// mutating it; a vector of only zeros keeps its first coefficient.
pub fn remove_trailing_zeros_vec<S: Scalar>(vec: &mut Vec<S>)
    ensures
        final(vec)@ == sp_trim(old(vec)@),
{
    while vec.len() > 1 && vec[vec.len() - 1].is_zero()
        invariant
            sp_trim(vec@) == sp_trim(old(vec)@),
        decreases vec@.len(),
    {
        let ghost before = vec@;
        vec.pop();
        assert(vec@ =~= before.drop_last());
    }
}

/// Removes trailing zero coefficients by returning a fresh trimmed copy.
pub fn remove_trailing_zeros<S: Scalar>(vec: &Vec<S>) -> (r: Vec<S>)
    ensures
        r@ == sp_trim(vec@),
{
    let mut out = copy_vec(vec);
    remove_trailing_zeros_vec(&mut out);
    out
}

/// A univariate polynomial: an ordered sequence of real coefficients
/// indexed by power, the constant term first.
///
/// The view of a polynomial is that coefficient sequence. A well-formed
/// polynomial carries no trailing zero coefficient, except that the zero
/// polynomial is a single zero coefficient.
pub struct Polynomial<S> {
    terms: Vec<S>,
}

impl<S: Scalar> View for Polynomial<S> {
    type V = Seq<S>;

    closed spec fn view(&self) -> Seq<S> {
        self.terms@
    }
}

impl<S: Scalar> Polynomial<S> {
    /// No trailing zero coefficients, except the single-coefficient zero
    /// polynomial.
    pub open spec fn wf(self) -> bool {
        self@.len() >= 1 && (self@.len() == 1 || !self@.last().sp_is_zero())
    }

    /// Trims trailing zero coefficients and wraps the rest; never fails.
    /// An empty coefficient list becomes the zero polynomial, which keeps
    /// its single zero coefficient.
    pub fn new(vec: Vec<S>) -> (r: Self)
        ensures
            vec@.len() >= 1 ==> r@ == sp_trim(vec@),
            vec@.len() == 0 ==> r@ == seq![S::sp_zero()],
            r.wf(),
    {
        let ghost orig = vec@;
        let mut vec = vec;
        remove_trailing_zeros_vec(&mut vec);
        if vec.len() == 0 {
            vec.push(S::zero());
            assert(vec@ =~= seq![S::sp_zero()]);
        }
        proof {
            if orig.len() >= 1 {
                lemma_trim_shape(orig);
            }
        }
        Polynomial { terms: vec }
    }

    /// The coefficients, constant term first.
    pub fn get_terms(&self) -> (r: &Vec<S>)
        ensures
            r@ == self@,
    {
        &self.terms
    }

    /// The degree of the polynomial: one less than its coefficient count.
    pub fn order(&self) -> (r: usize)
        requires
            self.wf(),
        ensures
            r == self@.len() - 1,
    {
        self.terms.len() - 1
    }

    /// Direct power-sum evaluation at the real point `x`.
    pub fn eval(&self, x: S) -> (r: S)
        ensures
            r == sp_eval(self@, x),
    {
        let mut res = S::zero();
        let mut xp = S::one();
        let mut i: usize = 0;
        while i < self.terms.len()
            invariant
                i <= self@.len(),
                res == sp_eval_prefix(self@, x, i as nat),
                xp == sp_pow(x, i as nat),
            decreases self@.len() - i,
        {
            res = res.add(self.terms[i].mul(xp));
            xp = xp.mul(x);
            i = i + 1;
        }
        res
    }

    /// Direct power-sum evaluation at the complex point `x`.
    pub fn eval_complex(&self, x: Complex<S>) -> (r: Complex<S>)
        ensures
            r == sp_eval_complex(self@, x),
    {
        let mut res = Complex::<S>::zero();
        let mut xp = Complex::<S>::one();
        let mut i: usize = 0;
        while i < self.terms.len()
            invariant
                i <= self@.len(),
                res == sp_eval_complex_prefix(self@, x, i as nat),
                xp == sp_cpow(x, i as nat),
            decreases self@.len() - i,
        {
            res = res.add(Complex::from_real(self.terms[i]).mul(xp));
            xp = xp.mul(x);
            i = i + 1;
        }
        res
    }

    /// Power-sum evaluation of the coefficient-scaled derivative series at
    /// the real point `x`.
    pub fn eval_derivative(&self, x: S) -> (r: S)
        ensures
            r == sp_eval_deriv(self@, x),
    {
        let mut res = S::zero();
        let mut xp = S::one();
        let mut i: usize = 0;
        while i < self.terms.len()
            invariant
                i <= self@.len(),
                res == sp_eval_deriv_prefix(self@, x, i as nat),
                xp == sp_pow(x, sp_sat_dec(i as nat)),
            decreases self@.len() - i,
        {
            res = res.add(self.terms[i].mul(S::from_usize(i)).mul(xp));
            if i >= 1 {
                xp = xp.mul(x);
            }
            i = i + 1;
        }
        res
    }

    /// Power-sum evaluation of the coefficient-scaled derivative series at
    /// the complex point `x`.
    pub fn eval_complex_derivative(&self, x: Complex<S>) -> (r: Complex<S>)
        ensures
            r == sp_eval_complex_deriv(self@, x),
    {
        let mut res = Complex::<S>::zero();
        let mut xp = Complex::<S>::one();
        let mut i: usize = 0;
        while i < self.terms.len()
            invariant
                i <= self@.len(),
                res == sp_eval_complex_deriv_prefix(self@, x, i as nat),
                xp == sp_cpow(x, sp_sat_dec(i as nat)),
            decreases self@.len() - i,
        {
            res = res.add(
                Complex::from_real(self.terms[i]).mul(
                    Complex::from_real(S::from_usize(i)),
                ).mul(xp),
            );
            if i >= 1 {
                xp = xp.mul(x);
            }
            i = i + 1;
        }
        res
    }

    /// The polynomial whose coefficients are `i·a_i` for `i ≥ 1`; a
    /// polynomial of order zero differentiates to the zero polynomial,
    /// kept in its single-zero-coefficient representation.
    pub fn derivative(&self) -> (r: Self)
        ensures
            self@.len() >= 2 ==> r@ == sp_trim(sp_derivative_terms(self@)),
            self@.len() <= 1 ==> r@ == seq![S::sp_zero()],
            self@.len() >= 2 ==> r@.len() <= self@.len() - 1,
            r.wf(),
    {
        let mut out: Vec<S> = Vec::new();
        let mut i: usize = 1;
        if self.terms.len() >= 1 {
            while i < self.terms.len()
                invariant
                    1 <= i <= self@.len(),
                    self@.len() >= 1,
                    out@ == sp_derivative_terms(self@).take(i - 1),
                decreases self@.len() - i,
            {
                out.push(S::from_usize(i).mul(self.terms[i]));
                assert(out@ =~= sp_derivative_terms(self@).take(i as int));
                i = i + 1;
            }
        }
        assert(out@ =~= sp_derivative_terms(self@));
        proof {
            lemma_trim_len_le(sp_derivative_terms(self@));
            if self@.len() >= 2 {
                lemma_trim_shape(sp_derivative_terms(self@));
            }
        }
        Self::new(out)
    }

    /// Builds the real polynomial whose roots are exactly the given
    /// specs, scaled by `gain` at degree zero: each root's real factor is
    /// convolved in turn into a running product.
    pub fn from_roots(gain: S, roots: &Vec<PolynomialRoot<S>>) -> (r: Self)
        requires
            2 * roots@.len() + 1 <= usize::MAX,
        ensures
            r@ == sp_trim(
                sp_from_roots_state(gain, roots@, roots@.len(), (2 * roots@.len() + 1) as nat),
            ),
            r@.len() <= 2 * roots@.len() + 1,
            r.wf(),
    {
        let len: usize = roots.len() * 2 + 1;
        let mut out = zero_vec::<S>(len);
        out[0] = gain;
        assert(out@ == sp_zero_seq::<S>(len as nat).update(0, gain));
        let mut out_copy = copy_vec(&out);
        let mut i: usize = 0;
        let mut k: usize = 0;
        while k < roots.len()
            invariant
                k <= roots@.len(),
                len == 2 * roots@.len() + 1,
                i == sp_roots_degree(roots@, k as nat),
                out@.len() == len,
                out_copy@ == out@,
                out@ == sp_from_roots_state(gain, roots@, k as nat, len as nat),
            decreases roots@.len() - k,
        {
            proof {
                lemma_roots_degree_bound(roots@, k as nat);
            }
            let mut factor: Vec<S> = Vec::new();
            let deg: usize;
            match roots[k] {
                PolynomialRoot::RealSingle(r) => {
                    factor.push(r.neg());
                    factor.push(S::one());
                    deg = 1;
                },
                PolynomialRoot::ComplexPair(c) => {
                    factor.push(c.re.mul(c.re).add(c.im.mul(c.im)));
                    factor.push(S::from_ratio(-2, 1).mul(c.re));
                    factor.push(S::one());
                    deg = 2;
                },
            }
            assert(factor@ =~= sp_root_factor(roots@[k as int]));
            conv_prefix(&out_copy, i + 1, &factor, &mut out);
            i = i + deg;
            out_copy = copy_vec(&out);
            k = k + 1;
        }
        proof {
            lemma_trim_shape(sp_from_roots_state(gain, roots@, roots@.len(), len as nat));
            lemma_trim_len_le(sp_from_roots_state(gain, roots@, roots@.len(), len as nat));
            assert(out@.len() == len);
        }
        Self::new(out)
    }

    /// Builds the polynomial with the given real roots and gain, as
    /// [`Polynomial::from_roots`] does for a list of single real roots.
    pub fn from_real_roots(gain: S, roots: &Vec<S>) -> (r: Self)
        requires
            2 * roots@.len() + 1 <= usize::MAX,
        ensures
            r@ == sp_trim(
                sp_from_roots_state(
                    gain,
                    roots@.map_values(|x: S| PolynomialRoot::RealSingle(x)),
                    roots@.len(),
                    (2 * roots@.len() + 1) as nat,
                ),
            ),
            r@.len() <= 2 * roots@.len() + 1,
            r.wf(),
    {
        let mut specs: Vec<PolynomialRoot<S>> = Vec::new();
        let mut i: usize = 0;
        while i < roots.len()
            invariant
                i <= roots@.len(),
                specs@ == roots@.map_values(|x: S| PolynomialRoot::RealSingle(x)).take(i as int),
            decreases roots@.len() - i,
        {
            specs.push(PolynomialRoot::RealSingle(roots[i]));
            assert(specs@ =~= roots@.map_values(|x: S| PolynomialRoot::RealSingle(x)).take(
                i + 1 as int,
            ));
            i = i + 1;
        }
        assert(specs@ =~= roots@.map_values(|x: S| PolynomialRoot::RealSingle(x)));
        Self::from_roots(gain, &specs)
    }

    /// Rebuilds the polynomial in place from an updated root list, as the
    /// interactive editor does when a defining root moves.
    pub fn update_roots(&mut self, gain: S, roots: &Vec<PolynomialRoot<S>>)
        requires
            2 * roots@.len() + 1 <= usize::MAX,
        ensures
            final(self)@ == sp_trim(
                sp_from_roots_state(gain, roots@, roots@.len(), (2 * roots@.len() + 1) as nat),
            ),
            final(self)@.len() <= 2 * roots@.len() + 1,
            final(self).wf(),
    {
        *self = Self::from_roots(gain, roots);
    }

    /// The combination `x·a + y·b`, zero-padded to the longer operand and
    /// trimmed; when `a` is the shorter operand the roles are swapped, so
    /// each coefficient is built from the longer operand's side first.
    pub fn from_sum(x: S, a: &Self, y: S, b: &Self) -> (r: Self)
        ensures
            a@.len() >= b@.len() && a@.len() >= 1 ==> r@ == sp_trim(sp_sum_terms(x, a@, y, b@)),
            a@.len() < b@.len() ==> r@ == sp_trim(sp_sum_terms(y, b@, x, a@)),
            a@.len() == 0 && b@.len() == 0 ==> r@ == seq![S::sp_zero()],
            r.wf(),
    {
        if a.terms.len() < b.terms.len() {
            Self::from_sum_ordered(y, b, x, a)
        } else {
            Self::from_sum_ordered(x, a, y, b)
        }
    }

    /// The ordered worker for [`Polynomial::from_sum`]: `a` is at least as
    /// long as `b`.
    fn from_sum_ordered(x: S, a: &Self, y: S, b: &Self) -> (r: Self)
        requires
            a@.len() >= b@.len(),
        ensures
            a@.len() >= 1 ==> r@ == sp_trim(sp_sum_terms(x, a@, y, b@)),
            a@.len() == 0 ==> r@ == seq![S::sp_zero()],
            r.wf(),
    {
        let mut out: Vec<S> = Vec::new();
        let mut i: usize = 0;
        while i < a.terms.len()
            invariant
                i <= a@.len(),
                b@.len() <= a@.len(),
                out@ == sp_sum_terms(x, a@, y, b@).take(i as int),
            decreases a@.len() - i,
        {
            let bi = if i < b.terms.len() {
                b.terms[i]
            } else {
                S::zero()
            };
            out.push(x.mul(a.terms[i]).add(y.mul(bi)));
            assert(out@ =~= sp_sum_terms(x, a@, y, b@).take(i + 1 as int));
            i = i + 1;
        }
        assert(out@ =~= sp_sum_terms(x, a@, y, b@));
        proof {
            if a@.len() >= 1 {
                lemma_trim_shape(sp_sum_terms(x, a@, y, b@));
            }
        }
        Self::new(out)
    }

    /// The coefficient product of `a` and `b`: their full convolution,
    /// trimmed.
    pub fn from_mul(a: &Self, b: &Self) -> (r: Self)
        requires
            a@.len() + b@.len() >= 1,
            a@.len() + b@.len() <= usize::MAX,
        ensures
            a@.len() + b@.len() >= 2 ==> r@ == sp_trim(
                sp_conv(a@, b@, (a@.len() + b@.len() - 1) as nat),
            ),
            a@.len() + b@.len() == 1 ==> r@ == seq![S::sp_zero()],
            a@.len() + b@.len() >= 2 ==> r@.len() <= a@.len() + b@.len() - 1,
            r.wf(),
    {
        let mut out = zero_vec::<S>(a.terms.len() + b.terms.len() - 1);
        conv(&a.terms, &b.terms, &mut out);
        proof {
            lemma_trim_len_le(sp_conv(a@, b@, (a@.len() + b@.len() - 1) as nat));
        }
        proof {
            if a@.len() + b@.len() >= 2 {
                lemma_trim_shape(sp_conv(a@, b@, (a@.len() + b@.len() - 1) as nat));
            }
        }
        Self::new(out)
    }

    /// The coefficient product of `self` and `rhs`.
    pub fn mul(&self, rhs: &Self) -> (r: Self)
        requires
            self@.len() + rhs@.len() >= 1,
            self@.len() + rhs@.len() <= usize::MAX,
        ensures
            self@.len() + rhs@.len() >= 2 ==> r@ == sp_trim(
                sp_conv(self@, rhs@, (self@.len() + rhs@.len() - 1) as nat),
            ),
            self@.len() + rhs@.len() == 1 ==> r@ == seq![S::sp_zero()],
            self@.len() + rhs@.len() >= 2 ==> r@.len() <= self@.len() + rhs@.len() - 1,
            r.wf(),
    {
        Self::from_mul(self, rhs)
    }

    /// Every coefficient scaled by `rhs`, trimmed.
    pub fn mul_scalar(&self, rhs: S) -> (r: Self)
        ensures
            self@.len() >= 1 ==> r@ == sp_trim(sp_scaled_terms(rhs, self@)),
            self@.len() == 0 ==> r@ == seq![S::sp_zero()],
            r.wf(),
    {
        let mut out: Vec<S> = Vec::new();
        let mut i: usize = 0;
        while i < self.terms.len()
            invariant
                i <= self@.len(),
                out@ == sp_scaled_terms(rhs, self@).take(i as int),
            decreases self@.len() - i,
        {
            out.push(rhs.mul(self.terms[i]));
            assert(out@ =~= sp_scaled_terms(rhs, self@).take(i + 1 as int));
            i = i + 1;
        }
        assert(out@ =~= sp_scaled_terms(rhs, self@));
        Self::new(out)
    }

    /// The elementwise sum, zero-padded to the longer operand and trimmed;
    /// the longer operand's coefficient stands on the right of each
    /// addition.
    pub fn add(self, rhs: Self) -> (r: Self)
        requires
            self@.len() >= 1,
            rhs@.len() >= 1,
        ensures
            self@.len() > rhs@.len() ==> r@ == sp_trim(sp_padded_sum(rhs@, self@)),
            self@.len() <= rhs@.len() ==> r@ == sp_trim(sp_padded_sum(self@, rhs@)),
            r.wf(),
    {
        let r = if self.terms.len() > rhs.terms.len() {
            Self::padded_sum(&rhs, &self)
        } else {
            Self::padded_sum(&self, &rhs)
        };
        r
    }

    /// The ordered worker for [`Polynomial::add`]: `second` is at least as
    /// long as `first`, which is zero-padded.
    fn padded_sum(first: &Self, second: &Self) -> (r: Self)
        requires
            first@.len() <= second@.len(),
            second@.len() >= 1,
        ensures
            r@ == sp_trim(sp_padded_sum(first@, second@)),
            r.wf(),
    {
        let mut out: Vec<S> = Vec::new();
        let mut i: usize = 0;
        while i < second.terms.len()
            invariant
                i <= second@.len(),
                first@.len() <= second@.len(),
                out@ == sp_padded_sum(first@, second@).take(i as int),
            decreases second@.len() - i,
        {
            let fi = if i < first.terms.len() {
                first.terms[i]
            } else {
                S::zero()
            };
            out.push(fi.add(second.terms[i]));
            assert(out@ =~= sp_padded_sum(first@, second@).take(i + 1 as int));
            i = i + 1;
        }
        assert(out@ =~= sp_padded_sum(first@, second@));
        proof {
            lemma_trim_shape(sp_padded_sum(first@, second@));
        }
        Self::new(out)
    }

    /// The elementwise difference `self - rhs`, zero-padded to the longer
    /// operand and trimmed.
    pub fn sub(self, rhs: Self) -> (r: Self)
        requires
            self@.len() >= 1,
            rhs@.len() >= 1,
        ensures
            r@ == sp_trim(sp_padded_sub(self@, rhs@)),
            r@.len() <= self@.len() || r@.len() <= rhs@.len(),
            r.wf(),
    {
        let len = if self.terms.len() > rhs.terms.len() {
            self.terms.len()
        } else {
            rhs.terms.len()
        };
        let mut out: Vec<S> = Vec::new();
        let mut i: usize = 0;
        while i < len
            invariant
                i <= len,
                len == sp_padded_sub(self@, rhs@).len(),
                len >= self@.len(),
                len >= rhs@.len(),
                out@ == sp_padded_sub(self@, rhs@).take(i as int),
            decreases len - i,
    {
            let a = if i < self.terms.len() {
                self.terms[i]
            } else {
                S::zero()
            };
            let b = if i < rhs.terms.len() {
                rhs.terms[i]
            } else {
                S::zero()
            };
            out.push(a.sub(b));
            assert(out@ =~= sp_padded_sub(self@, rhs@).take(i + 1 as int));
            i = i + 1;
        }
        assert(out@ =~= sp_padded_sub(self@, rhs@));
        proof {
            lemma_trim_shape(sp_padded_sub(self@, rhs@));
            lemma_trim_len_le(sp_padded_sub(self@, rhs@));
        }
        Self::new(out)
    }
}

} // verus!
