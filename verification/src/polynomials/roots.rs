use vstd::prelude::*;

use crate::complex::Complex;
use crate::polynomials::{sp_eval_complex, sp_eval_complex_deriv, Polynomial};
use crate::scalar::Scalar;

verus! {

/// A root given at polynomial-construction time: either a single real
/// root, or a conjugate complex pair, which contributes the real quadratic
/// factor `x² − 2·Re(c)·x + |c|²` so that the built polynomial keeps real
/// coefficients.
#[derive(Clone, Copy)]
pub enum PolynomialRoot<S> {
    RealSingle(S),
    ComplexPair(Complex<S>),
}

/// The Lagrange accumulator over the first `k` non-leading coefficients,
/// taken from the second-highest power downwards: the running sum of
/// `|aᵢ / a_last|`.
pub open spec fn sp_lagrange_acc<S: Scalar>(t: Seq<S>, k: nat) -> S
    decreases k,
{
    if k == 0 {
        S::sp_zero()
    } else {
        sp_lagrange_acc(t, (k - 1) as nat).sp_add(
            t[t.len() - 1 - k].sp_div(t.last()).sp_abs(),
        )
    }
}

/// The Cauchy accumulator over the first `k` non-leading coefficients:
/// the running maximum of `|aᵢ / a_last|`.
pub open spec fn sp_cauchy_acc<S: Scalar>(t: Seq<S>, k: nat) -> S
    decreases k,
{
    if k == 0 {
        S::sp_zero()
    } else {
        t[t.len() - 1 - k].sp_div(t.last()).sp_abs().sp_max(sp_cauchy_acc(t, (k - 1) as nat))
    }
}

/// The classical two-bound upper estimate on root modulus: the smaller of
/// the Lagrange bound `max(1, Σ|aᵢ/a_last|)` and the Cauchy bound
/// `1 + max|aᵢ/a_last|`.
pub open spec fn sp_max_bound<S: Scalar>(t: Seq<S>) -> S {
    sp_lagrange_acc(t, (t.len() - 1) as nat).sp_max(S::sp_one()).sp_min(
        sp_cauchy_acc(t, (t.len() - 1) as nat).sp_add(S::sp_one()),
    )
}

/// The Aberth coupling term for estimate `k` over the first `j` current
/// estimates: the running sum of `1 / (g[k] − g[j'])` over `j' ≠ k`.
pub open spec fn sp_coupling<S: Scalar>(g: Seq<Complex<S>>, k: int, j: nat) -> Complex<S>
    decreases j,
{
    if j == 0 {
        Complex::sp_zero()
    } else if j - 1 == k {
        sp_coupling(g, k, (j - 1) as nat)
    } else {
        sp_coupling(g, k, (j - 1) as nat).sp_add(
            Complex::sp_one().sp_div(g[k].sp_sub(g[j - 1])),
        )
    }
}

/// The simultaneous correction for estimate `k`, computed from one
/// consistent snapshot `g` of all estimates: with the Newton step
/// `w = P(g[k]) / P'(g[k])` and the coupling sum `s`, the offset is
/// `w / (1 − w·s)`.
pub open spec fn sp_aberth_offset<S: Scalar>(p: Seq<S>, g: Seq<Complex<S>>, k: int) -> Complex<S> {
    let a = sp_eval_complex(p, g[k]);
    let b = sp_eval_complex_deriv(p, g[k]);
    let frac = a.sp_mul(b.sp_inv());
    let sum = sp_coupling(g, k, g.len());
    frac.sp_div(Complex::sp_one().sp_sub(frac.sp_mul(sum)))
}

/// One full Aberth pass: every offset is computed from the same snapshot
/// `g`, and all of them are applied together.
pub open spec fn sp_aberth_step<S: Scalar>(p: Seq<S>, g: Seq<Complex<S>>) -> Seq<Complex<S>> {
    Seq::new(g.len(), |i: int| g[i].sp_sub(sp_aberth_offset(p, g, i)))
}

/// The estimates after `n` full Aberth passes from `g`.
pub open spec fn sp_aberth_steps<S: Scalar>(p: Seq<S>, g: Seq<Complex<S>>, n: nat) -> Seq<
    Complex<S>,
>
    decreases n,
{
    if n == 0 {
        g
    } else {
        sp_aberth_step(p, sp_aberth_steps(p, g, (n - 1) as nat))
    }
}

/// The running maximum of the squared offset norms of the first `j`
/// offsets of one pass from snapshot `g`.
pub open spec fn sp_aberth_max_prefix<S: Scalar>(p: Seq<S>, g: Seq<Complex<S>>, j: nat) -> S
    decreases j,
{
    if j == 0 {
        S::sp_zero()
    } else {
        let m = sp_aberth_max_prefix(p, g, (j - 1) as nat);
        let norm = sp_aberth_offset(p, g, j - 1).sp_norm_sqr();
        if m.sp_lt(norm) {
            norm
        } else {
            m
        }
    }
}

/// The largest squared offset norm of one pass from snapshot `g`.
pub open spec fn sp_aberth_max<S: Scalar>(p: Seq<S>, g: Seq<Complex<S>>) -> S {
    sp_aberth_max_prefix(p, g, g.len())
}

/// The convergence measure the iteration tests after `n` passes from
/// `g0`: before any pass it stands at infinity, afterwards it is the
/// largest squared offset norm of the last pass.
pub open spec fn sp_pass_max<S: Scalar>(p: Seq<S>, g0: Seq<Complex<S>>, n: nat) -> S {
    if n == 0 {
        S::sp_infinity()
    } else {
        sp_aberth_max(p, sp_aberth_steps(p, g0, (n - 1) as nat))
    }
}

/// Each guess displaced by `0.01·(u + v·i)`, where `u` and `v` are the
/// next two values of the injected random sequence, read cyclically.
pub open spec fn sp_perturbed<S: Scalar>(g: Seq<Complex<S>>, rng: Seq<S>) -> Seq<Complex<S>> {
    Seq::new(
        g.len(),
        |i: int|
            Complex::sp_from_real(S::sp_from_ratio(1, 100)).sp_mul(
                Complex {
                    re: rng[(2 * i) % (rng.len() as int)],
                    im: rng[(2 * i + 1) % (rng.len() as int)],
                },
            ).sp_add(g[i]),
    )
}

/// The `n` cold-start seeds for the polynomial `p`: evenly spaced angles
/// (offset by half a radian to avoid exact symmetry) on the circle whose
/// radius is the midpoint of the root-modulus bounds.
pub open spec fn sp_seeds<S: Scalar>(p: Seq<S>, n: nat) -> Seq<Complex<S>> {
    let lower = S::sp_one().sp_div(sp_max_bound(p.reverse()));
    let upper = sp_max_bound(p);
    let avg = lower.sp_add(upper).sp_div(S::sp_from_usize(2));
    let angle = S::sp_from_ratio(360, 1).sp_div(S::sp_from_usize((p.len() - 1) as usize));
    Seq::new(
        n,
        |i: int|
            Complex::sp_from_polar(
                avg,
                S::sp_from_usize(i as usize).sp_mul(angle).sp_add(S::sp_from_ratio(1, 2)),
            ),
    )
}

/// Finding the complex roots of a univariate polynomial by simultaneous
/// iteration, for use in interactive recomputation: efficiency first, and
/// a reached iteration cap is an answer, not an error.
pub trait RootFinding<S: Scalar>: View<V = Seq<S>> {
    /// The upper bound on root modulus by Lagrange's and Cauchy's bounds:
    /// the smaller of the two.
    fn determine_max_bound(terms: &Vec<S>) -> (r: S)
        requires
            terms@.len() >= 1,
        ensures
            r == sp_max_bound(terms@),
    ;

    /// Lower and upper bounds for the modulus of the polynomial's roots:
    /// the upper bound of the coefficients, and the reciprocal of the
    /// upper bound of the reversed (reciprocal-root) coefficients.
    fn determine_roots_bounds(&self) -> (r: (S, S))
        requires
            self@.len() >= 1,
        ensures
            r.0 == S::sp_one().sp_div(sp_max_bound(self@.reverse())),
            r.1 == sp_max_bound(self@),
    ;

    /// Aberth's method from the given initial estimates: repeats full
    /// simultaneous passes until the largest squared offset norm is no
    /// more than `prec²` or 50 passes have run, and returns the number of
    /// passes performed. Every pass computes all offsets from one
    /// consistent snapshot and applies them together.
    fn find_roots_from(&self, initial_guess: &mut Vec<Complex<S>>, prec: S) -> (count: usize)
        ensures
            count <= 50,
            final(initial_guess)@ == sp_aberth_steps(self@, old(initial_guess)@, count as nat),
            final(initial_guess)@.len() == old(initial_guess)@.len(),
            count < 50 ==> !(prec.sp_mul(prec).sp_lt(
                sp_pass_max(self@, old(initial_guess)@, count as nat),
            )),
            forall|m: nat|
                m < count ==> prec.sp_mul(prec).sp_lt(
                    #[trigger] sp_pass_max(self@, old(initial_guess)@, m),
                ),
    ;

    /// Aberth's method from scratch: seeds one estimate per root evenly
    /// inside the root-modulus bounds, then iterates as
    /// [`RootFinding::find_roots_from`] does.
    fn find_roots(&self, output: &mut Vec<Complex<S>>, prec: S) -> (count: usize)
        requires
            self@.len() >= 1,
            old(output)@.len() == self@.len() - 1,
        ensures
            count <= 50,
            final(output)@ == sp_aberth_steps(
                self@,
                sp_seeds(self@, old(output)@.len() as nat),
                count as nat,
            ),
            final(output)@.len() == old(output)@.len(),
            count < 50 ==> !(prec.sp_mul(prec).sp_lt(
                sp_pass_max(self@, sp_seeds(self@, old(output)@.len() as nat), count as nat),
            )),
            forall|m: nat|
                m < count ==> prec.sp_mul(prec).sp_lt(
                    #[trigger] sp_pass_max(self@, sp_seeds(self@, old(output)@.len() as nat), m),
                ),
    ;

    /// Aberth's method from the given estimates after displacing each by
    /// a small amount drawn from the injected random sequence, which
    /// breaks exact ties between successive warm starts.
    fn find_roots_from_rng(&self, initial_guess: &mut Vec<Complex<S>>, prec: S, rng: &Vec<S>) -> (count:
        usize)
        requires
            rng@.len() >= 1,
            old(initial_guess)@.len() <= usize::MAX / 2,
        ensures
            count <= 50,
            final(initial_guess)@ == sp_aberth_steps(
                self@,
                sp_perturbed(old(initial_guess)@, rng@),
                count as nat,
            ),
            final(initial_guess)@.len() == old(initial_guess)@.len(),
            count < 50 ==> !(prec.sp_mul(prec).sp_lt(
                sp_pass_max(self@, sp_perturbed(old(initial_guess)@, rng@), count as nat),
            )),
            forall|m: nat|
                m < count ==> prec.sp_mul(prec).sp_lt(
                    #[trigger] sp_pass_max(self@, sp_perturbed(old(initial_guess)@, rng@), m),
                ),
    ;
}

impl<S: Scalar> RootFinding<S> for Polynomial<S> {
    fn determine_max_bound(terms: &Vec<S>) -> (r: S) {
        let mut lagrange = S::zero();
        let mut cauchy = S::zero();
        let n: usize = terms.len();
        let last = terms[n - 1];
        let mut k: usize = 0;
        while k < n - 1
            invariant
                k <= n - 1,
                n == terms@.len(),
                n >= 1,
                last == terms@.last(),
                lagrange == sp_lagrange_acc(terms@, k as nat),
                cauchy == sp_cauchy_acc(terms@, k as nat),
            decreases n - 1 - k,
        {
            let term = terms[n - 2 - k];
            let div = term.div(last).abs();
            lagrange = lagrange.add(div);
            cauchy = div.max(cauchy);
            k = k + 1;
        }
        lagrange = lagrange.max(S::one());
        cauchy = cauchy.add(S::one());
        lagrange.min(cauchy)
    }

    fn determine_roots_bounds(&self) -> (r: (S, S)) {
        let terms = self.get_terms();
        let upper = Self::determine_max_bound(terms);
        let n: usize = terms.len();
        let mut rev: Vec<S> = Vec::new();
        let mut i: usize = 0;
        while i < n
            invariant
                i <= n,
                n == terms@.len(),
                rev@ == terms@.reverse().take(i as int),
            decreases n - i,
        {
            rev.push(terms[n - 1 - i]);
            assert(rev@ =~= terms@.reverse().take(i + 1 as int));
            i = i + 1;
        }
        assert(rev@ =~= terms@.reverse());
        let lower = S::one().div(Self::determine_max_bound(&rev));
        (lower, upper)
    }

    fn find_roots_from(&self, initial_guess: &mut Vec<Complex<S>>, prec: S) -> (count: usize) {
        let prec2 = prec.mul(prec);
        let mut max_off = S::infinity();
        let mut count: usize = 0;
        let ghost g0 = initial_guess@;
        let n: usize = initial_guess.len();
        while prec2.lt(max_off) && count < 50
            invariant
                count <= 50,
                n == initial_guess@.len(),
                n == g0.len(),
                prec2 == prec.sp_mul(prec),
                initial_guess@ == sp_aberth_steps(self@, g0, count as nat),
                max_off == sp_pass_max(self@, g0, count as nat),
                forall|m: nat|
                    m < count ==> prec.sp_mul(prec).sp_lt(#[trigger] sp_pass_max(self@, g0, m)),
            decreases 50 - count,
        {
            max_off = S::zero();
            count = count + 1;
            let ghost snap = initial_guess@;

            let mut offsets: Vec<Complex<S>> = Vec::new();
            let mut k: usize = 0;
            while k < n
                invariant
                    k <= n,
                    n == initial_guess@.len(),
                    initial_guess@ == snap,
                    offsets@.len() == k,
                    forall|q: int|
                        0 <= q < k ==> offsets@[q] == sp_aberth_offset(self@, snap, q),
                    max_off == sp_aberth_max_prefix(self@, snap, k as nat),
                decreases n - k,
            {
                let a = self.eval_complex(initial_guess[k]);
                let b = self.eval_complex_derivative(initial_guess[k]);
                let frac = a.mul(b.inv());

                let mut sum = Complex::<S>::zero();
                let mut j: usize = 0;
                while j < n
                    invariant
                        j <= n,
                        k < n,
                        n == initial_guess@.len(),
                        initial_guess@ == snap,
                        sum == sp_coupling(snap, k as int, j as nat),
                    decreases n - j,
                {
                    if j != k {
                        sum = sum.add(
                            Complex::<S>::one().div(initial_guess[k].sub(initial_guess[j])),
                        );
                    }
                    j = j + 1;
                }

                let off = frac.div(Complex::<S>::one().sub(frac.mul(sum)));
                assert(off == sp_aberth_offset(self@, snap, k as int));
                let norm = off.norm_sqr();
                if max_off.lt(norm) {
                    max_off = norm;
                }
                offsets.push(off);
                k = k + 1;
            }

            let mut t: usize = 0;
            while t < n
                invariant
                    t <= n,
                    n == initial_guess@.len(),
                    offsets@.len() == n,
                    forall|q: int|
                        0 <= q < n ==> offsets@[q] == sp_aberth_offset(self@, snap, q),
                    forall|q: int|
                        0 <= q < t ==> initial_guess@[q] == sp_aberth_step(self@, snap)[q],
                    forall|q: int| t <= q < n ==> initial_guess@[q] == snap[q],
                    snap.len() == n,
                decreases n - t,
            {
                initial_guess[t] = initial_guess[t].sub(offsets[t]);
                t = t + 1;
            }
            assert(initial_guess@ =~= sp_aberth_step(self@, snap));
        }
        count
    }

    fn find_roots(&self, output: &mut Vec<Complex<S>>, prec: S) -> (count: usize) {
        let terms = self.get_terms();
        let bounds = self.determine_roots_bounds();
        let avg = bounds.0.add(bounds.1).div(S::from_usize(2));

        let order: usize = terms.len() - 1;
        let angle = S::from_ratio(360, 1).div(S::from_usize(order));

        let n: usize = output.len();
        let ghost seeds = sp_seeds(self@, n as nat);
        let mut i: usize = 0;
        while i < n
            invariant
                i <= n,
                n == output@.len(),
                n == seeds.len(),
                avg == S::sp_one().sp_div(sp_max_bound(self@.reverse())).sp_add(
                    sp_max_bound(self@),
                ).sp_div(S::sp_from_usize(2)),
                self@.len() >= 1,
                order == self@.len() - 1,
                angle == S::sp_from_ratio(360, 1).sp_div(S::sp_from_usize(order)),
                seeds == sp_seeds(self@, n as nat),
                forall|q: int| 0 <= q < i ==> output@[q] == seeds[q],
            decreases n - i,
        {
            let cpx = Complex::from_polar(avg, S::from_usize(i).mul(angle).add(S::from_ratio(1, 2)));
            output[i] = cpx;
            i = i + 1;
        }
        assert(output@ =~= seeds);
        self.find_roots_from(output, prec)
    }

    fn find_roots_from_rng(&self, initial_guess: &mut Vec<Complex<S>>, prec: S, rng: &Vec<S>) -> (count:
        usize) {
        let t: usize = rng.len();
        let n: usize = initial_guess.len();
        let ghost g0 = initial_guess@;
        let mut i: usize = 0;
        while i < n
            invariant
                i <= n,
                n == initial_guess@.len(),
                n == g0.len(),
                n <= usize::MAX / 2,
                t == rng@.len(),
                t >= 1,
                forall|q: int| 0 <= q < i ==> initial_guess@[q] == sp_perturbed(g0, rng@)[q],
                forall|q: int| i <= q < n ==> initial_guess@[q] == g0[q],
            decreases n - i,
        {
            let r = Complex::from_real(S::from_ratio(1, 100)).mul(
                Complex::new(rng[(2 * i) % t], rng[(2 * i + 1) % t]),
            );
            initial_guess[i] = r.add(initial_guess[i]);
            i = i + 1;
        }
        assert(initial_guess@ =~= sp_perturbed(g0, rng@));
        self.find_roots_from(initial_guess, prec)
    }
}

/// A root position wrapped for approximate comparison in tests of the
/// root finder.
pub struct Root<S>(pub Complex<S>);

impl<S: Scalar> Root<S> {
    /// The positive difference `a − b`, clamped at zero.
    pub open spec fn sp_pos_diff(a: S, b: S) -> S {
        if b.sp_lt(a) {
            a.sp_sub(b)
        } else {
            S::sp_zero()
        }
    }

    /// Whether the positive differences of both components are within
    /// `epsilon`.
    pub open spec fn sp_abs_diff_eq(self, other: Root<S>, epsilon: S) -> bool {
        !epsilon.sp_lt(Self::sp_pos_diff(self.0.re, other.0.re)) && !epsilon.sp_lt(
            Self::sp_pos_diff(self.0.im, other.0.im),
        )
    }

    /// Tests both components' positive differences against `epsilon`.
    pub fn abs_diff_eq(&self, other: &Self, epsilon: S) -> (r: bool)
        ensures
            r == self.sp_abs_diff_eq(*other, epsilon),
    {
        let dre = Self::pos_diff(self.0.re, other.0.re);
        let dim = Self::pos_diff(self.0.im, other.0.im);
        !epsilon.lt(dre) && !epsilon.lt(dim)
    }

    /// The positive difference `a − b`, clamped at zero.
    fn pos_diff(a: S, b: S) -> (r: S)
        ensures
            r == Self::sp_pos_diff(a, b),
    {
        if b.lt(a) {
            a.sub(b)
        } else {
            S::zero()
        }
    }
}

} // verus!
