use vstd::prelude::*;

use crate::complex::Complex;
use crate::midware::curves::{sp_vertex_slot, Curves, Point};
use crate::polynomials::roots::{
    sp_aberth_steps, sp_pass_max, sp_perturbed, sp_seeds, RootFinding,
};
use crate::polynomials::{
    sp_conv, sp_derivative_terms, sp_eval_complex, sp_padded_sub, sp_sat_dec, sp_sum_terms,
    sp_trim, Polynomial,
};
use crate::scalar::Scalar;
use crate::NotNanFloat;

verus! {

/// The most geometric-progression samples one sweep will generate; the
/// per-step ratio is chosen so that a sweep from its lowest to its highest
/// gain takes well under this many steps.
pub const GAIN_STEP_CAP: usize = 1024;

/// The near-infinite sentinel gain standing in for the asymptotic regime,
/// as an integer numerator over one.
pub const SENTINEL_GAIN_NUM: i64 = 1000000000000;

/// What can go wrong when a root-locus engine is built: the fixed
/// polynomial must not have lower order than the gain-scaled one, since
/// the branch count would be undefined otherwise.
#[derive(Clone, Copy, PartialEq, Eq, Structural, Debug)]
pub enum RootLocusError {
    InvalidPrecondition,
}

/// Every pair of gains in `s` is strictly ordered by its integer key.
pub open spec fn sp_sorted_keys<S: Scalar>(s: Seq<S>) -> bool {
    forall|i: int, j: int| 0 <= i < j < s.len() ==> s[i].sp_key() < s[j].sp_key()
}

/// No gain in `s` is invalid.
pub open spec fn sp_all_numbers<S: Scalar>(s: Seq<S>) -> bool {
    forall|i: int| 0 <= i < s.len() ==> !(#[trigger] s[i]).sp_is_nan()
}

/// Some gain in `s` carries the key `k`.
pub open spec fn sp_has_key<S: Scalar>(s: Seq<S>, k: u64) -> bool {
    exists|i: int| 0 <= i < s.len() && (#[trigger] s[i]).sp_key() == k
}

/// The gain `k` for a given point `p` with `A(p) + k·B(p) = 0`, that is
/// `k = −A(p) / B(p)`.
pub open spec fn sp_gain_at<S: Scalar>(a: Seq<S>, b: Seq<S>, p: Complex<S>) -> Complex<S> {
    sp_eval_complex(a, p).sp_neg().sp_div(sp_eval_complex(b, p))
}

/// The coefficients of the derivative polynomial in its stored form: the
/// trimmed `i·aᵢ` sequence, or the zero polynomial for an input of order
/// zero.
pub open spec fn sp_deriv_poly<S: Scalar>(p: Seq<S>) -> Seq<S> {
    if p.len() <= 1 {
        seq![S::sp_zero()]
    } else {
        sp_trim(sp_derivative_terms(p))
    }
}

/// The intersection polynomial `A'·B − B'·A`, whose roots are the points
/// where branches collide; for a degenerate pair of constants it is the
/// zero polynomial, which has no roots to offer.
pub open spec fn sp_ipoly<S: Scalar>(a: Seq<S>, b: Seq<S>) -> Seq<S> {
    let da = sp_deriv_poly(a);
    let db = sp_deriv_poly(b);
    let t1 = sp_trim(sp_conv(da, b, (da.len() + b.len() - 1) as nat));
    let t2 = sp_trim(sp_conv(db, a, (db.len() + a.len() - 1) as nat));
    sp_trim(sp_padded_sub(t1, t2))
}

/// The fixed per-step ratio of the gain sweep: the gain span, taken to
/// the power of one over the designed step count.
pub open spec fn sp_interval<S: Scalar>(min_gain: S, max_gain: S) -> S {
    max_gain.sp_div(min_gain).sp_powf(S::sp_from_ratio(1, 960))
}

/// The geometric progression of gains from `k` up to (but excluding)
/// `max_gain`, running out after `fuel` steps.
pub open spec fn sp_progression<S: Scalar>(k: S, interval: S, max_gain: S, fuel: nat) -> Seq<S>
    decreases fuel,
{
    if fuel == 0 || !k.sp_lt(max_gain) {
        Seq::empty()
    } else {
        seq![k] + sp_progression(k.sp_mul(interval), interval, max_gain, (fuel - 1) as nat)
    }
}

/// Some gain of the sweep tail carries the key `k`.
pub open spec fn sp_gains_have_key<S: Scalar>(
    gains: Seq<(NotNanFloat<S>, usize)>,
    k: u64,
) -> bool {
    exists|t: int| 1 <= t < gains.len() && (#[trigger] gains[t]).0.0.sp_key() == k
}

/// A candidate bifurcation gain survives the filter: a number that is
/// non-negative in sign and finite (below infinity).
pub open spec fn sp_retained<S: Scalar>(v: S) -> bool {
    !v.sp_is_nan() && v.sp_sign_positive() && v.sp_lt(S::sp_infinity())
}

/// The gain sweep is exactly the union of its three sources. Every gain
/// of the tail is accounted for — the sentinel, a retained gain computed
/// at one of the intersection roots found after `n` Aberth passes, or a
/// point of the bounded geometric progression — and conversely every
/// retained candidate and every valid progression point reaches the
/// sweep, collapsing onto an entry with its key.
pub open spec fn sp_sweep_sourced<S: Scalar>(
    a: Seq<S>,
    b: Seq<S>,
    min_gain: S,
    max_gain: S,
    gains: Seq<(NotNanFloat<S>, usize)>,
    n: nat,
) -> bool {
    let ip = sp_ipoly(a, b);
    let iroots = sp_aberth_steps(ip, sp_seeds(ip, sp_sat_dec(ip.len())), n);
    let cands = Seq::new(iroots.len(), |w: int| sp_gain_at(a, b, iroots[w]).re);
    let prog = sp_progression(
        min_gain,
        sp_interval(min_gain, max_gain),
        max_gain,
        GAIN_STEP_CAP as nat,
    );
    &&& forall|t: int|
        1 <= t < gains.len() ==> (#[trigger] gains[t]).0.0 == S::sp_from_ratio(
            SENTINEL_GAIN_NUM,
            1,
        ) || (cands.contains(gains[t].0.0) && sp_retained(gains[t].0.0)) || prog.contains(
            gains[t].0.0,
        )
    &&& forall|w: int|
        0 <= w < cands.len() && sp_retained(#[trigger] cands[w]) ==> sp_gains_have_key(
            gains,
            cands[w].sp_key(),
        )
    &&& forall|w: int|
        0 <= w < prog.len() && !(#[trigger] prog[w]).sp_is_nan() ==> sp_gains_have_key(
            gains,
            prog[w].sp_key(),
        )
}

/// Inserts a gain into an ordered, duplicate-free, number-only set of
/// gains, kept sorted by integer key: an invalid gain is dropped, a gain
/// whose key is already present collapses into the existing entry.
fn insert_gain<S: Scalar>(list: &mut Vec<S>, g: S)
    requires
        sp_sorted_keys(old(list)@),
        sp_all_numbers(old(list)@),
    ensures
        sp_sorted_keys(final(list)@),
        sp_all_numbers(final(list)@),
        old(list)@.len() <= final(list)@.len() <= old(list)@.len() + 1,
        g.sp_is_nan() ==> final(list)@ == old(list)@,
        !g.sp_is_nan() ==> sp_has_key(final(list)@, g.sp_key()),
        forall|q: int|
            0 <= q < final(list)@.len() ==> old(list)@.contains(#[trigger] final(list)@[q])
                || final(list)@[q] == g,
        forall|j: int| 0 <= j < old(list)@.len() ==> final(list)@.contains(#[trigger] old(list)@[j]),
        forall|k: u64| sp_has_key(old(list)@, k) ==> sp_has_key(final(list)@, k),
{
    if g.is_nan() {
        return ;
    }
    let key: u64 = g.key();
    let mut idx: usize = 0;
    while idx < list.len() && list[idx].key() < key
        invariant
            idx <= list@.len(),
            sp_sorted_keys(list@),
            sp_all_numbers(list@),
            list@ == old(list)@,
            forall|t: int| 0 <= t < idx ==> (#[trigger] list@[t]).sp_key() < key,
        decreases list@.len() - idx,
    {
        idx = idx + 1;
    }
    if idx < list.len() && list[idx].key() == key {
        proof {
            assert(sp_has_key(list@, g.sp_key()));
        }
        return ;
    }
    let ghost before = list@;
    list.insert(idx, g);
    proof {
        assert(list@[idx as int] == g);
        assert(sp_has_key(list@, g.sp_key()));
        assert forall|i: int, j: int| 0 <= i < j < list@.len() implies list@[i].sp_key()
            < list@[j].sp_key() by {
            if j < idx {
            } else if i < idx && j == idx {
            } else if i == idx {
                assert(list@[j] == before[j - 1]);
                if idx < before.len() {
                    assert(before[idx as int].sp_key() != key);
                }
            } else if i > idx {
                assert(list@[i] == before[i - 1]);
                assert(list@[j] == before[j - 1]);
            } else {
                assert(list@[i] == before[i]);
                assert(list@[j] == before[j - 1]);
                if idx < before.len() {
                    assert(before[idx as int].sp_key() != key);
                }
            }
        }
        assert forall|q: int| 0 <= q < list@.len() implies before.contains(#[trigger] list@[q])
            || list@[q] == g by {
            if q < idx {
                assert(list@[q] == before[q]);
            } else if q > idx {
                assert(list@[q] == before[q - 1]);
            }
        }
        assert forall|j: int| 0 <= j < before.len() implies list@.contains(
            #[trigger] before[j],
        ) by {
            if j < idx {
                assert(list@[j] == before[j]);
            } else {
                assert(list@[j + 1] == before[j]);
            }
        }
        assert forall|k: u64| sp_has_key(before, k) implies sp_has_key(list@, k) by {
            let w = choose|i: int| 0 <= i < before.len() && (#[trigger] before[i]).sp_key() == k;
            if w < idx {
                assert(list@[w] == before[w]);
            } else {
                assert(list@[w + 1] == before[w]);
            }
        }
    }
}

/// The engine that computes the roots of `A + k·B` as the gain `k` varies
/// from zero towards infinity, one ordered gain sample at a time, each
/// sample's roots warm-starting the next.
pub struct RootLocus<S: Scalar> {
    poly_a: Polynomial<S>,
    poly_b: Polynomial<S>,
    /// The ordered gain sweep; each gain maps to the index of its block
    /// in `roots`.
    gains: Vec<(NotNanFloat<S>, usize)>,
    /// All roots in one dense gain-major buffer: the roots of gain sample
    /// `n` occupy indices `b·n` up to `b·(n + 1)`, where `b` is the
    /// branch count.
    roots: Vec<Complex<S>>,
}

impl<S: Scalar> RootLocus<S> {
    /// The fixed polynomial `A`.
    pub closed spec fn spec_poly_a(self) -> Polynomial<S> {
        self.poly_a
    }

    /// The gain-scaled polynomial `B`.
    pub closed spec fn spec_poly_b(self) -> Polynomial<S> {
        self.poly_b
    }

    /// The gain sweep with each gain's block index.
    pub closed spec fn spec_gains(self) -> Seq<(NotNanFloat<S>, usize)> {
        self.gains@
    }

    /// The dense gain-major root buffer.
    pub closed spec fn spec_roots(self) -> Seq<Complex<S>> {
        self.roots@
    }

    /// Both polynomials are well-formed and `B` has no higher order than
    /// `A`.
    pub open spec fn wf(self) -> bool {
        &&& self.spec_poly_a().wf()
        &&& self.spec_poly_b().wf()
        &&& self.spec_poly_b()@.len() <= self.spec_poly_a()@.len()
    }

    /// Builds the engine around the two defining polynomials; fails fast
    /// when `B` has higher order than `A`, since the branch count would
    /// be undefined.
    pub fn new(poly_a: Polynomial<S>, poly_b: Polynomial<S>) -> (r: Result<Self, RootLocusError>)
        requires
            poly_a.wf(),
            poly_b.wf(),
        ensures
            poly_b@.len() <= poly_a@.len() <==> r is Ok,
            r matches Ok(v) ==> {
                &&& v.wf()
                &&& v.spec_poly_a() == poly_a
                &&& v.spec_poly_b() == poly_b
                &&& v.spec_gains().len() == 0
                &&& v.spec_roots().len() == 0
            },
            r is Err ==> r == Result::<Self, RootLocusError>::Err(
                RootLocusError::InvalidPrecondition,
            ),
    {
        if poly_b.order() > poly_a.order() {
            return Err(RootLocusError::InvalidPrecondition);
        }
        Ok(RootLocus { poly_a, poly_b, gains: Vec::new(), roots: Vec::new() })
    }

    /// Both defining polynomials, writable, so that an editor can rebuild
    /// them in place before the next pass.
    pub fn get_polys_mut(&mut self) -> (r: (&mut Polynomial<S>, &mut Polynomial<S>))
        ensures
            *r.0 == old(self).spec_poly_a(),
            *r.1 == old(self).spec_poly_b(),
            final(self).spec_poly_a() == *final(r.0),
            final(self).spec_poly_b() == *final(r.1),
            final(self).spec_gains() == old(self).spec_gains(),
            final(self).spec_roots() == old(self).spec_roots(),
    {
        (&mut self.poly_a, &mut self.poly_b)
    }

    /// The number of root trajectories tracked: the order of `A`.
    pub fn get_branches(&self) -> (r: usize)
        requires
            self.spec_poly_a().wf(),
        ensures
            r == self.spec_poly_a()@.len() - 1,
    {
        self.poly_a.order()
    }

    /// The gain `k` for a given `p` in `A(p) + k·B(p) = 0`, that is
    /// `k = −A(p) / B(p)`.
    pub fn compute_gain(&self, position: Complex<S>) -> (r: Complex<S>)
        ensures
            r == sp_gain_at(self.spec_poly_a()@, self.spec_poly_b()@, position),
    {
        self.poly_a.eval_complex(position).neg().div(self.poly_b.eval_complex(position))
    }

    /// The ordered gain sweep, each gain with the index of its root block.
    pub fn get_gains(&self) -> (r: &Vec<(NotNanFloat<S>, usize)>)
        ensures
            r@ == self.spec_gains(),
    {
        &self.gains
    }

    /// The dense gain-major root buffer, read-only.
    pub fn get_roots(&self) -> (r: &Vec<Complex<S>>)
        ensures
            r@ == self.spec_roots(),
    {
        &self.roots
    }

    /// One full recomputation pass, from scratch: solves the zero-gain
    /// roots cold, finds the candidate breakaway gains as the roots of
    /// `A'·B − B'·A`, builds the ordered gain sweep from a geometric
    /// progression, the surviving candidates and a near-infinite
    /// sentinel, then walks the sweep in ascending order, warm-starting
    /// every sample's root find from the previous sample's roots. The
    /// roots of sample `t` land in block `t` of the root buffer and, for
    /// `t ≥ 1`, in vertex slot `(o, t − 1)` of every branch curve `o`.
    pub fn calculate_all<const C: usize, const V: usize, P: Point<S>>(
        &mut self,
        prec: S,
        min_gain: S,
        max_gain: S,
        rng: &Vec<S>,
        curves: &mut Curves<C, V, P, S>,
    )
        requires
            old(self).wf(),
            rng@.len() >= 1,
            !min_gain.sp_lt(S::sp_zero()),
            old(curves).wf(),
            old(self).spec_poly_a()@.len() - 1 <= C,
            GAIN_STEP_CAP + old(self).spec_poly_a()@.len() + old(self).spec_poly_b()@.len() + 1
                <= V,
            C <= usize::MAX / 2,
            C * V <= usize::MAX,
        ensures
            final(self).spec_poly_a() == old(self).spec_poly_a(),
            final(self).spec_poly_b() == old(self).spec_poly_b(),
            ({
                let a = old(self).spec_poly_a()@;
                let b = old(self).spec_poly_b()@;
                let br = a.len() - 1;
                let g = final(self).spec_gains();
                let r = final(self).spec_roots();
                &&& g.len() >= 1
                &&& g.len() <= 1 + GAIN_STEP_CAP + a.len() + b.len()
                &&& g[0].0.0 == S::sp_zero()
                &&& forall|t: int| 0 <= t < g.len() ==> (#[trigger] g[t]).1 == t
                &&& forall|t: int| 1 <= t < g.len() ==> !(#[trigger] g[t]).0.0.sp_is_nan()
                &&& forall|t: int, u: int|
                    #![trigger g[t], g[u]]
                    1 <= t < u < g.len() ==> g[t].0.0.sp_key() < g[u].0.0.sp_key()
                &&& r.len() == g.len() * br
                &&& exists|n: nat|
                    n <= 50 && sp_block(r, 0, br as int) == #[trigger] sp_aberth_steps(
                        a,
                        sp_seeds(a, br as nat),
                        n,
                    ) && (n < 50 ==> !(prec.sp_mul(prec).sp_lt(
                        sp_pass_max(a, sp_seeds(a, br as nat), n),
                    ))) && (forall|m: nat|
                        m < n ==> prec.sp_mul(prec).sp_lt(
                            #[trigger] sp_pass_max(a, sp_seeds(a, br as nat), m),
                        ))
                &&& forall|t: int|
                    1 <= t < g.len() ==> sp_continued(
                        a,
                        b,
                        (#[trigger] g[t]).0.0,
                        prec,
                        sp_block(r, t - 1, br as int),
                        sp_block(r, t, br as int),
                        rng@,
                    )
                &&& (!S::sp_from_ratio(SENTINEL_GAIN_NUM, 1).sp_is_nan() ==> exists|t: int|
                    1 <= t < g.len() && (#[trigger] g[t]).0.0.sp_key() == S::sp_from_ratio(
                        SENTINEL_GAIN_NUM,
                        1,
                    ).sp_key())
                &&& (min_gain.sp_lt(max_gain) && !min_gain.sp_is_nan() ==> exists|t: int|
                    1 <= t < g.len() && (#[trigger] g[t]).0.0.sp_key() == min_gain.sp_key())
                &&& exists|n: nat|
                    n <= 50 && #[trigger] sp_sweep_sourced(a, b, min_gain, max_gain, g, n)
            }),
            final(curves).wf(),
            final(curves)@.len() == old(curves)@.len(),
            final(curves).spec_curve_count() == old(curves).spec_curve_count(),
            final(curves).spec_vertex_count() == old(curves).spec_vertex_count(),
            ({
                let a = old(self).spec_poly_a()@;
                let br = a.len() - 1;
                let g = final(self).spec_gains();
                let r = final(self).spec_roots();
                forall|o: int, t: int|
                    0 <= o < br && 1 <= t < g.len() ==> (#[trigger] final(curves)@[sp_vertex_slot(
                        o,
                        t - 1,
                        V as int,
                    )]).sp_x() == sp_block(r, t, br as int)[o].re && final(curves)@[sp_vertex_slot(
                        o,
                        t - 1,
                        V as int,
                    )].sp_y() == sp_block(
                        r,
                        t,
                        br as int,
                    )[o].im
            }),
            ({
                let a = old(self).spec_poly_a()@;
                let br = a.len() - 1;
                let g = final(self).spec_gains();
                forall|q: int|
                    0 <= q < old(curves)@.len() && (forall|o: int, t: int|
                        0 <= o < br && 0 <= t < g.len() - 1 ==> q != #[trigger] sp_vertex_slot(
                            o,
                            t,
                            V as int,
                        )) ==> final(curves)@[q] == old(curves)@[q]
            }),
    {
        let ghost aseq = self.spec_poly_a()@;
        let ghost bseq = self.spec_poly_b()@;
        let branches: usize = self.poly_a.order();

        let interval = max_gain.div(min_gain).powf(S::from_ratio(1, 960));
        assert(interval == sp_interval(min_gain, max_gain));

        // Zero-gain solve: one cold start on `A` alone.
        let mut block0: Vec<Complex<S>> = Vec::new();
        let mut z: usize = 0;
        while z < branches
            invariant
                z <= branches,
                block0@.len() == z,
            decreases branches - z,
        {
            block0.push(Complex::zero());
            z = z + 1;
        }
        let count0 = self.poly_a.find_roots(&mut block0, prec);

        // The future gain set: the near-infinite sentinel first.
        let mut future: Vec<S> = Vec::new();
        insert_gain(&mut future, S::from_ratio(SENTINEL_GAIN_NUM, 1));
        let ghost sentinel = S::sp_from_ratio(SENTINEL_GAIN_NUM, 1);
        assert(forall|q: int| 0 <= q < future@.len() ==> future@[q] == sentinel);

        // Bifurcation detection: the finite, non-negative gains at the
        // roots of `A'·B − B'·A`. For a degenerate pair of constants the
        // intersection polynomial is the zero polynomial, which has no
        // roots and so contributes no candidates.
        let d_a = self.poly_a.derivative();
        let d_b = self.poly_b.derivative();
        let t1 = d_a.mul(&self.poly_b);
        let t2 = d_b.mul(&self.poly_a);
        let ipoly = t1.sub(t2);
        let iorder = ipoly.order();
        assert(iorder + 1 <= aseq.len() + bseq.len() - 1);
        let mut intersections: Vec<Complex<S>> = Vec::new();
        let mut z2: usize = 0;
        while z2 < iorder
            invariant
                z2 <= iorder,
                intersections@.len() == z2,
            decreases iorder - z2,
        {
            intersections.push(Complex::zero());
            z2 = z2 + 1;
        }
        let count_i = ipoly.find_roots(&mut intersections, prec);
        assert(ipoly@ == sp_ipoly(aseq, bseq));
        let ghost iroots = intersections@;
        let ghost ni = count_i as nat;
        let ghost cands_all = Seq::new(iroots.len(), |w: int| sp_gain_at(aseq, bseq, iroots[w]).re);
        let mut ci: usize = 0;
        while ci < intersections.len()
            invariant
                ci <= intersections@.len(),
                aseq == self.spec_poly_a()@,
                bseq == self.spec_poly_b()@,
                intersections@.len() + 2 <= aseq.len() + bseq.len(),
                intersections@ == iroots,
                sp_sorted_keys(future@),
                sp_all_numbers(future@),
                future@.len() <= 1 + ci,
                !sentinel.sp_is_nan() ==> sp_has_key(future@, sentinel.sp_key()),
                cands_all == Seq::new(
                    iroots.len(),
                    |w: int| sp_gain_at(aseq, bseq, iroots[w]).re,
                ),
                forall|q: int|
                    0 <= q < future@.len() ==> future@[q] == sentinel || (cands_all.contains(
                        #[trigger] future@[q],
                    ) && sp_retained(future@[q])),
                forall|w: int|
                    0 <= w < ci && sp_retained(#[trigger] cands_all[w]) ==> sp_has_key(
                        future@,
                        cands_all[w].sp_key(),
                    ),
            decreases intersections@.len() - ci,
        {
            let g = self.compute_gain(intersections[ci]).re;
            if !g.is_nan() && g.is_sign_positive() && g.lt(S::infinity()) {
                let ghost before_ins = future@;
                proof {
                    assert(cands_all[ci as int] == g);
                    assert(cands_all.contains(g));
                    assert(sp_retained(g));
                }
                insert_gain(&mut future, g);
                proof {
                    assert forall|q: int|
                        0 <= q < future@.len() implies future@[q] == sentinel || (
                    cands_all.contains(#[trigger] future@[q]) && sp_retained(future@[q])) by {
                        if before_ins.contains(future@[q]) {
                            let w = choose|w: int|
                                0 <= w < before_ins.len() && before_ins[w] == future@[q];
                        }
                    }
                }
            } else {
                proof {
                    assert(!sp_retained(cands_all[ci as int]));
                }
            }
            ci = ci + 1;
        }
        assert(future@.len() <= aseq.len() + bseq.len());

        // The geometric progression from the lowest to the highest gain,
        // bounded by the step cap.
        let ghost prog = sp_progression(
            min_gain,
            sp_interval(min_gain, max_gain),
            max_gain,
            GAIN_STEP_CAP as nat,
        );
        let ghost mut done: Seq<S> = Seq::empty();
        let mut k = min_gain;
        let mut steps_left: usize = GAIN_STEP_CAP;
        while k.lt(max_gain) && steps_left > 0
            invariant
                steps_left <= GAIN_STEP_CAP,
                sp_sorted_keys(future@),
                sp_all_numbers(future@),
                future@.len() <= aseq.len() + bseq.len() + (GAIN_STEP_CAP - steps_left),
                steps_left == GAIN_STEP_CAP ==> k == min_gain,
                !sentinel.sp_is_nan() ==> sp_has_key(future@, sentinel.sp_key()),
                (min_gain.sp_lt(max_gain) && !min_gain.sp_is_nan() && steps_left < GAIN_STEP_CAP)
                    ==> sp_has_key(future@, min_gain.sp_key()),
                interval == sp_interval(min_gain, max_gain),
                prog == done + sp_progression(k, interval, max_gain, steps_left as nat),
                forall|q: int|
                    0 <= q < future@.len() ==> future@[q] == sentinel || (cands_all.contains(
                        #[trigger] future@[q],
                    ) && sp_retained(future@[q])) || prog.contains(future@[q]),
                forall|w: int|
                    0 <= w < cands_all.len() && sp_retained(#[trigger] cands_all[w])
                        ==> sp_has_key(future@, cands_all[w].sp_key()),
                forall|w: int|
                    0 <= w < done.len() && !(#[trigger] done[w]).sp_is_nan() ==> sp_has_key(
                        future@,
                        done[w].sp_key(),
                    ),
            decreases steps_left,
        {
            let ghost k0 = k;
            let ghost before_ins = future@;
            proof {
                assert(sp_progression(k0, interval, max_gain, steps_left as nat) =~= seq![k0]
                    + sp_progression(
                    k0.sp_mul(interval),
                    interval,
                    max_gain,
                    (steps_left - 1) as nat,
                ));
                assert(prog[done.len() as int] == k0);
                assert(prog.contains(k0));
            }
            insert_gain(&mut future, k);
            proof {
                assert forall|q: int|
                    0 <= q < future@.len() implies future@[q] == sentinel || (cands_all.contains(
                    #[trigger] future@[q],
                ) && sp_retained(future@[q])) || prog.contains(future@[q]) by {
                    if before_ins.contains(future@[q]) {
                        let w = choose|w: int|
                            0 <= w < before_ins.len() && before_ins[w] == future@[q];
                    }
                }
                done = done + seq![k0];
                assert forall|w: int|
                    0 <= w < done.len() && !(#[trigger] done[w]).sp_is_nan() implies sp_has_key(
                    future@,
                    done[w].sp_key(),
                ) by {
                    if w == done.len() - 1 {
                        assert(done[w] == k0);
                    }
                }
                assert(prog =~= done + sp_progression(
                    k0.sp_mul(interval),
                    interval,
                    max_gain,
                    (steps_left - 1) as nat,
                ));
            }
            k = k.mul(interval);
            steps_left = steps_left - 1;
        }
        proof {
            assert(sp_progression(k, interval, max_gain, steps_left as nat)
                =~= Seq::<S>::empty());
            assert(prog =~= done);
        }
        assert(future@.len() <= GAIN_STEP_CAP + aseq.len() + bseq.len());

        // The continuation sweep, in ascending gain order.
        let ghost fgains = future@;
        let mut gains: Vec<(NotNanFloat<S>, usize)> = Vec::new();
        gains.push((NotNanFloat(S::zero()), 0));
        let mut roots: Vec<Complex<S>> = crate::polynomials::copy_vec(&block0);
        let mut old_roots: Vec<Complex<S>> = crate::polynomials::copy_vec(&block0);
        proof {
            assert(0 * (branches as int) == 0) by (nonlinear_arith);
            assert(1 * (branches as int) == branches as int) by (nonlinear_arith);
            assert(sp_block(roots@, 0, branches as int) =~= block0@);
        }
        let mut i: usize = 0;
        while i < future.len()
            invariant
                self.wf(),
                aseq == self.spec_poly_a()@,
                bseq == self.spec_poly_b()@,
                branches == aseq.len() - 1,
                branches <= C,
                C <= usize::MAX / 2,
                C * V <= usize::MAX,
                rng@.len() >= 1,
                i <= fgains.len(),
                future@ == fgains,
                fgains.len() + 1 <= V,
                sp_all_numbers(fgains),
                old_roots@.len() == branches,
                roots@.len() == (i + 1) * branches,
                gains@.len() == i + 1,
                gains@[0].0.0 == S::sp_zero(),
                forall|t: int| 0 <= t <= i ==> (#[trigger] gains@[t]).1 == t,
                forall|t: int| 1 <= t <= i ==> (#[trigger] gains@[t]).0.0 == fgains[t - 1],
                sp_block(roots@, 0, branches as int) == sp_aberth_steps(
                    aseq,
                    sp_seeds(aseq, branches as nat),
                    count0 as nat,
                ),
                old_roots@ == sp_block(roots@, i as int, branches as int),
                forall|t: int|
                    1 <= t <= i ==> sp_continued(
                        aseq,
                        bseq,
                        fgains[t - 1],
                        prec,
                        sp_block(roots@, t - 1, branches as int),
                        #[trigger] sp_block(roots@, t, branches as int),
                        rng@,
                    ),
                curves.wf(),
                curves@.len() == old(curves)@.len(),
                curves.spec_curve_count() == old(curves).spec_curve_count(),
                curves.spec_vertex_count() == old(curves).spec_vertex_count(),
                forall|o: int, t: int|
                    0 <= o < branches && 0 <= t < i ==> (#[trigger] curves@[sp_vertex_slot(
                        o,
                        t,
                        V as int,
                    )]).sp_x() == sp_block(roots@, t + 1, branches as int)[o].re && curves@[sp_vertex_slot(
                        o,
                        t,
                        V as int,
                    )].sp_y() == sp_block(roots@, t + 1, branches as int)[o].im,
                forall|q: int|
                    0 <= q < old(curves)@.len() && (forall|o2: int, t: int|
                        0 <= o2 < branches && 0 <= t < i ==> q != #[trigger] sp_vertex_slot(
                            o2,
                            t,
                            V as int,
                        )) ==> curves@[q] == old(curves)@[q],
            decreases fgains.len() - i,
        {
            let gain = future[i];
            let poly = Polynomial::from_sum(S::one(), &self.poly_a, gain, &self.poly_b);
            let ghost prev = old_roots@;
            let cnt = poly.find_roots_from_rng(&mut old_roots, prec, rng);

            // Hand the fresh block to the render buffer, one vertex per
            // branch at sweep column `i`.
            let mut o: usize = 0;
            while o < branches
                invariant
                    o <= branches,
                    branches <= C,
                    C * V <= usize::MAX,
                    i < fgains.len(),
                    fgains.len() + 1 <= V,
                    old_roots@.len() == branches,
                    curves.wf(),
                    curves@.len() == old(curves)@.len(),
                    curves.spec_curve_count() == old(curves).spec_curve_count(),
                    curves.spec_vertex_count() == old(curves).spec_vertex_count(),
                    roots@.len() == (i + 1) * branches,
                    forall|o2: int|
                        0 <= o2 < o ==> (#[trigger] curves@[sp_vertex_slot(
                            o2,
                            i as int,
                            V as int,
                        )]).sp_x() == old_roots@[o2].re && curves@[sp_vertex_slot(
                            o2,
                            i as int,
                            V as int,
                        )].sp_y() == old_roots@[o2].im,
                    forall|o2: int, t: int|
                        0 <= o2 < branches && 0 <= t < i ==> (#[trigger] curves@[sp_vertex_slot(
                            o2,
                            t,
                            V as int,
                        )]).sp_x() == sp_block(roots@, t + 1, branches as int)[o2].re
                            && curves@[sp_vertex_slot(o2, t, V as int)].sp_y() == sp_block(
                            roots@,
                            t + 1,
                            branches as int,
                        )[o2].im,
                    forall|q: int|
                        0 <= q < old(curves)@.len() && (forall|o2: int, t: int|
                            0 <= o2 < branches && 0 <= t < i ==> q != #[trigger] sp_vertex_slot(
                                o2,
                                t,
                                V as int,
                            )) && (forall|o2: int|
                            0 <= o2 < o ==> q != #[trigger] sp_vertex_slot(
                                o2,
                                i as int,
                                V as int,
                            )) ==> curves@[q] == old(curves)@[q],
                decreases branches - o,
            {
                proof {
                    curves.lemma_wf_len();
                    crate::midware::curves::lemma_vertex_slot_bound(
                        o as int,
                        i as int,
                        C as int,
                        V as int,
                    );
                }
                let pos: usize = o * V + i;
                assert(pos as int == sp_vertex_slot(o as int, i as int, V as int));
                curves.set_vertex(pos, P::from_complex(&old_roots[o]));
                proof {
                    assert forall|o2: int|
                        0 <= o2 < o + 1 implies (#[trigger] curves@[sp_vertex_slot(
                        o2,
                        i as int,
                        V as int,
                    )]).sp_x() == old_roots@[o2].re && curves@[sp_vertex_slot(
                        o2,
                        i as int,
                        V as int,
                    )].sp_y() == old_roots@[o2].im by {
                        crate::midware::curves::lemma_vertex_slot_bound(
                            o2,
                            i as int,
                            C as int,
                            V as int,
                        );
                        if o2 < o {
                            crate::midware::curves::lemma_vertex_slot_injective(
                                o2,
                                i as int,
                                o as int,
                                i as int,
                                V as int,
                            );
                        }
                    }
                    assert forall|o2: int, t: int|
                        0 <= o2 < branches && 0 <= t < i implies (#[trigger] curves@[sp_vertex_slot(
                        o2,
                        t,
                        V as int,
                    )]).sp_x() == sp_block(roots@, t + 1, branches as int)[o2].re
                        && curves@[sp_vertex_slot(o2, t, V as int)].sp_y() == sp_block(
                        roots@,
                        t + 1,
                        branches as int,
                    )[o2].im by {
                        crate::midware::curves::lemma_vertex_slot_bound(o2, t, C as int, V as int);
                        crate::midware::curves::lemma_vertex_slot_injective(
                            o2,
                            t,
                            o as int,
                            i as int,
                            V as int,
                        );
                    }
                    assert forall|q: int|
                        0 <= q < old(curves)@.len() && (forall|o2: int, t: int|
                            0 <= o2 < branches && 0 <= t < i ==> q != #[trigger] sp_vertex_slot(
                                o2,
                                t,
                                V as int,
                            )) && (forall|o2: int|
                            0 <= o2 < o + 1 ==> q != #[trigger] sp_vertex_slot(
                                o2,
                                i as int,
                                V as int,
                            )) implies curves@[q] == old(curves)@[q] by {
                        assert(forall|o2: int|
                            0 <= o2 < o ==> q != #[trigger] sp_vertex_slot(
                                o2,
                                i as int,
                                V as int,
                            ));
                        assert(q != sp_vertex_slot(o as int, i as int, V as int));
                    }
                }
                o = o + 1;
            }

            proof {
                assert forall|q: int|
                    0 <= q < old(curves)@.len() && (forall|o2: int, t: int|
                        0 <= o2 < branches && 0 <= t < i + 1 ==> q != #[trigger] sp_vertex_slot(
                            o2,
                            t,
                            V as int,
                        )) implies curves@[q] == old(curves)@[q] by {
                    assert(forall|o2: int, t: int|
                        0 <= o2 < branches && 0 <= t < i ==> q != #[trigger] sp_vertex_slot(
                            o2,
                            t,
                            V as int,
                        ));
                    assert(forall|o2: int|
                        0 <= o2 < branches ==> q != #[trigger] sp_vertex_slot(
                            o2,
                            i as int,
                            V as int,
                        ));
                }
            }

            // Store the block and its gain.
            let ghost roots_before = roots@;
            let mut q: usize = 0;
            while q < old_roots.len()
                invariant
                    q <= old_roots@.len(),
                    roots@ == roots_before + old_roots@.take(q as int),
                decreases old_roots@.len() - q,
            {
                roots.push(old_roots[q]);
                assert(roots@ =~= roots_before + old_roots@.take(q + 1 as int));
                q = q + 1;
            }
            proof {
                assert(roots@ =~= roots_before + old_roots@);
                lemma_mul_dist(i as int, branches as int);
                lemma_mul_dist(i as int + 1, branches as int);
                assert(sp_block(roots@, i as int + 1, branches as int) =~= old_roots@);
                assert forall|t: int| 0 <= t <= i implies #[trigger] sp_block(
                    roots@,
                    t,
                    branches as int,
                ) =~= sp_block(roots_before, t, branches as int) by {
                    lemma_mul_mono(t, i as int, branches as int);
                    lemma_mul_dist(t, branches as int);
                    lemma_mul_mono(t + 1, i as int + 1, branches as int);
                }
                assert(sp_continued(
                    aseq,
                    bseq,
                    fgains[i as int],
                    prec,
                    sp_block(roots@, i as int, branches as int),
                    sp_block(roots@, i as int + 1, branches as int),
                    rng@,
                )) by {
                    let ghost cpoly = sp_trim(sp_sum_terms(S::sp_one(), aseq, fgains[i as int], bseq));
                    let ghost cstart = sp_perturbed(prev, rng@);
                    assert(sp_block(roots@, i as int + 1, branches as int) == sp_aberth_steps(
                        cpoly,
                        cstart,
                        cnt as nat,
                    ));
                    assert(cnt < 50 ==> !(prec.sp_mul(prec).sp_lt(
                        sp_pass_max(cpoly, cstart, cnt as nat),
                    )));
                    assert(forall|m: nat|
                        m < cnt ==> prec.sp_mul(prec).sp_lt(
                            #[trigger] sp_pass_max(cpoly, cstart, m),
                        ));
                }
            }
            gains.push((NotNanFloat::new(gain), i + 1));
            i = i + 1;
        }

        self.gains = gains;
        self.roots = roots;

        proof {
            let g = self.spec_gains();
            let r = self.spec_roots();
            assert(r.len() == g.len() * branches) by {
                lemma_mul_dist(fgains.len() as int, branches as int);
                assert(g.len() == fgains.len() + 1);
                assert(r.len() == (fgains.len() + 1) * branches);
            }
            assert forall|t: int, u: int|
                #![trigger g[t], g[u]]
                1 <= t < u < g.len() implies g[t].0.0.sp_key() < g[u].0.0.sp_key() by {
                assert(g[t].0.0 == fgains[t - 1]);
                assert(g[u].0.0 == fgains[u - 1]);
                assert(fgains[t - 1].sp_key() < fgains[u - 1].sp_key());
            }
            if !sentinel.sp_is_nan() {
                let w = choose|w: int|
                    0 <= w < fgains.len() && (#[trigger] fgains[w]).sp_key() == sentinel.sp_key();
                assert(g[w + 1].0.0 == fgains[w]);
                assert(1 <= w + 1 < g.len() && g[w + 1].0.0.sp_key() == sentinel.sp_key());
            }
            if min_gain.sp_lt(max_gain) && !min_gain.sp_is_nan() {
                let w = choose|w: int|
                    0 <= w < fgains.len() && (#[trigger] fgains[w]).sp_key() == min_gain.sp_key();
                assert(g[w + 1].0.0 == fgains[w]);
                assert(1 <= w + 1 < g.len() && g[w + 1].0.0.sp_key() == min_gain.sp_key());
            }
            assert(exists|n: nat|
                n <= 50 && sp_block(r, 0, branches as int) == #[trigger] sp_aberth_steps(
                    aseq,
                    sp_seeds(aseq, branches as nat),
                    n,
                ) && (n < 50 ==> !(prec.sp_mul(prec).sp_lt(
                    sp_pass_max(aseq, sp_seeds(aseq, branches as nat), n),
                ))) && (forall|m: nat|
                    m < n ==> prec.sp_mul(prec).sp_lt(
                        #[trigger] sp_pass_max(aseq, sp_seeds(aseq, branches as nat), m),
                    ))) by {
                assert(sp_block(r, 0, branches as int) == sp_aberth_steps(
                    aseq,
                    sp_seeds(aseq, branches as nat),
                    count0 as nat,
                ));
                assert(count0 < 50 ==> !(prec.sp_mul(prec).sp_lt(
                    sp_pass_max(aseq, sp_seeds(aseq, branches as nat), count0 as nat),
                )));
                assert(forall|m: nat|
                    m < count0 ==> prec.sp_mul(prec).sp_lt(
                        #[trigger] sp_pass_max(aseq, sp_seeds(aseq, branches as nat), m),
                    ));
            }
            assert forall|kk: u64| sp_has_key(fgains, kk) implies sp_gains_have_key(g, kk) by {
                let w = choose|w: int|
                    0 <= w < fgains.len() && (#[trigger] fgains[w]).sp_key() == kk;
                assert(g[w + 1].0.0 == fgains[w]);
                assert(1 <= w + 1 < g.len() && g[w + 1].0.0.sp_key() == kk);
            }
            assert(sp_sweep_sourced(aseq, bseq, min_gain, max_gain, g, ni)) by {
                let ip = sp_ipoly(aseq, bseq);
                assert(iroots == sp_aberth_steps(ip, sp_seeds(ip, sp_sat_dec(ip.len())), ni));
                assert(Seq::new(iroots.len(), |w: int| sp_gain_at(aseq, bseq, iroots[w]).re)
                    =~= cands_all);
                assert forall|t: int| 1 <= t < g.len() implies (#[trigger] g[t]).0.0 == sentinel
                    || (cands_all.contains(g[t].0.0) && sp_retained(g[t].0.0)) || prog.contains(
                    g[t].0.0,
                ) by {
                    assert(g[t].0.0 == fgains[t - 1]);
                }
                assert forall|w: int|
                    0 <= w < cands_all.len() && sp_retained(
                        #[trigger] cands_all[w],
                    ) implies sp_gains_have_key(g, cands_all[w].sp_key()) by {
                    assert(sp_has_key(fgains, cands_all[w].sp_key()));
                }
                assert forall|w: int|
                    0 <= w < prog.len() && !(#[trigger] prog[w]).sp_is_nan() implies sp_gains_have_key(
                    g,
                    prog[w].sp_key(),
                ) by {
                    assert(prog[w] == done[w]);
                    assert(sp_has_key(fgains, prog[w].sp_key()));
                }
            }
            assert(exists|n: nat|
                n <= 50 && #[trigger] sp_sweep_sourced(aseq, bseq, min_gain, max_gain, g, n));
        }
    }
}

/// Block `t` of the gain-major root buffer: the `br` roots of gain
/// sample `t`.
pub open spec fn sp_block<S: Scalar>(roots: Seq<Complex<S>>, t: int, br: int) -> Seq<Complex<S>> {
    roots.subrange(t * br, (t + 1) * br)
}

/// The continuation relation between two successive gain samples: the
/// current block is the previous one, displaced by the injected random
/// sequence and refined by exactly as many Aberth passes on the combined
/// polynomial `1·A + gain·B` as the iteration takes: every earlier pass
/// count was still above the precision threshold, and the final one is
/// not, unless the cap of 50 stopped it first.
pub open spec fn sp_continued<S: Scalar>(
    a: Seq<S>,
    b: Seq<S>,
    gain: S,
    prec: S,
    prev: Seq<Complex<S>>,
    cur: Seq<Complex<S>>,
    rng: Seq<S>,
) -> bool {
    let poly = sp_trim(sp_sum_terms(S::sp_one(), a, gain, b));
    let start = sp_perturbed(prev, rng);
    exists|n: nat|
        n <= 50 && cur == #[trigger] sp_aberth_steps(poly, start, n) && (n < 50 ==> !(prec.sp_mul(
            prec,
        ).sp_lt(sp_pass_max(poly, start, n)))) && (forall|m: nat|
            m < n ==> prec.sp_mul(prec).sp_lt(#[trigger] sp_pass_max(poly, start, m)))
}

/// `(t + 1) · br == t · br + br`.
proof fn lemma_mul_dist(t: int, br: int)
    by (nonlinear_arith)
    ensures
        (t + 1) * br == t * br + br,
{
}

/// Multiplication by a non-negative factor keeps the order.
proof fn lemma_mul_mono(t: int, i: int, br: int)
    by (nonlinear_arith)
    requires
        t <= i,
        br >= 0,
    ensures
        t * br <= i * br,
{
}

impl<S: Scalar> Default for RootLocus<S> {
    /// The engine for the constant system `1 + k·1`.
    fn default() -> (r: Self)
        ensures
            r.wf(),
            r.spec_poly_a()@ == seq![S::sp_one()],
            r.spec_poly_b()@ == seq![S::sp_one()],
            r.spec_gains().len() == 0,
            r.spec_roots().len() == 0,
    {
        let mut ta: Vec<S> = Vec::new();
        ta.push(S::one());
        let mut tb: Vec<S> = Vec::new();
        tb.push(S::one());
        proof {
            assert(ta@ =~= seq![S::sp_one()]);
            assert(tb@ =~= seq![S::sp_one()]);
        }
        RootLocus {
            poly_a: Polynomial::new(ta),
            poly_b: Polynomial::new(tb),
            gains: Vec::new(),
            roots: Vec::new(),
        }
    }
}

} // verus!
