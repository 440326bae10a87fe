use vstd::prelude::*;

pub mod curves;

use crate::midware::curves::{sp_vertex_slot, Curves, Point};
use crate::polynomials::root_locus::{
    sp_block, sp_continued, sp_sweep_sourced, RootLocus, RootLocusError, GAIN_STEP_CAP,
    SENTINEL_GAIN_NUM,
};
use crate::polynomials::roots::{sp_aberth_steps, sp_pass_max, sp_seeds, PolynomialRoot};
use crate::polynomials::{sp_from_roots_state, sp_trim};
use crate::scalar::Scalar;

verus! {

/// Holds the editable transfer-function state — the pole and zero lists,
/// the algorithm precision, the gain interval and the injected random
/// sequence — and drives a full root-locus recomputation from them.
pub struct Midware<S: Scalar> {
    poles: Vec<PolynomialRoot<S>>,
    zeros: Vec<PolynomialRoot<S>>,
    root_locus: RootLocus<S>,
    interval: S,
    precision: S,
    rng: Vec<S>,
}

impl<S: Scalar> Midware<S> {
    /// The current pole list.
    pub closed spec fn spec_poles(self) -> Seq<PolynomialRoot<S>> {
        self.poles@
    }

    /// The current zero list.
    pub closed spec fn spec_zeros(self) -> Seq<PolynomialRoot<S>> {
        self.zeros@
    }

    /// The root-locus engine under this editor.
    pub closed spec fn spec_locus(self) -> RootLocus<S> {
        self.root_locus
    }

    /// The injected random sequence used for warm-start perturbation.
    pub closed spec fn spec_rng(self) -> Seq<S> {
        self.rng@
    }

    /// The root-finder convergence threshold.
    pub closed spec fn spec_precision(self) -> S {
        self.precision
    }

    /// The random sequence is never empty, so a warm-start perturbation
    /// can always draw from it.
    pub open spec fn wf(self) -> bool {
        self.spec_rng().len() >= 1
    }

    /// A fresh editor with no poles or zeros, the default interval and
    /// precision, and the given random sequence, supplied by the caller
    /// as an explicit capability so that a pass can be replayed.
    pub fn new(rng: Vec<S>) -> (r: Self)
        requires
            rng@.len() >= 1,
        ensures
            r.wf(),
            r.spec_poles().len() == 0,
            r.spec_zeros().len() == 0,
            r.spec_rng() == rng@,
            r.spec_precision() == S::sp_from_ratio(1, 1000000),
            r.spec_locus().wf(),
            r.spec_locus().spec_gains().len() == 0,
            r.spec_locus().spec_roots().len() == 0,
    {
        Midware {
            poles: Vec::new(),
            zeros: Vec::new(),
            root_locus: RootLocus::default(),
            interval: S::from_ratio(1001, 1000),
            precision: S::from_ratio(1, 1000000),
            rng,
        }
    }

    /// The pole list, writable.
    pub fn poles_mut(&mut self) -> (r: &mut Vec<PolynomialRoot<S>>)
        ensures
            r@ == old(self).spec_poles(),
            final(self).spec_poles() == final(r)@,
            final(self).spec_zeros() == old(self).spec_zeros(),
            final(self).spec_locus() == old(self).spec_locus(),
            final(self).spec_rng() == old(self).spec_rng(),
            final(self).spec_precision() == old(self).spec_precision(),
    {
        &mut self.poles
    }

    /// The zero list, writable.
    pub fn zeros_mut(&mut self) -> (r: &mut Vec<PolynomialRoot<S>>)
        ensures
            r@ == old(self).spec_zeros(),
            final(self).spec_zeros() == final(r)@,
            final(self).spec_poles() == old(self).spec_poles(),
            final(self).spec_locus() == old(self).spec_locus(),
            final(self).spec_rng() == old(self).spec_rng(),
            final(self).spec_precision() == old(self).spec_precision(),
    {
        &mut self.zeros
    }

    /// Rebuilds both defining polynomials from the current zero and pole
    /// lists and runs one full recomputation pass over the given curve
    /// buffer. Fails fast, with the polynomials rebuilt but no pass run,
    /// when the rebuilt pole polynomial outranks the zero polynomial,
    /// since the branch count would be undefined.
    pub fn update<const C: usize, const V: usize, P: Point<S>>(
        &mut self,
        curves: &mut Curves<C, V, P, S>,
    ) -> (r: Result<(), RootLocusError>)
        requires
            old(self).wf(),
            old(curves).wf(),
            !S::sp_from_ratio(1, 100).sp_lt(S::sp_zero()),
            2 * old(self).spec_zeros().len() <= C,
            GAIN_STEP_CAP + 2 * old(self).spec_zeros().len() + 2 * old(self).spec_poles().len()
                + 3 <= V,
            C <= usize::MAX / 2,
            C * V <= usize::MAX,
        ensures
            final(self).wf(),
            final(self).spec_poles() == old(self).spec_poles(),
            final(self).spec_zeros() == old(self).spec_zeros(),
            final(self).spec_rng() == old(self).spec_rng(),
            final(self).spec_precision() == old(self).spec_precision(),
            ({
                let za = old(self).spec_zeros();
                let pa = old(self).spec_poles();
                let new_a = sp_trim(
                    sp_from_roots_state(S::sp_one(), za, za.len(), (2 * za.len() + 1) as nat),
                );
                let new_b = sp_trim(
                    sp_from_roots_state(S::sp_one(), pa, pa.len(), (2 * pa.len() + 1) as nat),
                );
                &&& final(self).spec_locus().spec_poly_a()@ == new_a
                &&& final(self).spec_locus().spec_poly_b()@ == new_b
                &&& (r is Ok <==> new_b.len() <= new_a.len())
                &&& (r is Err ==> r == Result::<(), RootLocusError>::Err(
                    RootLocusError::InvalidPrecondition,
                ) && final(self).spec_locus().spec_gains() == old(self).spec_locus().spec_gains()
                    && final(self).spec_locus().spec_roots()
                    == old(self).spec_locus().spec_roots())
                &&& (r is Ok ==> final(self).spec_locus().spec_gains().len() >= 1
                    && final(self).spec_locus().spec_roots().len()
                    == final(self).spec_locus().spec_gains().len() * (new_a.len() - 1))
                &&& (r is Ok ==> ({
                    let g = final(self).spec_locus().spec_gains();
                    let rr = final(self).spec_locus().spec_roots();
                    let br = new_a.len() - 1;
                    let pr = old(self).spec_precision();
                    &&& g[0].0.0 == S::sp_zero()
                    &&& g.len() <= 1 + GAIN_STEP_CAP + new_a.len() + new_b.len()
                    &&& forall|t: int| 0 <= t < g.len() ==> (#[trigger] g[t]).1 == t
                    &&& forall|t: int| 1 <= t < g.len() ==> !(#[trigger] g[t]).0.0.sp_is_nan()
                    &&& forall|t: int, u: int|
                        #![trigger g[t], g[u]]
                        1 <= t < u < g.len() ==> g[t].0.0.sp_key() < g[u].0.0.sp_key()
                    &&& exists|n: nat|
                        n <= 50 && sp_block(rr, 0, br as int) == #[trigger] sp_aberth_steps(
                            new_a,
                            sp_seeds(new_a, br as nat),
                            n,
                        ) && (n < 50 ==> !(pr.sp_mul(pr).sp_lt(
                            sp_pass_max(new_a, sp_seeds(new_a, br as nat), n),
                        ))) && (forall|m: nat|
                            m < n ==> pr.sp_mul(pr).sp_lt(
                                #[trigger] sp_pass_max(new_a, sp_seeds(new_a, br as nat), m),
                            ))
                    &&& forall|t: int|
                        1 <= t < g.len() ==> sp_continued(
                            new_a,
                            new_b,
                            (#[trigger] g[t]).0.0,
                            pr,
                            sp_block(rr, t - 1, br as int),
                            sp_block(rr, t, br as int),
                            old(self).spec_rng(),
                        )
                    &&& (!S::sp_from_ratio(SENTINEL_GAIN_NUM, 1).sp_is_nan() ==> exists|t: int|
                        1 <= t < g.len() && (#[trigger] g[t]).0.0.sp_key() == S::sp_from_ratio(
                            SENTINEL_GAIN_NUM,
                            1,
                        ).sp_key())
                    &&& (S::sp_from_ratio(1, 100).sp_lt(S::sp_from_ratio(1000, 1))
                        && !S::sp_from_ratio(1, 100).sp_is_nan() ==> exists|t: int|
                        1 <= t < g.len() && (#[trigger] g[t]).0.0.sp_key() == S::sp_from_ratio(
                            1,
                            100,
                        ).sp_key())
                    &&& exists|n: nat|
                        n <= 50 && #[trigger] sp_sweep_sourced(
                            new_a,
                            new_b,
                            S::sp_from_ratio(1, 100),
                            S::sp_from_ratio(1000, 1),
                            g,
                            n,
                        )
                    &&& forall|o: int, t: int|
                        0 <= o < br && 1 <= t < g.len() ==> (#[trigger] final(curves)@[sp_vertex_slot(
                            o,
                            t - 1,
                            V as int,
                        )]).sp_x() == sp_block(
                            rr,
                            t,
                            br as int,
                        )[o].re && final(curves)@[sp_vertex_slot(o, t - 1, V as int)].sp_y()
                            == sp_block(rr, t, br as int)[o].im
                    &&& forall|q: int|
                        0 <= q < old(curves)@.len() && (forall|o: int, t: int|
                            0 <= o < br && 0 <= t < g.len() - 1 ==> q != #[trigger] sp_vertex_slot(
                                o,
                                t,
                                V as int,
                            )) ==> final(curves)@[q] == old(curves)@[q]
                }))
            }),
            r is Err ==> *final(curves) == *old(curves),
            final(curves).wf(),
            final(curves)@.len() == old(curves)@.len(),
            final(curves).spec_curve_count() == old(curves).spec_curve_count(),
            final(curves).spec_vertex_count() == old(curves).spec_vertex_count(),
    {
        let polys = self.root_locus.get_polys_mut();
        let poly_a = polys.0;
        let poly_b = polys.1;

        poly_a.update_roots(S::one(), &self.zeros);
        poly_b.update_roots(S::one(), &self.poles);

        if poly_b.get_terms().len() > poly_a.get_terms().len() {
            return Err(RootLocusError::InvalidPrecondition);
        }

        self.root_locus.calculate_all(
            self.precision,
            S::from_ratio(1, 100),
            S::from_ratio(1000, 1),
            &self.rng,
            curves,
        );
        Ok(())
    }
}

} // verus!
