use vstd::prelude::*;

use crate::scalar::Scalar;

verus! {

/// A complex value: a pair of real components.
///
/// Used for root positions, evaluation results and gains. The arithmetic
/// below is written out over the [`Scalar`] operations, and every executable
/// method is proved equal to its `spec` formula, so the contracts elsewhere
/// can follow a root estimate through the rectangular-form algebra exactly.
#[derive(Clone, Copy)]
pub struct Complex<S> {
    pub re: S,
    pub im: S,
}

impl<S: Scalar> Complex<S> {
    /// `self + o`, componentwise.
    pub open spec fn sp_add(self, o: Self) -> Self {
        Complex { re: self.re.sp_add(o.re), im: self.im.sp_add(o.im) }
    }

    /// `self - o`, componentwise.
    pub open spec fn sp_sub(self, o: Self) -> Self {
        Complex { re: self.re.sp_sub(o.re), im: self.im.sp_sub(o.im) }
    }

    /// `-self`, componentwise.
    pub open spec fn sp_neg(self) -> Self {
        Complex { re: self.re.sp_neg(), im: self.im.sp_neg() }
    }

    /// The rectangular product `self * o`.
    pub open spec fn sp_mul(self, o: Self) -> Self {
        Complex {
            re: self.re.sp_mul(o.re).sp_sub(self.im.sp_mul(o.im)),
            im: self.re.sp_mul(o.im).sp_add(self.im.sp_mul(o.re)),
        }
    }

    /// The squared modulus `re² + im²`.
    pub open spec fn sp_norm_sqr(self) -> S {
        self.re.sp_mul(self.re).sp_add(self.im.sp_mul(self.im))
    }

    /// The quotient `self / o`: the product with the conjugate of `o`,
    /// scaled by the squared modulus of `o`.
    pub open spec fn sp_div(self, o: Self) -> Self {
        let norm_sqr = o.sp_norm_sqr();
        Complex {
            re: self.re.sp_mul(o.re).sp_add(self.im.sp_mul(o.im)).sp_div(norm_sqr),
            im: self.im.sp_mul(o.re).sp_sub(self.re.sp_mul(o.im)).sp_div(norm_sqr),
        }
    }

    /// The reciprocal: the conjugate scaled by the squared modulus.
    pub open spec fn sp_inv(self) -> Self {
        let norm_sqr = self.sp_norm_sqr();
        Complex { re: self.re.sp_div(norm_sqr), im: self.im.sp_neg().sp_div(norm_sqr) }
    }

    /// The complex value standing for the real scalar `s`.
    pub open spec fn sp_from_real(s: S) -> Self {
        Complex { re: s, im: S::sp_zero() }
    }

    /// Zero.
    pub open spec fn sp_zero() -> Self {
        Complex { re: S::sp_zero(), im: S::sp_zero() }
    }

    /// One.
    pub open spec fn sp_one() -> Self {
        Complex { re: S::sp_one(), im: S::sp_zero() }
    }

    /// The point at radius `r` and angle `theta`.
    pub open spec fn sp_from_polar(r: S, theta: S) -> Self {
        Complex { re: r.sp_mul(theta.sp_cos()), im: r.sp_mul(theta.sp_sin()) }
    }

    /// Whether either component is invalid.
    pub open spec fn sp_is_nan(self) -> bool {
        self.re.sp_is_nan() || self.im.sp_is_nan()
    }

    pub fn new(re: S, im: S) -> (r: Self)
        ensures
            r == (Complex { re, im }),
    {
        Complex { re, im }
    }

    pub fn zero() -> (r: Self)
        ensures
            r == Self::sp_zero(),
    {
        Complex { re: S::zero(), im: S::zero() }
    }

    pub fn one() -> (r: Self)
        ensures
            r == Self::sp_one(),
    {
        Complex { re: S::one(), im: S::zero() }
    }

    pub fn from_real(s: S) -> (r: Self)
        ensures
            r == Self::sp_from_real(s),
    {
        Complex { re: s, im: S::zero() }
    }

    pub fn add(self, o: Self) -> (r: Self)
        ensures
            r == self.sp_add(o),
    {
        Complex { re: self.re.add(o.re), im: self.im.add(o.im) }
    }

    pub fn sub(self, o: Self) -> (r: Self)
        ensures
            r == self.sp_sub(o),
    {
        Complex { re: self.re.sub(o.re), im: self.im.sub(o.im) }
    }

    pub fn neg(self) -> (r: Self)
        ensures
            r == self.sp_neg(),
    {
        Complex { re: self.re.neg(), im: self.im.neg() }
    }

    pub fn mul(self, o: Self) -> (r: Self)
        ensures
            r == self.sp_mul(o),
    {
        Complex {
            re: self.re.mul(o.re).sub(self.im.mul(o.im)),
            im: self.re.mul(o.im).add(self.im.mul(o.re)),
        }
    }

    pub fn norm_sqr(self) -> (r: S)
        ensures
            r == self.sp_norm_sqr(),
    {
        self.re.mul(self.re).add(self.im.mul(self.im))
    }

    pub fn div(self, o: Self) -> (r: Self)
        ensures
            r == self.sp_div(o),
    {
        let norm_sqr = o.norm_sqr();
        Complex {
            re: self.re.mul(o.re).add(self.im.mul(o.im)).div(norm_sqr),
            im: self.im.mul(o.re).sub(self.re.mul(o.im)).div(norm_sqr),
        }
    }

    pub fn inv(self) -> (r: Self)
        ensures
            r == self.sp_inv(),
    {
        let norm_sqr = self.norm_sqr();
        Complex { re: self.re.div(norm_sqr), im: self.im.neg().div(norm_sqr) }
    }

    pub fn from_polar(r: S, theta: S) -> (c: Self)
        ensures
            c == Self::sp_from_polar(r, theta),
    {
        Complex { re: r.mul(theta.cos()), im: r.mul(theta.sin()) }
    }

    pub fn is_nan(self) -> (r: bool)
        ensures
            r == self.sp_is_nan(),
    {
        self.re.is_nan() || self.im.is_nan()
    }
}

} // verus!
