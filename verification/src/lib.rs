//! Root-locus computation for a family of polynomials `A(x) + k·B(x)`.
//!
//! The library evaluates, combines and differentiates real-coefficient
//! polynomials, extracts all their complex roots simultaneously with
//! Aberth's method, and tracks how each root moves as the gain `k` sweeps
//! from zero towards infinity, reusing every sample's roots as warm-start
//! guesses for the next one.
//!
//! All numeric code is generic over the [`scalar::Scalar`] interface, which
//! a caller instantiates with a machine float type.

use vstd::prelude::*;

pub mod scalar;
pub mod complex;
pub mod midware;
pub mod polynomials;
pub mod transfer_functions;

use crate::scalar::Scalar;

verus! {

/// A scalar wrapper whose constructor refuses invalid (not-a-number)
/// values, so that a gain made of it can safely live in the ordered sweep.
pub struct NotNanFloat<S: Scalar>(pub S);

impl<S: Scalar> NotNanFloat<S> {
    /// Wraps a scalar that the caller has shown to be a number.
    pub fn new(f: S) -> (r: Self)
        requires
            !f.sp_is_nan(),
        ensures
            r.0 == f,
    {
        NotNanFloat(f)
    }
}

} // verus!
