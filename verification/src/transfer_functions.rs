use vstd::prelude::*;

use crate::polynomials::Polynomial;
use crate::scalar::Scalar;

verus! {

/// A rational transfer function: a numerator over a denominator
/// polynomial, the pair the root-locus engine sweeps.
#[allow(dead_code)]
pub struct TransferFunction<S: Scalar> {
    numerator: Polynomial<S>,
    denominator: Polynomial<S>,
}

} // verus!
