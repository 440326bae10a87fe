use vstd::prelude::*;

verus! {

/// The numeric interface that the whole library is generic over.
///
/// Every arithmetic operation the root finder needs is a method here, and
/// each method is pinned to an abstract `spec` counterpart: the contracts of
/// the library describe exactly which operations are applied to which
/// operands, in which order, without fixing a concrete number type. A caller
/// supplies an implementation (for example a machine float of either
/// precision) and with it the meaning of the operations.
pub trait Scalar: Sized + Copy {
    /// Value of `add`.
    spec fn sp_add(self, o: Self) -> Self;

    /// Value of `sub`.
    spec fn sp_sub(self, o: Self) -> Self;

    /// Value of `mul`.
    spec fn sp_mul(self, o: Self) -> Self;

    /// Value of `div`.
    spec fn sp_div(self, o: Self) -> Self;

    /// Value of `neg`.
    spec fn sp_neg(self) -> Self;

    /// Value of `abs`.
    spec fn sp_abs(self) -> Self;

    /// Value of `max`.
    spec fn sp_max(self, o: Self) -> Self;

    /// Value of `min`.
    spec fn sp_min(self, o: Self) -> Self;

    /// Value of `powf`.
    spec fn sp_powf(self, e: Self) -> Self;

    /// Value of `cos`.
    spec fn sp_cos(self) -> Self;

    /// Value of `sin`.
    spec fn sp_sin(self) -> Self;

    /// Result of `lt`, the strict order test.
    spec fn sp_lt(self, o: Self) -> bool;

    /// Result of `is_nan`: whether the value is invalid ("not a number").
    spec fn sp_is_nan(self) -> bool;

    /// Result of `is_zero`: whether the value is the additive identity.
    spec fn sp_is_zero(self) -> bool;

    /// Result of `is_sign_positive`.
    spec fn sp_sign_positive(self) -> bool;

    /// Result of `key`: the order-preserving integer key of the value.
    spec fn sp_key(self) -> u64;

    /// Value of `zero`.
    spec fn sp_zero() -> Self;

    /// Value of `one`.
    spec fn sp_one() -> Self;

    /// Value of `infinity`.
    spec fn sp_infinity() -> Self;

    /// Value of `from_usize`.
    spec fn sp_from_usize(n: usize) -> Self;

    /// Value of `from_ratio`.
    spec fn sp_from_ratio(num: i64, den: i64) -> Self;

    fn add(self, o: Self) -> (r: Self)
        ensures
            r == self.sp_add(o),
    ;

    fn sub(self, o: Self) -> (r: Self)
        ensures
            r == self.sp_sub(o),
    ;

    fn mul(self, o: Self) -> (r: Self)
        ensures
            r == self.sp_mul(o),
    ;

    fn div(self, o: Self) -> (r: Self)
        ensures
            r == self.sp_div(o),
    ;

    fn neg(self) -> (r: Self)
        ensures
            r == self.sp_neg(),
    ;

    fn abs(self) -> (r: Self)
        ensures
            r == self.sp_abs(),
    ;

    fn max(self, o: Self) -> (r: Self)
        ensures
            r == self.sp_max(o),
    ;

    fn min(self, o: Self) -> (r: Self)
        ensures
            r == self.sp_min(o),
    ;

    /// Raises `self` to the power `e`.
    fn powf(self, e: Self) -> (r: Self)
        ensures
            r == self.sp_powf(e),
    ;

    fn cos(self) -> (r: Self)
        ensures
            r == self.sp_cos(),
    ;

    fn sin(self) -> (r: Self)
        ensures
            r == self.sp_sin(),
    ;

    /// The strict order test, `self < o`.
    fn lt(self, o: Self) -> (r: bool)
        ensures
            r == self.sp_lt(o),
    ;

    fn is_nan(self) -> (r: bool)
        ensures
            r == self.sp_is_nan(),
    ;

    fn is_zero(self) -> (r: bool)
        ensures
            r == self.sp_is_zero(),
    ;

    fn is_sign_positive(self) -> (r: bool)
        ensures
            r == self.sp_sign_positive(),
    ;

    /// An integer key for the value. The gain sweep is sorted and
    /// deduplicated by this key alone, and every ordering guarantee of
    /// the library is stated over it; an implementation that wants key
    /// order to agree with gain order must make the key
    /// order-preserving, which no contract here checks.
    fn key(self) -> (r: u64)
        ensures
            r == self.sp_key(),
    ;

    /// The additive identity.
    fn zero() -> (r: Self)
        ensures
            r == Self::sp_zero(),
    ;

    /// The multiplicative identity.
    fn one() -> (r: Self)
        ensures
            r == Self::sp_one(),
    ;

    /// The value that compares above every finite value.
    fn infinity() -> (r: Self)
        ensures
            r == Self::sp_infinity(),
    ;

    /// The scalar standing for the counting number `n`.
    fn from_usize(n: usize) -> (r: Self)
        ensures
            r == Self::sp_from_usize(n),
    ;

    /// The scalar standing for the fraction `num / den`.
    fn from_ratio(num: i64, den: i64) -> (r: Self)
        ensures
            r == Self::sp_from_ratio(num, den),
    ;
}

} // verus!
