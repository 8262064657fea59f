use vstd::prelude::*;

verus! {

/// The arithmetic that the engine needs from the numbers held in its nodes.
///
/// Each operation has a spec counterpart, and the operation returns exactly
/// what its counterpart gives on the same arguments: the result depends on
/// the arguments alone. Nothing else is said of the arithmetic, so what the
/// engine proves holds for every such number type.
pub trait Scalar: Sized {
    spec fn spec_zero() -> Self;

    spec fn spec_one() -> Self;

    spec fn spec_plus(self, o: Self) -> Self;

    spec fn spec_minus(self, o: Self) -> Self;

    spec fn spec_times(self, o: Self) -> Self;

    spec fn spec_divide(self, o: Self) -> Self;

    spec fn spec_negate(self) -> Self;

    spec fn spec_power(self, e: Self) -> Self;

    spec fn spec_exponential(self) -> Self;

    /// The additive identity.
    fn zero() -> (r: Self)
        ensures
            r == Self::spec_zero(),
    ;

    /// The multiplicative identity.
    fn one() -> (r: Self)
        ensures
            r == Self::spec_one(),
    ;

    fn plus(&self, o: &Self) -> (r: Self)
        ensures
            r == self.spec_plus(*o),
    ;

    fn minus(&self, o: &Self) -> (r: Self)
        ensures
            r == self.spec_minus(*o),
    ;

    fn times(&self, o: &Self) -> (r: Self)
        ensures
            r == self.spec_times(*o),
    ;

    fn divide(&self, o: &Self) -> (r: Self)
        ensures
            r == self.spec_divide(*o),
    ;

    fn negate(&self) -> (r: Self)
        ensures
            r == self.spec_negate(),
    ;

    /// `self` raised to the power `e`.
    fn power(&self, e: &Self) -> (r: Self)
        ensures
            r == self.spec_power(*e),
    ;

    /// The natural exponential of `self`.
    fn exponential(&self) -> (r: Self)
        ensures
            r == self.spec_exponential(),
    ;

    /// A copy of `self`.
    fn duplicate(&self) -> (r: Self)
        ensures
            r == *self,
    ;
}

} // verus!
