//! The interface every coefficient field of the scheme offers.
use crate::modular::{add_mod, has_inverse, mul_mod, neg_mod, sub_mod, MAX_MODULUS};
use vstd::prelude::*;

verus! {

/// Integers modulo `modulus()`, stored as their representative in `[0, modulus())`.
pub trait Field: Sized + Copy {
    /// The modulus `m` of the field.
    spec fn modulus() -> nat;

    /// The stored representative of an element.
    spec fn value(&self) -> nat;

    proof fn lemma_modulus_bounds()
        ensures
            1 < Self::modulus() <= MAX_MODULUS,
    ;

    fn modulus_u64() -> (r: u64)
        ensures
            r == Self::modulus(),
    ;

    fn zero() -> (r: Self)
        ensures
            r.value() < Self::modulus(),
            r.value() == 0,
    ;

    fn one() -> (r: Self)
        ensures
            r.value() < Self::modulus(),
            r.value() == 1,
    ;

    /// Reduces `num` into the field.
    fn new(num: u64) -> (r: Self)
        ensures
            r.value() < Self::modulus(),
            r.value() == num as int % Self::modulus() as int,
    ;

    /// Reduces a signed integer into `[0, m)`.
    fn from_signed(i: i64) -> (r: Self)
        ensures
            r.value() < Self::modulus(),
            r.value() == i as int % Self::modulus() as int,
    ;

    /// The reduced representative, in `[0, m)`.
    fn to_signed(self) -> (r: i64)
        requires
            self.value() < Self::modulus(),
        ensures
            r == self.value(),
    ;

    fn add(self, other: Self) -> (r: Self)
        requires
            self.value() < Self::modulus(),
            other.value() < Self::modulus(),
        ensures
            r.value() < Self::modulus(),
            r.value() == add_mod(self.value() as int, other.value() as int, Self::modulus() as int),
    ;

    fn sub(self, other: Self) -> (r: Self)
        requires
            self.value() < Self::modulus(),
            other.value() < Self::modulus(),
        ensures
            r.value() < Self::modulus(),
            r.value() == sub_mod(self.value() as int, other.value() as int, Self::modulus() as int),
    ;

    fn sub_assign(&mut self, other: Self)
        requires
            old(self).value() < Self::modulus(),
            other.value() < Self::modulus(),
        ensures
            final(self).value() < Self::modulus(),
            final(self).value() == sub_mod(
                old(self).value() as int,
                other.value() as int,
                Self::modulus() as int,
            ),
    ;

    fn mul(self, other: Self) -> (r: Self)
        requires
            self.value() < Self::modulus(),
            other.value() < Self::modulus(),
        ensures
            r.value() < Self::modulus(),
            r.value() == mul_mod(self.value() as int, other.value() as int, Self::modulus() as int),
    ;

    fn neg(self) -> (r: Self)
        requires
            self.value() < Self::modulus(),
        ensures
            r.value() < Self::modulus(),
            r.value() == neg_mod(self.value() as int, Self::modulus() as int),
    ;

    fn is_zero(self) -> (r: bool)
        ensures
            r == (self.value() == 0),
    ;

    /// The least `x` with `self * x = 1`, or zero when `self` has no inverse.
    fn inv(self) -> (r: Self)
        requires
            self.value() < Self::modulus(),
        ensures
            r.value() < Self::modulus(),
            has_inverse(self.value() as int, Self::modulus() as int) ==> mul_mod(
                self.value() as int,
                r.value() as int,
                Self::modulus() as int,
            ) == 1,
            has_inverse(self.value() as int, Self::modulus() as int) ==> forall|j: int|
                0 <= j < r.value() ==> #[trigger] mul_mod(
                    self.value() as int,
                    j,
                    Self::modulus() as int,
                ) != 1,
            !has_inverse(self.value() as int, Self::modulus() as int) ==> r.value() == 0,
    ;
}

/// An element is well formed when its representative is reduced.
pub open spec fn is_reduced<F: Field>(x: F) -> bool {
    x.value() < F::modulus()
}

} // verus!
