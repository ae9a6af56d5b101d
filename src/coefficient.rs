//! A coefficient field of modulus 1024.
use crate::field::Field;
use crate::modular::{mod_add, mod_from_signed, mod_inv, mod_mul, mod_neg, mod_sub};
use vstd::prelude::*;

verus! {

/// A field of modulus 1024 for polynomial coefficients.
#[derive(Clone, Copy, Debug, PartialEq, Eq, Structural)]
pub struct Coefficient(pub u32);

impl Field for Coefficient {
    open spec fn modulus() -> nat {
        1024
    }

    open spec fn value(&self) -> nat {
        self.0 as nat
    }

    proof fn lemma_modulus_bounds() {
    }

    fn modulus_u64() -> (r: u64) {
        1024
    }

    fn zero() -> (r: Self) {
        Coefficient(0)
    }

    fn one() -> (r: Self) {
        Coefficient(1)
    }

    fn new(num: u64) -> (r: Self) {
        Coefficient((num % 1024) as u32)
    }

    fn from_signed(i: i64) -> (r: Self) {
        Coefficient(mod_from_signed(i, 1024) as u32)
    }

    fn to_signed(self) -> (r: i64) {
        self.0 as i64
    }

    fn add(self, other: Self) -> (r: Self) {
        Coefficient(mod_add(self.0 as u64, other.0 as u64, 1024) as u32)
    }

    fn sub(self, other: Self) -> (r: Self) {
        Coefficient(mod_sub(self.0 as u64, other.0 as u64, 1024) as u32)
    }

    fn sub_assign(&mut self, other: Self) {
        *self = self.sub(other);
    }

    fn mul(self, other: Self) -> (r: Self) {
        Coefficient(mod_mul(self.0 as u64, other.0 as u64, 1024) as u32)
    }

    fn neg(self) -> (r: Self) {
        Coefficient(mod_neg(self.0 as u64, 1024) as u32)
    }

    fn is_zero(self) -> (r: bool) {
        self.0 == 0
    }

    fn inv(self) -> (r: Self) {
        Coefficient(mod_inv(self.0 as u64, 1024) as u32)
    }
}

} // verus!
