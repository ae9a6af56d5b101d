//! The relinearization field, of modulus `p * q = 2^20 * 4096`.
use crate::field::Field;
use crate::modular::{mod_add, mod_from_signed, mod_inv, mod_mul, mod_neg, mod_sub};
use vstd::prelude::*;

verus! {

/// The extended field used while relinearizing, of modulus `2^20 * 4096 = 2^32`.
#[derive(Clone, Copy, Debug, PartialEq, Eq, Structural)]
pub struct Combined(pub u64);

impl Field for Combined {
    open spec fn modulus() -> nat {
        0x1_0000_0000
    }

    open spec fn value(&self) -> nat {
        self.0 as nat
    }

    proof fn lemma_modulus_bounds() {
    }

    fn modulus_u64() -> (r: u64) {
        0x1_0000_0000
    }

    fn zero() -> (r: Self) {
        Combined(0)
    }

    fn one() -> (r: Self) {
        Combined(1)
    }

    fn new(num: u64) -> (r: Self) {
        Combined(num % 0x1_0000_0000)
    }

    fn from_signed(i: i64) -> (r: Self) {
        Combined(mod_from_signed(i, 0x1_0000_0000))
    }

    fn to_signed(self) -> (r: i64) {
        self.0 as i64
    }

    fn add(self, other: Self) -> (r: Self) {
        Combined(mod_add(self.0, other.0, 0x1_0000_0000))
    }

    fn sub(self, other: Self) -> (r: Self) {
        Combined(mod_sub(self.0, other.0, 0x1_0000_0000))
    }

    fn sub_assign(&mut self, other: Self) {
        *self = self.sub(other);
    }

    fn mul(self, other: Self) -> (r: Self) {
        Combined(mod_mul(self.0, other.0, 0x1_0000_0000))
    }

    fn neg(self) -> (r: Self) {
        Combined(mod_neg(self.0, 0x1_0000_0000))
    }

    fn is_zero(self) -> (r: bool) {
        self.0 == 0
    }

    fn inv(self) -> (r: Self) {
        Combined(mod_inv(self.0, 0x1_0000_0000))
    }
}

} // verus!
