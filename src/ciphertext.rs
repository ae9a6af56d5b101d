//! The ciphertext field, of modulus 4096.
use crate::field::Field;
use crate::modular::{mod_add, mod_from_signed, mod_inv, mod_mul, mod_neg, mod_sub};
use vstd::prelude::*;

verus! {

/// Ciphertexts live in this field, of modulus `q = 4096`.
#[derive(Clone, Copy, Debug, PartialEq, Eq, Structural)]
pub struct Ciphertext(pub u32);

impl Field for Ciphertext {
    open spec fn modulus() -> nat {
        4096
    }

    open spec fn value(&self) -> nat {
        self.0 as nat
    }

    proof fn lemma_modulus_bounds() {
    }

    fn modulus_u64() -> (r: u64) {
        4096
    }

    fn zero() -> (r: Self) {
        Ciphertext(0)
    }

    fn one() -> (r: Self) {
        Ciphertext(1)
    }

    fn new(num: u64) -> (r: Self) {
        Ciphertext((num % 4096) as u32)
    }

    fn from_signed(i: i64) -> (r: Self) {
        Ciphertext(mod_from_signed(i, 4096) as u32)
    }

    fn to_signed(self) -> (r: i64) {
        self.0 as i64
    }

    fn add(self, other: Self) -> (r: Self) {
        Ciphertext(mod_add(self.0 as u64, other.0 as u64, 4096) as u32)
    }

    fn sub(self, other: Self) -> (r: Self) {
        Ciphertext(mod_sub(self.0 as u64, other.0 as u64, 4096) as u32)
    }

    fn sub_assign(&mut self, other: Self) {
        *self = self.sub(other);
    }

    fn mul(self, other: Self) -> (r: Self) {
        Ciphertext(mod_mul(self.0 as u64, other.0 as u64, 4096) as u32)
    }

    fn neg(self) -> (r: Self) {
        Ciphertext(mod_neg(self.0 as u64, 4096) as u32)
    }

    fn is_zero(self) -> (r: bool) {
        self.0 == 0
    }

    fn inv(self) -> (r: Self) {
        Ciphertext(mod_inv(self.0 as u64, 4096) as u32)
    }
}

} // verus!
