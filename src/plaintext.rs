//! The plaintext field `F_7`, and a ciphertext field of modulus 1024.
use crate::field::Field;
use crate::modular::{mod_add, mod_from_signed, mod_inv, mod_mul, mod_neg, mod_sub};
use vstd::prelude::*;

verus! {

/// Messages live in this field, of modulus 7.
#[derive(Clone, Copy, Debug, PartialEq, Eq, Structural)]
pub struct Plaintext(pub u32);

impl Field for Plaintext {
    open spec fn modulus() -> nat {
        7
    }

    open spec fn value(&self) -> nat {
        self.0 as nat
    }

    proof fn lemma_modulus_bounds() {
    }

    fn modulus_u64() -> (r: u64) {
        7
    }

    fn zero() -> (r: Self) {
        Plaintext(0)
    }

    fn one() -> (r: Self) {
        Plaintext(1)
    }

    fn new(num: u64) -> (r: Self) {
        Plaintext((num % 7) as u32)
    }

    fn from_signed(i: i64) -> (r: Self) {
        Plaintext(mod_from_signed(i, 7) as u32)
    }

    fn to_signed(self) -> (r: i64) {
        self.0 as i64
    }

    fn add(self, other: Self) -> (r: Self) {
        Plaintext(mod_add(self.0 as u64, other.0 as u64, 7) as u32)
    }

    fn sub(self, other: Self) -> (r: Self) {
        Plaintext(mod_sub(self.0 as u64, other.0 as u64, 7) as u32)
    }

    fn sub_assign(&mut self, other: Self) {
        *self = self.sub(other);
    }

    fn mul(self, other: Self) -> (r: Self) {
        Plaintext(mod_mul(self.0 as u64, other.0 as u64, 7) as u32)
    }

    fn neg(self) -> (r: Self) {
        Plaintext(mod_neg(self.0 as u64, 7) as u32)
    }

    fn is_zero(self) -> (r: bool) {
        self.0 == 0
    }

    fn inv(self) -> (r: Self) {
        Plaintext(mod_inv(self.0 as u64, 7) as u32)
    }
}

/// A ciphertext field of modulus 1024.
#[derive(Clone, Copy, Debug, PartialEq, Eq, Structural)]
pub struct CipherText(pub u32);

impl Field for CipherText {
    open spec fn modulus() -> nat {
        1024
    }

    open spec fn value(&self) -> nat {
        self.0 as nat
    }

    proof fn lemma_modulus_bounds() {
    }

    fn modulus_u64() -> (r: u64) {
        1024
    }

    fn zero() -> (r: Self) {
        CipherText(0)
    }

    fn one() -> (r: Self) {
        CipherText(1)
    }

    fn new(num: u64) -> (r: Self) {
        CipherText((num % 1024) as u32)
    }

    fn from_signed(i: i64) -> (r: Self) {
        CipherText(mod_from_signed(i, 1024) as u32)
    }

    fn to_signed(self) -> (r: i64) {
        self.0 as i64
    }

    fn add(self, other: Self) -> (r: Self) {
        CipherText(mod_add(self.0 as u64, other.0 as u64, 1024) as u32)
    }

    fn sub(self, other: Self) -> (r: Self) {
        CipherText(mod_sub(self.0 as u64, other.0 as u64, 1024) as u32)
    }

    fn sub_assign(&mut self, other: Self) {
        *self = self.sub(other);
    }

    fn mul(self, other: Self) -> (r: Self) {
        CipherText(mod_mul(self.0 as u64, other.0 as u64, 1024) as u32)
    }

    fn neg(self) -> (r: Self) {
        CipherText(mod_neg(self.0 as u64, 1024) as u32)
    }

    fn is_zero(self) -> (r: bool) {
        self.0 == 0
    }

    fn inv(self) -> (r: Self) {
        CipherText(mod_inv(self.0 as u64, 1024) as u32)
    }
}

} // verus!
