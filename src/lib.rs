//! A Ring-LWE homomorphic encryption scheme over polynomials with
//! coefficients in small modular fields, reduced modulo `X^N + 1`.
//!
//! - [`modular`] and [`field`]: residues modulo `m` and the [`field::Field`]
//!   interface; [`plaintext`], [`ciphertext`], [`coefficient`] and
//!   [`combined`] are its instances.
//! - [`poly_math`] models polynomials as sequences of residues;
//!   [`polynomial`] is the executable polynomial arithmetic over it.
//! - [`rlwe`] is the scheme: keys, encryption, decryption, homomorphic
//!   addition and multiplication with relinearization.
//! - [`laws`], [`congruence`] and [`correctness`] state and prove the algebra
//!   and why decryption recovers the message.
#![allow(unused_imports)]

pub mod modular;
pub mod error;
pub mod field;
pub mod plaintext;
pub mod ciphertext;
pub mod coefficient;
pub mod combined;
pub mod poly_math;
pub mod polynomial;
mod sampling;
pub mod rlwe;
pub mod congruence;
pub mod laws;
pub mod correctness;
