use rlwe::ciphertext::Ciphertext;
use rlwe::coefficient::Coefficient;
use rlwe::combined::Combined;
use rlwe::error::RlweError;
use rlwe::field::Field;
use rlwe::plaintext::Plaintext;
use rlwe::polynomial::{self, Poly};

fn pt(v: &[u32]) -> Poly<Plaintext> {
    Poly::new(v.iter().map(|&x| Plaintext(x)).collect())
}

fn ct(v: &[u32]) -> Poly<Ciphertext> {
    Poly::new(v.iter().map(|&x| Ciphertext(x)).collect())
}

#[test]
fn addition_pads_the_shorter_operand() {
    assert_eq!(pt(&[1, 2]).add(&pt(&[6])), pt(&[0, 2]));
    assert_eq!(pt(&[]).add(&pt(&[3, 4])), pt(&[3, 4]));
}

#[test]
fn schoolbook_multiplication() {
    assert_eq!(pt(&[1, 1]).mul(&pt(&[1, 6])), pt(&[1, 0, 6]));
    assert_eq!(pt(&[1, 2, 3]).mul(&pt(&[4, 5])), pt(&[4, 6, 1, 1]));
    assert_eq!(pt(&[]).mul(&pt(&[4, 5])), pt(&[]));
    assert_eq!(pt(&[4, 5]).mul(&pt(&[])), pt(&[]));
}

#[test]
fn polynomial_ring_laws() {
    let a = pt(&[1, 2, 3]);
    let b = pt(&[4, 5]);
    let c = pt(&[6, 1, 2]);
    assert_eq!(a.mul(&b), b.mul(&a));
    assert_eq!(a.add(&b).mul(&c), a.mul(&c).add(&b.mul(&c)));
    assert_eq!(a.add(&b).mul(&c), pt(&[2, 5, 0, 3, 6]));
    assert_eq!(a.add(&pt(&[])), a);
    assert_eq!(a.add(&pt(&[0, 0])), a);
}

#[test]
fn negation_is_coefficient_wise() {
    assert_eq!(pt(&[0, 1, 6]).neg(), pt(&[0, 6, 1]));
}

#[test]
fn zero_polynomials() {
    assert!(polynomial::is_zero::<Plaintext>(&[]));
    assert!(polynomial::is_zero(&[Plaintext(0), Plaintext(0)]));
    assert!(!polynomial::is_zero(&[Plaintext(0), Plaintext(1)]));
}

#[test]
fn polynomial_division() {
    let a: Vec<Coefficient> = [4u32, 1, 11, 10].iter().map(|&x| Coefficient(x)).collect();
    let phi: Vec<Coefficient> = polynomial::gen_cyclical(4);
    assert_eq!(phi, vec![Coefficient(1), Coefficient(0), Coefficient(0), Coefficient(0), Coefficient(1)]);
    let (q, r) = polynomial::div_with_rem(&a, &phi).unwrap();
    assert_eq!(q, vec![Coefficient(0)]);
    assert_eq!(r, a);
}

#[test]
fn division_identity_and_degree() {
    let a = pt(&[1, 0, 0, 0, 0, 1]);
    let phi: Poly<Plaintext> = Poly::gen_cyclical(4);
    let (q, r) = polynomial::div_with_rem(&a.0, &phi.0).unwrap();
    assert_eq!(q, vec![Plaintext(0), Plaintext(1)]);
    assert_eq!(r, vec![Plaintext(1), Plaintext(6)]);
    assert!(r.len() < phi.0.len());
    let back = Poly::new(q).mul(&phi).add(&Poly::new(r));
    assert_eq!(back, a);
}

#[test]
fn division_of_zero_and_by_zero() {
    let zero = [Plaintext(0), Plaintext(0)];
    let (q, r) = polynomial::div_with_rem(&zero, &[Plaintext(0)]).unwrap();
    assert_eq!(q, vec![Plaintext(0)]);
    assert!(r.is_empty());
    let err = polynomial::div_with_rem(&[Plaintext(1), Plaintext(2)], &[Plaintext(0), Plaintext(0)]);
    assert_eq!(err, Err(RlweError::DivideByZero));
    let err = polynomial::div_with_rem::<Plaintext>(&[Plaintext(3)], &[]);
    assert_eq!(err, Err(RlweError::DivideByZero));
}

#[test]
fn cyclotomic_reduction_is_idempotent() {
    let phi: Poly<Plaintext> = Poly::gen_cyclical(4);
    let a = pt(&[1, 2, 3, 4, 5, 6, 0, 1, 2]);
    let r1 = a.rem(&phi);
    assert_eq!(r1, pt(&[5, 3, 3, 3]));
    assert!(r1.0.len() <= 4);
    assert_eq!(r1.rem(&phi), r1);
}

#[test]
fn reduction_wraps_negacyclically() {
    let phi: Poly<Ciphertext> = Poly::gen_cyclical(4);
    let x = ct(&[0, 1]);
    let x3 = ct(&[0, 0, 0, 1]);
    assert_eq!(x.mul(&x3).rem(&phi), ct(&[4095]));
}

#[test]
fn scaling_rounds_the_centered_lift() {
    let up: Poly<Ciphertext> = pt(&[3, 6, 0]).scale(4096, 7);
    assert_eq!(up, ct(&[1755, 3511, 0]));
    let down: Poly<Plaintext> = ct(&[3511, 1755, 1, 4095]).scale(7, 4096);
    assert_eq!(down, pt(&[6, 3, 0, 0]));
    let halves: Poly<Ciphertext> = ct(&[1, 4095, 3]).scale(1, 2);
    assert_eq!(halves, ct(&[1, 4095, 2]));
    let lifted: Poly<Combined> = ct(&[4095, 2048, 2049]).scale(1, 1);
    assert_eq!(lifted.0, vec![Combined(0xFFFF_FFFF), Combined(2048), Combined(0xFFFF_F801)]);
}

#[test]
fn powers_multiply_without_reduction() {
    let a = pt(&[1, 1]);
    assert_eq!(a.pow(3), pt(&[1, 3, 3, 1]));
    assert_eq!(a.pow(1), a);
    assert_eq!(a.pow(0), a);
}

#[test]
fn ternary_samples_are_minus_one_zero_or_one() {
    let p: Poly<Ciphertext> = Poly::gen_ternary(256);
    assert_eq!(p.0.len(), 256);
    assert!(p.0.iter().all(|c| c.0 == 0 || c.0 == 1 || c.0 == 4095));
    assert!(p.0.iter().any(|c| c.0 != p.0[0].0));
    let v: Vec<Plaintext> = polynomial::gen_ternary(64);
    assert_eq!(v.len(), 64);
    assert!(v.iter().all(|c| c.0 == 0 || c.0 == 1 || c.0 == 6));
}

#[test]
fn uniform_samples_lie_in_the_field() {
    let p: Poly<Ciphertext> = Poly::gen_uniform(256);
    assert_eq!(p.0.len(), 256);
    assert!(p.0.iter().all(|c| c.0 < 4096));
    assert!(p.0.iter().any(|c| c.0 != 0));
    let r: Poly<Combined> = Poly::gen_uniform(64);
    assert!(r.0.iter().all(|c| c.0 < 0x1_0000_0000));
}

#[test]
fn signed_samples_reduce_into_the_field() {
    let p: Poly<Ciphertext> = Poly::from_signed(&[-3, 0, 2, -4096, 4097]);
    assert_eq!(p, ct(&[4093, 0, 2, 0, 1]));
}

#[test]
fn cyclotomic_has_ones_at_both_ends() {
    let phi: Poly<Ciphertext> = Poly::gen_cyclical(1);
    assert_eq!(phi, ct(&[1, 1]));
    let phi: Poly<Plaintext> = Poly::gen_cyclical(16);
    assert_eq!(phi.0.len(), 17);
    assert_eq!(phi.0[0], Plaintext::one());
    assert_eq!(phi.0[16], Plaintext::one());
}
