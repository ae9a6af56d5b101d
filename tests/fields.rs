use rlwe::ciphertext::Ciphertext;
use rlwe::coefficient::Coefficient;
use rlwe::combined::Combined;
use rlwe::field::Field;
use rlwe::plaintext::{CipherText, Plaintext};

#[test]
fn from_signed_reduces_into_range() {
    assert_eq!(Plaintext::from_signed(-1), Plaintext(6));
    assert_eq!(Plaintext::from_signed(-15), Plaintext(6));
    assert_eq!(Plaintext::from_signed(15), Plaintext(1));
    assert_eq!(Plaintext::from_signed(-7), Plaintext(0));
    assert_eq!(Ciphertext::from_signed(-1), Ciphertext(4095));
    assert_eq!(Ciphertext::from_signed(-4097), Ciphertext(4095));
    assert_eq!(Combined::from_signed(-1), Combined(0xFFFF_FFFF));
    assert_eq!(Coefficient::from_signed(2049), Coefficient(1));
    for i in -50i64..50 {
        let v = Plaintext::from_signed(i).to_signed();
        assert!(0 <= v && v < 7);
        assert_eq!(v, ((i % 7) + 7) % 7);
    }
}

#[test]
fn field_algebra_holds_in_plaintext_field() {
    let one = Plaintext::one();
    let zero = Plaintext::zero();
    for a in 0..7u32 {
        let a = Plaintext(a);
        assert_eq!(a.add(a.neg()), zero);
        assert_eq!(a.mul(one), a);
        assert_eq!(a.mul(zero), zero);
        for b in 0..7u32 {
            let b = Plaintext(b);
            assert_eq!(a.add(b), b.add(a));
            assert_eq!(a.mul(b), b.mul(a));
            for c in 0..7u32 {
                let c = Plaintext(c);
                assert_eq!(a.add(b).add(c), a.add(b.add(c)));
                assert_eq!(a.mul(b).mul(c), a.mul(b.mul(c)));
                assert_eq!(a.mul(b.add(c)), a.mul(b).add(a.mul(c)));
            }
        }
    }
}

#[test]
fn subtraction_wraps_below_zero() {
    assert_eq!(Plaintext(2).sub(Plaintext(5)), Plaintext(4));
    assert_eq!(Ciphertext(0).sub(Ciphertext(1)), Ciphertext(4095));
    let mut x = CipherText(3);
    x.sub_assign(CipherText(10));
    assert_eq!(x, CipherText(1017));
}

#[test]
fn negation_of_zero_is_zero() {
    assert_eq!(Plaintext(0).neg(), Plaintext(0));
    assert_eq!(Plaintext(3).neg(), Plaintext(4));
    assert_eq!(Combined(1).neg(), Combined(0xFFFF_FFFF));
}

#[test]
fn multiplication_uses_a_wide_product() {
    assert_eq!(Combined(0xFFFF_FFFF).mul(Combined(0xFFFF_FFFF)), Combined(1));
    assert_eq!(Ciphertext(4095).mul(Ciphertext(4095)), Ciphertext(1));
    assert_eq!(Plaintext(6).mul(Plaintext(6)), Plaintext(1));
}

#[test]
fn inverse_or_zero() {
    assert_eq!(Plaintext(3).inv(), Plaintext(5));
    assert_eq!(Plaintext(1).inv(), Plaintext(1));
    assert_eq!(Plaintext(0).inv(), Plaintext(0));
    assert_eq!(Ciphertext(2).inv(), Ciphertext(0));
    assert_eq!(Ciphertext(3).inv(), Ciphertext(2731));
    assert_eq!(Coefficient(3).inv(), Coefficient(683));
    assert_eq!(CipherText(1).inv(), CipherText(1));
    assert_eq!(Combined(1).inv(), Combined(1));
}

#[test]
fn constants_and_constructors() {
    assert_eq!(Plaintext::new(10), Plaintext(3));
    assert_eq!(Ciphertext::new(4096 + 5), Ciphertext(5));
    assert_eq!(Combined::new(0x1_0000_0002), Combined(2));
    assert_eq!(Plaintext::modulus_u64(), 7);
    assert_eq!(Ciphertext::modulus_u64(), 4096);
    assert_eq!(Coefficient::modulus_u64(), 1024);
    assert_eq!(CipherText::modulus_u64(), 1024);
    assert_eq!(Combined::modulus_u64(), 0x1_0000_0000);
    assert!(Plaintext::zero().is_zero());
    assert!(!Plaintext::one().is_zero());
    assert_eq!(Ciphertext(4095).to_signed(), 4095);
}
