use rlwe::ciphertext::Ciphertext;
use rlwe::combined::Combined;
use rlwe::error::RlweError;
use rlwe::plaintext::{CipherText, Plaintext};
use rlwe::polynomial::Poly;
use rlwe::rlwe::Rlwe;

type Ring = Rlwe<Plaintext, Ciphertext, Combined>;
type Key = (Poly<Ciphertext>, Poly<Ciphertext>);

/// A fixed pseudo-random source, so that every run draws the same keys.
struct XorShift(u64);

impl XorShift {
    fn next(&mut self) -> u64 {
        let mut x = self.0;
        x ^= x << 13;
        x ^= x >> 7;
        x ^= x << 17;
        self.0 = x;
        x
    }

    fn ternary(&mut self, n: usize) -> Vec<i64> {
        (0..n).map(|_| (self.next() % 3) as i64 - 1).collect()
    }

    fn uniform(&mut self, n: usize, m: u64) -> Vec<i64> {
        (0..n).map(|_| (self.next() % m) as i64).collect()
    }

    fn small(&mut self, n: usize) -> Vec<i64> {
        (0..n).map(|_| (self.next() % 7) as i64 - 3).collect()
    }
}

struct Keys {
    ring: Ring,
    sk: Poly<Ciphertext>,
    pk: Key,
    rk: (Poly<Combined>, Poly<Combined>),
}

fn seeded_keys(rng: &mut XorShift, n: usize) -> Keys {
    let ring = Ring::new(n).unwrap();
    let sk = Poly::from_signed(&rng.ternary(n));
    let a = Poly::from_signed(&rng.uniform(n, 4096));
    let e = Poly::from_signed(&rng.small(n));
    let pk = ring.public_key(&sk, &a, &e);
    let ra = Poly::from_signed(&rng.uniform(n, 1 << 32));
    let re = Poly::from_signed(&rng.small(n));
    let rk = ring.eval_key(&sk, &ra, &re);
    Keys { ring, sk, pk, rk }
}

fn seeded_encrypt(keys: &Keys, rng: &mut XorShift, m: &[u32]) -> Key {
    let n = keys.ring.terms();
    let u = Poly::from_signed(&rng.ternary(n));
    let e1 = Poly::from_signed(&rng.small(n));
    let e2 = Poly::from_signed(&rng.small(n));
    keys.ring.encrypt_with(&keys.pk.0, &keys.pk.1, &message(m, n), &u, &e1, &e2)
}

fn message(m: &[u32], n: usize) -> Poly<Plaintext> {
    let mut v: Vec<Plaintext> = m.iter().map(|&x| Plaintext(x)).collect();
    v.resize(n, Plaintext(0));
    Poly::new(v)
}

/// The coefficients, padded with zeros to `n`.
fn padded(p: &Poly<Plaintext>, n: usize) -> Vec<u32> {
    let mut v: Vec<u32> = p.0.iter().map(|c| c.0).collect();
    assert!(v.len() <= n);
    v.resize(n, 0);
    v
}

fn expected(m: &[u32], n: usize) -> Vec<u32> {
    let mut v = m.to_vec();
    v.resize(n, 0);
    v
}

fn zero_errors(n: usize) -> Poly<Ciphertext> {
    Poly::new(vec![Ciphertext(0); n])
}

#[test]
fn trivial_roundtrip() {
    let mut rng = XorShift(1);
    let keys = seeded_keys(&mut rng, 16);
    let c = seeded_encrypt(&keys, &mut rng, &[3]);
    let m = keys.ring.decrypt(&keys.sk, &c.0, &c.1);
    assert_eq!(padded(&m, 16), expected(&[3], 16));
}

#[test]
fn additive_identity() {
    let mut rng = XorShift(2);
    let keys = seeded_keys(&mut rng, 16);
    let c = seeded_encrypt(&keys, &mut rng, &[1, 2, 3]);
    let z = seeded_encrypt(&keys, &mut rng, &[]);
    let sum = keys.ring.eval_add(&c.0, &c.1, &z.0, &z.1);
    let m = keys.ring.decrypt(&keys.sk, &sum.0, &sum.1);
    assert_eq!(padded(&m, 16), expected(&[1, 2, 3], 16));
}

#[test]
fn doubling() {
    let mut rng = XorShift(3);
    let keys = seeded_keys(&mut rng, 16);
    let c = seeded_encrypt(&keys, &mut rng, &[3]);
    let sum = keys.ring.eval_add(&c.0, &c.1, &c.0, &c.1);
    let m = keys.ring.decrypt(&keys.sk, &sum.0, &sum.1);
    assert_eq!(padded(&m, 16), expected(&[6], 16));
}

#[test]
fn multiplicative() {
    // Keys and masks drawn from the library's random source; with the error
    // polynomials left at zero the product's noise stays far below q / 2t.
    let ring = Ring::new(16).unwrap();
    let zero = zero_errors(16);
    let sk = ring.gen_secret_key();
    let pk = ring.gen_public_key(&sk, &zero);
    let rk = ring.gen_eval_key(&sk, &Poly::new(vec![Combined(0); 16]));
    let c1 = ring.encrypt(&pk.0, &pk.1, &message(&[2], 16), &zero, &zero);
    let c2 = ring.encrypt(&pk.0, &pk.1, &message(&[3], 16), &zero, &zero);
    let product = ring.eval_mul(&rk, &c1.0, &c1.1, &c2.0, &c2.1);
    let m = ring.decrypt(&sk, &product.0, &product.1);
    assert_eq!(padded(&m, 16), expected(&[6], 16));
}

#[test]
fn negacyclic_wraparound() {
    let mut rng = XorShift(5);
    let keys = seeded_keys(&mut rng, 4);
    let c1 = seeded_encrypt(&keys, &mut rng, &[0, 1, 0, 0]);
    let c2 = seeded_encrypt(&keys, &mut rng, &[0, 0, 0, 1]);
    let product = keys.ring.eval_mul(&keys.rk, &c1.0, &c1.1, &c2.0, &c2.1);
    let m = keys.ring.decrypt(&keys.sk, &product.0, &product.1);
    assert_eq!(padded(&m, 4), vec![6, 0, 0, 0]);
}

#[test]
fn roundtrip_with_sampled_keys() {
    // Errors of magnitude at most 3 keep the noise under 3 * (2 * 16 + 1) < q / 2t.
    let mut rng = XorShift(7);
    let ring = Ring::new(16).unwrap();
    let sk = ring.gen_secret_key();
    let pk = ring.gen_public_key(&sk, &Poly::from_signed(&rng.small(16)));
    for m in [&[0u32][..], &[6, 5, 4, 3, 2, 1, 0, 1][..], &[1; 16][..]] {
        let e1 = Poly::from_signed(&rng.small(16));
        let e2 = Poly::from_signed(&rng.small(16));
        let c = ring.encrypt(&pk.0, &pk.1, &message(m, 16), &e1, &e2);
        assert!(c.0 .0.len() <= 16 && c.1 .0.len() <= 16);
        let d = ring.decrypt(&sk, &c.0, &c.1);
        assert_eq!(padded(&d, 16), expected(m, 16));
    }
}

#[test]
fn additive_homomorphism_with_sampled_keys() {
    let mut rng = XorShift(11);
    let ring = Ring::new(16).unwrap();
    let sk = ring.gen_secret_key();
    let pk = ring.gen_public_key(&sk, &Poly::from_signed(&rng.small(16)));
    let m1 = [1u32, 2, 3, 4, 5, 6, 0, 1];
    let m2 = [6u32, 6, 6, 1, 1, 1, 2, 2];
    let c1 = ring.encrypt(&pk.0, &pk.1, &message(&m1, 16), &Poly::from_signed(&rng.small(16)), &Poly::from_signed(&rng.small(16)));
    let c2 = ring.encrypt(&pk.0, &pk.1, &message(&m2, 16), &Poly::from_signed(&rng.small(16)), &Poly::from_signed(&rng.small(16)));
    let sum = ring.eval_add(&c1.0, &c1.1, &c2.0, &c2.1);
    let d = ring.decrypt(&sk, &sum.0, &sum.1);
    let want: Vec<u32> = m1.iter().zip(m2.iter()).map(|(a, b)| (a + b) % 7).collect();
    assert_eq!(padded(&d, 16), expected(&want, 16));
}

#[test]
fn noise_free_encryption_decrypts_exactly() {
    let ring = Ring::new(8).unwrap();
    let zero = zero_errors(8);
    let sk = ring.gen_secret_key();
    let pk = ring.gen_public_key(&sk, &zero);
    let c = ring.encrypt(&pk.0, &pk.1, &message(&[5, 0, 2], 8), &zero, &zero);
    let v = ring.noisy_plaintext(&sk, &c.0, &c.1);
    let mut want: Vec<u32> = vec![2926, 0, 1170];
    let mut got: Vec<u32> = v.0.iter().map(|c| c.0).collect();
    got.resize(8, 0);
    want.resize(8, 0);
    assert_eq!(got, want);
}

#[test]
fn public_key_hides_the_error() {
    let mut rng = XorShift(13);
    let keys = seeded_keys(&mut rng, 8);
    let e: Poly<Ciphertext> = Poly::from_signed(&[1, -1, 2, 0, 0, -3, 0, 0]);
    let a: Poly<Ciphertext> = Poly::from_signed(&rng.uniform(8, 4096));
    let pk = keys.ring.public_key(&keys.sk, &a, &e);
    assert_eq!(pk.1, a);
    let phi = keys.ring.cyclical();
    let back = pk.0.add(&pk.1.mul(&keys.sk)).rem(&phi);
    assert_eq!(back, Poly::from_signed(&[1, -1, 2, 0, 0, -3]));
}

#[test]
fn eval_key_encodes_the_squared_secret() {
    let mut rng = XorShift(17);
    let ring = Ring::new(8).unwrap();
    let sk: Poly<Ciphertext> = Poly::from_signed(&rng.ternary(8));
    let a: Poly<Combined> = Poly::from_signed(&rng.uniform(8, 1 << 32));
    let e: Poly<Combined> = Poly::from_signed(&[2, 0, -1, 0, 0, 0, 0, 1]);
    let rk = ring.eval_key(&sk, &a, &e);
    assert_eq!(rk.1, a);
    let phi: Poly<Combined> = Poly::gen_cyclical(8);
    let s: Poly<Combined> = sk.scale(1, 1);
    let lhs = rk.0.add(&rk.1.mul(&s)).rem(&phi);
    let s_sq: Poly<Combined> = s.mul(&s).rem(&phi).scale(1 << 20, 1);
    let rhs = e.neg().add(&s_sq).rem(&phi);
    assert_eq!(lhs, rhs);
}

#[test]
fn parameters_are_checked() {
    assert!(Ring::new(0).is_err());
    assert_eq!(Ring::new(0).err(), Some(RlweError::InvalidParameter));
    assert_eq!(Ring::new(16).unwrap().terms(), 16);
    assert!(Rlwe::<Ciphertext, Plaintext, Combined>::new(16).is_err());
    assert!(Rlwe::<Plaintext, Combined, Ciphertext>::new(16).is_err());
    assert!(Rlwe::<Plaintext, Ciphertext, Ciphertext>::new(16).is_err());
    assert!(Rlwe::<Plaintext, CipherText, Combined>::new(16).is_ok());
}

#[test]
fn secret_key_is_ternary() {
    let ring = Ring::new(32).unwrap();
    let sk = ring.gen_secret_key();
    assert_eq!(sk.0.len(), 32);
    assert!(sk.0.iter().all(|c| c.0 == 0 || c.0 == 1 || c.0 == 4095));
    assert_eq!(ring.cyclical().0.len(), 33);
}
