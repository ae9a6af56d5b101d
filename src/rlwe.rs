//! The Ring-LWE scheme over `R_q = F_q[X] / (X^N + 1)`: key generation,
//! encryption, decryption and the homomorphic operations.
use crate::error::RlweError;
use crate::field::Field;
use crate::modular::MAX_MODULUS;
use crate::poly_math::{
    cyclotomic, is_remainder, lemma_cyclotomic_divisible, lemma_remainder_len, poly_add, poly_mul,
    poly_neg, scale_seq,
};
use crate::polynomial::Poly;
use core::marker::PhantomData;
use vstd::prelude::*;

verus! {

/// Parameters that fit together: at least one term, lengths that stay far
/// from `usize::MAX`, a plaintext modulus `t` below the ciphertext modulus `q`,
/// and a relinearization modulus `p * q` with `p > 1`.
pub open spec fn valid_params<PF: Field, CF: Field, RF: Field>(terms: nat) -> bool {
    &&& 1 <= terms <= usize::MAX / 4
    &&& PF::modulus() < CF::modulus()
    &&& RF::modulus() % CF::modulus() == 0
    &&& CF::modulus() < RF::modulus()
}

/// `r` is `a` reduced modulo `X^n + 1`.
pub open spec fn reduces_to(a: Seq<int>, n: nat, r: Seq<int>, m: int) -> bool {
    is_remainder(a, cyclotomic(n), r, m)
}

/// A ciphertext-field polynomial lifted coefficient by coefficient, through
/// its centered representative, into the field of modulus `big`.
pub open spec fn lift(a: Seq<int>, small: int, big: int) -> Seq<int> {
    scale_seq(a, small, 1, 1, big)
}

/// Every coefficient is `0`, `1` or `m - 1`, the residue of `-1`.
pub open spec fn ternary(u: Seq<int>, m: int) -> bool {
    forall|i: int| 0 <= i < u.len() ==> (#[trigger] u[i] == 0 || u[i] == 1 || u[i] == m - 1)
}

/// `(f0, f1, f2)` is the product of `(c10, c11)` and `(c20, c21)` before
/// relinearization: each of `c10 * c20`, `c10 * c21 + c11 * c20` and
/// `c11 * c21` computed on the lifts into modulus `big`, reduced modulo
/// `X^n + 1`, then rescaled by `t / q` into modulus `q`.
pub open spec fn tensored(
    c10: Seq<int>,
    c11: Seq<int>,
    c20: Seq<int>,
    c21: Seq<int>,
    f0: Seq<int>,
    f1: Seq<int>,
    f2: Seq<int>,
    n: nat,
    t: int,
    q: int,
    big: int,
) -> bool {
    let (l10, l11, l20, l21) = (lift(c10, q, big), lift(c11, q, big), lift(c20, q, big), lift(c21, q, big));
    &&& exists|w: Seq<int>| reduces_to(poly_mul(l10, l20, big), n, w, big) && f0 == scale_seq(w, big, t, q, q)
    &&& exists|w: Seq<int>|
        reduces_to(poly_add(poly_mul(l10, l21, big), poly_mul(l11, l20, big), big), n, w, big)
            && f1 == scale_seq(w, big, t, q, q)
    &&& exists|w: Seq<int>| reduces_to(poly_mul(l11, l21, big), n, w, big) && f2 == scale_seq(w, big, t, q, q)
}

/// `(g0, g1)` rewrites the `sk^2` term `f2` through the evaluation key
/// `(rk1, rk2)`: `f2 * rk_i` on the lift of `f2` into modulus `big`, reduced
/// modulo `X^n + 1`, then divided by `p = big / q` into modulus `q`.
pub open spec fn relinearized(
    f2: Seq<int>,
    rk1: Seq<int>,
    rk2: Seq<int>,
    g0: Seq<int>,
    g1: Seq<int>,
    n: nat,
    q: int,
    big: int,
) -> bool {
    &&& exists|w: Seq<int>|
        reduces_to(poly_mul(lift(f2, q, big), rk1, big), n, w, big) && g0 == scale_seq(w, big, 1, big / q, q)
    &&& exists|w: Seq<int>|
        reduces_to(poly_mul(lift(f2, q, big), rk2, big), n, w, big) && g1 == scale_seq(w, big, 1, big / q, q)
}

/// `rk1` is `-(a * s + e) + p * (s * s mod (X^n + 1)) mod (X^n + 1)` in modulus
/// `big = p * q`, where `s` is `sk` lifted from modulus `q`.
pub open spec fn eval_key_from(
    sk: Seq<int>,
    a: Seq<int>,
    e: Seq<int>,
    rk1: Seq<int>,
    n: nat,
    q: int,
    big: int,
) -> bool {
    let s = lift(sk, q, big);
    exists|s_sq: Seq<int>|
        #[trigger] reduces_to(poly_mul(s, s, big), n, s_sq, big) && reduces_to(
            poly_add(poly_neg(poly_add(poly_mul(a, s, big), e, big), big), scale_seq(s_sq, big, big / q, 1, big), big),
            n,
            rk1,
            big,
        )
}

/// `(c1, c2)` encrypts `m` with `u`, `e1` and `e2`: `c1 = pk1 * u + e1 + scale(m, q / t)`
/// and `c2 = pk2 * u + e2`, each reduced modulo `X^n + 1`.
pub open spec fn encrypts_to(
    pk1: Seq<int>,
    pk2: Seq<int>,
    m: Seq<int>,
    u: Seq<int>,
    e1: Seq<int>,
    e2: Seq<int>,
    c1: Seq<int>,
    c2: Seq<int>,
    n: nat,
    t: int,
    q: int,
) -> bool {
    &&& reduces_to(poly_add(poly_add(poly_mul(pk1, u, q), e1, q), scale_seq(m, t, q, t, q), q), n, c1, q)
    &&& reduces_to(poly_add(poly_mul(pk2, u, q), e2, q), n, c2, q)
}

/// The two steps of homomorphic multiplication, with `(f0, f1, f2)` the
/// tensored product and `(g0, g1)` the relinearized `f2`, give
/// `(f0 + g0, f1 + g1)`, each reduced modulo `X^n + 1`.
pub open spec fn multiplies_to(
    c10: Seq<int>,
    c11: Seq<int>,
    c20: Seq<int>,
    c21: Seq<int>,
    rk1: Seq<int>,
    rk2: Seq<int>,
    f0: Seq<int>,
    f1: Seq<int>,
    f2: Seq<int>,
    g0: Seq<int>,
    g1: Seq<int>,
    r0: Seq<int>,
    r1: Seq<int>,
    n: nat,
    t: int,
    q: int,
    big: int,
) -> bool {
    &&& tensored(c10, c11, c20, c21, f0, f1, f2, n, t, q, big)
    &&& relinearized(f2, rk1, rk2, g0, g1, n, q, big)
    &&& reduces_to(poly_add(f0, g0, q), n, r0, q)
    &&& reduces_to(poly_add(f1, g1, q), n, r1, q)
}

/// `v` is the phase `c1 + c2 * sk mod (X^n + 1)` of the ciphertext `(c1, c2)`,
/// which decryption rescales.
pub open spec fn phase(c1: Seq<int>, c2: Seq<int>, sk: Seq<int>, n: nat, v: Seq<int>, q: int) -> bool {
    reduces_to(poly_add(c1, poly_mul(c2, sk, q), q), n, v, q)
}

/// A scheme over the plaintext field `PF` (modulus `t`), the ciphertext field
/// `CF` (modulus `q`) and the relinearization field `RF` (modulus `p * q`),
/// with polynomials reduced modulo `X^N + 1`.
pub struct Rlwe<PF: Field, CF: Field, RF: Field> {
    terms: usize,
    fields: PhantomData<(PF, CF, RF)>,
}

impl<PF: Field, CF: Field, RF: Field> Rlwe<PF, CF, RF> {
    /// The number of terms `N`.
    pub closed spec fn n(&self) -> nat {
        self.terms as nat
    }

    pub open spec fn wf(&self) -> bool {
        valid_params::<PF, CF, RF>(self.n())
    }

    /// A polynomial of this scheme: reduced coefficients, at most `N` of them.
    pub open spec fn fits<F: Field>(&self, a: &Poly<F>) -> bool {
        a.wf() && a.0.len() <= self.n()
    }

    /// A scheme with `terms` terms, or `InvalidParameter` when the fields and
    /// `terms` do not fit together.
    pub fn new(terms: usize) -> (r: Result<Self, RlweError>)
        ensures
            r is Ok <==> valid_params::<PF, CF, RF>(terms as nat),
            r matches Ok(s) ==> s.n() == terms && s.wf(),
            r is Err ==> r == Err::<Self, RlweError>(RlweError::InvalidParameter),
    {
        let t = PF::modulus_u64();
        let q = CF::modulus_u64();
        let big = RF::modulus_u64();
        if terms < 1 || terms > usize::MAX / 4 || t >= q || big % q != 0 || big <= q {
            return Err(RlweError::InvalidParameter);
        }
        Ok(Rlwe { terms, fields: PhantomData })
    }

    pub fn terms(&self) -> (r: usize)
        ensures
            r == self.n(),
    {
        self.terms
    }

    /// The lift factor `p = (p * q) / q`.
    pub open spec fn lift_factor(&self) -> int {
        RF::modulus() as int / CF::modulus() as int
    }

    fn lift_factor_u64(&self) -> (r: u64)
        requires
            self.wf(),
        ensures
            r == self.lift_factor(),
            1 < r <= MAX_MODULUS,
    {
        proof {
            CF::lemma_modulus_bounds();
            RF::lemma_modulus_bounds();
            vstd::arithmetic::div_mod::lemma_fundamental_div_mod(RF::modulus() as int, CF::modulus() as int);
            assert(RF::modulus() as int / CF::modulus() as int > 1) by (nonlinear_arith)
                requires
                    RF::modulus() == CF::modulus() * (RF::modulus() as int / CF::modulus() as int),
                    CF::modulus() < RF::modulus(),
                    CF::modulus() > 1,
            ;
            vstd::arithmetic::div_mod::lemma_div_is_ordered_by_denominator(RF::modulus() as int, 1, CF::modulus() as int);
        }
        RF::modulus_u64() / CF::modulus_u64()
    }

    /// `X^N + 1` over the ciphertext field.
    pub fn cyclical(&self) -> (r: Poly<CF>)
        requires
            self.wf(),
        ensures
            r.wf(),
            r@ == cyclotomic(self.n()),
    {
        Poly::gen_cyclical(self.terms)
    }

    /// `X^N + 1` over the relinearization field.
    fn cyclical_extended(&self) -> (r: Poly<RF>)
        requires
            self.wf(),
        ensures
            r.wf(),
            r@ == cyclotomic(self.n()),
    {
        Poly::gen_cyclical(self.terms)
    }

    /// `a mod (X^N + 1)` in whichever field `a` lives.
    fn reduce<F: Field>(&self, a: &Poly<F>) -> (r: Poly<F>)
        requires
            self.wf(),
            a.wf(),
        ensures
            r.wf(),
            r.0.len() <= self.n(),
            reduces_to(a@, self.n(), r@, F::modulus() as int),
    {
        proof {
            F::lemma_modulus_bounds();
            lemma_cyclotomic_divisible(self.n(), F::modulus() as int);
        }
        let phi: Poly<F> = Poly::gen_cyclical(self.terms);
        let r = a.rem(&phi);
        proof {
            lemma_remainder_len(a@, phi@, r@, F::modulus() as int);
        }
        r
    }

    /// A secret key: `N` coefficients drawn from `{-1, 0, 1}`.
    pub fn gen_secret_key(&self) -> (sk: Poly<CF>)
        requires
            self.wf(),
        ensures
            self.fits(&sk),
            sk.0.len() == self.n(),
            forall|i: int|
                0 <= i < self.n() ==> {
                    let v = (#[trigger] sk@[i]);
                    v == 0 || v == 1 || v == CF::modulus() - 1
                },
    {
        Poly::gen_ternary(self.terms)
    }

    /// The public key `(-(a * sk) + e mod (X^N + 1), a)` for the uniform `a`
    /// and the small error `e`.
    pub fn public_key(&self, sk: &Poly<CF>, a: &Poly<CF>, e: &Poly<CF>) -> (pk: (Poly<CF>, Poly<CF>))
        requires
            self.wf(),
            self.fits(sk),
            self.fits(a),
            self.fits(e),
        ensures
            self.fits(&pk.0),
            pk.1.0@ == a.0@,
            reduces_to(
                poly_add(poly_neg(poly_mul(a@, sk@, CF::modulus() as int), CF::modulus() as int), e@, CF::modulus() as int),
                self.n(),
                pk.0@,
                CF::modulus() as int,
            ),
    {
        let pk1 = self.reduce(&a.mul(sk).neg().add(e));
        let pk2 = Poly(vstd::slice::slice_to_vec(&a.0));
        proof {
            assert(pk2.0@ == a.0@);
        }
        (pk1, pk2)
    }

    /// Generates the public key for `sk`, drawing `a` uniformly; `e` is the small error.
    pub fn gen_public_key(&self, sk: &Poly<CF>, e: &Poly<CF>) -> (pk: (Poly<CF>, Poly<CF>))
        requires
            self.wf(),
            self.fits(sk),
            self.fits(e),
        ensures
            self.fits(&pk.0),
            self.fits(&pk.1),
            pk.1.0.len() == self.n(),
            reduces_to(
                poly_add(poly_neg(poly_mul(pk.1@, sk@, CF::modulus() as int), CF::modulus() as int), e@, CF::modulus() as int),
                self.n(),
                pk.0@,
                CF::modulus() as int,
            ),
    {
        let a: Poly<CF> = Poly::gen_uniform(self.terms);
        self.public_key(sk, &a, e)
    }

    /// The evaluation key `(rk1, rk2) = (-(a * s + e) + p * (s * s mod (X^N + 1)) mod (X^N + 1), a)`,
    /// where `s` is `sk` lifted into the relinearization field, `a` is uniform and `e` small.
    pub fn eval_key(&self, sk: &Poly<CF>, a: &Poly<RF>, e: &Poly<RF>) -> (rk: (Poly<RF>, Poly<RF>))
        requires
            self.wf(),
            self.fits(sk),
            self.fits(a),
            self.fits(e),
        ensures
            self.fits(&rk.0),
            rk.1.0@ == a.0@,
            eval_key_from(sk@, a@, e@, rk.0@, self.n(), CF::modulus() as int, RF::modulus() as int),
    {
        let s: Poly<RF> = sk.scale(1, 1);
        let s_sq = self.reduce(&s.mul(&s));
        let p = self.lift_factor_u64();
        let p_s_sq: Poly<RF> = s_sq.scale(p, 1);
        let rk1 = self.reduce(&a.mul(&s).add(e).neg().add(&p_s_sq));
        let rk2 = Poly(vstd::slice::slice_to_vec(&a.0));
        proof {
            let big = RF::modulus() as int;
            let ls = lift(sk@, CF::modulus() as int, big);
            assert(s@ == ls);
            assert(reduces_to(poly_mul(ls, ls, big), self.n(), s_sq@, big));
        }
        (rk1, rk2)
    }

    /// Generates the evaluation key for `sk`, drawing `a` uniformly; `e` is the small error.
    pub fn gen_eval_key(&self, sk: &Poly<CF>, e: &Poly<RF>) -> (rk: (Poly<RF>, Poly<RF>))
        requires
            self.wf(),
            self.fits(sk),
            self.fits(e),
        ensures
            self.fits(&rk.0),
            self.fits(&rk.1),
            rk.1.0.len() == self.n(),
            eval_key_from(sk@, rk.1@, e@, rk.0@, self.n(), CF::modulus() as int, RF::modulus() as int),
    {
        let a: Poly<RF> = Poly::gen_uniform(self.terms);
        self.eval_key(sk, &a, e)
    }

    /// Encrypts `m` with the ternary `u` and the small errors `e1`, `e2`:
    /// `c1 = pk1 * u + e1 + scale(m, q / t) mod (X^N + 1)`, `c2 = pk2 * u + e2 mod (X^N + 1)`.
    pub fn encrypt_with(
        &self,
        pk1: &Poly<CF>,
        pk2: &Poly<CF>,
        plaintext: &Poly<PF>,
        u: &Poly<CF>,
        e1: &Poly<CF>,
        e2: &Poly<CF>,
    ) -> (c: (Poly<CF>, Poly<CF>))
        requires
            self.wf(),
            self.fits(pk1),
            self.fits(pk2),
            self.fits(plaintext),
            self.fits(u),
            self.fits(e1),
            self.fits(e2),
        ensures
            self.fits(&c.0),
            self.fits(&c.1),
            encrypts_to(
                pk1@,
                pk2@,
                plaintext@,
                u@,
                e1@,
                e2@,
                c.0@,
                c.1@,
                self.n(),
                PF::modulus() as int,
                CF::modulus() as int,
            ),
    {
        proof {
            CF::lemma_modulus_bounds();
            PF::lemma_modulus_bounds();
        }
        let enc: Poly<CF> = plaintext.scale(CF::modulus_u64(), PF::modulus_u64());
        let c1 = self.reduce(&pk1.mul(u).add(e1).add(&enc));
        let c2 = self.reduce(&pk2.mul(u).add(e2));
        (c1, c2)
    }

    /// Encrypts `m` under `(pk1, pk2)`, drawing the ternary `u`; `e1`, `e2` are the small errors.
    pub fn encrypt(
        &self,
        pk1: &Poly<CF>,
        pk2: &Poly<CF>,
        plaintext: &Poly<PF>,
        e1: &Poly<CF>,
        e2: &Poly<CF>,
    ) -> (c: (Poly<CF>, Poly<CF>))
        requires
            self.wf(),
            self.fits(pk1),
            self.fits(pk2),
            self.fits(plaintext),
            self.fits(e1),
            self.fits(e2),
        ensures
            self.fits(&c.0),
            self.fits(&c.1),
            exists|u: Seq<int>|
                u.len() == self.n() && ternary(u, CF::modulus() as int) && #[trigger] encrypts_to(
                    pk1@,
                    pk2@,
                    plaintext@,
                    u,
                    e1@,
                    e2@,
                    c.0@,
                    c.1@,
                    self.n(),
                    PF::modulus() as int,
                    CF::modulus() as int,
                ),
    {
        let u: Poly<CF> = Poly::gen_ternary(self.terms);
        let c = self.encrypt_with(pk1, pk2, plaintext, &u, e1, e2);
        proof {
            assert(ternary(u@, CF::modulus() as int));
        }
        c
    }

    /// `c1 + c2 * sk mod (X^N + 1)`: the message scaled by `q / t`, plus noise.
    pub fn noisy_plaintext(&self, sk: &Poly<CF>, c1: &Poly<CF>, c2: &Poly<CF>) -> (v: Poly<CF>)
        requires
            self.wf(),
            self.fits(sk),
            self.fits(c1),
            self.fits(c2),
        ensures
            self.fits(&v),
            phase(c1@, c2@, sk@, self.n(), v@, CF::modulus() as int),
    {
        self.reduce(&c1.add(&c2.mul(sk)))
    }

    /// Decrypts: `c1 + c2 * sk mod (X^N + 1)` rescaled by `t / q` into the plaintext field.
    pub fn decrypt(&self, sk: &Poly<CF>, c1: &Poly<CF>, c2: &Poly<CF>) -> (m: Poly<PF>)
        requires
            self.wf(),
            self.fits(sk),
            self.fits(c1),
            self.fits(c2),
        ensures
            self.fits(&m),
            exists|v: Seq<int>|
                #[trigger] phase(c1@, c2@, sk@, self.n(), v, CF::modulus() as int) && m@ == scale_seq(
                    v,
                    CF::modulus() as int,
                    PF::modulus() as int,
                    CF::modulus() as int,
                    PF::modulus() as int,
                ),
    {
        proof {
            CF::lemma_modulus_bounds();
            PF::lemma_modulus_bounds();
        }
        let v = self.noisy_plaintext(sk, c1, c2);
        v.scale(PF::modulus_u64(), CF::modulus_u64())
    }

    /// Homomorphic addition: `(c10 + c20, c11 + c21)`, each reduced modulo `X^N + 1`.
    pub fn eval_add(&self, c10: &Poly<CF>, c11: &Poly<CF>, c20: &Poly<CF>, c21: &Poly<CF>) -> (c: (Poly<CF>, Poly<CF>))
        requires
            self.wf(),
            self.fits(c10),
            self.fits(c11),
            self.fits(c20),
            self.fits(c21),
        ensures
            self.fits(&c.0),
            self.fits(&c.1),
            reduces_to(poly_add(c10@, c20@, CF::modulus() as int), self.n(), c.0@, CF::modulus() as int),
            reduces_to(poly_add(c11@, c21@, CF::modulus() as int), self.n(), c.1@, CF::modulus() as int),
    {
        (self.reduce(&c10.add(c20)), self.reduce(&c11.add(c21)))
    }

    /// The three polynomials of the product of two ciphertexts, computed on
    /// the lifts into the relinearization field so that no product wraps,
    /// then rescaled by `t / q` back into the ciphertext field.
    pub fn tensor(&self, c10: &Poly<CF>, c11: &Poly<CF>, c20: &Poly<CF>, c21: &Poly<CF>) -> (f: (
        Poly<CF>,
        Poly<CF>,
        Poly<CF>,
    ))
        requires
            self.wf(),
            self.fits(c10),
            self.fits(c11),
            self.fits(c20),
            self.fits(c21),
        ensures
            self.fits(&f.0),
            self.fits(&f.1),
            self.fits(&f.2),
            tensored(
                c10@,
                c11@,
                c20@,
                c21@,
                f.0@,
                f.1@,
                f.2@,
                self.n(),
                PF::modulus() as int,
                CF::modulus() as int,
                RF::modulus() as int,
            ),
    {
        proof {
            CF::lemma_modulus_bounds();
            PF::lemma_modulus_bounds();
        }
        let l10: Poly<RF> = c10.scale(1, 1);
        let l11: Poly<RF> = c11.scale(1, 1);
        let l20: Poly<RF> = c20.scale(1, 1);
        let l21: Poly<RF> = c21.scale(1, 1);
        let f0 = self.reduce(&l10.mul(&l20));
        let f1 = self.reduce(&l10.mul(&l21).add(&l11.mul(&l20)));
        let f2 = self.reduce(&l11.mul(&l21));
        let t = PF::modulus_u64();
        let q = CF::modulus_u64();
        let r = (f0.scale(t, q), f1.scale(t, q), f2.scale(t, q));
        proof {
            let big = RF::modulus() as int;
            let n = self.n();
            assert(reduces_to(poly_mul(l10@, l20@, big), n, f0@, big));
            assert(reduces_to(poly_add(poly_mul(l10@, l21@, big), poly_mul(l11@, l20@, big), big), n, f1@, big));
            assert(reduces_to(poly_mul(l11@, l21@, big), n, f2@, big));
        }
        r
    }

    /// Rewrites the `sk^2` term `f2` as a pair that decrypts linearly in `sk`,
    /// through the evaluation key `rk`.
    pub fn relinearize(&self, rk: &(Poly<RF>, Poly<RF>), f2: &Poly<CF>) -> (g: (Poly<CF>, Poly<CF>))
        requires
            self.wf(),
            self.fits(&rk.0),
            self.fits(&rk.1),
            self.fits(f2),
        ensures
            self.fits(&g.0),
            self.fits(&g.1),
            relinearized(f2@, rk.0@, rk.1@, g.0@, g.1@, self.n(), CF::modulus() as int, RF::modulus() as int),
    {
        let l: Poly<RF> = f2.scale(1, 1);
        let h0 = self.reduce(&l.mul(&rk.0));
        let h1 = self.reduce(&l.mul(&rk.1));
        let p = self.lift_factor_u64();
        let r = (h0.scale(1, p), h1.scale(1, p));
        proof {
            let big = RF::modulus() as int;
            assert(reduces_to(poly_mul(lift(f2@, CF::modulus() as int, big), rk.0@, big), self.n(), h0@, big));
            assert(reduces_to(poly_mul(lift(f2@, CF::modulus() as int, big), rk.1@, big), self.n(), h1@, big));
        }
        r
    }

    /// Homomorphic multiplication with relinearization: the tensored product
    /// `(f0, f1, f2)`, then `(f0 + g0, f1 + g1)` where `(g0, g1)` is `f2`
    /// relinearized through `rk`, each reduced modulo `X^N + 1`.
    pub fn eval_mul(
        &self,
        rk: &(Poly<RF>, Poly<RF>),
        ct10: &Poly<CF>,
        ct11: &Poly<CF>,
        ct20: &Poly<CF>,
        ct21: &Poly<CF>,
    ) -> (c: (Poly<CF>, Poly<CF>))
        requires
            self.wf(),
            self.fits(&rk.0),
            self.fits(&rk.1),
            self.fits(ct10),
            self.fits(ct11),
            self.fits(ct20),
            self.fits(ct21),
        ensures
            self.fits(&c.0),
            self.fits(&c.1),
            exists|f0: Seq<int>, f1: Seq<int>, f2: Seq<int>, g0: Seq<int>, g1: Seq<int>|
                #[trigger] multiplies_to(
                    ct10@,
                    ct11@,
                    ct20@,
                    ct21@,
                    rk.0@,
                    rk.1@,
                    f0,
                    f1,
                    f2,
                    g0,
                    g1,
                    c.0@,
                    c.1@,
                    self.n(),
                    PF::modulus() as int,
                    CF::modulus() as int,
                    RF::modulus() as int,
                ),
    {
        let f = self.tensor(ct10, ct11, ct20, ct21);
        let g = self.relinearize(rk, &f.2);
        let c = (self.reduce(&f.0.add(&g.0)), self.reduce(&f.1.add(&g.1)));
        proof {
            assert(multiplies_to(
                ct10@,
                ct11@,
                ct20@,
                ct21@,
                rk.0@,
                rk.1@,
                f.0@,
                f.1@,
                f.2@,
                g.0@,
                g.1@,
                c.0@,
                c.1@,
                self.n(),
                PF::modulus() as int,
                CF::modulus() as int,
                RF::modulus() as int,
            ));
        }
        c
    }
}

} // verus!
