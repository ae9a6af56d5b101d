//! Why the scheme works: the phase `c1 + c2 * sk` of a ciphertext, in
//! `Z_q[X] / (X^n + 1)`, is the encoded message plus noise, homomorphic
//! addition adds phases, and decryption recovers the message while the noise
//! stays small.
use crate::congruence::{
    congruent, congruent_by, int_add, int_mul, int_neg, lemma_cong_add, lemma_cong_neg,
    lemma_congruent_add, lemma_congruent_mul, lemma_congruent_reflexive,
    lemma_congruent_symmetric, lemma_congruent_transitive, lemma_congruent_unique,
    lemma_conv_add_left, lemma_conv_assoc, lemma_conv_ext_right, lemma_conv_left_congruent,
    lemma_conv_poly_add_left, lemma_conv_poly_mul_left, lemma_conv_poly_neg_left,
    lemma_int_mul_coef, lemma_poly_add_coef, lemma_poly_add_reduced, lemma_regroup,
    lemma_remainder_congruent, lemma_remainder_reduced,
};
use crate::laws::{
    lemma_decode_noisy, lemma_decode_noisy_sum, lemma_poly_mul_distributes, lemma_scale_zero,
};
use crate::poly_math::{
    centered, coef, conv, cyclotomic, lemma_conv_commutes, lemma_cyclotomic_divisible,
    lemma_mul_coef, lemma_remainder_len, poly_add, poly_mul, poly_neg, reduced, round_div,
    same_poly, scale_coef, scale_seq,
};
use crate::rlwe::{encrypts_to, phase, reduces_to};
use vstd::prelude::*;

verus! {

/// The phase `v` of a homomorphic sum is congruent to
/// `(c10 + c11 * sk) + (c20 + c21 * sk)`; see [`lemma_eval_add_phase`].
pub proof fn lemma_sum_phase(
    c10: Seq<int>,
    c11: Seq<int>,
    c20: Seq<int>,
    c21: Seq<int>,
    sk: Seq<int>,
    r0: Seq<int>,
    r1: Seq<int>,
    v: Seq<int>,
    n: nat,
    q: int,
) -> (k: Seq<int>)
    requires
        q > 1,
        n >= 1,
        reduced(c10, q),
        reduced(c11, q),
        reduced(c20, q),
        reduced(c21, q),
        reduced(sk, q),
        reduces_to(poly_add(c10, c20, q), n, r0, q),
        reduces_to(poly_add(c11, c21, q), n, r1, q),
        phase(r0, r1, sk, n, v, q),
    ensures
        congruent_by(
            v,
            poly_add(poly_add(c10, poly_mul(c11, sk, q), q), poly_add(c20, poly_mul(c21, sk, q), q), q),
            k,
            cyclotomic(n),
            q,
        ),
{
    let phi = cyclotomic(n);
    let a0 = poly_add(c10, c20, q);
    let a1 = poly_add(c11, c21, q);
    let x = poly_add(r0, poly_mul(r1, sk, q), q);
    let prod1 = poly_mul(c11, sk, q);
    let prod2 = poly_mul(c21, sk, q);
    let x1 = poly_add(c10, prod1, q);
    let x2 = poly_add(c20, prod2, q);
    lemma_poly_add_reduced(r0, poly_mul(r1, sk, q), q);
    lemma_poly_add_reduced(c10, c20, q);
    lemma_poly_add_reduced(c11, c21, q);
    lemma_poly_add_reduced(c10, prod1, q);
    lemma_poly_add_reduced(c20, prod2, q);
    // v = x
    let kx = lemma_remainder_congruent(x, phi, v, q);
    lemma_congruent_symmetric(x, v, kx, phi, q);
    // x = a0 + a1 * sk
    let k0 = lemma_remainder_congruent(a0, phi, r0, q);
    lemma_congruent_symmetric(a0, r0, k0, phi, q);
    let k1 = lemma_remainder_congruent(a1, phi, r1, q);
    lemma_congruent_symmetric(a1, r1, k1, phi, q);
    lemma_congruent_mul(r1, a1, int_neg(k1), sk, phi, q);
    lemma_congruent_add(r0, a0, int_neg(k0), poly_mul(r1, sk, q), poly_mul(a1, sk, q), int_mul(int_neg(k1), sk), phi, q);
    let ky = int_add(int_neg(k0), int_mul(int_neg(k1), sk));
    // a0 + a1 * sk = (c10 + c11 * sk) + (c20 + c21 * sk)
    lemma_poly_mul_distributes(c11, c21, sk, q);
    lemma_regroup(c10, c20, prod1, prod2, phi, q);
    let y = poly_add(a0, poly_mul(a1, sk, q), q);
    assert(y == poly_add(a0, poly_add(prod1, prod2, q), q));
    let z = poly_add(x1, x2, q);
    lemma_congruent_transitive(v, x, y, int_neg(kx), ky, phi, q);
    lemma_congruent_transitive(v, y, z, int_add(int_neg(kx), ky), Seq::<int>::empty(), phi, q);
    int_add(int_add(int_neg(kx), ky), Seq::<int>::empty())
}

/// The phase of a homomorphic sum is the sum of the phases, in `Z_q[X] / (X^n + 1)`:
/// if `(r0, r1)` is `eval_add` of `(c10, c11)` and `(c20, c21)`, then under the same
/// key the phase of `(r0, r1)` is congruent to the sum of the two phases.
pub proof fn lemma_eval_add_phase(
    c10: Seq<int>,
    c11: Seq<int>,
    c20: Seq<int>,
    c21: Seq<int>,
    sk: Seq<int>,
    r0: Seq<int>,
    r1: Seq<int>,
    v1: Seq<int>,
    v2: Seq<int>,
    v: Seq<int>,
    n: nat,
    q: int,
)
    requires
        q > 1,
        n >= 1,
        reduced(c10, q),
        reduced(c11, q),
        reduced(c20, q),
        reduced(c21, q),
        reduced(sk, q),
        reduces_to(poly_add(c10, c20, q), n, r0, q),
        reduces_to(poly_add(c11, c21, q), n, r1, q),
        phase(c10, c11, sk, n, v1, q),
        phase(c20, c21, sk, n, v2, q),
        phase(r0, r1, sk, n, v, q),
    ensures
        congruent(v, poly_add(v1, v2, q), cyclotomic(n), q),
{
    let phi = cyclotomic(n);
    let x1 = poly_add(c10, poly_mul(c11, sk, q), q);
    let x2 = poly_add(c20, poly_mul(c21, sk, q), q);
    lemma_poly_add_reduced(c10, poly_mul(c11, sk, q), q);
    lemma_poly_add_reduced(c20, poly_mul(c21, sk, q), q);
    let k = lemma_sum_phase(c10, c11, c20, c21, sk, r0, r1, v, n, q);
    let k3 = lemma_remainder_congruent(x1, phi, v1, q);
    let k4 = lemma_remainder_congruent(x2, phi, v2, q);
    lemma_congruent_add(x1, v1, k3, x2, v2, k4, phi, q);
    lemma_congruent_transitive(v, poly_add(x1, x2, q), poly_add(v1, v2, q), k, int_add(k3, k4), phi, q);
}

/// The noise that encryption adds to the encoded message: `e * u + e1 + e2 * sk`.
pub open spec fn encryption_noise(e: Seq<int>, u: Seq<int>, e1: Seq<int>, e2: Seq<int>, sk: Seq<int>, q: int) -> Seq<int> {
    poly_add(poly_add(poly_mul(e, u, q), e1, q), poly_mul(e2, sk, q), q)
}

/// `c1 + c2 * sk`, before reduction, for a fresh encryption is congruent to
/// `scale(m, q / t) + e * u + e1 + e2 * sk`; see [`lemma_encrypt_phase`].
pub proof fn lemma_fresh_phase(
    sk: Seq<int>,
    a: Seq<int>,
    e: Seq<int>,
    pk1: Seq<int>,
    m: Seq<int>,
    u: Seq<int>,
    e1: Seq<int>,
    e2: Seq<int>,
    c1: Seq<int>,
    c2: Seq<int>,
    n: nat,
    t: int,
    q: int,
) -> (k: Seq<int>)
    requires
        q > 1,
        t > 0,
        n >= 1,
        reduced(sk, q),
        reduced(a, q),
        reduced(e, q),
        reduced(u, q),
        reduced(e1, q),
        reduced(e2, q),
        reduces_to(poly_add(poly_neg(poly_mul(a, sk, q), q), e, q), n, pk1, q),
        encrypts_to(pk1, a, m, u, e1, e2, c1, c2, n, t, q),
    ensures
        congruent_by(
            poly_add(c1, poly_mul(c2, sk, q), q),
            poly_add(scale_seq(m, t, q, t, q), encryption_noise(e, u, e1, e2, sk, q), q),
            k,
            cyclotomic(n),
            q,
        ),
{
    let phi = cyclotomic(n);
    let mh = scale_seq(m, t, q, t, q);
    let pm = poly_mul(a, sk, q);
    let nn = poly_add(poly_neg(pm, q), e, q);
    let cc1 = poly_add(poly_add(poly_mul(pk1, u, q), e1, q), mh, q);
    let cc2 = poly_add(poly_mul(a, u, q), e2, q);
    let x = poly_add(c1, poly_mul(c2, sk, q), q);
    let noise = encryption_noise(e, u, e1, e2, sk, q);
    let target = poly_add(mh, noise, q);
    assert forall|i: int| 0 <= i < mh.len() implies 0 <= #[trigger] mh[i] < q by {
        vstd::arithmetic::div_mod::lemma_mod_bound(
            crate::poly_math::round_div(crate::poly_math::centered(m[i], t) * q, t),
            q,
        );
    }
    lemma_poly_add_reduced(c1, poly_mul(c2, sk, q), q);
    lemma_poly_add_reduced(poly_neg(pm, q), e, q);
    lemma_poly_add_reduced(poly_add(poly_mul(pk1, u, q), e1, q), mh, q);
    lemma_poly_add_reduced(poly_mul(a, u, q), e2, q);
    let kp0 = lemma_remainder_congruent(nn, phi, pk1, q);
    lemma_congruent_symmetric(nn, pk1, kp0, phi, q);
    let k10 = lemma_remainder_congruent(cc1, phi, c1, q);
    lemma_congruent_symmetric(cc1, c1, k10, phi, q);
    let k20 = lemma_remainder_congruent(cc2, phi, c2, q);
    lemma_congruent_symmetric(cc2, c2, k20, phi, q);
    let (kp, k1, k2) = (int_neg(kp0), int_neg(k10), int_neg(k20));
    let big_k = int_add(int_add(k1, int_mul(kp, u)), int_mul(k2, sk));
    assert forall|i: int| #[trigger] coef(x, i) % q == (coef(target, i) + conv(big_k, phi, i)) % q by {
        let k1i = conv(k1, phi, i);
        let kpu = conv(int_mul(kp, u), phi, i);
        let k2s = conv(int_mul(k2, sk), phi, i);
        let ee = conv(e, u, i);
        let ff = conv(e2, sk, i);
        let at = conv(a, int_mul(sk, u), i);
        lemma_conv_add_left(int_add(k1, int_mul(kp, u)), int_mul(k2, sk), phi, i);
        lemma_conv_add_left(k1, int_mul(kp, u), phi, i);
        // The pk1 * u part: -(a * sk) * u + e * u + kp * u * phi.
        lemma_conv_poly_add_left(poly_neg(pm, q), e, u, q, i);
        lemma_conv_poly_neg_left(pm, u, q, i);
        lemma_conv_poly_mul_left(a, sk, u, q, i);
        lemma_conv_assoc(a, sk, u, i);
        lemma_cong_neg(conv(pm, u, i), at, q);
        lemma_cong_add(conv(poly_neg(pm, q), u, i), ee, -at, ee, q);
        lemma_conv_left_congruent(pk1, nn, kp, u, phi, q, i);
        lemma_cong_add(conv(nn, u, i), kpu, -at + ee, kpu, q);
        // The c1 part.
        lemma_poly_add_coef(poly_add(poly_mul(pk1, u, q), e1, q), mh, q, i);
        lemma_poly_add_coef(poly_mul(pk1, u, q), e1, q, i);
        lemma_mul_coef(pk1, u, q, i);
        vstd::arithmetic::div_mod::lemma_mod_twice(conv(pk1, u, i), q);
        lemma_cong_add(coef(poly_mul(pk1, u, q), i), coef(e1, i), conv(pk1, u, i), coef(e1, i), q);
        lemma_cong_add(
            coef(poly_add(poly_mul(pk1, u, q), e1, q), i),
            coef(mh, i),
            conv(pk1, u, i) + coef(e1, i),
            coef(mh, i),
            q,
        );
        lemma_cong_add(conv(pk1, u, i), coef(e1, i) + coef(mh, i), -at + ee + kpu, coef(e1, i) + coef(mh, i), q);
        assert(coef(c1, i) % q == (coef(cc1, i) + k1i) % q);
        lemma_cong_add(coef(cc1, i), k1i, -at + ee + kpu + coef(e1, i) + coef(mh, i), k1i, q);
        // The c2 * sk part: (a * u) * sk + e2 * sk + k2 * sk * phi.
        lemma_conv_left_congruent(c2, cc2, k2, sk, phi, q, i);
        lemma_conv_poly_add_left(poly_mul(a, u, q), e2, sk, q, i);
        lemma_conv_poly_mul_left(a, u, sk, q, i);
        lemma_conv_assoc(a, u, sk, i);
        assert forall|j: int| #[trigger] coef(int_mul(u, sk), j) == coef(int_mul(sk, u), j) by {
            lemma_int_mul_coef(u, sk, j);
            lemma_int_mul_coef(sk, u, j);
            lemma_conv_commutes(u, sk, j);
        }
        lemma_conv_ext_right(a, int_mul(u, sk), int_mul(sk, u), i);
        lemma_cong_add(conv(poly_mul(a, u, q), sk, i), ff, at, ff, q);
        lemma_cong_add(conv(cc2, sk, i), k2s, at + ff, k2s, q);
        // The phase.
        lemma_poly_add_coef(c1, poly_mul(c2, sk, q), q, i);
        lemma_mul_coef(c2, sk, q, i);
        vstd::arithmetic::div_mod::lemma_mod_twice(conv(c2, sk, i), q);
        lemma_cong_add(coef(c1, i), coef(poly_mul(c2, sk, q), i), coef(c1, i), conv(c2, sk, i), q);
        lemma_cong_add(
            coef(c1, i),
            conv(c2, sk, i),
            -at + ee + kpu + coef(e1, i) + coef(mh, i) + k1i,
            at + ff + k2s,
            q,
        );
        // The target.
        lemma_poly_add_coef(mh, noise, q, i);
        lemma_poly_add_coef(poly_add(poly_mul(e, u, q), e1, q), poly_mul(e2, sk, q), q, i);
        lemma_poly_add_coef(poly_mul(e, u, q), e1, q, i);
        lemma_mul_coef(e, u, q, i);
        lemma_mul_coef(e2, sk, q, i);
        vstd::arithmetic::div_mod::lemma_mod_twice(ee, q);
        vstd::arithmetic::div_mod::lemma_mod_twice(ff, q);
        lemma_cong_add(coef(poly_mul(e, u, q), i), coef(e1, i), ee, coef(e1, i), q);
        lemma_cong_add(coef(poly_add(poly_mul(e, u, q), e1, q), i), coef(poly_mul(e2, sk, q), i), ee + coef(e1, i), ff, q);
        lemma_cong_add(coef(mh, i), coef(noise, i), coef(mh, i), ee + coef(e1, i) + ff, q);
        lemma_cong_add(coef(target, i), conv(big_k, phi, i), coef(mh, i) + ee + coef(e1, i) + ff, k1i + kpu + k2s, q);
    }
    big_k
}

/// The phase of a fresh encryption is the encoded message plus the noise, in
/// `Z_q[X] / (X^n + 1)`: for `pk1 = -(a * sk) + e`, `pk2 = a` and a ciphertext
/// of `m` made with `u`, `e1`, `e2`, the phase under `sk` is congruent to
/// `scale(m, q / t) + e * u + e1 + e2 * sk`.
pub proof fn lemma_encrypt_phase(
    sk: Seq<int>,
    a: Seq<int>,
    e: Seq<int>,
    pk1: Seq<int>,
    m: Seq<int>,
    u: Seq<int>,
    e1: Seq<int>,
    e2: Seq<int>,
    c1: Seq<int>,
    c2: Seq<int>,
    v: Seq<int>,
    n: nat,
    t: int,
    q: int,
)
    requires
        q > 1,
        t > 0,
        n >= 1,
        reduced(sk, q),
        reduced(a, q),
        reduced(e, q),
        reduced(u, q),
        reduced(e1, q),
        reduced(e2, q),
        reduces_to(poly_add(poly_neg(poly_mul(a, sk, q), q), e, q), n, pk1, q),
        encrypts_to(pk1, a, m, u, e1, e2, c1, c2, n, t, q),
        phase(c1, c2, sk, n, v, q),
    ensures
        congruent(v, poly_add(scale_seq(m, t, q, t, q), encryption_noise(e, u, e1, e2, sk, q), q), cyclotomic(n), q),
{
    let phi = cyclotomic(n);
    let x = poly_add(c1, poly_mul(c2, sk, q), q);
    let target = poly_add(scale_seq(m, t, q, t, q), encryption_noise(e, u, e1, e2, sk, q), q);
    lemma_poly_add_reduced(c1, poly_mul(c2, sk, q), q);
    let kv = lemma_remainder_congruent(x, phi, v, q);
    lemma_congruent_symmetric(x, v, kv, phi, q);
    let k = lemma_fresh_phase(sk, a, e, pk1, m, u, e1, e2, c1, c2, n, t, q);
    lemma_congruent_transitive(v, x, target, int_neg(kv), k, phi, q);
}

/// Decryption undoes encryption while the noise is small: if the noise
/// `e * u + e1 + e2 * sk`, reduced modulo `X^n + 1`, has centered coefficients
/// `eta` with `2 t |eta| + t < q`, then decrypting a fresh encryption of the
/// plaintext `m` (at most `n` coefficients in `[0, t)`) gives `m` back.
pub proof fn lemma_decrypt_encrypt(
    sk: Seq<int>,
    a: Seq<int>,
    e: Seq<int>,
    pk1: Seq<int>,
    m: Seq<int>,
    u: Seq<int>,
    e1: Seq<int>,
    e2: Seq<int>,
    c1: Seq<int>,
    c2: Seq<int>,
    v: Seq<int>,
    nz: Seq<int>,
    n: nat,
    t: int,
    q: int,
)
    requires
        1 <= t < q,
        n >= 1,
        reduced(sk, q),
        reduced(a, q),
        reduced(e, q),
        reduced(u, q),
        reduced(e1, q),
        reduced(e2, q),
        reduced(m, t),
        m.len() <= n,
        reduces_to(poly_add(poly_neg(poly_mul(a, sk, q), q), e, q), n, pk1, q),
        encrypts_to(pk1, a, m, u, e1, e2, c1, c2, n, t, q),
        phase(c1, c2, sk, n, v, q),
        reduces_to(encryption_noise(e, u, e1, e2, sk, q), n, nz, q),
        forall|i: int|
            0 <= i < nz.len() ==> 2 * t * (if centered(nz[i], q) >= 0 {
                centered(#[trigger] nz[i], q)
            } else {
                -centered(nz[i], q)
            }) + t < q,
    ensures
        same_poly(scale_seq(v, q, t, q, t), m),
{
    let phi = cyclotomic(n);
    let mh = scale_seq(m, t, q, t, q);
    let noise = encryption_noise(e, u, e1, e2, sk, q);
    let w = poly_add(mh, nz, q);
    let d = scale_seq(v, q, t, q, t);
    lemma_cyclotomic_divisible(n, q);
    lemma_encrypt_phase(sk, a, e, pk1, m, u, e1, e2, c1, c2, v, n, t, q);
    let k1 = choose|k: Seq<int>| congruent_by(v, poly_add(mh, noise, q), k, phi, q);
    lemma_poly_add_reduced(poly_add(poly_mul(e, u, q), e1, q), poly_mul(e2, sk, q), q);
    let kn = lemma_remainder_congruent(noise, phi, nz, q);
    lemma_congruent_reflexive(mh, phi, q);
    lemma_congruent_add(mh, mh, Seq::<int>::empty(), noise, nz, kn, phi, q);
    lemma_congruent_transitive(v, poly_add(mh, noise, q), w, k1, int_add(Seq::<int>::empty(), kn), phi, q);
    let x = poly_add(c1, poly_mul(c2, sk, q), q);
    lemma_poly_add_reduced(c1, poly_mul(c2, sk, q), q);
    lemma_remainder_reduced(x, phi, v, q);
    lemma_remainder_len(x, phi, v, q);
    lemma_remainder_reduced(noise, phi, nz, q);
    lemma_remainder_len(noise, phi, nz, q);
    lemma_poly_add_reduced(mh, nz, q);
    lemma_congruent_unique(v, w, n, q);
    assert forall|i: int| #[trigger] coef(d, i) == coef(m, i) by {
        if 0 <= i {
            let c = coef(m, i);
            let eta = if i < nz.len() { centered(nz[i], q) } else { 0 };
            assert(0 <= c < t);
            if i < nz.len() {
                let ni = nz[i];
                assert(2 * t * (if centered(ni, q) >= 0 { centered(ni, q) } else { -centered(ni, q) }) + t < q);
            } else {
                assert(2 * t * 0 == 0) by (nonlinear_arith);
            }
            assert(2 * t * (if eta >= 0 { eta } else { -eta }) + t < q);
            lemma_decode_noisy(c, eta, t, q);
            lemma_scale_zero(t, q, t, q);
            assert(coef(mh, i) == scale_coef(c, t, q, t, q));
            let nzi = coef(nz, i);
            assert((nzi - eta) % q == 0) by {
                if i < nz.len() {
                    if 2 * nzi > q {
                        vstd::arithmetic::div_mod::lemma_mod_self_0(q);
                    } else {
                        vstd::arithmetic::div_mod::lemma_small_mod(0nat, q as nat);
                    }
                } else {
                    vstd::arithmetic::div_mod::lemma_small_mod(0nat, q as nat);
                }
            }
            assert((coef(mh, i) + nzi) % q == (coef(mh, i) + eta) % q) by {
                vstd::arithmetic::div_mod::lemma_fundamental_div_mod(nzi - eta, q);
                vstd::arithmetic::div_mod::lemma_mod_multiples_vanish((nzi - eta) / q, coef(mh, i) + eta, q);
                assert(coef(mh, i) + nzi == q * ((nzi - eta) / q) + (coef(mh, i) + eta));
            }
            assert(coef(v, i) == coef(w, i));
            if i < w.len() {
                assert(coef(w, i) == (coef(mh, i) + nzi) % q);
            } else {
                assert(coef(w, i) == 0);
                assert(c == 0);
                assert(eta == 0);
                vstd::arithmetic::div_mod::lemma_small_mod(0nat, q as nat);
            }
            if i >= v.len() {
                lemma_scale_zero(q, t, q, t);
            }
        }
    }
}

/// Homomorphic addition decrypts to the sum of the plaintexts while the noise
/// is small: for two fresh encryptions of `m1` and `m2` under the same public
/// key, if the sum of their noises, reduced modulo `X^n + 1`, has centered
/// coefficients `eta` with `2 t |eta| + 2 t < q`, then decrypting their
/// `eval_add` gives `m1 + m2 (mod t)`.
pub proof fn lemma_decrypt_eval_add(
    sk: Seq<int>,
    a: Seq<int>,
    e: Seq<int>,
    pk1: Seq<int>,
    m1: Seq<int>,
    u1: Seq<int>,
    e11: Seq<int>,
    e12: Seq<int>,
    c10: Seq<int>,
    c11: Seq<int>,
    m2: Seq<int>,
    u2: Seq<int>,
    e21: Seq<int>,
    e22: Seq<int>,
    c20: Seq<int>,
    c21: Seq<int>,
    r0: Seq<int>,
    r1: Seq<int>,
    v: Seq<int>,
    nz: Seq<int>,
    n: nat,
    t: int,
    q: int,
)
    requires
        1 <= t,
        2 * t < q,
        n >= 1,
        reduced(sk, q),
        reduced(a, q),
        reduced(e, q),
        reduced(u1, q),
        reduced(e11, q),
        reduced(e12, q),
        reduced(u2, q),
        reduced(e21, q),
        reduced(e22, q),
        reduced(m1, t),
        reduced(m2, t),
        m1.len() <= n,
        m2.len() <= n,
        reduces_to(poly_add(poly_neg(poly_mul(a, sk, q), q), e, q), n, pk1, q),
        encrypts_to(pk1, a, m1, u1, e11, e12, c10, c11, n, t, q),
        encrypts_to(pk1, a, m2, u2, e21, e22, c20, c21, n, t, q),
        reduces_to(poly_add(c10, c20, q), n, r0, q),
        reduces_to(poly_add(c11, c21, q), n, r1, q),
        phase(r0, r1, sk, n, v, q),
        reduces_to(
            poly_add(encryption_noise(e, u1, e11, e12, sk, q), encryption_noise(e, u2, e21, e22, sk, q), q),
            n,
            nz,
            q,
        ),
        forall|i: int|
            0 <= i < nz.len() ==> 2 * t * (if centered(nz[i], q) >= 0 {
                centered(#[trigger] nz[i], q)
            } else {
                -centered(nz[i], q)
            }) + 2 * t < q,
    ensures
        same_poly(scale_seq(v, q, t, q, t), poly_add(m1, m2, t)),
{
    let phi = cyclotomic(n);
    let mh1 = scale_seq(m1, t, q, t, q);
    let mh2 = scale_seq(m2, t, q, t, q);
    let n1 = encryption_noise(e, u1, e11, e12, sk, q);
    let n2 = encryption_noise(e, u2, e21, e22, sk, q);
    let x1 = poly_add(c10, poly_mul(c11, sk, q), q);
    let x2 = poly_add(c20, poly_mul(c21, sk, q), q);
    let t1 = poly_add(mh1, n1, q);
    let t2 = poly_add(mh2, n2, q);
    let mh = poly_add(mh1, mh2, q);
    let w = poly_add(mh, nz, q);
    lemma_cyclotomic_divisible(n, q);
    // v = x1 + x2 = t1 + t2 = (mh1 + mh2) + (n1 + n2) = (mh1 + mh2) + nz
    let ka = lemma_sum_phase(c10, c11, c20, c21, sk, r0, r1, v, n, q);
    let k1 = lemma_fresh_phase(sk, a, e, pk1, m1, u1, e11, e12, c10, c11, n, t, q);
    let k2 = lemma_fresh_phase(sk, a, e, pk1, m2, u2, e21, e22, c20, c21, n, t, q);
    lemma_congruent_add(x1, t1, k1, x2, t2, k2, phi, q);
    lemma_regroup(mh1, n1, mh2, n2, phi, q);
    lemma_poly_add_reduced(poly_add(poly_mul(e, u1, q), e11, q), poly_mul(e12, sk, q), q);
    lemma_poly_add_reduced(poly_add(poly_mul(e, u2, q), e21, q), poly_mul(e22, sk, q), q);
    lemma_poly_add_reduced(n1, n2, q);
    let kn = lemma_remainder_congruent(poly_add(n1, n2, q), phi, nz, q);
    lemma_congruent_reflexive(mh, phi, q);
    lemma_congruent_add(mh, mh, Seq::<int>::empty(), poly_add(n1, n2, q), nz, kn, phi, q);
    lemma_congruent_transitive(v, poly_add(x1, x2, q), poly_add(t1, t2, q), ka, int_add(k1, k2), phi, q);
    lemma_congruent_transitive(
        v,
        poly_add(t1, t2, q),
        poly_add(mh, poly_add(n1, n2, q), q),
        int_add(ka, int_add(k1, k2)),
        Seq::<int>::empty(),
        phi,
        q,
    );
    lemma_congruent_transitive(
        v,
        poly_add(mh, poly_add(n1, n2, q), q),
        w,
        int_add(int_add(ka, int_add(k1, k2)), Seq::<int>::empty()),
        int_add(Seq::<int>::empty(), kn),
        phi,
        q,
    );
    let x = poly_add(r0, poly_mul(r1, sk, q), q);
    lemma_poly_add_reduced(r0, poly_mul(r1, sk, q), q);
    lemma_remainder_reduced(x, phi, v, q);
    lemma_remainder_len(x, phi, v, q);
    lemma_remainder_reduced(poly_add(n1, n2, q), phi, nz, q);
    lemma_remainder_len(poly_add(n1, n2, q), phi, nz, q);
    lemma_poly_add_reduced(mh, nz, q);
    lemma_congruent_unique(v, w, n, q);
    lemma_decode_sum_coefs(v, w, m1, m2, nz, t, q);
}

/// Coefficient by coefficient, rescaling `v = scale(m1, q / t) + scale(m2, q / t) + nz`
/// by `t / q` gives `m1 + m2 (mod t)` while `nz` is small.
proof fn lemma_decode_sum_coefs(v: Seq<int>, w: Seq<int>, m1: Seq<int>, m2: Seq<int>, nz: Seq<int>, t: int, q: int)
    requires
        1 <= t,
        2 * t < q,
        reduced(m1, t),
        reduced(m2, t),
        reduced(v, q),
        reduced(w, q),
        w == poly_add(poly_add(scale_seq(m1, t, q, t, q), scale_seq(m2, t, q, t, q), q), nz, q),
        same_poly(v, w),
        forall|i: int|
            0 <= i < nz.len() ==> 2 * t * (if centered(nz[i], q) >= 0 {
                centered(#[trigger] nz[i], q)
            } else {
                -centered(nz[i], q)
            }) + 2 * t < q,
    ensures
        same_poly(scale_seq(v, q, t, q, t), poly_add(m1, m2, t)),
{
    let mh1 = scale_seq(m1, t, q, t, q);
    let mh2 = scale_seq(m2, t, q, t, q);
    let mh = poly_add(mh1, mh2, q);
    let d = scale_seq(v, q, t, q, t);
    let sum = poly_add(m1, m2, t);
    assert forall|i: int| #[trigger] coef(d, i) == coef(sum, i) by {
        if 0 <= i {
            let a1 = coef(m1, i);
            let a2 = coef(m2, i);
            let eta = if i < nz.len() { centered(nz[i], q) } else { 0 };
            assert(0 <= a1 < t);
            assert(0 <= a2 < t);
            if i < nz.len() {
                let ni = nz[i];
                assert(2 * t * (if centered(ni, q) >= 0 { centered(ni, q) } else { -centered(ni, q) }) + 2 * t < q);
            } else {
                assert(2 * t * 0 == 0) by (nonlinear_arith);
            }
            assert(2 * t * (if eta >= 0 { eta } else { -eta }) + 2 * t < q);
            lemma_decode_noisy_sum(a1, a2, eta, t, q);
            lemma_scale_zero(t, q, t, q);
            let h1 = coef(mh1, i);
            let h2 = coef(mh2, i);
            assert(h1 == scale_coef(a1, t, q, t, q));
            assert(h2 == scale_coef(a2, t, q, t, q));
            let nzi = coef(nz, i);
            assert((nzi - eta) % q == 0) by {
                if i < nz.len() {
                    if 2 * nzi > q {
                        vstd::arithmetic::div_mod::lemma_mod_self_0(q);
                    } else {
                        vstd::arithmetic::div_mod::lemma_small_mod(0nat, q as nat);
                    }
                } else {
                    vstd::arithmetic::div_mod::lemma_small_mod(0nat, q as nat);
                }
            }
            lemma_poly_add_coef(mh1, mh2, q, i);
            lemma_poly_add_coef(mh, nz, q, i);
            assert(coef(w, i) % q == (h1 + h2 + eta) % q) by {
                lemma_cong_add(coef(mh, i), nzi, h1 + h2, nzi, q);
                vstd::arithmetic::div_mod::lemma_fundamental_div_mod(nzi - eta, q);
                vstd::arithmetic::div_mod::lemma_mod_multiples_vanish((nzi - eta) / q, h1 + h2 + eta, q);
                assert(h1 + h2 + nzi == q * ((nzi - eta) / q) + (h1 + h2 + eta));
            }
            if 0 <= i < w.len() {
                vstd::arithmetic::div_mod::lemma_small_mod(w[i] as nat, q as nat);
            } else {
                vstd::arithmetic::div_mod::lemma_small_mod(0nat, q as nat);
            }
            assert(coef(v, i) == coef(w, i));
            assert(coef(w, i) == (h1 + h2 + eta) % q);
            if i >= v.len() {
                lemma_scale_zero(q, t, q, t);
            }
            if i >= sum.len() {
                vstd::arithmetic::div_mod::lemma_small_mod(0nat, t as nat);
            }
        }
    }
}

} // verus!
