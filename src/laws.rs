//! The algebraic laws of polynomials over `Z_m` and of reduction modulo `X^n + 1`.
use crate::poly_math::{
    coef, conv, cyclotomic, is_division, is_remainder, is_zero_poly, lemma_conv_commutes,
    lemma_conv_zero_left, lemma_mul_coef, lemma_term_sum_zero_tail, lemma_term_vanishes, poly_add,
    poly_mul, reduced, same_poly, term, term_sum, centered, round_div, scale_coef,
};
use vstd::arithmetic::div_mod::{
    lemma_add_mod_noop, lemma_fundamental_div_mod, lemma_mod_bound, lemma_mod_multiples_vanish,
    lemma_mod_twice, lemma_mul_mod_noop_left, lemma_small_mod,
};
use vstd::arithmetic::mul::lemma_mul_is_distributive_add_other_way;
use vstd::prelude::*;

verus! {

/// Multiplication of polynomials is commutative: `a * b = b * a`.
pub proof fn lemma_poly_mul_commutes(a: Seq<int>, b: Seq<int>, m: int)
    requires
        m > 0,
    ensures
        poly_mul(a, b, m) == poly_mul(b, a, m),
{
    if a.len() > 0 && b.len() > 0 {
        assert forall|k: int| 0 <= k < a.len() + b.len() - 1 implies #[trigger] poly_mul(a, b, m)[k]
            == poly_mul(b, a, m)[k] by {
            lemma_conv_commutes(a, b, k);
        }
        assert(poly_mul(a, b, m) =~= poly_mul(b, a, m));
    }
}

/// Adding a zero polynomial no longer than `a` leaves `a` as it is: `a + 0 = a`.
pub proof fn lemma_poly_add_zero(a: Seq<int>, z: Seq<int>, m: int)
    requires
        m > 0,
        reduced(a, m),
        is_zero_poly(z),
        z.len() <= a.len(),
    ensures
        poly_add(a, z, m) == a,
{
    assert forall|i: int| 0 <= i < a.len() implies #[trigger] poly_add(a, z, m)[i] == a[i] by {
        lemma_small_mod(a[i] as nat, m as nat);
    }
    assert(poly_add(a, z, m) =~= a);
}

proof fn lemma_mod_sum_step(x: int, y: int, u: int, v: int, m: int)
    requires
        m > 0,
        x % m == y % m,
        u % m == v % m,
    ensures
        (x + u) % m == (y + v) % m,
{
    lemma_add_mod_noop(x, u, m);
    lemma_add_mod_noop(y, v, m);
}

/// Each coefficient of `(a + b) * c` is, modulo `m`, the sum of those of `a * c` and `b * c`.
proof fn lemma_conv_distributes(a: Seq<int>, b: Seq<int>, c: Seq<int>, m: int, k: int, n: int)
    requires
        m > 0,
        0 <= n <= poly_add(a, b, m).len(),
    ensures
        term_sum(poly_add(a, b, m), c, k, 0, n) % m == (term_sum(a, c, k, 0, n) + term_sum(b, c, k, 0, n)) % m,
    decreases n,
{
    let s = poly_add(a, b, m);
    if n > 0 {
        lemma_conv_distributes(a, b, c, m, k, n - 1);
        let i = n - 1;
        let cj = coef(c, k - i);
        lemma_mul_mod_noop_left(coef(a, i) + coef(b, i), cj, m);
        lemma_mul_is_distributive_add_other_way(cj, coef(a, i), coef(b, i));
        assert(term(s, c, k, i) == ((coef(a, i) + coef(b, i)) % m) * cj);
        lemma_mod_sum_step(
            term_sum(s, c, k, 0, i),
            term_sum(a, c, k, 0, i) + term_sum(b, c, k, 0, i),
            term(s, c, k, i),
            term(a, c, k, i) + term(b, c, k, i),
            m,
        );
    }
}

/// Multiplication distributes over addition: `(a + b) * c = a * c + b * c`.
pub proof fn lemma_poly_mul_distributes(a: Seq<int>, b: Seq<int>, c: Seq<int>, m: int)
    requires
        m > 0,
        reduced(a, m),
        reduced(b, m),
        reduced(c, m),
    ensures
        poly_mul(poly_add(a, b, m), c, m) == poly_add(poly_mul(a, c, m), poly_mul(b, c, m), m),
{
    let s = poly_add(a, b, m);
    let lhs = poly_mul(s, c, m);
    let rhs = poly_add(poly_mul(a, c, m), poly_mul(b, c, m), m);
    if s.len() > 0 && c.len() > 0 {
        assert forall|k: int| 0 <= k < lhs.len() implies #[trigger] lhs[k] == rhs[k] by {
            lemma_mul_coef(a, c, m, k);
            lemma_mul_coef(b, c, m, k);
            lemma_conv_distributes(a, b, c, m, k, s.len() as int);
            assert forall|i: int| a.len() <= i < s.len() implies #[trigger] term(a, c, k, i) == 0 by {
                lemma_term_vanishes(a, c, k, i);
            }
            lemma_term_sum_zero_tail(a, c, k, 0, a.len() as int, s.len() as int);
            assert forall|i: int| b.len() <= i < s.len() implies #[trigger] term(b, c, k, i) == 0 by {
                lemma_term_vanishes(b, c, k, i);
            }
            lemma_term_sum_zero_tail(b, c, k, 0, b.len() as int, s.len() as int);
            lemma_add_mod_noop(conv(a, c, k), conv(b, c, k), m);
        }
    }
    assert(lhs =~= rhs);
}

/// Division leaves `a = q * b + r` with `deg r < deg b`, in every case.
pub proof fn lemma_division_identity(a: Seq<int>, b: Seq<int>, q: Seq<int>, r: Seq<int>, m: int)
    requires
        m > 1,
        reduced(a, m),
        b.len() >= 1,
        is_division(a, b, q, r, m),
    ensures
        same_poly(a, poly_add(poly_mul(q, b, m), r, m)),
        r.len() < b.len(),
{
    if is_zero_poly(a) || a.len() < b.len() {
        let s = poly_add(poly_mul(q, b, m), r, m);
        assert(is_zero_poly(q));
        assert forall|k: int| #[trigger] coef(a, k) == #[trigger] coef(s, k) by {
            lemma_mul_coef(q, b, m, k);
            lemma_conv_zero_left(q, b, k);
            lemma_small_mod(0nat, m as nat);
            if 0 <= k < r.len() {
                lemma_small_mod(r[k] as nat, m as nat);
            }
        }
    }
}

/// Reducing modulo `X^n + 1` twice is reducing once, and leaves at most `n` coefficients.
pub proof fn lemma_reduce_idempotent(a: Seq<int>, n: nat, r1: Seq<int>, r2: Seq<int>, m: int)
    requires
        n >= 1,
        is_remainder(a, cyclotomic(n), r1, m),
        is_remainder(r1, cyclotomic(n), r2, m),
    ensures
        r2 == r1,
        r1.len() <= n,
{
    let phi = cyclotomic(n);
    let q1 = choose|q: Seq<int>| is_division(a, phi, q, r1, m);
    let q2 = choose|q: Seq<int>| is_division(r1, phi, q, r2, m);
    if is_zero_poly(r1) && r1.len() > 0 {
        assert(r1.last() == r1[r1.len() - 1]);
    }
}

/// Rounding `x / d` lands within a half of it: `|2 d r - 2 x| <= d`.
proof fn lemma_round_div_close(x: int, d: int)
    requires
        d > 0,
    ensures
        -d <= 2 * d * round_div(x, d) - 2 * x <= d,
{
    if x >= 0 {
        lemma_fundamental_div_mod(2 * x + d, 2 * d);
        lemma_mod_bound(2 * x + d, 2 * d);
    } else {
        lemma_fundamental_div_mod(-2 * x + d, 2 * d);
        lemma_mod_bound(-2 * x + d, 2 * d);
    }
    let r = round_div(x, d);
    if x >= 0 {
        assert(2 * x + d == (2 * d) * r + (2 * x + d) % (2 * d));
    } else {
        assert(-2 * x + d == (2 * d) * (-r) + (-2 * x + d) % (2 * d));
    }
    assert(-d <= 2 * d * r - 2 * x <= d) by (nonlinear_arith)
        requires
            x >= 0 ==> 2 * x + d == (2 * d) * r + (2 * x + d) % (2 * d),
            x < 0 ==> -2 * x + d == (2 * d) * (-r) + (-2 * x + d) % (2 * d),
            x >= 0 ==> 0 <= (2 * x + d) % (2 * d) < 2 * d,
            x < 0 ==> 0 <= (-2 * x + d) % (2 * d) < 2 * d,
            d > 0,
    ;
}

/// An integer strictly within a half of `x / d` is its rounding.
proof fn lemma_round_div_unique(x: int, d: int, r: int)
    requires
        d > 0,
        -d < 2 * d * r - 2 * x < d,
    ensures
        round_div(x, d) == r,
{
    lemma_round_div_close(x, d);
    let s = round_div(x, d);
    assert(s == r) by (nonlinear_arith)
        requires
            d > 0,
            -d < 2 * d * r - 2 * x < d,
            -d <= 2 * d * s - 2 * x <= d,
    ;
}

/// A zero coefficient rescales to zero.
pub proof fn lemma_scale_zero(m1: int, num: int, den: int, m2: int)
    requires
        m1 > 0,
        den > 0,
        m2 > 0,
    ensures
        scale_coef(0, m1, num, den, m2) == 0,
{
    assert(centered(0, m1) == 0);
    assert(0 * num == 0) by (nonlinear_arith);
    vstd::arithmetic::div_mod::lemma_basic_div(den, 2 * den);
    lemma_small_mod(0nat, m2 as nat);
}

/// Decoding tolerates noise: if a plaintext coefficient `c` is encoded by the
/// factor `q / t`, a noise `eta` with `2 t |eta| + t < q` is added modulo `q`,
/// and the result is rescaled by `t / q`, then `c` comes back.
pub proof fn lemma_decode_noisy(c: int, eta: int, t: int, q: int)
    requires
        1 <= t < q,
        0 <= c < t,
        2 * t * (if eta >= 0 { eta } else { -eta }) + t < q,
    ensures
        scale_coef((scale_coef(c, t, q, t, q) + eta) % q, q, t, q, t) == c,
{
    let z = centered(c, t);
    let x = round_div(z * q, t);
    lemma_round_div_close(z * q, t);
    let y = x + eta;
    vstd::arithmetic::div_mod::lemma_add_mod_noop_right(eta, x, q);
    assert(scale_coef(c, t, q, t, q) == x % q);
    assert((scale_coef(c, t, q, t, q) + eta) % q == y % q);
    let w = y % q;
    lemma_fundamental_div_mod(y, q);
    lemma_mod_bound(y, q);
    let s: int = if 2 * w <= q { y / q } else { y / q + 1 };
    let v = centered(w, q);
    assert(v == y - q * s) by (nonlinear_arith)
        requires
            y == q * (y / q) + w,
            v == if 2 * w <= q { w } else { w - q },
            s == if 2 * w <= q { y / q } else { y / q + 1 },
    ;
    let ae = if eta >= 0 { eta } else { -eta };
    assert(-q < 2 * q * (z - s * t) - 2 * (v * t) < q) by (nonlinear_arith)
        requires
            -t <= 2 * t * x - 2 * (z * q) <= t,
            v == y - q * s,
            y == x + eta,
            2 * t * ae + t < q,
            ae == if eta >= 0 { eta } else { -eta },
            t >= 1,
    ;
    lemma_round_div_unique(v * t, q, z - s * t);
    lemma_mod_multiples_vanish(-s, z, t);
    assert(z - s * t == t * (-s) + z) by (nonlinear_arith);
    assert(scale_coef(w, q, t, q, t) == (z - s * t) % t);
    if z == c {
        lemma_small_mod(c as nat, t as nat);
    } else {
        lemma_mod_multiples_vanish(1, z, t);
        lemma_small_mod(c as nat, t as nat);
        assert(t * 1 + z == c);
    }
}

/// Decoding a sum of two encodings tolerates noise: if plaintext coefficients
/// `c1` and `c2` are each encoded by the factor `q / t`, added together with a
/// noise `eta` where `2 t |eta| + 2 t < q`, and the result is rescaled by `t / q`,
/// then `(c1 + c2) mod t` comes out.
pub proof fn lemma_decode_noisy_sum(c1: int, c2: int, eta: int, t: int, q: int)
    requires
        1 <= t < q,
        0 <= c1 < t,
        0 <= c2 < t,
        2 * t * (if eta >= 0 { eta } else { -eta }) + 2 * t < q,
    ensures
        scale_coef((scale_coef(c1, t, q, t, q) + scale_coef(c2, t, q, t, q) + eta) % q, q, t, q, t)
            == (c1 + c2) % t,
{
    let z1 = centered(c1, t);
    let z2 = centered(c2, t);
    let x1 = round_div(z1 * q, t);
    let x2 = round_div(z2 * q, t);
    lemma_round_div_close(z1 * q, t);
    lemma_round_div_close(z2 * q, t);
    let z = z1 + z2;
    let y = x1 + x2 + eta;
    vstd::arithmetic::div_mod::lemma_add_mod_noop(x1, x2, q);
    vstd::arithmetic::div_mod::lemma_add_mod_noop_right(eta, x1 + x2, q);
    vstd::arithmetic::div_mod::lemma_mod_twice(x1 + x2, q);
    assert((scale_coef(c1, t, q, t, q) + scale_coef(c2, t, q, t, q)) % q == (x1 + x2) % q);
    vstd::arithmetic::div_mod::lemma_add_mod_noop_right(eta, scale_coef(c1, t, q, t, q) + scale_coef(c2, t, q, t, q), q);
    assert((scale_coef(c1, t, q, t, q) + scale_coef(c2, t, q, t, q) + eta) % q == y % q);
    let w = y % q;
    lemma_fundamental_div_mod(y, q);
    lemma_mod_bound(y, q);
    let s: int = if 2 * w <= q { y / q } else { y / q + 1 };
    let v = centered(w, q);
    assert(v == y - q * s) by (nonlinear_arith)
        requires
            y == q * (y / q) + w,
            v == if 2 * w <= q { w } else { w - q },
            s == if 2 * w <= q { y / q } else { y / q + 1 },
    ;
    let ae = if eta >= 0 { eta } else { -eta };
    assert(-q < 2 * q * (z - s * t) - 2 * (v * t) < q) by (nonlinear_arith)
        requires
            -t <= 2 * t * x1 - 2 * (z1 * q) <= t,
            -t <= 2 * t * x2 - 2 * (z2 * q) <= t,
            z == z1 + z2,
            v == y - q * s,
            y == x1 + x2 + eta,
            2 * t * ae + 2 * t < q,
            ae == if eta >= 0 { eta } else { -eta },
            t >= 1,
    ;
    lemma_round_div_unique(v * t, q, z - s * t);
    lemma_mod_multiples_vanish(-s, z, t);
    assert(z - s * t == t * (-s) + z) by (nonlinear_arith);
    assert(scale_coef(w, q, t, q, t) == (z - s * t) % t);
    // z differs from c1 + c2 by a multiple of t.
    let j: int = (if z1 == c1 { 0int } else { 1int }) + (if z2 == c2 { 0int } else { 1int });
    assert(c1 + c2 == t * j + z) by (nonlinear_arith)
        requires
            z1 == c1 || z1 == c1 - t,
            z2 == c2 || z2 == c2 - t,
            j == (if z1 == c1 { 0int } else { 1int }) + (if z2 == c2 { 0int } else { 1int }),
            z == z1 + z2,
            t >= 1,
    ;
    lemma_mod_multiples_vanish(j, z, t);
}

} // verus!
