//! Products over the integers, and congruence of polynomials modulo a
//! polynomial `b` and an integer `m`.
use crate::laws::{lemma_division_identity, lemma_poly_mul_commutes};
use crate::poly_math::{
    coef, conv, cyclotomic, is_division, is_remainder, lemma_conv_commutes, lemma_mul_coef,
    lemma_term_sum_zero_tail, lemma_term_vanishes, max_len, poly_add, poly_mul, poly_neg,
    reduced, same_poly, term, term_sum,
};
use vstd::arithmetic::div_mod::{
    lemma_add_mod_noop, lemma_mod_twice, lemma_mul_mod_noop_left, lemma_small_mod,
    lemma_sub_mod_noop,
};
use vstd::arithmetic::mul::{
    lemma_mul_basics, lemma_mul_is_associative, lemma_mul_is_distributive_add,
    lemma_mul_is_distributive_add_other_way,
};
use vstd::prelude::*;

verus! {

/// The product of `a` and `b` over the integers, unreduced.
pub open spec fn int_mul(a: Seq<int>, b: Seq<int>) -> Seq<int> {
    if a.len() == 0 || b.len() == 0 {
        Seq::empty()
    } else {
        Seq::new((a.len() + b.len() - 1) as nat, |k: int| conv(a, b, k))
    }
}

/// The sum of `a` and `b` over the integers, unreduced.
pub open spec fn int_add(a: Seq<int>, b: Seq<int>) -> Seq<int> {
    Seq::new(max_len(a, b), |i: int| coef(a, i) + coef(b, i))
}

/// `a` times the monomial `x X^d`.
pub open spec fn monomial_mul(a: Seq<int>, x: int, d: nat) -> Seq<int> {
    Seq::new(a.len() + d, |i: int| x * coef(a, i - d))
}

/// Sums that agree term by term on `[lo, hi)` are equal.
proof fn lemma_term_sum_congruent(a: Seq<int>, b: Seq<int>, a2: Seq<int>, b2: Seq<int>, k: int, k2: int, lo: int, hi: int)
    requires
        forall|i: int| lo <= i < hi ==> #[trigger] term(a, b, k, i) == term(a2, b2, k2, i),
    ensures
        term_sum(a, b, k, lo, hi) == term_sum(a2, b2, k2, lo, hi),
    decreases hi - lo,
{
    if lo < hi {
        lemma_term_sum_congruent(a, b, a2, b2, k, k2, lo, hi - 1);
    }
}

/// Only the coefficients of the left factor matter, not how many trailing zeros it stores.
pub proof fn lemma_conv_ext(a: Seq<int>, a2: Seq<int>, c: Seq<int>, k: int)
    requires
        forall|i: int| #[trigger] coef(a, i) == coef(a2, i),
    ensures
        conv(a, c, k) == conv(a2, c, k),
{
    let big = max_len(a, a2) as int;
    assert forall|i: int| a.len() <= i < big implies #[trigger] term(a, c, k, i) == 0 by {
        lemma_term_vanishes(a, c, k, i);
    }
    lemma_term_sum_zero_tail(a, c, k, 0, a.len() as int, big);
    assert forall|i: int| a2.len() <= i < big implies #[trigger] term(a2, c, k, i) == 0 by {
        lemma_term_vanishes(a2, c, k, i);
    }
    lemma_term_sum_zero_tail(a2, c, k, 0, a2.len() as int, big);
    lemma_term_sum_congruent(a, c, a2, c, k, k, 0, big);
}

/// Only the coefficients of the right factor matter.
pub proof fn lemma_conv_ext_right(a: Seq<int>, c: Seq<int>, c2: Seq<int>, k: int)
    requires
        forall|i: int| #[trigger] coef(c, i) == coef(c2, i),
    ensures
        conv(a, c, k) == conv(a, c2, k),
{
    assert forall|i: int| 0 <= i < a.len() implies #[trigger] term(a, c, k, i) == term(a, c2, k, i) by {
        assert(coef(c, k - i) == coef(c2, k - i));
    }
    lemma_term_sum_congruent(a, c, a, c2, k, k, 0, a.len() as int);
}

pub proof fn lemma_int_mul_coef(a: Seq<int>, b: Seq<int>, k: int)
    ensures
        coef(int_mul(a, b), k) == conv(a, b, k),
{
    if a.len() == 0 || b.len() == 0 || !(0 <= k < a.len() + b.len() - 1) {
        assert forall|i: int| 0 <= i < a.len() implies #[trigger] term(a, b, k, i) == 0 by {
            lemma_term_vanishes(a, b, k, i);
        }
        lemma_term_sum_zero_tail(a, b, k, 0, 0, a.len() as int);
        assert(term_sum(a, b, k, 0, 0) == 0);
    }
}

/// The product is additive in its left factor.
pub proof fn lemma_conv_add_left(a: Seq<int>, a2: Seq<int>, c: Seq<int>, k: int)
    ensures
        conv(int_add(a, a2), c, k) == conv(a, c, k) + conv(a2, c, k),
{
    let s = int_add(a, a2);
    let big = s.len() as int;
    assert forall|i: int| a.len() <= i < big implies #[trigger] term(a, c, k, i) == 0 by {
        lemma_term_vanishes(a, c, k, i);
    }
    lemma_term_sum_zero_tail(a, c, k, 0, a.len() as int, big);
    assert forall|i: int| a2.len() <= i < big implies #[trigger] term(a2, c, k, i) == 0 by {
        lemma_term_vanishes(a2, c, k, i);
    }
    lemma_term_sum_zero_tail(a2, c, k, 0, a2.len() as int, big);
    lemma_term_sum_add(a, a2, c, k, big);
}

proof fn lemma_term_sum_add(a: Seq<int>, a2: Seq<int>, c: Seq<int>, k: int, n: int)
    requires
        0 <= n <= int_add(a, a2).len(),
    ensures
        term_sum(int_add(a, a2), c, k, 0, n) == term_sum(a, c, k, 0, n) + term_sum(a2, c, k, 0, n),
    decreases n,
{
    if n > 0 {
        lemma_term_sum_add(a, a2, c, k, n - 1);
        lemma_mul_is_distributive_add_other_way(coef(c, k - (n - 1)), coef(a, n - 1), coef(a2, n - 1));
    }
}

/// Multiplying by `x X^d` first shifts the product by `d` and scales it by `x`.
proof fn lemma_conv_monomial(b: Seq<int>, x: int, d: nat, c: Seq<int>, k: int)
    ensures
        conv(monomial_mul(b, x, d), c, k) == x * conv(b, c, k - d),
{
    lemma_conv_monomial_prefix(b, x, d, c, k, b.len() as int);
}

proof fn lemma_conv_monomial_prefix(b: Seq<int>, x: int, d: nat, c: Seq<int>, k: int, n: int)
    requires
        0 <= n <= b.len(),
    ensures
        term_sum(monomial_mul(b, x, d), c, k, 0, n + d) == x * term_sum(b, c, k - d, 0, n),
    decreases n,
{
    let s = monomial_mul(b, x, d);
    if n == 0 {
        assert forall|i: int| 0 <= i < d implies #[trigger] term(s, c, k, i) == 0 by {
            assert(coef(s, i) == x * 0);
            lemma_mul_basics(x);
            lemma_mul_basics(coef(c, k - i));
        }
        lemma_term_sum_zero_tail(s, c, k, 0, 0, d as int);
        assert(term_sum(s, c, k, 0, 0) == 0);
        assert(term_sum(b, c, k - d, 0, 0) == 0);
        lemma_mul_basics(x);
    } else {
        lemma_conv_monomial_prefix(b, x, d, c, k, n - 1);
        let i = n - 1;
        assert(coef(s, i + d) == x * coef(b, i));
        assert(coef(c, k - (i + d)) == coef(c, (k - d) - i));
        lemma_mul_is_associative(x, coef(b, i), coef(c, (k - d) - i));
        lemma_mul_is_distributive_add(x, term_sum(b, c, k - d, 0, i), term(b, c, k - d, i));
    }
}

/// The product over the integers is associative, coefficient by coefficient.
pub proof fn lemma_conv_assoc(a: Seq<int>, b: Seq<int>, c: Seq<int>, k: int)
    ensures
        conv(int_mul(a, b), c, k) == conv(a, int_mul(b, c), k),
    decreases a.len(),
{
    if a.len() == 0 {
        assert(int_mul(a, b) =~= Seq::<int>::empty());
        assert(conv(int_mul(a, b), c, k) == 0);
        assert(conv(a, int_mul(b, c), k) == 0);
    } else {
        let d = (a.len() - 1) as nat;
        let x = a[d as int];
        let a1 = a.drop_last();
        lemma_conv_assoc(a1, b, c, k);
        // a * b = a1 * b + x X^d * b, coefficient by coefficient.
        let split = int_add(int_mul(a1, b), monomial_mul(b, x, d));
        assert forall|j: int| #[trigger] coef(int_mul(a, b), j) == coef(split, j) by {
            lemma_int_mul_coef(a, b, j);
            lemma_int_mul_coef(a1, b, j);
            assert forall|i: int| 0 <= i < a1.len() implies #[trigger] term(a, b, j, i) == term(a1, b, j, i) by {}
            lemma_term_sum_congruent(a, b, a1, b, j, j, 0, a1.len() as int);
            if !(0 <= j < split.len()) {
                if b.len() > 0 {
                    lemma_term_vanishes(a, b, j, d as int);
                }
                assert(conv(a1, b, j) == 0) by {
                    assert forall|i: int| 0 <= i < a1.len() implies #[trigger] term(a1, b, j, i) == 0 by {
                        lemma_term_vanishes(a1, b, j, i);
                    }
                    lemma_term_sum_zero_tail(a1, b, j, 0, 0, a1.len() as int);
                    assert(term_sum(a1, b, j, 0, 0) == 0);
                }
                if b.len() == 0 {
                    lemma_mul_basics(coef(a, d as int));
                }
            }
        }
        lemma_conv_ext(int_mul(a, b), split, c, k);
        lemma_conv_add_left(int_mul(a1, b), monomial_mul(b, x, d), c, k);
        lemma_conv_monomial(b, x, d, c, k);
        // a * (b * c) peels its top term the same way.
        assert forall|i: int| 0 <= i < a1.len() implies #[trigger] term(a, int_mul(b, c), k, i) == term(
            a1,
            int_mul(b, c),
            k,
            i,
        ) by {}
        lemma_term_sum_congruent(a, int_mul(b, c), a1, int_mul(b, c), k, k, 0, a1.len() as int);
        lemma_int_mul_coef(b, c, k - d);
    }
}

/// `x = y + k * b` coefficient by coefficient, modulo `m`.
pub open spec fn congruent_by(x: Seq<int>, y: Seq<int>, k: Seq<int>, b: Seq<int>, m: int) -> bool {
    forall|i: int| #[trigger] coef(x, i) % m == (coef(y, i) + conv(k, b, i)) % m
}

/// `x` and `y` are the same element of `Z_m[X] / (b)`.
pub open spec fn congruent(x: Seq<int>, y: Seq<int>, b: Seq<int>, m: int) -> bool {
    exists|k: Seq<int>| #[trigger] congruent_by(x, y, k, b, m)
}

pub open spec fn int_neg(a: Seq<int>) -> Seq<int> {
    Seq::new(a.len(), |i: int| -a[i])
}

proof fn lemma_conv_neg(k: Seq<int>, b: Seq<int>, i: int, n: int)
    requires
        0 <= n <= k.len(),
    ensures
        term_sum(int_neg(k), b, i, 0, n) == -term_sum(k, b, i, 0, n),
    decreases n,
{
    if n > 0 {
        lemma_conv_neg(k, b, i, n - 1);
        vstd::arithmetic::mul::lemma_mul_unary_negation(coef(k, n - 1), coef(b, i - (n - 1)));
    }
}

/// Congruence is symmetric.
pub proof fn lemma_congruent_symmetric(x: Seq<int>, y: Seq<int>, k: Seq<int>, b: Seq<int>, m: int)
    requires
        m > 0,
        congruent_by(x, y, k, b, m),
    ensures
        congruent_by(y, x, int_neg(k), b, m),
{
    assert forall|i: int| #[trigger] coef(y, i) % m == (coef(x, i) + conv(int_neg(k), b, i)) % m by {
        lemma_conv_neg(k, b, i, k.len() as int);
        assert(coef(x, i) % m == (coef(y, i) + conv(k, b, i)) % m);
        lemma_sub_mod_noop(coef(x, i), conv(k, b, i), m);
        lemma_sub_mod_noop(coef(y, i) + conv(k, b, i), conv(k, b, i), m);
    }
}

/// Congruence is transitive.
pub proof fn lemma_congruent_transitive(
    x: Seq<int>,
    y: Seq<int>,
    w: Seq<int>,
    k1: Seq<int>,
    k2: Seq<int>,
    b: Seq<int>,
    m: int,
)
    requires
        m > 0,
        congruent_by(x, y, k1, b, m),
        congruent_by(y, w, k2, b, m),
    ensures
        congruent_by(x, w, int_add(k1, k2), b, m),
{
    assert forall|i: int| #[trigger] coef(x, i) % m == (coef(w, i) + conv(int_add(k1, k2), b, i)) % m by {
        lemma_conv_add_left(k1, k2, b, i);
        assert(coef(x, i) % m == (coef(y, i) + conv(k1, b, i)) % m);
        assert(coef(y, i) % m == (coef(w, i) + conv(k2, b, i)) % m);
        lemma_add_mod_noop(coef(y, i), conv(k1, b, i), m);
        lemma_add_mod_noop(coef(w, i) + conv(k2, b, i), conv(k1, b, i), m);
    }
}

/// The coefficients of a sum, before the final reduction.
pub proof fn lemma_poly_add_coef(x: Seq<int>, y: Seq<int>, m: int, i: int)
    requires
        m > 0,
    ensures
        coef(poly_add(x, y, m), i) % m == (coef(x, i) + coef(y, i)) % m,
{
    lemma_small_mod(0nat, m as nat);
    if 0 <= i < max_len(x, y) {
        lemma_mod_twice(coef(x, i) + coef(y, i), m);
    }
}

/// Congruence is kept by sums.
pub proof fn lemma_congruent_add(
    x1: Seq<int>,
    y1: Seq<int>,
    k1: Seq<int>,
    x2: Seq<int>,
    y2: Seq<int>,
    k2: Seq<int>,
    b: Seq<int>,
    m: int,
)
    requires
        m > 0,
        congruent_by(x1, y1, k1, b, m),
        congruent_by(x2, y2, k2, b, m),
    ensures
        congruent_by(poly_add(x1, x2, m), poly_add(y1, y2, m), int_add(k1, k2), b, m),
{
    assert forall|i: int| #[trigger] coef(poly_add(x1, x2, m), i) % m == (coef(poly_add(y1, y2, m), i) + conv(int_add(k1, k2), b, i)) % m by {
        lemma_conv_add_left(k1, k2, b, i);
        lemma_poly_add_coef(x1, x2, m, i);
        lemma_poly_add_coef(y1, y2, m, i);
        assert(coef(x1, i) % m == (coef(y1, i) + conv(k1, b, i)) % m);
        assert(coef(x2, i) % m == (coef(y2, i) + conv(k2, b, i)) % m);
        lemma_add_mod_noop(coef(x1, i), coef(x2, i), m);
        lemma_add_mod_noop(coef(y1, i) + conv(k1, b, i), coef(y2, i) + conv(k2, b, i), m);
        lemma_add_mod_noop(coef(y1, i) + coef(y2, i), conv(k1, b, i) + conv(k2, b, i), m);
        lemma_mod_twice(coef(y1, i) + coef(y2, i), m);
        lemma_add_mod_noop(coef(poly_add(y1, y2, m), i), conv(k1, b, i) + conv(k2, b, i), m);
    }
}

/// Products with factors that agree modulo `m` agree modulo `m`.
proof fn lemma_conv_mod_left(x: Seq<int>, w: Seq<int>, z: Seq<int>, j: int, m: int, n: int)
    requires
        m > 0,
        n >= 0,
        forall|i: int| #[trigger] coef(x, i) % m == coef(w, i) % m,
    ensures
        term_sum(x, z, j, 0, n) % m == term_sum(w, z, j, 0, n) % m,
    decreases n,
{
    if n > 0 {
        lemma_conv_mod_left(x, w, z, j, m, n - 1);
        let i = n - 1;
        lemma_mul_mod_noop_left(coef(x, i), coef(z, j - i), m);
        lemma_mul_mod_noop_left(coef(w, i), coef(z, j - i), m);
        lemma_add_mod_noop(term_sum(x, z, j, 0, i), term(x, z, j, i), m);
        lemma_add_mod_noop(term_sum(w, z, j, 0, i), term(w, z, j, i), m);
    }
}

proof fn lemma_conv_mod_congruent(x: Seq<int>, w: Seq<int>, z: Seq<int>, j: int, m: int)
    requires
        m > 0,
        forall|i: int| #[trigger] coef(x, i) % m == coef(w, i) % m,
    ensures
        conv(x, z, j) % m == conv(w, z, j) % m,
{
    let big = max_len(x, w) as int;
    assert forall|i: int| x.len() <= i < big implies #[trigger] term(x, z, j, i) == 0 by {
        lemma_term_vanishes(x, z, j, i);
    }
    lemma_term_sum_zero_tail(x, z, j, 0, x.len() as int, big);
    assert forall|i: int| w.len() <= i < big implies #[trigger] term(w, z, j, i) == 0 by {
        lemma_term_vanishes(w, z, j, i);
    }
    lemma_term_sum_zero_tail(w, z, j, 0, w.len() as int, big);
    lemma_conv_mod_left(x, w, z, j, m, big);
}

/// Congruence is kept by multiplying on the right.
pub proof fn lemma_congruent_mul(x: Seq<int>, y: Seq<int>, k: Seq<int>, z: Seq<int>, b: Seq<int>, m: int)
    requires
        m > 0,
        congruent_by(x, y, k, b, m),
    ensures
        congruent_by(poly_mul(x, z, m), poly_mul(y, z, m), int_mul(k, z), b, m),
{
    let w = int_add(y, int_mul(k, b));
    assert forall|i: int| #[trigger] coef(x, i) % m == coef(w, i) % m by {
        lemma_int_mul_coef(k, b, i);
        assert(coef(x, i) % m == (coef(y, i) + conv(k, b, i)) % m);
    }
    // (k * b) * z = k * (b * z) = k * (z * b) = (k * z) * b
    assert forall|i: int| #[trigger] coef(int_mul(b, z), i) == coef(int_mul(z, b), i) by {
        lemma_int_mul_coef(b, z, i);
        lemma_int_mul_coef(z, b, i);
        lemma_conv_commutes(b, z, i);
    }
    assert forall|j: int| #[trigger] coef(poly_mul(x, z, m), j) % m == (coef(poly_mul(y, z, m), j) + conv(int_mul(k, z), b, j)) % m by {
        lemma_mul_coef(x, z, m, j);
        lemma_mul_coef(y, z, m, j);
        lemma_conv_mod_congruent(x, w, z, j, m);
        lemma_conv_add_left(y, int_mul(k, b), z, j);
        lemma_conv_assoc(k, b, z, j);
        lemma_conv_ext_right(k, int_mul(b, z), int_mul(z, b), j);
        lemma_conv_assoc(k, z, b, j);
        lemma_mod_twice(conv(x, z, j), m);
        lemma_add_mod_noop(conv(y, z, j), conv(int_mul(k, z), b, j), m);
        lemma_mod_twice(conv(y, z, j), m);
        lemma_add_mod_noop(conv(y, z, j) % m, conv(int_mul(k, z), b, j), m);
    }
}

/// Congruences modulo `m` add up.
pub proof fn lemma_cong_add(a: int, b: int, x: int, y: int, m: int)
    requires
        m > 0,
        a % m == x % m,
        b % m == y % m,
    ensures
        (a + b) % m == (x + y) % m,
{
    lemma_add_mod_noop(a, b, m);
    lemma_add_mod_noop(x, y, m);
}

/// Congruences modulo `m` survive negation.
pub proof fn lemma_cong_neg(a: int, x: int, m: int)
    requires
        m > 0,
        a % m == x % m,
    ensures
        (-a) % m == (-x) % m,
{
    lemma_sub_mod_noop(0, a, m);
    lemma_sub_mod_noop(0, x, m);
}

/// A left factor congruent to `y + k * b` gives a product congruent to `y * z + (k * z) * b`.
pub proof fn lemma_conv_left_congruent(x: Seq<int>, y: Seq<int>, k: Seq<int>, z: Seq<int>, b: Seq<int>, m: int, j: int)
    requires
        m > 0,
        congruent_by(x, y, k, b, m),
    ensures
        conv(x, z, j) % m == (conv(y, z, j) + conv(int_mul(k, z), b, j)) % m,
{
    let w = int_add(y, int_mul(k, b));
    assert forall|i: int| #[trigger] coef(x, i) % m == coef(w, i) % m by {
        lemma_int_mul_coef(k, b, i);
        assert(coef(x, i) % m == (coef(y, i) + conv(k, b, i)) % m);
    }
    assert forall|i: int| #[trigger] coef(int_mul(b, z), i) == coef(int_mul(z, b), i) by {
        lemma_int_mul_coef(b, z, i);
        lemma_int_mul_coef(z, b, i);
        lemma_conv_commutes(b, z, i);
    }
    lemma_conv_mod_congruent(x, w, z, j, m);
    lemma_conv_add_left(y, int_mul(k, b), z, j);
    lemma_conv_assoc(k, b, z, j);
    lemma_conv_ext_right(k, int_mul(b, z), int_mul(z, b), j);
    lemma_conv_assoc(k, z, b, j);
}

/// A reduced sum as left factor acts as the sum of its terms.
pub proof fn lemma_conv_poly_add_left(y1: Seq<int>, y2: Seq<int>, z: Seq<int>, m: int, j: int)
    requires
        m > 0,
    ensures
        conv(poly_add(y1, y2, m), z, j) % m == (conv(y1, z, j) + conv(y2, z, j)) % m,
{
    assert forall|i: int| #[trigger] coef(poly_add(y1, y2, m), i) % m == coef(int_add(y1, y2), i) % m by {
        lemma_poly_add_coef(y1, y2, m, i);
    }
    lemma_conv_mod_congruent(poly_add(y1, y2, m), int_add(y1, y2), z, j, m);
    lemma_conv_add_left(y1, y2, z, j);
}

/// A reduced product as left factor acts as the integer product.
pub proof fn lemma_conv_poly_mul_left(a: Seq<int>, s: Seq<int>, z: Seq<int>, m: int, j: int)
    requires
        m > 0,
    ensures
        conv(poly_mul(a, s, m), z, j) % m == conv(int_mul(a, s), z, j) % m,
{
    assert forall|i: int| #[trigger] coef(poly_mul(a, s, m), i) % m == coef(int_mul(a, s), i) % m by {
        lemma_mul_coef(a, s, m, i);
        lemma_int_mul_coef(a, s, i);
        lemma_mod_twice(conv(a, s, i), m);
    }
    lemma_conv_mod_congruent(poly_mul(a, s, m), int_mul(a, s), z, j, m);
}

/// A reduced negation as left factor negates the product.
pub proof fn lemma_conv_poly_neg_left(x: Seq<int>, z: Seq<int>, m: int, j: int)
    requires
        m > 0,
    ensures
        conv(poly_neg(x, m), z, j) % m == (-conv(x, z, j)) % m,
{
    assert forall|i: int| #[trigger] coef(poly_neg(x, m), i) % m == coef(int_neg(x), i) % m by {
        if 0 <= i < x.len() {
            lemma_mod_twice(m - x[i], m);
            vstd::arithmetic::div_mod::lemma_mod_add_multiples_vanish(-x[i], m);
        }
    }
    lemma_conv_mod_congruent(poly_neg(x, m), int_neg(x), z, j, m);
    lemma_conv_neg(x, z, j, x.len() as int);
}

/// A polynomial is congruent to its remainder.
pub proof fn lemma_remainder_congruent(a: Seq<int>, b: Seq<int>, r: Seq<int>, m: int) -> (q: Seq<int>)
    requires
        m > 1,
        reduced(a, m),
        b.len() >= 1,
        is_remainder(a, b, r, m),
    ensures
        congruent_by(a, r, q, b, m),
{
    let q = choose|q: Seq<int>| is_division(a, b, q, r, m);
    lemma_division_identity(a, b, q, r, m);
    let s = poly_add(poly_mul(q, b, m), r, m);
    assert forall|i: int| #[trigger] coef(a, i) % m == (coef(r, i) + conv(q, b, i)) % m by {
        assert(coef(a, i) == coef(s, i));
        lemma_poly_add_coef(poly_mul(q, b, m), r, m, i);
        lemma_mul_coef(q, b, m, i);
        lemma_add_mod_noop(conv(q, b, i), coef(r, i), m);
        lemma_mod_twice(conv(q, b, i), m);
        lemma_add_mod_noop(conv(q, b, i) % m, coef(r, i), m);
        if 0 <= i < a.len() {
            lemma_small_mod(a[i] as nat, m as nat);
        }
        lemma_small_mod(0nat, m as nat);
        lemma_mod_twice(coef(s, i), m);
    }
    q
}

/// A remainder of a reduced polynomial is reduced.
pub proof fn lemma_remainder_reduced(a: Seq<int>, b: Seq<int>, r: Seq<int>, m: int)
    requires
        reduced(a, m),
        is_remainder(a, b, r, m),
    ensures
        reduced(r, m),
{
    let q = choose|q: Seq<int>| is_division(a, b, q, r, m);
}

/// Every polynomial is congruent to itself.
pub proof fn lemma_congruent_reflexive(x: Seq<int>, b: Seq<int>, m: int)
    ensures
        congruent_by(x, x, Seq::<int>::empty(), b, m),
{
    assert forall|i: int| #[trigger] coef(x, i) % m == (coef(x, i) + conv(Seq::<int>::empty(), b, i)) % m by {
        assert(conv(Seq::<int>::empty(), b, i) == 0);
    }
}

/// Sums are reduced.
pub proof fn lemma_poly_add_reduced(x: Seq<int>, y: Seq<int>, m: int)
    requires
        m > 0,
    ensures
        reduced(poly_add(x, y, m), m),
{
    assert forall|i: int| 0 <= i < poly_add(x, y, m).len() implies 0 <= #[trigger] poly_add(x, y, m)[i] < m by {
        vstd::arithmetic::div_mod::lemma_mod_bound(coef(x, i) + coef(y, i), m);
    }
}

/// Sums of reduced polynomials may be regrouped: `(a + b) + (c + d) = (a + c) + (b + d)`, modulo `m`.
pub proof fn lemma_regroup(a: Seq<int>, b: Seq<int>, c: Seq<int>, d: Seq<int>, z: Seq<int>, m: int)
    requires
        m > 0,
    ensures
        congruent_by(
            poly_add(poly_add(a, b, m), poly_add(c, d, m), m),
            poly_add(poly_add(a, c, m), poly_add(b, d, m), m),
            Seq::<int>::empty(),
            z,
            m,
        ),
{
    let e = Seq::<int>::empty();
    assert forall|i: int| #[trigger] coef(poly_add(poly_add(a, b, m), poly_add(c, d, m), m), i) % m
        == (coef(poly_add(poly_add(a, c, m), poly_add(b, d, m), m), i) + conv(e, z, i)) % m by {
        assert(conv(e, z, i) == 0);
        let (ab, cd, ac, bd) = (poly_add(a, b, m), poly_add(c, d, m), poly_add(a, c, m), poly_add(b, d, m));
        lemma_poly_add_coef(ab, cd, m, i);
        lemma_poly_add_coef(ac, bd, m, i);
        lemma_poly_add_coef(a, b, m, i);
        lemma_poly_add_coef(c, d, m, i);
        lemma_poly_add_coef(a, c, m, i);
        lemma_poly_add_coef(b, d, m, i);
        lemma_add_mod_noop(coef(ab, i), coef(cd, i), m);
        lemma_add_mod_noop(coef(a, i) + coef(b, i), coef(c, i) + coef(d, i), m);
        lemma_add_mod_noop(coef(ac, i), coef(bd, i), m);
        lemma_add_mod_noop(coef(a, i) + coef(c, i), coef(b, i) + coef(d, i), m);
    }
}

proof fn lemma_conv_cyclotomic_prefix(k: Seq<int>, n: nat, i: int, len: int)
    requires
        n >= 1,
        len >= 0,
    ensures
        term_sum(k, cyclotomic(n), i, 0, len) == (if 0 <= i < len { coef(k, i) } else { 0 }) + (if 0
            <= i - n < len {
            coef(k, i - n)
        } else {
            0
        }),
    decreases len,
{
    let phi = cyclotomic(n);
    if len > 0 {
        lemma_conv_cyclotomic_prefix(k, n, i, len - 1);
        let j = len - 1;
        if i - j == 0 || i - j == n {
            assert(coef(phi, i - j) == 1);
            lemma_mul_basics(coef(k, j));
        } else {
            assert(coef(phi, i - j) == 0);
            lemma_mul_basics(coef(k, j));
        }
    }
}

/// Multiplying by `X^n + 1` adds the polynomial to itself shifted by `n`.
pub proof fn lemma_conv_cyclotomic(k: Seq<int>, n: nat, i: int)
    requires
        n >= 1,
    ensures
        conv(k, cyclotomic(n), i) == coef(k, i) + coef(k, i - n),
{
    lemma_conv_cyclotomic_prefix(k, n, i, k.len() as int);
}

/// Every coefficient of a multiplier `k` with `k * (X^n + 1) = 0 (mod m)` above
/// position `n` is zero modulo `m`, counting down from the top.
proof fn lemma_multiplier_vanishes(k: Seq<int>, n: nat, m: int, j: int)
    requires
        n >= 1,
        m > 0,
        j >= 0,
        forall|i: int| i >= n ==> #[trigger] (conv(k, cyclotomic(n), i) % m) == 0,
    ensures
        coef(k, j) % m == 0,
    decreases if j >= k.len() { 0 } else { k.len() - j },
{
    if j >= k.len() {
        vstd::arithmetic::div_mod::lemma_small_mod(0nat, m as nat);
    } else {
        lemma_multiplier_vanishes(k, n, m, j + n);
        lemma_conv_cyclotomic(k, n, j + n);
        assert(conv(k, cyclotomic(n), j + n) % m == 0);
        lemma_add_mod_noop(coef(k, j + n), coef(k, j), m);
        vstd::arithmetic::div_mod::lemma_mod_twice(coef(k, j), m);
        vstd::arithmetic::div_mod::lemma_small_mod(0nat, m as nat);
    }
}

/// Two reduced polynomials of at most `n` coefficients that are congruent
/// modulo `X^n + 1` are the same polynomial.
pub proof fn lemma_congruent_unique(x: Seq<int>, y: Seq<int>, n: nat, m: int)
    requires
        n >= 1,
        m > 0,
        reduced(x, m),
        reduced(y, m),
        x.len() <= n,
        y.len() <= n,
        congruent(x, y, cyclotomic(n), m),
    ensures
        same_poly(x, y),
{
    let k = choose|k: Seq<int>| congruent_by(x, y, k, cyclotomic(n), m);
    vstd::arithmetic::div_mod::lemma_small_mod(0nat, m as nat);
    assert forall|i: int| i >= n implies #[trigger] (conv(k, cyclotomic(n), i) % m) == 0 by {
        assert(coef(x, i) % m == (coef(y, i) + conv(k, cyclotomic(n), i)) % m);
    }
    assert forall|i: int| #[trigger] coef(x, i) == coef(y, i) by {
        if 0 <= i < n {
            lemma_multiplier_vanishes(k, n, m, i);
            lemma_conv_cyclotomic(k, n, i);
            assert(coef(x, i) % m == (coef(y, i) + conv(k, cyclotomic(n), i)) % m);
            lemma_add_mod_noop(coef(y, i), coef(k, i), m);
            vstd::arithmetic::div_mod::lemma_mod_twice(coef(y, i), m);
            if 0 <= i < x.len() {
                vstd::arithmetic::div_mod::lemma_small_mod(x[i] as nat, m as nat);
            }
            if 0 <= i < y.len() {
                vstd::arithmetic::div_mod::lemma_small_mod(y[i] as nat, m as nat);
            }
        }
    }
}

} // verus!
