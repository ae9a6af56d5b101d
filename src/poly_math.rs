//! Polynomials over `Z_m` as sequences of residues, little-endian, and the
//! facts about them that the executable code and the scheme rely on.
use crate::modular::{has_inverse, mul_mod};
use vstd::arithmetic::div_mod::*;
use vstd::arithmetic::mul::*;
use vstd::prelude::*;

verus! {

/// Coefficient `i` of `a`, zero outside the stored positions.
pub open spec fn coef(a: Seq<int>, i: int) -> int {
    if 0 <= i < a.len() {
        a[i]
    } else {
        0
    }
}

/// Every coefficient lies in `[0, m)`.
pub open spec fn reduced(a: Seq<int>, m: int) -> bool {
    forall|i: int| 0 <= i < a.len() ==> 0 <= #[trigger] a[i] < m
}

/// Empty, or every coefficient zero.
pub open spec fn is_zero_poly(a: Seq<int>) -> bool {
    forall|i: int| 0 <= i < a.len() ==> #[trigger] a[i] == 0
}

/// The two sequences stand for the same polynomial: they differ only in trailing zeros.
pub open spec fn same_poly(a: Seq<int>, b: Seq<int>) -> bool {
    forall|i: int| #[trigger] coef(a, i) == #[trigger] coef(b, i)
}

pub open spec fn max_len(a: Seq<int>, b: Seq<int>) -> nat {
    if a.len() >= b.len() {
        a.len()
    } else {
        b.len()
    }
}

/// Coefficient-wise sum, padded to the longer operand.
pub open spec fn poly_add(a: Seq<int>, b: Seq<int>, m: int) -> Seq<int> {
    Seq::new(max_len(a, b), |i: int| (coef(a, i) + coef(b, i)) % m)
}

/// Coefficient-wise negation.
pub open spec fn poly_neg(a: Seq<int>, m: int) -> Seq<int> {
    Seq::new(a.len(), |i: int| (m - a[i]) % m)
}

/// One term `a_i * b_(k-i)` of coefficient `k` of a product.
pub open spec fn term(a: Seq<int>, b: Seq<int>, k: int, i: int) -> int {
    coef(a, i) * coef(b, k - i)
}

/// `sum of term(a, b, k, i)` over `lo <= i < hi`.
pub open spec fn term_sum(a: Seq<int>, b: Seq<int>, k: int, lo: int, hi: int) -> int
    decreases hi - lo,
{
    if hi <= lo {
        0
    } else {
        term_sum(a, b, k, lo, hi - 1) + term(a, b, k, hi - 1)
    }
}

/// Coefficient `k` of `a * b` over the integers: `sum of a_i * b_(k-i)`.
pub open spec fn conv(a: Seq<int>, b: Seq<int>, k: int) -> int {
    term_sum(a, b, k, 0, a.len() as int)
}

/// Schoolbook product: `len a + len b - 1` coefficients, empty when either operand is.
pub open spec fn poly_mul(a: Seq<int>, b: Seq<int>, m: int) -> Seq<int> {
    if a.len() == 0 || b.len() == 0 {
        Seq::empty()
    } else {
        Seq::new((a.len() + b.len() - 1) as nat, |k: int| conv(a, b, k) % m)
    }
}

/// `X^n + 1`.
pub open spec fn cyclotomic(n: nat) -> Seq<int> {
    Seq::new(n + 1, |i: int| if i == 0 || i == n { 1int } else { 0int })
}

/// `(q, r)` is what Euclidean division of `a` by the non-zero `b` gives:
/// `([0], [])` for a zero `a`, `([0], a)` when `a` is shorter than `b`, and
/// otherwise a quotient of `len a - len b + 1` coefficients and a reduced
/// remainder shorter than `b`, without trailing zeros, with `a = q * b + r`.
pub open spec fn is_division(a: Seq<int>, b: Seq<int>, q: Seq<int>, r: Seq<int>, m: int) -> bool {
    if is_zero_poly(a) {
        q == seq![0int] && r == Seq::<int>::empty()
    } else if a.len() < b.len() {
        q == seq![0int] && r == a
    } else {
        &&& q.len() == a.len() - b.len() + 1
        &&& r.len() < b.len()
        &&& reduced(r, m)
        &&& (r.len() == 0 || r.last() != 0)
        &&& same_poly(a, poly_add(poly_mul(q, b, m), r, m))
    }
}

/// `r` is the remainder of `a` by `b`.
pub open spec fn is_remainder(a: Seq<int>, b: Seq<int>, r: Seq<int>, m: int) -> bool {
    exists|q: Seq<int>| is_division(a, b, q, r, m)
}

/// The last coefficient of `b` is a unit, so that long division by `b` proceeds.
pub open spec fn divisible_by(b: Seq<int>, m: int) -> bool {
    b.len() > 0 && has_inverse(b.last(), m)
}

/// The centered representative of a residue `c` modulo `m`, in `(-m/2, m/2]`.
pub open spec fn centered(c: int, m: int) -> int {
    if 2 * c <= m {
        c
    } else {
        c - m
    }
}

/// `x / d` rounded to the nearest integer, halves away from zero (`d > 0`).
pub open spec fn round_div(x: int, d: int) -> int {
    if x >= 0 {
        (2 * x + d) / (2 * d)
    } else {
        -((-2 * x + d) / (2 * d))
    }
}

/// One coefficient rescaled from modulus `m1` to modulus `m2` by the factor `num / den`.
pub open spec fn scale_coef(c: int, m1: int, num: int, den: int, m2: int) -> int {
    round_div(centered(c, m1) * num, den) % m2
}

/// Every coefficient rescaled by `num / den` from modulus `m1` into modulus `m2`.
pub open spec fn scale_seq(a: Seq<int>, m1: int, num: int, den: int, m2: int) -> Seq<int> {
    Seq::new(a.len(), |i: int| scale_coef(a[i], m1, num, den, m2))
}

/// `a` raised to the `n`-th power by repeated multiplication; `a` itself for `n <= 1`.
pub open spec fn poly_pow(a: Seq<int>, n: nat, m: int) -> Seq<int>
    decreases n,
{
    if n <= 1 {
        a
    } else {
        poly_mul(poly_pow(a, (n - 1) as nat, m), a, m)
    }
}

pub proof fn lemma_pow_len(a: Seq<int>, n: nat, m: int)
    requires
        n >= 1,
    ensures
        poly_pow(a, n, m).len() <= n * a.len(),
    decreases n,
{
    if n > 1 {
        lemma_pow_len(a, (n - 1) as nat, m);
        lemma_mul_is_distributive_sub_other_way(a.len() as int, n as int, 1);
    } else {
        lemma_mul_basics(a.len() as int);
    }
}

/// Long division by `X^n + 1` proceeds in every field: its last coefficient is one.
pub proof fn lemma_cyclotomic_divisible(n: nat, m: int)
    requires
        n >= 1,
        m > 1,
    ensures
        divisible_by(cyclotomic(n), m),
        !is_zero_poly(cyclotomic(n)),
{
    let c = cyclotomic(n);
    assert(c.last() == 1);
    lemma_small_mod(1nat, m as nat);
    assert((c.last() * 1) % m == 1);
    assert(c[0] == 1);
}

/// A remainder by `b` is no longer than `b` has positions after the leading one.
pub proof fn lemma_remainder_len(a: Seq<int>, b: Seq<int>, r: Seq<int>, m: int)
    requires
        b.len() >= 1,
        is_remainder(a, b, r, m),
    ensures
        r.len() < b.len(),
{
    let q = choose|q: Seq<int>| is_division(a, b, q, r, m);
}

// ---------------------------------------------------------------------------
// Sums of product terms

pub proof fn lemma_term_sum_front(a: Seq<int>, b: Seq<int>, k: int, lo: int, hi: int)
    requires
        lo < hi,
    ensures
        term_sum(a, b, k, lo, hi) == term(a, b, k, lo) + term_sum(a, b, k, lo + 1, hi),
    decreases hi - lo,
{
    assert(term_sum(a, b, k, lo, lo) == 0);
    assert(term_sum(a, b, k, lo + 1, lo + 1) == 0);
    if lo + 1 < hi {
        lemma_term_sum_front(a, b, k, lo, hi - 1);
        assert(term_sum(a, b, k, lo + 1, hi) == term_sum(a, b, k, lo + 1, hi - 1) + term(a, b, k, hi - 1));
    }
}

/// Terms that vanish on `[mid, hi)` do not change the sum.
pub proof fn lemma_term_sum_zero_tail(a: Seq<int>, b: Seq<int>, k: int, lo: int, mid: int, hi: int)
    requires
        lo <= mid <= hi,
        forall|i: int| mid <= i < hi ==> #[trigger] term(a, b, k, i) == 0,
    ensures
        term_sum(a, b, k, lo, hi) == term_sum(a, b, k, lo, mid),
    decreases hi - mid,
{
    if mid < hi {
        lemma_term_sum_zero_tail(a, b, k, lo, mid, hi - 1);
    }
}

/// Summing `a_i * b_(k-i)` upwards equals summing `b_j * a_(k-j)` over the mirrored range.
pub proof fn lemma_term_sum_mirror(a: Seq<int>, b: Seq<int>, k: int, lo: int, hi: int)
    ensures
        term_sum(a, b, k, lo, hi) == term_sum(b, a, k, k - hi + 1, k - lo + 1),
    decreases hi - lo,
{
    if lo < hi {
        lemma_term_sum_mirror(a, b, k, lo, hi - 1);
        lemma_term_sum_front(b, a, k, k - hi + 1, k - lo + 1);
        lemma_mul_is_commutative(coef(a, hi - 1), coef(b, k - (hi - 1)));
    }
}

pub proof fn lemma_term_vanishes(a: Seq<int>, b: Seq<int>, k: int, i: int)
    requires
        i >= a.len() || i < 0 || k - i >= b.len() || k - i < 0,
    ensures
        term(a, b, k, i) == 0,
{
    lemma_mul_basics(coef(a, i));
    lemma_mul_basics(coef(b, k - i));
}

/// Summing past the end of `a`, or past `k`, adds nothing.
pub proof fn lemma_conv_extend(a: Seq<int>, b: Seq<int>, k: int, n: int)
    requires
        n >= a.len() || n >= k + 1,
        n >= 0,
    ensures
        term_sum(a, b, k, 0, n) == term_sum(a, b, k, 0, if a.len() <= k + 1 { a.len() as int } else { if k + 1 >= 0 { k + 1 } else { 0 } }),
{
    let low = if a.len() <= k + 1 { a.len() as int } else { if k + 1 >= 0 { k + 1 } else { 0 } };
    assert forall|i: int| low <= i < n implies #[trigger] term(a, b, k, i) == 0 by {
        lemma_term_vanishes(a, b, k, i);
    }
    lemma_term_sum_zero_tail(a, b, k, 0, low, n);
}

/// Coefficient `k` of the integer product vanishes outside `[0, len a + len b - 1)`.
pub proof fn lemma_conv_outside(a: Seq<int>, b: Seq<int>, k: int)
    requires
        k < 0 || k >= a.len() + b.len() - 1,
    ensures
        conv(a, b, k) == 0,
{
    assert forall|i: int| 0 <= i < a.len() implies #[trigger] term(a, b, k, i) == 0 by {
        lemma_term_vanishes(a, b, k, i);
    }
    lemma_term_sum_zero_tail(a, b, k, 0, 0, a.len() as int);
    assert(term_sum(a, b, k, 0, 0) == 0);
}

/// The integer product is commutative, coefficient by coefficient.
pub proof fn lemma_conv_commutes(a: Seq<int>, b: Seq<int>, k: int)
    ensures
        conv(a, b, k) == conv(b, a, k),
{
    if k < 0 {
        lemma_conv_outside(a, b, k);
        lemma_conv_outside(b, a, k);
    } else {
        let big = a.len() + b.len() + k + 1;
        lemma_conv_extend(a, b, k, a.len() as int);
        lemma_conv_extend(a, b, k, big);
        lemma_conv_extend(a, b, k, k + 1);
        lemma_conv_extend(b, a, k, b.len() as int);
        lemma_conv_extend(b, a, k, big);
        lemma_conv_extend(b, a, k, k + 1);
        lemma_term_sum_mirror(a, b, k, 0, k + 1);
    }
}

/// What coefficient `k` of a reduced product is, at every `k`.
pub proof fn lemma_mul_coef(a: Seq<int>, b: Seq<int>, m: int, k: int)
    requires
        m > 0,
    ensures
        coef(poly_mul(a, b, m), k) == conv(a, b, k) % m,
{
    lemma_small_mod(0nat, m as nat);
    if a.len() == 0 || b.len() == 0 {
        assert forall|i: int| 0 <= i < a.len() implies #[trigger] term(a, b, k, i) == 0 by {
            lemma_term_vanishes(a, b, k, i);
        }
        lemma_term_sum_zero_tail(a, b, k, 0, 0, a.len() as int);
        assert(term_sum(a, b, k, 0, 0) == 0);
    } else if !(0 <= k < a.len() + b.len() - 1) {
        lemma_conv_outside(a, b, k);
    }
}

/// A product with the zero polynomial vanishes.
pub proof fn lemma_conv_zero_left(q: Seq<int>, b: Seq<int>, k: int)
    requires
        is_zero_poly(q),
    ensures
        conv(q, b, k) == 0,
{
    assert forall|i: int| 0 <= i < q.len() implies #[trigger] term(q, b, k, i) == 0 by {
        lemma_mul_basics(coef(b, k - i));
    }
    lemma_term_sum_zero_tail(q, b, k, 0, 0, q.len() as int);
    assert(term_sum(q, b, k, 0, 0) == 0);
}

/// Changing one coefficient of `q` changes each coefficient of `q * b` by a multiple of `b`.
pub proof fn lemma_term_sum_update(q: Seq<int>, b: Seq<int>, k: int, d: int, c: int, lo: int, hi: int)
    requires
        0 <= d < q.len(),
    ensures
        term_sum(q.update(d, c), b, k, lo, hi) == term_sum(q, b, k, lo, hi) + if lo <= d < hi {
            (c - q[d]) * coef(b, k - d)
        } else {
            0
        },
    decreases hi - lo,
{
    if lo < hi {
        lemma_term_sum_update(q, b, k, d, c, lo, hi - 1);
        if hi - 1 == d {
            lemma_mul_is_distributive_sub_other_way(coef(b, k - d), c, q[d]);
        }
    }
}

pub proof fn lemma_conv_update(q: Seq<int>, b: Seq<int>, k: int, d: int, c: int)
    requires
        0 <= d < q.len(),
    ensures
        conv(q.update(d, c), b, k) == conv(q, b, k) + (c - q[d]) * coef(b, k - d),
{
    lemma_term_sum_update(q, b, k, d, c, 0, q.len() as int);
}

/// Subtracting `y` (reduced) from one side and adding it to the other keeps the sum modulo `m`.
pub proof fn lemma_shift_mod(x: int, y: int, z: int, m: int)
    requires
        m > 0,
    ensures
        (x + y + (z - y % m) % m) % m == (x + z) % m,
{
    lemma_add_mod_noop_right(x + y, z - y % m, m);
    lemma_fundamental_div_mod(y, m);
    assert(x + y + (z - y % m) == m * (y / m) + (x + z));
    lemma_mod_multiples_vanish(y / m, x + z, m);
}

/// Multiplying the leading coefficient `r` by the inverse `u` of `l`, then by `l`, gives `r` back.
pub proof fn lemma_leading_cancels(r: int, l: int, u: int, m: int)
    requires
        m > 1,
        0 <= r < m,
        mul_mod(l, u, m) == 1,
    ensures
        (r - (((r * u) % m) * l) % m) % m == 0,
{
    lemma_mul_mod_noop_left(r * u, l, m);
    lemma_mul_is_associative(r, u, l);
    lemma_mul_is_commutative(u, l);
    lemma_mul_mod_noop_right(r, u * l, m);
    lemma_mul_basics(r);
    lemma_small_mod(r as nat, m as nat);
    lemma_mod_self_0(m);
    lemma_small_mod(0nat, m as nat);
}

/// Once `a = q * b + r` holds at every coefficient modulo `m`, it holds of the polynomials.
pub proof fn lemma_division_sum(a: Seq<int>, b: Seq<int>, q: Seq<int>, r: Seq<int>, m: int)
    requires
        m > 1,
        reduced(a, m),
        reduced(r, m),
        q.len() > 0,
        b.len() > 0,
        a.len() == q.len() + b.len() - 1,
        r.len() <= a.len(),
        forall|k: int| #[trigger] coef(a, k) == (conv(q, b, k) + coef(r, k)) % m,
    ensures
        same_poly(a, poly_add(poly_mul(q, b, m), r, m)),
{
    let s = poly_add(poly_mul(q, b, m), r, m);
    assert forall|k: int| #[trigger] coef(a, k) == #[trigger] coef(s, k) by {
        lemma_mul_coef(q, b, m, k);
        if 0 <= k < a.len() {
            lemma_add_mod_noop(conv(q, b, k), coef(r, k), m);
            lemma_mod_twice(conv(q, b, k), m);
            lemma_small_mod(coef(r, k) as nat, m as nat);
        }
    }
}

} // verus!
