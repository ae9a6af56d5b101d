//! Arithmetic on reduced residues modulo `m`, with `1 < m <= 2^32`.
use vstd::arithmetic::div_mod::*;
use vstd::arithmetic::mul::*;
use vstd::prelude::*;

verus! {

/// The largest modulus any field of this crate may have.
pub const MAX_MODULUS: u64 = 0x1_0000_0000;

pub open spec fn add_mod(a: int, b: int, m: int) -> int {
    (a + b) % m
}

pub open spec fn sub_mod(a: int, b: int, m: int) -> int {
    (a - b) % m
}

pub open spec fn mul_mod(a: int, b: int, m: int) -> int {
    (a * b) % m
}

pub open spec fn neg_mod(a: int, m: int) -> int {
    (m - a) % m
}

/// `a` has a multiplicative inverse modulo `m`.
pub open spec fn has_inverse(a: int, m: int) -> bool {
    exists|y: int| 0 <= y < m && #[trigger] ((a * y) % m) == 1
}

/// The remainder of `i` by `m` as Rust's `%` computes it: it takes the sign of `i`.
pub open spec fn trunc_rem(i: int, m: int) -> int {
    if i >= 0 {
        i % m
    } else {
        -((-i) % m)
    }
}

/// `(a + b) mod m`.
pub fn mod_add(a: u64, b: u64, m: u64) -> (r: u64)
    requires
        0 < m <= MAX_MODULUS,
        a < m,
        b < m,
    ensures
        r == add_mod(a as int, b as int, m as int),
{
    (a + b) % m
}

/// `(a - b) mod m`, in `[0, m)`.
pub fn mod_sub(a: u64, b: u64, m: u64) -> (r: u64)
    requires
        0 < m <= MAX_MODULUS,
        a < m,
        b < m,
    ensures
        r == sub_mod(a as int, b as int, m as int),
{
    proof {
        lemma_mod_add_multiples_vanish(a - b, m as int);
    }
    (a + m - b) % m
}

/// `(a * b) mod m`, multiplied in 128 bits.
pub fn mod_mul(a: u64, b: u64, m: u64) -> (r: u64)
    requires
        0 < m <= MAX_MODULUS,
        a < m,
        b < m,
    ensures
        r == mul_mod(a as int, b as int, m as int),
{
    assert((a as int) * (b as int) < 0x1_0000_0000_0000_0000) by (nonlinear_arith)
        requires
            a < 0x1_0000_0000,
            b < 0x1_0000_0000,
    ;
    let wide: u128 = (a as u128) * (b as u128);
    (wide % (m as u128)) as u64
}

/// `(m - a) mod m`.
pub fn mod_neg(a: u64, m: u64) -> (r: u64)
    requires
        0 < m <= MAX_MODULUS,
        a < m,
    ensures
        r == neg_mod(a as int, m as int),
{
    (m - a) % m
}

/// Reduces a signed integer into `[0, m)`.
pub fn mod_from_signed(i: i64, m: u64) -> (r: u64)
    requires
        0 < m <= MAX_MODULUS,
    ensures
        r == (i as int) % (m as int),
{
    let mi: i64 = m as i64;
    let reduced: i64 = i % mi;
    proof {
        lemma_trunc_rem_is_congruent(i as int, m as int);
    }
    if reduced < 0 {
        (mi + reduced) as u64
    } else {
        reduced as u64
    }
}

/// The least `x` in `[0, m)` with `a * x = 1 (mod m)`, or 0 when there is none.
pub fn mod_inv(a: u64, m: u64) -> (r: u64)
    requires
        1 < m <= MAX_MODULUS,
        a < m,
    ensures
        r < m,
        has_inverse(a as int, m as int) ==> mul_mod(a as int, r as int, m as int) == 1,
        has_inverse(a as int, m as int) ==> forall|j: int|
            0 <= j < r ==> #[trigger] mul_mod(a as int, j, m as int) != 1,
        !has_inverse(a as int, m as int) ==> r == 0,
{
    let mut i: u64 = 0;
    while i < m
        invariant
            1 < m <= MAX_MODULUS,
            a < m,
            i <= m,
            forall|j: int| 0 <= j < i ==> #[trigger] mul_mod(a as int, j, m as int) != 1,
        decreases m - i,
    {
        if mod_mul(a, i, m) == 1 {
            return i;
        }
        i = i + 1;
    }
    proof {
        if has_inverse(a as int, m as int) {
            let y = choose|y: int| 0 <= y < m && #[trigger] ((a * y) % (m as int)) == 1;
            assert(mul_mod(a as int, y, m as int) == 1);
        }
    }
    0
}

/// Reducing any integer `i` gives a residue in `[0, m)`, and that residue is
/// `((i rem m) + m) rem m` where `rem` is Rust's sign-keeping remainder.
pub proof fn lemma_trunc_rem_is_congruent(i: int, m: int)
    requires
        m > 0,
    ensures
        0 <= i % m < m,
        -m < trunc_rem(i, m) < m,
        (trunc_rem(i, m) + m) % m == i % m,
        trunc_rem(i, m) >= 0 ==> trunc_rem(i, m) == i % m,
        trunc_rem(i, m) < 0 ==> trunc_rem(i, m) + m == i % m,
{
    lemma_mod_bound(i, m);
    if i < 0 {
        lemma_mod_bound(-i, m);
        let r = (-i) % m;
        lemma_fundamental_div_mod(-i, m);
        let q = (-i) / m;
        // i = -(q*m + r) = (-q-1)*m + (m - r)
        if r == 0 {
            lemma_mod_multiples_vanish(-q, 0, m);
            assert(i == (-q) * m) by (nonlinear_arith)
                requires -i == m * q + r, r == 0;
            lemma_mod_multiples_basic(-q, m);
        } else {
            assert(i == (-q - 1) * m + (m - r)) by (nonlinear_arith)
                requires -i == m * q + r;
            lemma_mod_multiples_vanish(-q - 1, m - r, m);
            lemma_small_mod((m - r) as nat, m as nat);
        }
    }
    lemma_mod_add_multiples_vanish(trunc_rem(i, m), m);
    if trunc_rem(i, m) >= 0 {
        lemma_mod_twice(i, m);
    }
}

/// The residues modulo `m` form a commutative ring: `+` and `*` commute and
/// associate, `*` distributes over `+`, `a + (-a) = 0`, `a * 1 = a` and `a * 0 = 0`.
pub proof fn lemma_field_algebra(a: int, b: int, c: int, m: int)
    requires
        1 < m,
        0 <= a < m,
        0 <= b < m,
        0 <= c < m,
    ensures
        add_mod(a, b, m) == add_mod(b, a, m),
        mul_mod(a, b, m) == mul_mod(b, a, m),
        add_mod(add_mod(a, b, m), c, m) == add_mod(a, add_mod(b, c, m), m),
        mul_mod(mul_mod(a, b, m), c, m) == mul_mod(a, mul_mod(b, c, m), m),
        mul_mod(a, add_mod(b, c, m), m) == add_mod(mul_mod(a, b, m), mul_mod(a, c, m), m),
        add_mod(a, neg_mod(a, m), m) == 0,
        mul_mod(a, 1, m) == a,
        mul_mod(a, 0, m) == 0,
{
    lemma_mul_is_commutative(a, b);
    lemma_add_mod_noop(a + b, c, m);
    lemma_add_mod_noop(a, b + c, m);
    lemma_mod_twice(c, m);
    lemma_mod_twice(a, m);
    lemma_small_mod(a as nat, m as nat);
    lemma_small_mod(c as nat, m as nat);
    lemma_small_mod(b as nat, m as nat);
    lemma_mul_mod_noop_left(a * b, c, m);
    lemma_mul_mod_noop_right(a, b * c, m);
    lemma_mul_is_associative(a, b, c);
    lemma_mul_mod_noop_right(a, b + c, m);
    lemma_mul_is_distributive_add(a, b, c);
    lemma_add_mod_noop(a * b, a * c, m);
    lemma_add_mod_noop_right(a, m - a, m);
    lemma_mod_self_0(m);
    lemma_mul_basics(a);
}

} // verus!
