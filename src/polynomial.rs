//! Dense polynomials over a field, little-endian: position 0 holds the constant term.
use crate::error::RlweError;
use crate::field::{is_reduced, Field};
use crate::modular::{mul_mod, sub_mod, MAX_MODULUS};
use crate::poly_math::{
    centered, coef, conv, cyclotomic, divisible_by, is_division, is_remainder, is_zero_poly,
    lemma_conv_update, lemma_conv_zero_left, lemma_division_sum, lemma_leading_cancels,
    lemma_pow_len, lemma_shift_mod, lemma_term_vanishes, max_len, poly_add, poly_mul, poly_neg,
    poly_pow, reduced, round_div, scale_coef, scale_seq, term, term_sum,
};
use crate::sampling::{gen_range, sample_uniform};
use vstd::arithmetic::div_mod::{
    lemma_add_mod_noop, lemma_fundamental_div_mod, lemma_mod_bound, lemma_mod_multiples_vanish,
    lemma_mod_twice, lemma_small_mod,
};
use vstd::arithmetic::mul::{
    lemma_mul_inequality, lemma_mul_is_distributive_add_other_way, lemma_mul_upper_bound,
};
use vstd::prelude::*;

verus! {

/// The residues that a sequence of field elements stands for.
pub open spec fn vals<F: Field>(s: Seq<F>) -> Seq<int> {
    s.map_values(|c: F| c.value() as int)
}

/// Every element is reduced.
pub open spec fn all_wf<F: Field>(s: Seq<F>) -> bool {
    forall|i: int| 0 <= i < s.len() ==> is_reduced(#[trigger] s[i])
}

/// A polynomial with coefficients in `F`.
#[derive(Debug, Clone, PartialEq)]
pub struct Poly<F: Field>(pub Vec<F>);

impl<F: Field> View for Poly<F> {
    type V = Seq<int>;

    open spec fn view(&self) -> Seq<int> {
        vals(self.0@)
    }
}

impl<F: Field> Poly<F> {
    /// Every coefficient is reduced.
    pub open spec fn wf(&self) -> bool {
        all_wf(self.0@)
    }

    /// The polynomial with the given coefficients, constant term first.
    pub fn new(vec: Vec<F>) -> (r: Self)
        ensures
            r.0 == vec,
    {
        Poly(vec)
    }

    /// The cyclotomic modulus `X^n + 1`.
    pub fn gen_cyclical(n: usize) -> (r: Self)
        requires
            1 <= n < usize::MAX,
        ensures
            r.wf(),
            r@ == cyclotomic(n as nat),
    {
        Poly(gen_cyclical(n))
    }

    /// `n` coefficients drawn uniformly from the field.
    pub fn gen_uniform(n: usize) -> (r: Self)
        ensures
            r.wf(),
            r.0.len() == n,
    {
        Poly(gen_uniform(n))
    }

    /// `n` coefficients drawn uniformly from `{-1, 0, 1}`.
    pub fn gen_ternary(n: usize) -> (r: Self)
        ensures
            r.wf(),
            r.0.len() == n,
            forall|i: int|
                0 <= i < n ==> {
                    let v = (#[trigger] r@[i]);
                    v == 0 || v == 1 || v == F::modulus() - 1
                },
    {
        let v: Vec<F> = gen_ternary(n);
        proof {
            assert forall|i: int| 0 <= i < n implies {
                let v = (#[trigger] vals(v@)[i]);
                v == 0 || v == 1 || v == F::modulus() - 1
            } by {
                assert(vals(v@)[i] == v@[i].value());
            }
        }
        Poly(v)
    }

    /// The polynomial whose coefficients are the given integers reduced into the field.
    pub fn from_signed(ints: &[i64]) -> (r: Self)
        ensures
            r.wf(),
            r@ == Seq::new(ints@.len(), |i: int| ints@[i] as int % F::modulus() as int),
    {
        Poly(from_signed_coeffs(ints))
    }

    /// Rescales into `O` by the factor `num / den`; see [`scale`].
    pub fn scale<O: Field>(&self, num: u64, den: u64) -> (r: Poly<O>)
        requires
            self.wf(),
            0 < den <= MAX_MODULUS,
            num <= MAX_MODULUS,
        ensures
            r.wf(),
            r.0.len() == self.0.len(),
            r@ == scale_seq(self@, F::modulus() as int, num as int, den as int, O::modulus() as int),
    {
        Poly(scale(&self.0, num, den))
    }

    /// `self` multiplied by itself `n - 1` times, with no reduction; `self` for `n <= 1`.
    pub fn pow(&self, n: usize) -> (r: Self)
        requires
            self.wf(),
            n as int * self.0.len() <= usize::MAX,
        ensures
            r.wf(),
            r@ == poly_pow(self@, n as nat, F::modulus() as int),
    {
        let mut acc = Poly(vstd::slice::slice_to_vec(&self.0));
        let mut i: usize = 1;
        while i < n
            invariant
                1 <= i,
                i <= n || i == 1,
                self.wf(),
                acc.wf(),
                n as int * self.0.len() <= usize::MAX,
                acc@ == poly_pow(self@, i as nat, F::modulus() as int),
            decreases n - i,
        {
            proof {
                lemma_pow_len(self@, i as nat, F::modulus() as int);
                lemma_mul_inequality(i + 1, n as int, self.0.len() as int);
                lemma_mul_is_distributive_add_other_way(self.0.len() as int, i as int, 1);
            }
            acc = Poly(crate::polynomial::mul(&acc.0, &self.0));
            i = i + 1;
        }
        proof {
            assert(poly_pow(self@, 0, F::modulus() as int) == self@);
            assert(poly_pow(self@, 1, F::modulus() as int) == self@);
        }
        acc
    }

    /// Coefficient-wise sum; see [`add`].
    pub fn add(&self, other: &Self) -> (r: Self)
        requires
            self.wf(),
            other.wf(),
        ensures
            r.wf(),
            r@ == poly_add(self@, other@, F::modulus() as int),
    {
        Poly(crate::polynomial::add(&self.0, &other.0))
    }

    /// Schoolbook product, not reduced; see [`mul`].
    pub fn mul(&self, other: &Self) -> (r: Self)
        requires
            self.wf(),
            other.wf(),
            self.0.len() + other.0.len() <= usize::MAX,
        ensures
            r.wf(),
            r@ == poly_mul(self@, other@, F::modulus() as int),
    {
        Poly(crate::polynomial::mul(&self.0, &other.0))
    }

    /// Coefficient-wise negation.
    pub fn neg(&self) -> (r: Self)
        requires
            self.wf(),
        ensures
            r.wf(),
            r@ == poly_neg(self@, F::modulus() as int),
    {
        Poly(negate(&self.0))
    }

    /// The remainder of `self` by `modulus`, whose last coefficient must be invertible.
    pub fn rem(&self, modulus: &Self) -> (r: Self)
        requires
            self.wf(),
            modulus.wf(),
            divisible_by(modulus@, F::modulus() as int),
        ensures
            r.wf(),
            is_remainder(self@, modulus@, r@, F::modulus() as int),
    {
        proof {
            if is_zero_poly(modulus@) {
                let y = choose|y: int| 0 <= y < F::modulus() && #[trigger] ((modulus@.last() * y) % (F::modulus() as int)) == 1;
                assert(modulus@.last() == modulus@[modulus@.len() - 1]);
                assert(modulus@.last() == 0);
                assert(0 * y == 0);
                F::lemma_modulus_bounds();
                lemma_small_mod(0nat, F::modulus());
            }
        }
        match div_with_rem(&self.0, &modulus.0) {
            Ok((q, r)) => {
                proof {
                    assert(is_division(self@, modulus@, vals(q@), vals(r@), F::modulus() as int));
                }
                Poly(r)
            }
            Err(_) => Poly(Vec::new()),
        }
    }
}

/// `n` zero coefficients.
fn zeros<F: Field>(n: usize) -> (r: Vec<F>)
    ensures
        r.len() == n,
        all_wf(r@),
        forall|i: int| 0 <= i < n ==> (#[trigger] r@[i]).value() == 0,
{
    let mut r: Vec<F> = Vec::with_capacity(n);
    while r.len() < n
        invariant
            r.len() <= n,
            all_wf(r@),
            forall|i: int| 0 <= i < r.len() ==> (#[trigger] r@[i]).value() == 0,
        decreases n - r.len(),
    {
        r.push(F::zero());
    }
    r
}

/// Empty, or every coefficient zero.
pub fn is_zero<F: Field>(poly: &[F]) -> (r: bool)
    ensures
        r == is_zero_poly(vals(poly@)),
{
    let mut i: usize = 0;
    while i < poly.len()
        invariant
            i <= poly.len(),
            forall|j: int| 0 <= j < i ==> (#[trigger] poly@[j]).value() == 0,
        decreases poly.len() - i,
    {
        if !poly[i].is_zero() {
            assert(vals(poly@)[i as int] != 0);
            return false;
        }
        i = i + 1;
    }
    proof {
        assert forall|j: int| 0 <= j < vals(poly@).len() implies #[trigger] vals(poly@)[j] == 0 by {
            assert(poly@[j].value() == 0);
        }
    }
    true
}

/// The degree, `len - 1`.
fn degree<F: Field>(poly: &[F]) -> (r: usize)
    requires
        poly.len() > 0,
    ensures
        r == poly.len() - 1,
{
    poly.len() - 1
}

/// Coefficient-wise sum, padding the shorter operand with zeros.
pub fn add<F: Field>(a: &[F], b: &[F]) -> (r: Vec<F>)
    requires
        all_wf(a@),
        all_wf(b@),
    ensures
        all_wf(r@),
        vals(r@) == poly_add(vals(a@), vals(b@), F::modulus() as int),
{
    let ghost m = F::modulus() as int;
    let result_len = if a.len() >= b.len() {
        a.len()
    } else {
        b.len()
    };
    let mut result: Vec<F> = Vec::with_capacity(result_len);
    let mut i: usize = 0;
    while i < result_len
        invariant
            result_len == max_len(vals(a@), vals(b@)),
            i <= result_len,
            result.len() == i,
            all_wf(a@),
            all_wf(b@),
            all_wf(result@),
            m == F::modulus(),
            forall|j: int|
                0 <= j < i ==> (#[trigger] result@[j]).value() == (coef(vals(a@), j) + coef(
                    vals(b@),
                    j,
                )) % m,
        decreases result_len - i,
    {
        let c1 = if i < a.len() {
            a[i]
        } else {
            F::zero()
        };
        let c2 = if i < b.len() {
            b[i]
        } else {
            F::zero()
        };
        result.push(c1.add(c2));
        i = i + 1;
    }
    proof {
        assert(vals(result@) =~= poly_add(vals(a@), vals(b@), m));
    }
    result
}

/// Schoolbook product; empty when either operand is empty.
pub fn mul<F: Field>(a: &[F], b: &[F]) -> (r: Vec<F>)
    requires
        all_wf(a@),
        all_wf(b@),
        a.len() + b.len() <= usize::MAX,
    ensures
        all_wf(r@),
        vals(r@) == poly_mul(vals(a@), vals(b@), F::modulus() as int),
{
    let ghost m = F::modulus() as int;
    let ghost va = vals(a@);
    let ghost vb = vals(b@);
    proof {
        F::lemma_modulus_bounds();
    }
    if a.len() == 0 || b.len() == 0 {
        let r: Vec<F> = Vec::new();
        proof {
            assert(vals(r@) =~= poly_mul(va, vb, m));
        }
        return r;
    }
    let result_len = a.len() + b.len() - 1;
    let mut result: Vec<F> = zeros(result_len);
    let mut i: usize = 0;
    proof {
        lemma_small_mod(0nat, m as nat);
        assert forall|k: int| 0 <= k < result_len implies (#[trigger] result@[k]).value()
            == term_sum(va, vb, k, 0, 0) % m by {
            assert(term_sum(va, vb, k, 0, 0) == 0);
        }
    }
    while i < a.len()
        invariant
            i <= a.len(),
            result.len() == result_len,
            result_len == a.len() + b.len() - 1,
            va == vals(a@),
            vb == vals(b@),
            m == F::modulus(),
            1 < m,
            all_wf(a@),
            all_wf(b@),
            all_wf(result@),
            forall|k: int|
                0 <= k < result_len ==> (#[trigger] result@[k]).value() == term_sum(va, vb, k, 0, i as int) % m,
        decreases a.len() - i,
    {
        let mut j: usize = 0;
        while j < b.len()
            invariant
                i < a.len(),
                j <= b.len(),
                result.len() == result_len,
                result_len == a.len() + b.len() - 1,
                va == vals(a@),
                vb == vals(b@),
                m == F::modulus(),
                1 < m,
                all_wf(a@),
                all_wf(b@),
                all_wf(result@),
                forall|k: int|
                    0 <= k < result_len ==> (#[trigger] result@[k]).value() == (term_sum(
                        va,
                        vb,
                        k,
                        0,
                        i as int,
                    ) + if i <= k < i + j {
                        term(va, vb, k, i as int)
                    } else {
                        0
                    }) % m,
            decreases b.len() - j,
        {
            let s = a[i].mul(b[j]);
            let cur = result[i + j];
            let next = cur.add(s);
            proof {
                let k0 = i + j;
                lemma_small_mod(0nat, m as nat);
                lemma_add_mod_noop(term_sum(va, vb, k0, 0, i as int), va[i as int] * vb[j as int], m);
                lemma_mod_twice(term_sum(va, vb, k0, 0, i as int), m);
            }
            result.set(i + j, next);
            j = j + 1;
        }
        proof {
            assert forall|k: int| 0 <= k < result_len implies (#[trigger] result@[k]).value()
                == term_sum(va, vb, k, 0, i + 1) % m by {
                if !(i <= k < i + b.len()) {
                    lemma_term_vanishes(va, vb, k, i as int);
                }
            }
        }
        i = i + 1;
    }
    proof {
        assert(vals(result@) =~= poly_mul(va, vb, m));
    }
    result
}

/// Coefficient-wise negation.
pub fn negate<F: Field>(a: &[F]) -> (r: Vec<F>)
    requires
        all_wf(a@),
    ensures
        all_wf(r@),
        vals(r@) == poly_neg(vals(a@), F::modulus() as int),
{
    let mut result: Vec<F> = Vec::with_capacity(a.len());
    let mut i: usize = 0;
    while i < a.len()
        invariant
            i <= a.len(),
            result.len() == i,
            all_wf(a@),
            all_wf(result@),
            forall|j: int|
                0 <= j < i ==> (#[trigger] result@[j]).value() == (F::modulus() - a@[j].value())
                    % (F::modulus() as int),
        decreases a.len() - i,
    {
        result.push(a[i].neg());
        i = i + 1;
    }
    proof {
        assert(vals(result@) =~= poly_neg(vals(a@), F::modulus() as int));
    }
    result
}

/// `X^n + 1`: one at positions 0 and `n`, zero between.
pub fn gen_cyclical<F: Field>(n: usize) -> (r: Vec<F>)
    requires
        1 <= n < usize::MAX,
    ensures
        all_wf(r@),
        vals(r@) == cyclotomic(n as nat),
{
    let mut poly: Vec<F> = Vec::with_capacity(n + 1);
    poly.push(F::one());
    while poly.len() < n
        invariant
            1 <= poly.len() <= n,
            all_wf(poly@),
            poly@[0].value() == 1,
            forall|j: int| 1 <= j < poly.len() ==> (#[trigger] poly@[j]).value() == 0,
        decreases n - poly.len(),
    {
        poly.push(F::zero());
    }
    poly.push(F::one());
    proof {
        assert(vals(poly@) =~= cyclotomic(n as nat));
    }
    poly
}

pub proof fn lemma_vals_reduced<F: Field>(s: Seq<F>)
    requires
        all_wf(s),
    ensures
        reduced(vals(s), F::modulus() as int),
{
    assert forall|i: int| 0 <= i < vals(s).len() implies 0 <= #[trigger] vals(s)[i] < F::modulus() by {
        assert(is_reduced(s[i]));
        assert(vals(s)[i] == s[i].value());
    }
}

/// Euclidean division `a = q * b + r` with `deg r < deg b`.
///
/// A zero `a` gives `([0], [])`; otherwise a zero `b` is an error; an `a`
/// shorter than `b` gives `([0], a)`. The last stored coefficient of a non-zero
/// `b` must be invertible.
pub fn div_with_rem<F: Field>(a: &[F], b: &[F]) -> (r: Result<(Vec<F>, Vec<F>), RlweError>)
    requires
        all_wf(a@),
        all_wf(b@),
        is_zero_poly(vals(b@)) || divisible_by(vals(b@), F::modulus() as int),
    ensures
        r is Err <==> !is_zero_poly(vals(a@)) && is_zero_poly(vals(b@)),
        r is Err ==> r == Err::<(Vec<F>, Vec<F>), RlweError>(RlweError::DivideByZero),
        r matches Ok((q, rm)) ==> all_wf(q@) && all_wf(rm@) && is_division(
            vals(a@),
            vals(b@),
            vals(q@),
            vals(rm@),
            F::modulus() as int,
        ),
{
    let ghost m = F::modulus() as int;
    let ghost va = vals(a@);
    let ghost vb = vals(b@);
    proof {
        F::lemma_modulus_bounds();
    }
    if is_zero(a) {
        let q: Vec<F> = vec![F::zero()];
        let rm: Vec<F> = Vec::new();
        proof {
            assert(vals(q@) =~= seq![0int]);
            assert(vals(rm@) =~= Seq::<int>::empty());
        }
        return Ok((q, rm));
    }
    if is_zero(b) {
        return Err(RlweError::DivideByZero);
    }
    let a_degree = degree(a);
    let b_degree = degree(b);
    if a_degree < b_degree {
        let q: Vec<F> = vec![F::zero()];
        let rm: Vec<F> = vstd::slice::slice_to_vec(a);
        proof {
            assert(vals(q@) =~= seq![0int]);
        }
        return Ok((q, rm));
    }
    let lb = b.len();
    let mut quotient: Vec<F> = zeros(a_degree - b_degree + 1);
    let mut remainder: Vec<F> = vstd::slice::slice_to_vec(a);
    let divisor_leading_inv = b[b_degree].inv();
    proof {
        lemma_vals_reduced(a@);
        assert forall|k: int| #[trigger] coef(va, k) == (conv(vals(quotient@), vb, k) + coef(
            vals(remainder@),
            k,
        )) % m by {
            assert(is_zero_poly(vals(quotient@)));
            lemma_conv_zero_left(vals(quotient@), vb, k);
            lemma_small_mod(0nat, m as nat);
            if 0 <= k < va.len() {
                lemma_small_mod(va[k] as nat, m as nat);
            }
        }
    }
    while !is_zero(&remainder) && degree(&remainder) >= b_degree
        invariant
            m == F::modulus(),
            1 < m,
            va == vals(a@),
            vb == vals(b@),
            all_wf(b@),
            all_wf(quotient@),
            all_wf(remainder@),
            lb == b.len(),
            b_degree == lb - 1,
            lb <= a.len(),
            quotient.len() == a.len() - lb + 1,
            remainder.len() <= a.len(),
            is_reduced(divisor_leading_inv),
            mul_mod(b@[b_degree as int].value() as int, divisor_leading_inv.value() as int, m) == 1,
            forall|i: int|
                0 <= i < quotient.len() && i + lb <= remainder.len() ==> (#[trigger] quotient@[i]).value() == 0,
            forall|k: int| #[trigger] coef(va, k) == (conv(vals(quotient@), vb, k) + coef(
                vals(remainder@),
                k,
            )) % m,
            remainder.len() == 0 || !is_zero_poly(vals(remainder@)),
            remainder.len() == 0 || remainder@.last().value() != 0 || remainder.len() >= lb,
        decreases remainder.len(),
    {
        let ghost r0 = vals(remainder@);
        let ghost q0 = vals(quotient@);
        let top = remainder.len() - 1;
        proof {
            lemma_vals_reduced(remainder@);
        }
        let cur_q_coef = remainder[top].mul(divisor_leading_inv);
        let cur_q_degree = degree(&remainder) - b_degree;
        quotient.set(cur_q_degree, cur_q_coef);
        let ghost q1 = vals(quotient@);
        proof {
            assert(q1 =~= q0.update(cur_q_degree as int, cur_q_coef.value() as int));
        }
        let mut i: usize = 0;
        while i < lb
            invariant
                m == F::modulus(),
                1 < m,
                i <= lb,
                lb == b.len(),
                vb == vals(b@),
                all_wf(b@),
                all_wf(remainder@),
                is_reduced(cur_q_coef),
                remainder.len() == r0.len(),
                r0.len() == cur_q_degree + lb,
                forall|k: int| #[trigger]
                    coef(vals(remainder@), k) == if cur_q_degree <= k < cur_q_degree + i {
                        sub_mod(r0[k], mul_mod(cur_q_coef.value() as int, vb[k - cur_q_degree], m), m)
                    } else {
                        coef(r0, k)
                    },
            decreases lb - i,
        {
            let prod = cur_q_coef.mul(b[i]);
            proof {
                assert(coef(vals(remainder@), cur_q_degree + i) == coef(r0, cur_q_degree + i));
            }
            let mut coef_i = remainder[cur_q_degree + i];
            coef_i.sub_assign(prod);
            let ghost before = vals(remainder@);
            remainder.set(cur_q_degree + i, coef_i);
            proof {
                assert(vals(remainder@) =~= before.update(
                    cur_q_degree + i,
                    coef_i.value() as int,
                ));
                assert forall|k: int| #[trigger]
                    coef(vals(remainder@), k) == if cur_q_degree <= k < cur_q_degree + i + 1 {
                        sub_mod(r0[k], mul_mod(cur_q_coef.value() as int, vb[k - cur_q_degree], m), m)
                    } else {
                        coef(r0, k)
                    } by {
                    if k == cur_q_degree + i {
                        assert(vb[k - cur_q_degree] == b@[i as int].value());
                    } else {
                        assert(coef(vals(remainder@), k) == coef(before, k));
                    }
                }
            }
            i = i + 1;
        }
        let ghost r1 = vals(remainder@);
        proof {
            lemma_leading_cancels(
                r0[top as int],
                b@[b_degree as int].value() as int,
                divisor_leading_inv.value() as int,
                m,
            );
            assert(coef(r1, top as int) == sub_mod(
                r0[top as int],
                mul_mod(cur_q_coef.value() as int, vb[b_degree as int], m),
                m,
            ));
            assert(vb[b_degree as int] == b@[b_degree as int].value());
            assert(r1[top as int] == 0);
        }
        while remainder.len() > 0 && remainder[remainder.len() - 1].is_zero()
            invariant
                remainder.len() <= r1.len(),
                r1.len() == r0.len(),
                all_wf(remainder@),
                forall|k: int| #[trigger] coef(vals(remainder@), k) == coef(r1, k),
            decreases remainder.len(),
        {
            let ghost before = vals(remainder@);
            remainder.pop();
            proof {
                assert forall|k: int| #[trigger] coef(vals(remainder@), k) == coef(r1, k) by {
                    assert(coef(before, k) == coef(r1, k));
                }
            }
        }
        proof {
            let rr = vals(remainder@);
            if remainder.len() == r0.len() {
                assert(coef(rr, top as int) == coef(r1, top as int));
            }
            assert forall|k: int| #[trigger] coef(va, k) == (conv(q1, vb, k) + coef(rr, k)) % m by {
                lemma_conv_update(q0, vb, k, cur_q_degree as int, cur_q_coef.value() as int);
                assert(coef(rr, k) == coef(r1, k));
                if cur_q_degree <= k < cur_q_degree + lb {
                    lemma_shift_mod(
                        conv(q0, vb, k),
                        cur_q_coef.value() * vb[k - cur_q_degree],
                        r0[k],
                        m,
                    );
                } else {
                    assert(coef(vb, k - cur_q_degree) == 0);
                    assert((cur_q_coef.value() - q0[cur_q_degree as int]) * coef(vb, k - cur_q_degree) == 0);
                }
            }
            if remainder.len() > 0 {
                assert(rr[rr.len() - 1] != 0);
            }
        }
    }
    proof {
        let vq = vals(quotient@);
        let vr = vals(remainder@);
        lemma_vals_reduced(remainder@);
        if remainder.len() > 0 && remainder.len() >= lb {
            assert(is_zero_poly(vr));
        }
        lemma_division_sum(va, vb, vq, vr, m);
    }
    Ok((quotient, remainder))
}

/// Negating the reduced value negates the residue.
proof fn lemma_neg_of_mod(x: int, m: int)
    requires
        m > 0,
    ensures
        (-(x % m)) % m == (-x) % m,
{
    lemma_fundamental_div_mod(x, m);
    assert(-(x % m) == m * (x / m) + (-x));
    lemma_mod_multiples_vanish(x / m, -x, m);
}

/// One coefficient rescaled by `num / den` into `F2`, through its centered lift.
fn scale_coefficient<F1: Field, F2: Field>(c: F1, num: u64, den: u64) -> (r: F2)
    requires
        is_reduced(c),
        0 < den <= MAX_MODULUS,
        num <= MAX_MODULUS,
    ensures
        is_reduced(r),
        r.value() == scale_coef(c.value() as int, F1::modulus() as int, num as int, den as int, F2::modulus() as int),
{
    proof {
        F1::lemma_modulus_bounds();
        F2::lemma_modulus_bounds();
    }
    let m1 = F1::modulus_u64() as i64;
    let m2 = F2::modulus_u64() as i128;
    let v = c.to_signed();
    let lifted: i64 = if 2 * v <= m1 {
        v
    } else {
        v - m1
    };
    assert(lifted == centered(c.value() as int, F1::modulus() as int));
    proof {
        let l = if lifted >= 0 { lifted as int } else { -lifted };
        lemma_mul_upper_bound(l, MAX_MODULUS as int, num as int, MAX_MODULUS as int);
        assert(MAX_MODULUS as int * MAX_MODULUS as int == 0x1_0000_0000_0000_0000);
        assert(-0x1_0000_0000_0000_0000 <= (lifted as int) * (num as int) <= 0x1_0000_0000_0000_0000) by (nonlinear_arith)
            requires
                l * num <= 0x1_0000_0000_0000_0000,
                l == if lifted >= 0 { lifted as int } else { -lifted },
                num >= 0,
        ;
    }
    let x: i128 = (lifted as i128) * (num as i128);
    let d: i128 = den as i128;
    let reduced: i64 = if x >= 0 {
        let q: i128 = (2 * x + d) / (2 * d);
        (q % m2) as i64
    } else {
        let q: i128 = (-2 * x + d) / (2 * d);
        proof {
            lemma_neg_of_mod(q as int, m2 as int);
        }
        -((q % m2) as i64)
    };
    assert(reduced as int % (F2::modulus() as int) == round_div(x as int, den as int) % (F2::modulus() as int)) by {
        if x >= 0 {
            lemma_mod_twice(round_div(x as int, den as int), m2 as int);
            lemma_mod_bound(round_div(x as int, den as int), m2 as int);
        }
    }
    F2::from_signed(reduced)
}

/// Every coefficient mapped to its centered lift, multiplied by `num / den`,
/// rounded half away from zero and reduced into `F2`.
pub fn scale<F1: Field, F2: Field>(a: &[F1], num: u64, den: u64) -> (r: Vec<F2>)
    requires
        all_wf(a@),
        0 < den <= MAX_MODULUS,
        num <= MAX_MODULUS,
    ensures
        all_wf(r@),
        r.len() == a.len(),
        vals(r@) == scale_seq(vals(a@), F1::modulus() as int, num as int, den as int, F2::modulus() as int),
{
    let mut result: Vec<F2> = Vec::with_capacity(a.len());
    let mut i: usize = 0;
    while i < a.len()
        invariant
            i <= a.len(),
            result.len() == i,
            all_wf(a@),
            all_wf(result@),
            0 < den <= MAX_MODULUS,
            num <= MAX_MODULUS,
            forall|j: int|
                0 <= j < i ==> (#[trigger] result@[j]).value() == scale_coef(
                    a@[j].value() as int,
                    F1::modulus() as int,
                    num as int,
                    den as int,
                    F2::modulus() as int,
                ),
        decreases a.len() - i,
    {
        result.push(scale_coefficient(a[i], num, den));
        i = i + 1;
    }
    proof {
        assert(vals(result@) =~= scale_seq(vals(a@), F1::modulus() as int, num as int, den as int, F2::modulus() as int));
    }
    result
}

/// `size` coefficients, each drawn uniformly from `{-1, 0, 1}` and reduced
/// into `F`, so that `-1` is stored as `m - 1`.
pub fn gen_ternary<F: Field>(size: usize) -> (r: Vec<F>)
    ensures
        r.len() == size,
        all_wf(r@),
        forall|i: int|
            0 <= i < size ==> {
                let v = (#[trigger] r@[i]).value();
                v == 0 || v == 1 || v == F::modulus() - 1
            },
{
    proof {
        F::lemma_modulus_bounds();
    }
    let mut result: Vec<F> = Vec::with_capacity(size);
    while result.len() < size
        invariant
            result.len() <= size,
            all_wf(result@),
            1 < F::modulus(),
            forall|i: int|
                0 <= i < result.len() ==> {
                    let v = (#[trigger] result@[i]).value();
                    v == 0 || v == 1 || v == F::modulus() - 1
                },
        decreases size - result.len(),
    {
        let t = gen_range(-1, 2);
        let c = F::from_signed(t);
        proof {
            let m = F::modulus() as int;
            if t == -1 {
                lemma_fundamental_div_mod(-1, m);
                lemma_mod_bound(-1, m);
                assert((-1int) % m == m - 1) by {
                    lemma_mod_multiples_vanish(-1, m - 1, m);
                    lemma_small_mod((m - 1) as nat, m as nat);
                    assert(-1 == m * -1 + (m - 1));
                }
            } else {
                lemma_small_mod(t as nat, m as nat);
            }
        }
        result.push(c);
    }
    result
}

/// `size` coefficients, each drawn uniformly from `[0, m)`.
fn gen_uniform<F: Field>(size: usize) -> (r: Vec<F>)
    ensures
        r.len() == size,
        all_wf(r@),
{
    proof {
        F::lemma_modulus_bounds();
    }
    let modulus = F::modulus_u64();
    let mut result: Vec<F> = Vec::with_capacity(size);
    while result.len() < size
        invariant
            result.len() <= size,
            all_wf(result@),
            modulus == F::modulus(),
            1 < modulus,
        decreases size - result.len(),
    {
        result.push(F::new(sample_uniform(0, modulus)));
    }
    result
}

/// Reduces each signed integer into `F`.
pub fn from_signed_coeffs<F: Field>(ints: &[i64]) -> (r: Vec<F>)
    ensures
        all_wf(r@),
        vals(r@) == Seq::new(ints@.len(), |i: int| ints@[i] as int % F::modulus() as int),
{
    let mut result: Vec<F> = Vec::with_capacity(ints.len());
    let mut i: usize = 0;
    while i < ints.len()
        invariant
            i <= ints.len(),
            result.len() == i,
            all_wf(result@),
            forall|j: int| 0 <= j < i ==> (#[trigger] result@[j]).value() == ints@[j] as int % F::modulus() as int,
        decreases ints.len() - i,
    {
        result.push(F::from_signed(ints[i]));
        i = i + 1;
    }
    proof {
        assert(vals(result@) =~= Seq::new(ints@.len(), |i: int| ints@[i] as int % F::modulus() as int));
    }
    result
}

} // verus!
