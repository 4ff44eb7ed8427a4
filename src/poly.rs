//! Polynomials over the Goldilocks field, held as canonical coefficients.
//!
//! The ring operations themselves are those of `lambdaworks_math`; this
//! module states what each of them computes and keeps the coefficient
//! vector in canonical form (every coefficient below the modulus, no
//! trailing zero).
use lambdaworks_math::field::element::FieldElement;
use lambdaworks_math::field::fields::u64_goldilocks_field::Goldilocks64Field;
use lambdaworks_math::polynomial::Polynomial;
use vstd::prelude::*;

verus! {

/// A field element as `lambdaworks_math` holds it.
type Felt = FieldElement<Goldilocks64Field>;

/// The characteristic of the coefficient field, `2^64 - 2^32 + 1`.
pub const MODULUS: u64 = 18446744069414584321;

/// A polynomial; `coeffs[i]` is the coefficient of `x^i`.
#[derive(Debug)]
pub struct Poly {
    pub coeffs: Vec<u64>,
}

impl View for Poly {
    type V = Seq<u64>;

    open spec fn view(&self) -> Seq<u64> {
        self.coeffs@
    }
}

/// Every coefficient is reduced and the last one is nonzero.
pub open spec fn canonical(s: Seq<u64>) -> bool {
    &&& forall|i: int| 0 <= i < s.len() ==> #[trigger] s[i] < MODULUS
    &&& (s.len() > 0 ==> s.last() != 0)
}

pub open spec fn fadd(a: u64, b: u64) -> u64 {
    ((a as int + b as int) % (MODULUS as int)) as u64
}

pub open spec fn fneg(a: u64) -> u64 {
    ((MODULUS as int - a as int) % (MODULUS as int)) as u64
}

pub open spec fn fmul(a: u64, b: u64) -> u64 {
    ((a as int * b as int) % (MODULUS as int)) as u64
}

/// The multiplicative inverse of a nonzero element (unique, as the modulus is prime).
pub open spec fn finv(c: u64) -> u64 {
    choose|i: u64| i < MODULUS && fmul(c, i) == 1
}

/// The coefficient of `x^i`, zero beyond the stored ones.
pub open spec fn coeff(s: Seq<u64>, i: int) -> u64 {
    if 0 <= i < s.len() {
        s[i]
    } else {
        0
    }
}

/// Drops trailing zero coefficients.
pub open spec fn trim(s: Seq<u64>) -> Seq<u64>
    decreases s.len(),
{
    if s.len() > 0 && s.last() == 0 {
        trim(s.drop_last())
    } else {
        s
    }
}

/// The constant polynomial `c` (the zero polynomial when `c` is zero).
pub open spec fn constant(c: u64) -> Seq<u64> {
    if c == 0 {
        seq![]
    } else {
        seq![c]
    }
}

pub open spec fn add_spec(a: Seq<u64>, b: Seq<u64>) -> Seq<u64> {
    let n = if a.len() >= b.len() {
        a.len()
    } else {
        b.len()
    };
    trim(Seq::new(n, |i: int| fadd(coeff(a, i), coeff(b, i))))
}

pub open spec fn neg_spec(a: Seq<u64>) -> Seq<u64> {
    trim(a.map_values(|c: u64| fneg(c)))
}

pub open spec fn sub_spec(a: Seq<u64>, b: Seq<u64>) -> Seq<u64> {
    add_spec(a, neg_spec(b))
}

/// `sum of a_i * b_(k-i)` over `0 <= i < n`, in the integers.
pub open spec fn conv_sum(a: Seq<u64>, b: Seq<u64>, k: int, n: nat) -> int
    decreases n,
{
    if n == 0 {
        0
    } else {
        conv_sum(a, b, k, (n - 1) as nat) + coeff(a, n - 1) as int * coeff(b, k - (n - 1)) as int
    }
}

pub open spec fn mul_spec(a: Seq<u64>, b: Seq<u64>) -> Seq<u64> {
    if a.len() == 0 || b.len() == 0 {
        seq![]
    } else {
        trim(
            Seq::new(
                (a.len() + b.len() - 1) as nat,
                |k: int| (conv_sum(a, b, k, (k + 1) as nat) % (MODULUS as int)) as u64,
            ),
        )
    }
}

/// Every coefficient multiplied by `c`.
pub open spec fn scale_spec(a: Seq<u64>, c: u64) -> Seq<u64> {
    trim(a.map_values(|x: u64| fmul(x, c)))
}

/// The value at `x`, by Horner's rule.
pub open spec fn eval_spec(a: Seq<u64>, x: u64) -> u64
    decreases a.len(),
{
    if a.len() == 0 {
        0
    } else {
        fadd(a[0], fmul(eval_spec(a.drop_first(), x), x))
    }
}

/// `a` multiplied by itself `n` times, starting from the constant one.
pub open spec fn pow_spec(a: Seq<u64>, n: nat) -> Seq<u64>
    decreases n,
{
    if n == 0 {
        seq![1]
    } else {
        mul_spec(pow_spec(a, (n - 1) as nat), a)
    }
}

/// `r` is a remainder of `a` divided by `b`: `a = q * b + r` for some
/// polynomial `q`, and `r` is shorter than `b`.
pub open spec fn is_remainder(a: Seq<u64>, b: Seq<u64>, r: Seq<u64>) -> bool {
    &&& canonical(r)
    &&& r.len() < b.len()
    &&& exists|q: Seq<u64>| canonical(q) && a == add_spec(mul_spec(q, b), r)
}

/// The remainder of `a` divided by `b` (unique, as the coefficients lie in
/// a field).
pub open spec fn rem_spec(a: Seq<u64>, b: Seq<u64>) -> Seq<u64> {
    choose|r: Seq<u64>| is_remainder(a, b, r)
}

impl Poly {
    pub open spec fn wf(&self) -> bool {
        canonical(self@)
    }

    /// The zero polynomial.
    pub fn zero() -> (r: Poly)
        ensures
            r@ == Seq::<u64>::empty(),
            r.wf(),
    {
        Poly { coeffs: Vec::new() }
    }

    /// The constant polynomial holding `c` reduced modulo the characteristic.
    pub fn constant(c: u64) -> (r: Poly)
        ensures
            r@ == constant(c % MODULUS),
            r.wf(),
    {
        let v: u64 = c % MODULUS;
        let mut coeffs: Vec<u64> = Vec::new();
        if v != 0 {
            coeffs.push(v);
        }
        assert(coeffs@ =~= constant(v));
        Poly { coeffs }
    }

    /// The indeterminate `x`.
    pub fn monomial_x() -> (r: Poly)
        ensures
            r@ == seq![0u64, 1u64],
            r.wf(),
    {
        let mut coeffs: Vec<u64> = Vec::new();
        coeffs.push(0);
        coeffs.push(1);
        assert(coeffs@ =~= seq![0u64, 1u64]);
        Poly { coeffs }
    }

    pub fn is_zero(&self) -> (r: bool)
        ensures
            r == (self@.len() == 0),
    {
        self.coeffs.len() == 0
    }

    /// Structural equality: same degree and the same coefficients.
    pub fn equals(&self, other: &Poly) -> (r: bool)
        ensures
            r == (self@ == other@),
    {
        if self.coeffs.len() != other.coeffs.len() {
            return false;
        }
        let mut i: usize = 0;
        while i < self.coeffs.len()
            invariant
                self.coeffs.len() == other.coeffs.len(),
                i <= self.coeffs.len(),
                forall|j: int| 0 <= j < i ==> self@[j] == other@[j],
            decreases self.coeffs.len() - i,
        {
            if self.coeffs[i] != other.coeffs[i] {
                return false;
            }
            i = i + 1;
        }
        assert(self@ =~= other@);
        true
    }

    pub fn copy(&self) -> (r: Poly)
        ensures
            r@ == self@,
    {
        Poly { coeffs: self.coeffs.clone() }
    }
}

/// Relies on `Polynomial` addition in `lambdaworks_math`: coefficient-wise
/// sums, trailing zeros dropped.
#[verifier::external_body]
pub(crate) fn poly_add(a: &Poly, b: &Poly) -> (r: Poly)
    requires
        a.wf(),
        b.wf(),
    ensures
        r@ == add_spec(a@, b@),
        r.wf(),
{
    let x = Polynomial::new(&a.coeffs.iter().map(|c| Felt::from(*c)).collect::<Vec<Felt>>());
    let y = Polynomial::new(&b.coeffs.iter().map(|c| Felt::from(*c)).collect::<Vec<Felt>>());
    Poly { coeffs: (x + y).coefficients().iter().map(|c| c.representative()).collect() }
}

/// Relies on `Polynomial` negation in `lambdaworks_math`: each coefficient
/// replaced by its additive inverse.
#[verifier::external_body]
pub(crate) fn poly_neg(a: &Poly) -> (r: Poly)
    requires
        a.wf(),
    ensures
        r@ == neg_spec(a@),
        r.wf(),
{
    let x = Polynomial::new(&a.coeffs.iter().map(|c| Felt::from(*c)).collect::<Vec<Felt>>());
    Poly { coeffs: (-x).coefficients().iter().map(|c| c.representative()).collect() }
}

/// Relies on `Polynomial` subtraction in `lambdaworks_math`, which adds the
/// negation of the subtrahend.
#[verifier::external_body]
pub(crate) fn poly_sub(a: &Poly, b: &Poly) -> (r: Poly)
    requires
        a.wf(),
        b.wf(),
    ensures
        r@ == sub_spec(a@, b@),
        r.wf(),
{
    let x = Polynomial::new(&a.coeffs.iter().map(|c| Felt::from(*c)).collect::<Vec<Felt>>());
    let y = Polynomial::new(&b.coeffs.iter().map(|c| Felt::from(*c)).collect::<Vec<Felt>>());
    Poly { coeffs: (x - y).coefficients().iter().map(|c| c.representative()).collect() }
}

/// Relies on `Polynomial` multiplication in `lambdaworks_math`: the
/// convolution of the coefficients, zero when either factor is zero.
#[verifier::external_body]
pub(crate) fn poly_mul(a: &Poly, b: &Poly) -> (r: Poly)
    requires
        a.wf(),
        b.wf(),
    ensures
        r@ == mul_spec(a@, b@),
        r.wf(),
{
    let x = Polynomial::new(&a.coeffs.iter().map(|c| Felt::from(*c)).collect::<Vec<Felt>>());
    let y = Polynomial::new(&b.coeffs.iter().map(|c| Felt::from(*c)).collect::<Vec<Felt>>());
    Poly { coeffs: (x * y).coefficients().iter().map(|c| c.representative()).collect() }
}

/// Relies on `Polynomial` division in `lambdaworks_math` (the quotient of
/// its long division); by a nonzero constant `c` each coefficient is
/// multiplied by the inverse of `c`.
#[verifier::external_body]
pub(crate) fn poly_div_by_constant(a: &Poly, b: &Poly) -> (r: Poly)
    requires
        a.wf(),
        b.wf(),
        b@.len() == 1,
    ensures
        r@ == scale_spec(a@, finv(b@[0])),
        r.wf(),
{
    let x = Polynomial::new(&a.coeffs.iter().map(|c| Felt::from(*c)).collect::<Vec<Felt>>());
    let y = Polynomial::new(&b.coeffs.iter().map(|c| Felt::from(*c)).collect::<Vec<Felt>>());
    Poly { coeffs: (x / y).coefficients().iter().map(|c| c.representative()).collect() }
}

/// Relies on `Polynomial::long_division_with_remainder` of `lambdaworks_math`:
/// the remainder of the long division, shorter than the divisor. It panics
/// on a zero divisor, which is left out here.
#[verifier::external_body]
pub(crate) fn poly_rem(a: &Poly, b: &Poly) -> (r: Poly)
    requires
        a.wf(),
        b.wf(),
        b@.len() > 0,
    ensures
        is_remainder(a@, b@, r@),
        r@ == rem_spec(a@, b@),
        r.wf(),
{
    let x = Polynomial::new(&a.coeffs.iter().map(|c| Felt::from(*c)).collect::<Vec<Felt>>());
    let y = Polynomial::new(&b.coeffs.iter().map(|c| Felt::from(*c)).collect::<Vec<Felt>>());
    Poly { coeffs: x.long_division_with_remainder(&y).1.coefficients().iter().map(|c| c.representative()).collect() }
}

/// Relies on `Polynomial::evaluate` of `lambdaworks_math` (Horner's rule).
#[verifier::external_body]
pub(crate) fn poly_evaluate(a: &Poly, x: u64) -> (r: u64)
    requires
        a.wf(),
        x < MODULUS,
    ensures
        r == eval_spec(a@, x),
        r < MODULUS,
{
    let p = Polynomial::new(&a.coeffs.iter().map(|c| Felt::from(*c)).collect::<Vec<Felt>>());
    p.evaluate(&Felt::from(x)).representative()
}

} // verus!
