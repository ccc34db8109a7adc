//! Scalar arithmetic for shares, keys and signatures.
//!
//! Secret shares, public values and signature shares are all scalars of one
//! prime field, and every protocol quantity is derived from them linearly:
//! a public value is `GENERATOR` times the secret it belongs to, a signature
//! share is the share times the message digest.  The field stays small so
//! that every product fits comfortably in a `u64`.

use vstd::prelude::*;

verus! {

/// Prime modulus of the scalar field.  Every scalar handled by the library
/// is a value below this bound.
pub const FIELD_MODULUS: u64 = 251;

/// Fixed public generator: the public counterpart of a secret scalar `s` is
/// `s * GENERATOR` in the field.
pub const GENERATOR: u64 = 7;

/// Field addition.
pub open spec fn fadd(a: int, b: int) -> int {
    (a + b) % (FIELD_MODULUS as int)
}

/// Field subtraction, phrased so that both operands below the modulus give
/// a nonnegative intermediate sum.
pub open spec fn fsub(a: int, b: int) -> int {
    (a + FIELD_MODULUS - b) % (FIELD_MODULUS as int)
}

/// Field multiplication.
pub open spec fn fmul(a: int, b: int) -> int {
    (a * b) % (FIELD_MODULUS as int)
}

/// Smallest multiplicative inverse candidate of `x` at or above `c`;
/// 0 when no candidate below the modulus works.
pub open spec fn inv_search(x: nat, c: nat) -> nat
    decreases FIELD_MODULUS - c when c <= FIELD_MODULUS
{
    if c >= FIELD_MODULUS {
        0
    } else if (c * x) % (FIELD_MODULUS as nat) == 1 {
        c
    } else {
        inv_search(x, c + 1)
    }
}

/// Multiplicative inverse of `x` in the field (0 when none exists).
pub open spec fn finv(x: nat) -> nat {
    inv_search(x, 1)
}

/// Whatever `inv_search` returns is below the modulus, and a nonzero result
/// really is an inverse.
pub proof fn lemma_inv_search_sound(x: nat, c: nat)
    requires
        1 <= c <= FIELD_MODULUS,
    ensures
        inv_search(x, c) < FIELD_MODULUS,
        inv_search(x, c) != 0 ==> (inv_search(x, c) * x) % (FIELD_MODULUS as nat) == 1,
    decreases FIELD_MODULUS - c,
{
    if c < FIELD_MODULUS && (c * x) % (FIELD_MODULUS as nat) != 1 {
        lemma_inv_search_sound(x, c + 1);
    }
}

/// A nonzero `finv` result is a genuine multiplicative inverse.
pub proof fn lemma_finv_sound(x: nat)
    ensures
        finv(x) < FIELD_MODULUS,
        finv(x) != 0 ==> fmul(finv(x) as int, x as int) == 1,
{
    lemma_inv_search_sound(x, 1);
}

/// Adds two field elements.
pub fn add_mod(a: u64, b: u64) -> (r: u64)
    requires
        a < FIELD_MODULUS,
        b < FIELD_MODULUS,
    ensures
        r < FIELD_MODULUS,
        r == fadd(a as int, b as int),
{
    (a + b) % FIELD_MODULUS
}

/// Subtracts `b` from `a` in the field.
pub fn sub_mod(a: u64, b: u64) -> (r: u64)
    requires
        a < FIELD_MODULUS,
        b < FIELD_MODULUS,
    ensures
        r < FIELD_MODULUS,
        r == fsub(a as int, b as int),
{
    (a + FIELD_MODULUS - b) % FIELD_MODULUS
}

/// Multiplies two field elements.
pub fn mul_mod(a: u64, b: u64) -> (r: u64)
    requires
        a < FIELD_MODULUS,
        b < FIELD_MODULUS,
    ensures
        r < FIELD_MODULUS,
        r == fmul(a as int, b as int),
{
    proof {
        assert((a as int) * (b as int) < 251 * 251) by (nonlinear_arith)
            requires
                a < 251,
                b < 251,
        ;
    }
    (a * b) % FIELD_MODULUS
}

/// Finds the multiplicative inverse of a field element by direct search;
/// returns 0 exactly when no inverse exists.
pub fn inv_mod(x: u64) -> (r: u64)
    requires
        x < FIELD_MODULUS,
    ensures
        r < FIELD_MODULUS,
        r == finv(x as nat),
        r != 0 ==> fmul(r as int, x as int) == 1,
{
    proof {
        lemma_finv_sound(x as nat);
    }
    let mut c: u64 = 1;
    while c < FIELD_MODULUS
        invariant
            1 <= c <= FIELD_MODULUS,
            x < FIELD_MODULUS,
            finv(x as nat) == inv_search(x as nat, c as nat),
        decreases FIELD_MODULUS - c,
    {
        proof {
            assert((c as int) * (x as int) < 251 * 251) by (nonlinear_arith)
                requires
                    c < 251,
                    x < 251,
            ;
        }
        if (c * x) % FIELD_MODULUS == 1 {
            return c;
        }
        c = c + 1;
    }
    0
}

/// Value of the polynomial with the given coefficients (constant term
/// first) at `x`, all arithmetic in the field.
pub open spec fn eval_poly_spec(coeffs: Seq<u64>, x: int) -> int
    decreases coeffs.len(),
{
    if coeffs.len() == 0 {
        0
    } else {
        fadd(coeffs[0] as int, fmul(x, eval_poly_spec(coeffs.drop_first(), x)))
    }
}

/// Evaluates a polynomial over the field by Horner's rule.
pub fn eval_poly(coeffs: &Vec<u64>, x: u64) -> (r: u64)
    requires
        x < FIELD_MODULUS,
        forall|k: int| 0 <= k < coeffs@.len() ==> coeffs@[k] < FIELD_MODULUS,
    ensures
        r < FIELD_MODULUS,
        r == eval_poly_spec(coeffs@, x as int),
{
    let mut acc: u64 = 0;
    let mut i: usize = coeffs.len();
    proof {
        assert(coeffs@.skip(i as int) =~= Seq::<u64>::empty());
    }
    while i > 0
        invariant
            i <= coeffs@.len(),
            x < FIELD_MODULUS,
            acc < FIELD_MODULUS,
            forall|k: int| 0 <= k < coeffs@.len() ==> coeffs@[k] < FIELD_MODULUS,
            acc == eval_poly_spec(coeffs@.skip(i as int), x as int),
        decreases i,
    {
        i = i - 1;
        acc = add_mod(coeffs[i], mul_mod(x, acc));
        proof {
            assert(coeffs@.skip(i as int).drop_first() =~= coeffs@.skip(i as int + 1));
        }
    }
    proof {
        assert(coeffs@.skip(0) =~= coeffs@);
    }
    acc
}

/// Public image of a coefficient vector: each coefficient multiplied by the
/// generator.
pub open spec fn commit_poly_spec(coeffs: Seq<u64>) -> Seq<u64> {
    Seq::new(coeffs.len(), |k: int| fmul(coeffs[k] as int, GENERATOR as int) as u64)
}

/// Derives the public commitment vector of a secret polynomial.
pub fn commit_poly(coeffs: &Vec<u64>) -> (r: Vec<u64>)
    requires
        forall|k: int| 0 <= k < coeffs@.len() ==> coeffs@[k] < FIELD_MODULUS,
    ensures
        r@ == commit_poly_spec(coeffs@),
        r@.len() == coeffs@.len(),
        forall|k: int| 0 <= k < r@.len() ==> r@[k] < FIELD_MODULUS,
{
    let mut out: Vec<u64> = Vec::new();
    let mut i: usize = 0;
    while i < coeffs.len()
        invariant
            i <= coeffs@.len(),
            out@.len() == i,
            forall|k: int| 0 <= k < coeffs@.len() ==> coeffs@[k] < FIELD_MODULUS,
            forall|k: int| 0 <= k < i ==> out@[k] == fmul(coeffs@[k] as int, GENERATOR as int),
            forall|k: int| 0 <= k < i ==> out@[k] < FIELD_MODULUS,
        decreases coeffs@.len() - i,
    {
        out.push(mul_mod(coeffs[i], GENERATOR));
        i = i + 1;
    }
    proof {
        assert(out@ =~= commit_poly_spec(coeffs@));
    }
    out
}

/// Partial Lagrange basis coefficient of support point `i`, evaluated at
/// zero, over the first `k` support points.
pub open spec fn lagrange_coeff_partial(xs: Seq<u64>, i: int, k: int) -> int
    decreases k,
{
    if k <= 0 {
        1
    } else if k - 1 == i {
        lagrange_coeff_partial(xs, i, k - 1)
    } else {
        fmul(
            lagrange_coeff_partial(xs, i, k - 1),
            fmul(xs[k - 1] as int, finv(fsub(xs[k - 1] as int, xs[i] as int) as nat) as int),
        )
    }
}

/// Lagrange basis coefficient of support point `i`, evaluated at zero.
pub open spec fn lagrange_coeff(xs: Seq<u64>, i: int) -> int {
    lagrange_coeff_partial(xs, i, xs.len() as int)
}

/// Partial weighted sum of the first `k` interpolation values.
pub open spec fn lagrange_sum_partial(xs: Seq<u64>, ys: Seq<u64>, k: int) -> int
    decreases k,
{
    if k <= 0 {
        0
    } else {
        fadd(
            lagrange_sum_partial(xs, ys, k - 1),
            fmul(lagrange_coeff(xs, k - 1), ys[k - 1] as int),
        )
    }
}

/// Value at zero of the interpolation polynomial through the points
/// `(xs[i], ys[i])`.
pub open spec fn lagrange_interpolate_zero(xs: Seq<u64>, ys: Seq<u64>) -> int {
    lagrange_sum_partial(xs, ys, xs.len() as int)
}

/// Interpolates the polynomial through the given points at zero, combining
/// the values with Lagrange coefficients.
pub fn lagrange_combine(xs: &Vec<u64>, ys: &Vec<u64>) -> (r: u64)
    requires
        xs@.len() == ys@.len(),
        forall|k: int| 0 <= k < xs@.len() ==> xs@[k] < FIELD_MODULUS,
        forall|k: int| 0 <= k < ys@.len() ==> ys@[k] < FIELD_MODULUS,
    ensures
        r < FIELD_MODULUS,
        r == lagrange_interpolate_zero(xs@, ys@),
{
    let n = xs.len();
    let mut sum: u64 = 0;
    let mut i: usize = 0;
    while i < n
        invariant
            n == xs@.len(),
            xs@.len() == ys@.len(),
            i <= n,
            sum < FIELD_MODULUS,
            forall|k: int| 0 <= k < xs@.len() ==> xs@[k] < FIELD_MODULUS,
            forall|k: int| 0 <= k < ys@.len() ==> ys@[k] < FIELD_MODULUS,
            sum == lagrange_sum_partial(xs@, ys@, i as int),
        decreases n - i,
    {
        let mut co: u64 = 1;
        let mut j: usize = 0;
        while j < n
            invariant
                n == xs@.len(),
                i < n,
                j <= n,
                co < FIELD_MODULUS,
                forall|k: int| 0 <= k < xs@.len() ==> xs@[k] < FIELD_MODULUS,
                co == lagrange_coeff_partial(xs@, i as int, j as int),
            decreases n - j,
        {
            if j != i {
                let d = sub_mod(xs[j], xs[i]);
                let inv = inv_mod(d);
                co = mul_mod(co, mul_mod(xs[j], inv));
            }
            j = j + 1;
        }
        sum = add_mod(sum, mul_mod(co, ys[i]));
        i = i + 1;
    }
    sum
}


/// The field value of a polynomial lies below the modulus.
pub proof fn lemma_eval_poly_bound(coeffs: Seq<u64>, x: int)
    ensures
        0 <= eval_poly_spec(coeffs, x) < FIELD_MODULUS,
    decreases coeffs.len(),
{
    if coeffs.len() > 0 {
        lemma_eval_poly_bound(coeffs.drop_first(), x);
    }
}

/// Commitments evaluate to the generator times the secret polynomial:
/// for every point, the committed polynomial's value is `GENERATOR`
/// times the secret polynomial's value.  A share dealt as `f(x)` therefore
/// always passes `verify_share_against_commitments`.
pub proof fn lemma_commitment_evaluation(coeffs: Seq<u64>, x: int)
    ensures
        eval_poly_spec(commit_poly_spec(coeffs), x) == fmul(
            eval_poly_spec(coeffs, x),
            GENERATOR as int,
        ),
    decreases coeffs.len(),
{
    let p = FIELD_MODULUS as int;
    let g = GENERATOR as int;
    if coeffs.len() == 0 {
        assert(commit_poly_spec(coeffs) =~= Seq::<u64>::empty());
    } else {
        let c0 = coeffs[0] as int;
        let rest = coeffs.drop_first();
        lemma_commitment_evaluation(rest, x);
        lemma_eval_poly_bound(rest, x);
        let e = eval_poly_spec(rest, x);
        assert(commit_poly_spec(coeffs).drop_first() =~= commit_poly_spec(rest));
        assert(commit_poly_spec(coeffs)[0] == fmul(c0, g) as u64);
        // the left side: commitment head plus x times the committed tail
        assert(eval_poly_spec(commit_poly_spec(coeffs), x) == fadd(
            fmul(c0, g),
            fmul(x, fmul(e, g)),
        ));
        // pull the inner reductions out of both products
        assert(x * ((e * g) % p) % p == (x * (e * g)) % p) by {
            vstd::arithmetic::div_mod::lemma_mul_mod_noop_right(x, e * g, p);
        }
        assert(((c0 * g) % p + (x * (e * g)) % p) % p == (c0 * g + x * (e * g)) % p) by {
            vstd::arithmetic::div_mod::lemma_add_mod_noop(c0 * g, x * (e * g), p);
        }
        // the right side, reduced the same way
        assert(((c0 + (x * e) % p) % p) * g % p == (c0 + (x * e) % p) * g % p) by {
            vstd::arithmetic::div_mod::lemma_mul_mod_noop_left(c0 + (x * e) % p, g, p);
        }
        assert((c0 + (x * e) % p) * g == c0 * g + ((x * e) % p) * g) by (nonlinear_arith);
        assert((c0 * g + ((x * e) % p) * g) % p == (c0 * g + (x * e) * g) % p) by {
            vstd::arithmetic::div_mod::lemma_mul_mod_noop_left(x * e, g, p);
            assert((((x * e) % p) * g) % p == ((x * e) * g) % p);
            vstd::arithmetic::div_mod::lemma_add_mod_noop_right(c0 * g, ((x * e) % p) * g, p);
            vstd::arithmetic::div_mod::lemma_add_mod_noop_right(c0 * g, (x * e) * g, p);
        }
        assert(x * (e * g) == (x * e) * g) by (nonlinear_arith);
    }
}

/// Whether a received share is consistent with a dealer's public
/// commitment vector: the share's public image must equal the committed
/// polynomial's value at the receiver's point.  Verifiers run this on
/// every share they receive, and complain about the dealer when it fails.
pub fn verify_share_against_commitments(share: u64, commitments: &Vec<u64>, x: u64) -> (r: bool)
    requires
        share < FIELD_MODULUS,
        x < FIELD_MODULUS,
        forall|k: int| 0 <= k < commitments@.len() ==> commitments@[k] < FIELD_MODULUS,
    ensures
        r == (fmul(share as int, GENERATOR as int) == eval_poly_spec(commitments@, x as int)),
{
    mul_mod(share, GENERATOR) == eval_poly(commitments, x)
}

} // verus!
