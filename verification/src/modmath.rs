//! Arithmetic modulo the order of a curve's group, over the integers.

use vstd::arithmetic::div_mod::*;
use vstd::arithmetic::mul::*;
use vstd::prelude::*;

verus! {

/// Whether `x` is the inverse of `a` modulo `q`, reduced.
pub open spec fn is_inverse(a: int, x: int, q: int) -> bool {
    0 <= x < q && (a * x) % q == 1
}

/// The inverse of `a` modulo `q`, where there is one.
pub open spec fn inv_mod(a: int, q: int) -> int {
    choose|x: int| is_inverse(a, x, q)
}

/// `x` to the power `k`.
pub open spec fn pow(x: int, k: nat) -> int
    decreases k,
{
    if k == 0 {
        1
    } else {
        x * pow(x, (k - 1) as nat)
    }
}

/// The polynomial with the coefficients `c`, lowest first, at `x`.
pub open spec fn poly_eval(c: Seq<int>, x: int) -> int
    decreases c.len(),
{
    if c.len() == 0 {
        0
    } else {
        c[0] + x * poly_eval(c.skip(1), x)
    }
}

/// The sum of a sequence of integers.
pub open spec fn sum(s: Seq<int>) -> int
    decreases s.len(),
{
    if s.len() == 0 {
        0
    } else {
        sum(s.drop_last()) + s.last()
    }
}

/// The sum of the products of the pairs of a sequence.
pub open spec fn dot(pairs: Seq<(int, int)>) -> int
    decreases pairs.len(),
{
    if pairs.len() == 0 {
        0
    } else {
        dot(pairs.drop_last()) + pairs.last().0 * pairs.last().1
    }
}

/// `(a % q) * b` and `a * b` leave the same remainder.
pub proof fn lemma_mul_mod_left(a: int, b: int, q: int)
    requires
        q > 0,
    ensures
        ((a % q) * b) % q == (a * b) % q,
{
    lemma_mul_mod_noop_left(a, b, q);
}

/// `a * (b % q)` and `a * b` leave the same remainder.
pub proof fn lemma_mul_mod_right(a: int, b: int, q: int)
    requires
        q > 0,
    ensures
        (a * (b % q)) % q == (a * b) % q,
{
    lemma_mul_mod_noop_right(a, b, q);
}

/// `(a % q) + b` and `a + b` leave the same remainder.
pub proof fn lemma_add_mod_left(a: int, b: int, q: int)
    requires
        q > 0,
    ensures
        ((a % q) + b) % q == (a + b) % q,
{
    lemma_add_mod_noop(a, b, q);
    lemma_add_mod_noop(a % q, b, q);
    lemma_mod_twice(a, q);
}

/// `a + (b % q)` and `a + b` leave the same remainder.
pub proof fn lemma_add_mod_right(a: int, b: int, q: int)
    requires
        q > 0,
    ensures
        (a + (b % q)) % q == (a + b) % q,
{
    lemma_add_mod_left(b, a, q);
}

/// Numbers with the same remainder keep it after adding the same number.
pub proof fn lemma_mod_add_congruent(a: int, b: int, c: int, q: int)
    requires
        q > 0,
        a % q == b % q,
    ensures
        (a + c) % q == (b + c) % q,
{
    lemma_add_mod_left(a, c, q);
    lemma_add_mod_left(b, c, q);
}

/// Numbers with the same remainder keep it after multiplying by the same number.
pub proof fn lemma_mod_mul_congruent(a: int, b: int, c: int, q: int)
    requires
        q > 0,
        a % q == b % q,
    ensures
        (a * c) % q == (b * c) % q,
        (c * a) % q == (c * b) % q,
{
    lemma_mul_mod_left(a, c, q);
    lemma_mul_mod_left(b, c, q);
    lemma_mul_is_commutative(a, c);
    lemma_mul_is_commutative(b, c);
}

/// A number has at most one reduced inverse.
pub proof fn lemma_inverse_unique(a: int, x: int, y: int, q: int)
    requires
        q > 1,
        is_inverse(a, x, q),
        is_inverse(a, y, q),
    ensures
        x == y,
{
    // x = x * (a * y) = (x * a) * y = y, modulo q
    lemma_mul_mod_right(x, a * y, q);
    assert((x * (a * y)) % q == (x * 1) % q);
    lemma_mul_mod_left(a * x, y, q);
    assert(((a * x) * y) % q == (1 * y) % q);
    assert(x * (a * y) == (a * x) * y) by (nonlinear_arith);
    lemma_small_mod(x as nat, q as nat);
    lemma_small_mod(y as nat, q as nat);
}

/// A reduced inverse is the inverse.
pub proof fn lemma_inv_mod(a: int, x: int, q: int)
    requires
        q > 1,
        is_inverse(a, x, q),
    ensures
        inv_mod(a, q) == x,
{
    lemma_inverse_unique(a, x, inv_mod(a, q), q);
}

/// A number below the modulus is its own remainder.
pub proof fn lemma_reduced(a: int, q: int)
    requires
        0 <= a < q,
    ensures
        a % q == a,
{
    lemma_small_mod(a as nat, q as nat);
}

/// Appending a coefficient adds its term to the polynomial.
pub proof fn lemma_poly_eval_push(c: Seq<int>, a: int, x: int)
    ensures
        poly_eval(c.push(a), x) == poly_eval(c, x) + a * pow(x, c.len()),
    decreases c.len(),
{
    let d = c.push(a);
    assert(d[0] == if c.len() == 0 { a } else { c[0] });
    assert(poly_eval(d, x) == d[0] + x * poly_eval(d.skip(1), x));
    if c.len() == 0 {
        assert(d.skip(1) =~= Seq::<int>::empty());
        assert(poly_eval(d.skip(1), x) == 0);
        assert(pow(x, 0) == 1);
        assert(a * 1 == a) by (nonlinear_arith);
        assert(x * 0 == 0) by (nonlinear_arith);
    } else {
        lemma_poly_eval_push(c.skip(1), a, x);
        assert(d.skip(1) =~= c.skip(1).push(a));
        let p = poly_eval(c.skip(1), x);
        let w = pow(x, (c.len() - 1) as nat);
        assert(pow(x, c.len()) == x * w);
        assert(x * (p + a * w) == x * p + a * (x * w)) by (nonlinear_arith);
    }
}

/// The polynomial as the sum of its terms: Horner's rule from the highest coefficient down.
pub proof fn lemma_poly_eval_horner(c: Seq<int>, x: int, k: int)
    requires
        0 <= k < c.len(),
    ensures
        poly_eval(c.skip(k), x) == c[k] + x * poly_eval(c.skip(k + 1), x),
{
    assert(c.skip(k).skip(1) =~= c.skip(k + 1));
}

/// The sum of the products of three pairs.
pub proof fn lemma_dot3(a: (int, int), b: (int, int), c: (int, int))
    ensures
        dot(seq![a, b, c]) == a.0 * a.1 + b.0 * b.1 + c.0 * c.1,
{
    let s3 = seq![a, b, c];
    let s2 = seq![a, b];
    let s1 = seq![a];
    assert(s3.drop_last() =~= s2);
    assert(s2.drop_last() =~= s1);
    assert(s1.drop_last() =~= Seq::<(int, int)>::empty());
    assert(dot(s1) == dot(s1.drop_last()) + a.0 * a.1);
    assert(dot(s2) == dot(s2.drop_last()) + b.0 * b.1);
    assert(dot(s3) == dot(s3.drop_last()) + c.0 * c.1);
}

/// Appending a pair adds its product.
pub proof fn lemma_dot_push(pairs: Seq<(int, int)>, p: (int, int))
    ensures
        dot(pairs.push(p)) == dot(pairs) + p.0 * p.1,
{
    assert(pairs.push(p).drop_last() =~= pairs);
}

/// Two numbers leave the same remainder where their difference leaves none.
pub proof fn lemma_mod_difference(x: int, y: int, q: int)
    requires
        q > 0,
    ensures
        (x % q == y % q) <==> ((x - y) % q == 0),
{
    lemma_mod_equivalence(x, y, q);
}

/// Polynomials whose coefficients leave the same remainders have values that leave the
/// same remainder.
pub proof fn lemma_poly_eval_congruent(c: Seq<int>, d: Seq<int>, x: int, q: int)
    requires
        q > 0,
        c.len() == d.len(),
        forall|k: int| 0 <= k < c.len() ==> #[trigger] c[k] % q == d[k] % q,
    ensures
        poly_eval(c, x) % q == poly_eval(d, x) % q,
    decreases c.len(),
{
    if c.len() > 0 {
        assert forall|k: int| 0 <= k < c.skip(1).len() implies #[trigger] c.skip(1)[k] % q
            == d.skip(1)[k] % q by {
            assert(c[k + 1] % q == d[k + 1] % q);
        }
        lemma_poly_eval_congruent(c.skip(1), d.skip(1), x, q);
        let pc = poly_eval(c.skip(1), x);
        let pd = poly_eval(d.skip(1), x);
        lemma_mod_mul_congruent(pc, pd, x, q);
        assert(c[0] % q == d[0] % q);
        lemma_add_mod_left(c[0], x * pc, q);
        lemma_add_mod_left(d[0], x * pd, q);
        lemma_add_mod_right(c[0] % q, x * pc, q);
        lemma_add_mod_right(d[0] % q, x * pd, q);
    }
}

/// The value of a sum of polynomials is the sum of their values.
pub proof fn lemma_poly_eval_sum(c: Seq<int>, d: Seq<int>, e: Seq<int>, x: int)
    requires
        c.len() == d.len(),
        c.len() == e.len(),
        forall|k: int| 0 <= k < c.len() ==> #[trigger] e[k] == c[k] + d[k],
    ensures
        poly_eval(e, x) == poly_eval(c, x) + poly_eval(d, x),
    decreases c.len(),
{
    if c.len() > 0 {
        assert forall|k: int| 0 <= k < c.skip(1).len() implies #[trigger] e.skip(1)[k] == c.skip(
            1,
        )[k] + d.skip(1)[k] by {
            assert(e[k + 1] == c[k + 1] + d[k + 1]);
        }
        lemma_poly_eval_sum(c.skip(1), d.skip(1), e.skip(1), x);
        assert(e[0] == c[0] + d[0]);
        let pc = poly_eval(c.skip(1), x);
        let pd = poly_eval(d.skip(1), x);
        assert(x * (pc + pd) == x * pc + x * pd) by (nonlinear_arith);
    }
}

/// The polynomial whose coefficients are all zero has the value zero.
pub proof fn lemma_poly_eval_zero(c: Seq<int>, x: int)
    requires
        forall|k: int| 0 <= k < c.len() ==> #[trigger] c[k] == 0,
    ensures
        poly_eval(c, x) == 0,
    decreases c.len(),
{
    if c.len() > 0 {
        assert forall|k: int| 0 <= k < c.skip(1).len() implies #[trigger] c.skip(1)[k] == 0 by {
            assert(c[k + 1] == 0);
        }
        lemma_poly_eval_zero(c.skip(1), x);
        assert(c[0] == 0);
        assert(x * 0 == 0) by (nonlinear_arith);
    }
}

/// A number less its remainder leaves no remainder.
pub proof fn lemma_mod_self_difference(x: int, q: int)
    requires
        q > 0,
    ensures
        (x - x % q) % q == 0,
{
    lemma_mod_twice(x, q);
    lemma_mod_difference(x, x % q, q);
}

} // verus!
