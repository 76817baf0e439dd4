//! Lagrange interpolation at zero, modulo the order of a curve's group: the weighted
//! values of a polynomial at enough points add up to its constant term.

use crate::modmath::{
    inv_mod, is_inverse, lemma_inverse_unique,
    lemma_mod_add_congruent, lemma_mod_difference, lemma_mod_mul_congruent, lemma_mul_mod_right, lemma_reduced, poly_eval,
};
use crate::{lagrange_denom, lagrange_num, lagrange_spec};
use vstd::prelude::*;

verus! {

/// Whether `a` has an inverse modulo `q`.
pub open spec fn unit(a: int, q: int) -> bool {
    is_inverse(a, inv_mod(a, q), q)
}

/// Whether every number from 1 up to the largest participant index has an inverse modulo
/// `q`, as it has where `q` is a prime above them.
pub open spec fn small_units(q: int) -> bool {
    forall|d: int| 0 < d < 0x10000 ==> #[trigger] unit(d, q)
}

/// Products of numbers that leave the same remainders leave the same remainder.
pub proof fn lemma_cong_mul(a: int, b: int, c: int, d: int, q: int)
    requires
        q > 0,
        a % q == b % q,
        c % q == d % q,
    ensures
        (a * c) % q == (b * d) % q,
{
    lemma_mod_mul_congruent(a, b, c, q);
    lemma_mod_mul_congruent(c, d, b, q);
}

/// Sums of numbers that leave the same remainders leave the same remainder.
pub proof fn lemma_cong_add(a: int, b: int, c: int, d: int, q: int)
    requires
        q > 0,
        a % q == b % q,
        c % q == d % q,
    ensures
        (a + c) % q == (b + d) % q,
        (a - c) % q == (b - d) % q,
{
    lemma_mod_add_congruent(a, b, c, q);
    lemma_mod_add_congruent(c, d, b, q);
    lemma_mod_difference(a, b, q);
    lemma_mod_difference(c, d, q);
    lemma_mod_difference(a - c, b - d, q);
    let x = a - b;
    let y = c - d;
    lemma_cong_add_zero(x, -y, q);
}

/// The sum of two multiples of `q`, one of them negated, is a multiple of `q`.
proof fn lemma_cong_add_zero(x: int, y: int, q: int)
    requires
        q > 0,
        x % q == 0,
        (-y) % q == 0,
    ensures
        (x + y) % q == 0,
{
    lemma_mod_difference(x, -y, q);
}

/// A number with an inverse.
pub proof fn lemma_unit_intro(a: int, x: int, q: int)
    requires
        q > 1,
        is_inverse(a, x, q),
    ensures
        unit(a, q),
        inv_mod(a, q) == x,
{
    lemma_inverse_unique(a, x, inv_mod(a, q), q);
}

/// A unit times its inverse leaves the remainder 1, whatever it is multiplied with.
pub proof fn lemma_unit_absorb(a: int, s: int, q: int)
    requires
        q > 1,
        unit(a, q),
    ensures
        (a * inv_mod(a, q) * s) % q == s % q,
        (s * (a * inv_mod(a, q))) % q == s % q,
        (inv_mod(a, q) * a * s) % q == s % q,
{
    let ia = inv_mod(a, q);
    assert((a * ia) % q == 1int % q) by {
        lemma_reduced(1, q);
    }
    lemma_cong_mul(a * ia, 1, s, s, q);
    assert(1 * s == s);
    assert(s * (a * ia) == a * ia * s) by (nonlinear_arith);
    assert(ia * a * s == a * ia * s) by (nonlinear_arith);
}

/// A unit can be cancelled from both sides of a congruence.
pub proof fn lemma_unit_cancel(u: int, s: int, t: int, q: int)
    requires
        q > 1,
        unit(u, q),
        (u * s) % q == (u * t) % q,
    ensures
        s % q == t % q,
{
    let iu = inv_mod(u, q);
    lemma_cong_mul(iu, iu, u * s, u * t, q);
    assert(iu * (u * s) == iu * u * s) by (nonlinear_arith);
    assert(iu * (u * t) == iu * u * t) by (nonlinear_arith);
    lemma_unit_absorb(u, s, q);
    lemma_unit_absorb(u, t, q);
}

/// Numbers that leave the same remainder are units together, with the same inverse.
pub proof fn lemma_unit_cong(a: int, b: int, q: int)
    requires
        q > 1,
        unit(a, q),
        a % q == b % q,
    ensures
        unit(b, q),
        inv_mod(b, q) == inv_mod(a, q),
{
    let ia = inv_mod(a, q);
    lemma_cong_mul(a, b, ia, ia, q);
    lemma_unit_intro(b, ia, q);
}

/// The product of two units is a unit, and its inverse the product of theirs.
pub proof fn lemma_unit_mul(a: int, b: int, q: int)
    requires
        q > 1,
        unit(a, q),
        unit(b, q),
    ensures
        unit(a * b, q),
        inv_mod(a * b, q) == (inv_mod(a, q) * inv_mod(b, q)) % q,
{
    let ia = inv_mod(a, q);
    let ib = inv_mod(b, q);
    let x = (ia * ib) % q;
    // (a b)(ia ib) = (a ia)(b ib) = 1
    lemma_mul_mod_right(a * b, ia * ib, q);
    assert((a * b) * (ia * ib) == (a * ia) * (b * ib)) by (nonlinear_arith);
    lemma_unit_absorb(a, b * ib, q);
    assert(a * ia * (b * ib) == (a * ia) * (b * ib));
    vstd::arithmetic::div_mod::lemma_mod_bound(ia * ib, q);
    lemma_unit_intro(a * b, x, q);
}

/// The negation of a unit is a unit, and its inverse the negation of the unit's.
pub proof fn lemma_unit_neg(a: int, q: int)
    requires
        q > 1,
        unit(a, q),
    ensures
        unit(-a, q),
        inv_mod(-a, q) == (-inv_mod(a, q)) % q,
{
    let ia = inv_mod(a, q);
    let x = (-ia) % q;
    lemma_mul_mod_right(-a, -ia, q);
    assert((-a) * (-ia) == a * ia) by (nonlinear_arith);
    vstd::arithmetic::div_mod::lemma_mod_bound(-ia, q);
    lemma_unit_intro(-a, x, q);
}

/// The difference of two participant indices that differ is a unit.
pub proof fn lemma_unit_difference(a: int, b: int, q: int)
    requires
        q > 1,
        small_units(q),
        0 <= a < 0x10000,
        0 <= b < 0x10000,
        a != b,
    ensures
        unit(a - b, q),
{
    if a > b {
        assert(unit(a - b, q));
    } else {
        assert(unit(b - a, q));
        lemma_unit_neg(b - a, q);
        assert(-(b - a) == a - b);
    }
}

/// Whether the first `m` of `xs` are participant indices, no two the same.
pub open spec fn nodes(xs: Seq<int>, m: nat) -> bool {
    &&& m <= xs.len()
    &&& forall|i: int| 0 <= i < m ==> 0 < #[trigger] xs[i] < 0x10000
    &&& forall|i: int, j: int| 0 <= i < j < m ==> xs[i] != xs[j]
}

/// What the node `x` adds to the weight of `w`: nothing where it is `w` itself, else
/// `x / (x − w)`.
pub open spec fn factor(x: int, w: int, q: int) -> int {
    if x == w {
        1
    } else {
        x * inv_mod(x - w, q)
    }
}

/// The Lagrange weight of `w` among the first `m` nodes: the product of `x / (x − w)` over
/// the nodes `x` other than `w`.
pub open spec fn weight(xs: Seq<int>, w: int, m: nat, q: int) -> int
    decreases m,
{
    if m == 0 {
        1
    } else {
        weight(xs, w, (m - 1) as nat, q) * factor(xs[m - 1], w, q)
    }
}

/// The sum over the first `upto` nodes `x` of their weight among the first `m`, times
/// `y / (y − x)`.
pub open spec fn shifted_sum(xs: Seq<int>, y: int, m: nat, upto: nat, q: int) -> int
    decreases upto,
{
    if upto == 0 {
        0
    } else {
        shifted_sum(xs, y, m, (upto - 1) as nat, q) + weight(xs, xs[upto - 1], m, q) * (y
            * inv_mod(y - xs[upto - 1], q))
    }
}

/// One term of the shifted sum, as a node is added: with the differences `a = x_m − x_i`,
/// `b = y − x_i` and `d = y − x_m`, `1/(a·b) = (1/a − 1/b)/d`.
proof fn lemma_shifted_term(p: int, xm: int, xi: int, y: int, q: int)
    requires
        q > 1,
        unit(xm - xi, q),
        unit(y - xi, q),
        unit(y - xm, q),
    ensures
        ((p * (xm * inv_mod(xm - xi, q))) * (y * inv_mod(y - xi, q))) % q == (inv_mod(y - xm, q)
            * (y * (p * (xm * inv_mod(xm - xi, q))) - xm * (p * (y * inv_mod(y - xi, q))))) % q,
{
    let a = xm - xi;
    let b = y - xi;
    let d = y - xm;
    let ia = inv_mod(a, q);
    let ib = inv_mod(b, q);
    let id = inv_mod(d, q);
    // d·(ia·ib) = ia − ib
    assert(d * (ia * ib) == b * ib * ia - a * ia * ib) by (nonlinear_arith)
        requires
            d == b - a,
    ;
    lemma_unit_absorb(b, ia, q);
    lemma_unit_absorb(a, ib, q);
    lemma_cong_add(b * ib * ia, ia, a * ia * ib, ib, q);
    // d·(id·(ia − ib)) = ia − ib
    assert(d * (id * (ia - ib)) == d * id * (ia - ib)) by (nonlinear_arith);
    lemma_unit_absorb(d, ia - ib, q);
    lemma_unit_cancel(d, ia * ib, id * (ia - ib), q);
    // times p·xm·y
    lemma_cong_mul(p * xm * y, p * xm * y, ia * ib, id * (ia - ib), q);
    assert((p * (xm * ia)) * (y * ib) == (p * xm * y) * (ia * ib)) by (nonlinear_arith);
    let u = p * xm * y;
    assert(y * (p * (xm * ia)) == u * ia) by (nonlinear_arith)
        requires
            u == p * xm * y,
    ;
    assert(xm * (p * (y * ib)) == u * ib) by (nonlinear_arith)
        requires
            u == p * xm * y,
    ;
    assert(u * ia - u * ib == u * (ia - ib)) by (nonlinear_arith);
    assert(id * (u * (ia - ib)) == u * (id * (ia - ib))) by (nonlinear_arith);
}

/// The weight of a node among one node more.
proof fn lemma_weight_step(xs: Seq<int>, w: int, m: nat, q: int)
    ensures
        weight(xs, w, m + 1, q) == weight(xs, w, m, q) * factor(xs[m as int], w, q),
{
}

/// The shifted sum as a node is added, over the nodes before it.
proof fn lemma_shifted_sum_step(xs: Seq<int>, y: int, m: nat, upto: nat, q: int)
    requires
        q > 1,
        small_units(q),
        nodes(xs, m + 1),
        upto <= m,
        0 < y < 0x10000,
        forall|j: int| 0 <= j <= m ==> xs[j] != y,
    ensures
        shifted_sum(xs, y, m + 1, upto, q) % q == (inv_mod(y - xs[m as int], q) * (y
            * shifted_sum(xs, xs[m as int], m, upto, q) - xs[m as int] * shifted_sum(
            xs,
            y,
            m,
            upto,
            q,
        ))) % q,
    decreases upto,
{
    let xm = xs[m as int];
    let id = inv_mod(y - xm, q);
    if upto == 0 {
        assert(id * (y * 0 - xm * 0) == 0) by (nonlinear_arith);
    } else {
        let k = (upto - 1) as nat;
        let xi = xs[k as int];
        lemma_shifted_sum_step(xs, y, m, k, q);
        let p = weight(xs, xi, m, q);
        lemma_weight_step(xs, xi, m, q);
        assert(xm != xi);
        lemma_unit_difference(xm, xi, q);
        lemma_unit_difference(y, xi, q);
        lemma_unit_difference(y, xm, q);
        lemma_shifted_term(p, xm, xi, y, q);
        let ia = inv_mod(xm - xi, q);
        let ib = inv_mod(y - xi, q);
        let left = shifted_sum(xs, y, m + 1, k, q);
        let a_before = shifted_sum(xs, xm, m, k, q);
        let b_before = shifted_sum(xs, y, m, k, q);
        let t_left = (p * (xm * ia)) * (y * ib);
        let t_a = p * (xm * ia);
        let t_b = p * (y * ib);
        assert(shifted_sum(xs, y, m + 1, upto, q) == left + t_left);
        assert(shifted_sum(xs, xm, m, upto, q) == a_before + t_a);
        assert(shifted_sum(xs, y, m, upto, q) == b_before + t_b);
        lemma_cong_add(
            left,
            id * (y * a_before - xm * b_before),
            t_left,
            id * (y * t_a - xm * t_b),
            q,
        );
        assert(id * (y * a_before - xm * b_before) + id * (y * t_a - xm * t_b) == id * (y * (
        a_before + t_a) - xm * (b_before + t_b))) by (nonlinear_arith);
    }
}

/// The weights of one node more add up to one: for a point `y` that is no node, the
/// weights of the first `m` nodes, each times `y / (y − x)`, and the weight of `y` itself
/// add up to 1 modulo `q`.
pub proof fn lemma_partition<>(xs: Seq<int>, y: int, m: nat, q: int)
    requires
        q > 1,
        small_units(q),
        nodes(xs, m),
        0 < y < 0x10000,
        forall|j: int| 0 <= j < m ==> xs[j] != y,
    ensures
        (shifted_sum(xs, y, m, m, q) + weight(xs, y, m, q)) % q == 1,
    decreases m,
{
    if m == 0 {
        lemma_reduced(1, q);
    } else {
        let k = (m - 1) as nat;
        let xm = xs[k as int];
        let d = y - xm;
        let id = inv_mod(d, q);
        assert(nodes(xs, k));
        lemma_partition(xs, xm, k, q);
        lemma_partition(xs, y, k, q);
        lemma_shifted_sum_step(xs, y, k, k, q);
        lemma_unit_difference(y, xm, q);
        lemma_unit_neg(d, q);
        assert(-d == xm - y);
        let wm = weight(xs, xm, k, q);
        let wy = weight(xs, y, k, q);
        let a = shifted_sum(xs, xm, k, k, q);
        let b = shifted_sum(xs, y, k, k, q);
        lemma_weight_step(xs, xm, k, q);
        lemma_weight_step(xs, y, k, q);
        let nid = inv_mod(xm - y, q);
        // the whole: the nodes before, the node added, and y itself
        let before = shifted_sum(xs, y, m, k, q);
        let whole = before + (wm * 1) * (y * id) + wy * (xm * nid);
        assert(shifted_sum(xs, y, m, m, q) + weight(xs, y, m, q) == whole);
        // with a = 1 − wm and b = 1 − wy modulo q
        lemma_reduced(1, q);
        lemma_mod_difference(a + wm, 1, q);
        lemma_mod_difference(a, 1 - wm, q);
        lemma_mod_difference(b + wy, 1, q);
        lemma_mod_difference(b, 1 - wy, q);
        assert(a + wm - 1 == a - (1 - wm));
        assert(b + wy - 1 == b - (1 - wy));
        lemma_cong_mul(y, y, a, 1 - wm, q);
        lemma_cong_mul(xm, xm, b, 1 - wy, q);
        lemma_cong_add(y * a, y * (1 - wm), xm * b, xm * (1 - wy), q);
        lemma_cong_mul(id, id, y * a - xm * b, y * (1 - wm) - xm * (1 - wy), q);
        let first = id * (y * (1 - wm) - xm * (1 - wy));
        assert(before % q == first % q);
        // the weight of y: 1/(x_m − y) = −1/(y − x_m)
        vstd::arithmetic::div_mod::lemma_mod_twice(-id, q);
        lemma_reduced(nid, q);
        assert(nid % q == (-id) % q);
        lemma_cong_mul(wy * xm, wy * xm, nid, -id, q);
        assert(wy * (xm * nid) == (wy * xm) * nid) by (nonlinear_arith);
        let last = (wy * xm) * (-id);
        let middle = (wm * 1) * (y * id);
        lemma_cong_add(before, first, middle, middle, q);
        lemma_cong_add(before + middle, first + middle, wy * (xm * nid), last, q);
        let yw = id * y * wm;
        let xw = id * xm * wy;
        assert(y * (1 - wm) - xm * (1 - wy) == y - y * wm - xm + xm * wy) by (nonlinear_arith);
        assert(id * (y - y * wm - xm + xm * wy) == id * y - yw - id * xm + xw)
            by (nonlinear_arith)
            requires
                yw == id * y * wm,
                xw == id * xm * wy,
        ;
        assert(middle == yw) by (nonlinear_arith)
            requires
                middle == (wm * 1) * (y * id),
                yw == id * y * wm,
        ;
        assert(last == -xw) by (nonlinear_arith)
            requires
                last == (wy * xm) * (-id),
                xw == id * xm * wy,
        ;
        assert(id * y - id * xm == d * id * 1) by (nonlinear_arith)
            requires
                d == y - xm,
        ;
        assert(first + middle + last == d * id * 1);
        lemma_unit_absorb(d, 1, q);
    }
}

/// The quotient of the polynomial with the coefficients `c` by `x − a`: the polynomial
/// `g` with `f(x) = f(a) + (x − a)·g(x)`.
pub open spec fn quotient(c: Seq<int>, a: int) -> Seq<int>
    decreases c.len(),
{
    if c.len() <= 1 {
        Seq::<int>::empty()
    } else {
        let rest = quotient(c.skip(1), a).push(0);
        Seq::new((c.len() - 1) as nat, |k: int| c[k + 1] + a * rest[k])
    }
}

/// The quotient has one coefficient less.
pub proof fn lemma_quotient_len(c: Seq<int>, a: int)
    ensures
        quotient(c, a).len() == if c.len() == 0 {
            0
        } else {
            c.len() - 1
        },
    decreases c.len(),
{
    if c.len() > 1 {
        lemma_quotient_len(c.skip(1), a);
    }
}

/// The value of a polynomial times a number is the number times the value.
pub proof fn lemma_poly_eval_scale(c: Seq<int>, d: Seq<int>, a: int, x: int)
    requires
        c.len() == d.len(),
        forall|k: int| 0 <= k < c.len() ==> #[trigger] d[k] == a * c[k],
    ensures
        poly_eval(d, x) == a * poly_eval(c, x),
    decreases c.len(),
{
    if c.len() == 0 {
        assert(a * 0 == 0) by (nonlinear_arith);
    } else {
        assert forall|k: int| 0 <= k < c.skip(1).len() implies #[trigger] d.skip(1)[k] == a
            * c.skip(1)[k] by {
            assert(d[k + 1] == a * c[k + 1]);
        }
        lemma_poly_eval_scale(c.skip(1), d.skip(1), a, x);
        assert(d[0] == a * c[0]);
        let p = poly_eval(c.skip(1), x);
        assert(a * c[0] + x * (a * p) == a * (c[0] + x * p)) by (nonlinear_arith);
    }
}

/// The division of a polynomial by `x − a` leaves its value at `a`.
pub proof fn lemma_quotient(c: Seq<int>, a: int, x: int)
    ensures
        poly_eval(c, x) == poly_eval(c, a) + (x - a) * poly_eval(quotient(c, a), x),
    decreases c.len(),
{
    if c.len() == 0 {
        assert((x - a) * 0 == 0) by (nonlinear_arith);
    } else if c.len() == 1 {
        assert(c.skip(1) =~= Seq::<int>::empty());
        assert(poly_eval(c.skip(1), x) == 0);
        assert(poly_eval(c.skip(1), a) == 0);
        assert(x * 0 == 0 && a * 0 == 0 && (x - a) * 0 == 0) by (nonlinear_arith);
    } else {
        let tail = c.skip(1);
        let inner = quotient(tail, a);
        let rest = inner.push(0);
        let g = quotient(c, a);
        lemma_quotient(tail, a, x);
        lemma_quotient_len(tail, a);
        // the value of the rest is that of the inner quotient
        crate::modmath::lemma_poly_eval_push(inner, 0, x);
        assert(0 * crate::modmath::pow(x, inner.len()) == 0) by (nonlinear_arith);
        // g = tail + a · rest
        let scaled = Seq::new(tail.len(), |k: int| a * rest[k]);
        lemma_poly_eval_scale(rest, scaled, a, x);
        assert forall|k: int| 0 <= k < tail.len() implies #[trigger] g[k] == tail[k] + scaled[k] by {
            assert(tail[k] == c[k + 1]);
        }
        crate::modmath::lemma_poly_eval_sum(tail, scaled, g, x);
        let pt = poly_eval(tail, x);
        let pa = poly_eval(tail, a);
        let pi = poly_eval(inner, x);
        // f(x) − f(a) = x·pt − a·pa, with pt = pa + (x − a)·pi
        assert(x * pt - a * pa == (x - a) * (pt + a * pi)) by (nonlinear_arith)
            requires
                pt == pa + (x - a) * pi,
        ;
    }
}

/// The sum of the weights of the first `upto` nodes among the first `m`.
pub open spec fn weights_sum(xs: Seq<int>, m: nat, upto: nat, q: int) -> int
    decreases upto,
{
    if upto == 0 {
        0
    } else {
        weights_sum(xs, m, (upto - 1) as nat, q) + weight(xs, xs[upto - 1], m, q)
    }
}

/// The sum over the first `upto` nodes of their weight among the first `m`, times the
/// value of the polynomial with the coefficients `c` at the node.
pub open spec fn values_sum(xs: Seq<int>, c: Seq<int>, m: nat, upto: nat, q: int) -> int
    decreases upto,
{
    if upto == 0 {
        0
    } else {
        values_sum(xs, c, m, (upto - 1) as nat, q) + weight(xs, xs[upto - 1], m, q) * poly_eval(
            c,
            xs[upto - 1],
        )
    }
}

/// The weights of the nodes before the last are their shifted weights among the nodes
/// before the last.
proof fn lemma_weights_shifted(xs: Seq<int>, m: nat, upto: nat, q: int)
    requires
        nodes(xs, m + 1),
        upto <= m,
    ensures
        weights_sum(xs, m + 1, upto, q) == shifted_sum(xs, xs[m as int], m, upto, q),
    decreases upto,
{
    if upto > 0 {
        lemma_weights_shifted(xs, m, (upto - 1) as nat, q);
        let xi = xs[upto - 1];
        assert(xi != xs[m as int]);
        lemma_weight_step(xs, xi, m, q);
    }
}

/// The weights of the first `m` nodes add up to one.
pub proof fn lemma_weights_sum(xs: Seq<int>, m: nat, q: int)
    requires
        q > 1,
        small_units(q),
        nodes(xs, m),
        m > 0,
    ensures
        weights_sum(xs, m, m, q) % q == 1,
{
    let k = (m - 1) as nat;
    let xm = xs[k as int];
    assert(nodes(xs, k));
    lemma_partition(xs, xm, k, q);
    lemma_weights_shifted(xs, k, k, q);
    lemma_weight_step(xs, xm, k, q);
    assert(weight(xs, xm, k, q) * 1 == weight(xs, xm, k, q)) by (nonlinear_arith);
}

/// The weighted values as a node is added, over the nodes before it.
proof fn lemma_values_sum_step(xs: Seq<int>, c: Seq<int>, m: nat, upto: nat, q: int)
    requires
        q > 1,
        small_units(q),
        nodes(xs, m + 1),
        upto <= m,
    ensures
        values_sum(xs, c, m + 1, upto, q) % q == (poly_eval(c, xs[m as int]) * weights_sum(
            xs,
            m + 1,
            upto,
            q,
        ) - xs[m as int] * values_sum(xs, quotient(c, xs[m as int]), m, upto, q)) % q,
    decreases upto,
{
    let xm = xs[m as int];
    let fm = poly_eval(c, xm);
    let g = quotient(c, xm);
    if upto == 0 {
        assert(fm * 0 - xm * 0 == 0) by (nonlinear_arith);
    } else {
        let k = (upto - 1) as nat;
        let xi = xs[k as int];
        lemma_values_sum_step(xs, c, m, k, q);
        assert(xm != xi);
        lemma_unit_difference(xm, xi, q);
        lemma_weight_step(xs, xi, m, q);
        lemma_quotient(c, xm, xi);
        let p = weight(xs, xi, m, q);
        let a = xm - xi;
        let ia = inv_mod(a, q);
        let gi = poly_eval(g, xi);
        let w = p * (xm * ia);
        // f(x_i) = f(x_m) − a·g(x_i)
        assert(poly_eval(c, xi) == fm - a * gi) by (nonlinear_arith)
            requires
                poly_eval(c, xi) == fm + (xi - xm) * gi,
                a == xm - xi,
        ;
        // the term: w·f(x_i) = f(x_m)·w − x_m·(p·g(x_i)), as a·ia = 1
        let term = w * (fm - a * gi);
        let other = xm * (p * gi);
        assert(term == fm * w - (a * ia) * other) by (nonlinear_arith)
            requires
                term == w * (fm - a * gi),
                w == p * (xm * ia),
                other == xm * (p * gi),
        ;
        lemma_unit_absorb(a, other, q);
        assert(a * ia * other == (a * ia) * other);
        lemma_cong_add(fm * w, fm * w, (a * ia) * other, other, q);
        let before = values_sum(xs, c, m + 1, k, q);
        let ws = weights_sum(xs, m + 1, k, q);
        let vs = values_sum(xs, g, m, k, q);
        lemma_cong_add(before, fm * ws - xm * vs, term, fm * w - other, q);
        assert(fm * ws - xm * vs + (fm * w - other) == fm * (ws + w) - xm * (vs + p * gi))
            by (nonlinear_arith)
            requires
                other == xm * (p * gi),
        ;
    }
}

/// Lagrange interpolation at zero: the values of a polynomial at the nodes, each times
/// its node's weight, add up to the polynomial's value at zero, where the polynomial has
/// no more coefficients than there are nodes.
pub proof fn lemma_interpolation(xs: Seq<int>, c: Seq<int>, m: nat, q: int)
    requires
        q > 1,
        small_units(q),
        nodes(xs, m),
        c.len() <= m,
    ensures
        values_sum(xs, c, m, m, q) % q == poly_eval(c, 0) % q,
    decreases m,
{
    if m == 0 {
    } else {
        let k = (m - 1) as nat;
        let xm = xs[k as int];
        let fm = poly_eval(c, xm);
        let g = quotient(c, xm);
        assert(nodes(xs, k));
        lemma_quotient_len(c, xm);
        lemma_interpolation(xs, g, k, q);
        lemma_values_sum_step(xs, c, k, k, q);
        lemma_weights_sum(xs, m, q);
        lemma_quotient(c, xm, 0);
        let w = weight(xs, xm, m, q);
        let before = values_sum(xs, c, m, k, q);
        let ws = weights_sum(xs, m, k, q);
        let vs = values_sum(xs, g, k, k, q);
        let g0 = poly_eval(g, 0);
        // the whole: f(x_m)·(ws + w) − x_m·vs, with ws + w = 1 and vs = g(0)
        lemma_cong_add(before, fm * ws - xm * vs, w * fm, w * fm, q);
        assert(fm * ws - xm * vs + w * fm == fm * (ws + w) - xm * vs) by (nonlinear_arith);
        lemma_reduced(1, q);
        lemma_cong_mul(fm, fm, ws + w, 1, q);
        lemma_cong_mul(xm, xm, vs, g0, q);
        lemma_cong_add(fm * (ws + w), fm * 1, xm * vs, xm * g0, q);
        assert(fm * 1 - xm * g0 == fm + (0 - xm) * g0) by (nonlinear_arith);
    }
}

/// The indices of a signing set, as integers.
pub open spec fn indices(included: Seq<u16>) -> Seq<int> {
    Seq::new(included.len(), |k: int| included[k] as int)
}

/// Whether a signing set holds indices other than 0, no two the same.
pub open spec fn distinct_indices(included: Seq<u16>) -> bool {
    &&& forall|k: int| 0 <= k < included.len() ==> #[trigger] included[k] != 0
    &&& forall|j: int, k: int| 0 <= j < k < included.len() ==> included[j] != included[k]
}

/// The Lagrange coefficient of `i` for the first `m` indices of a signing set is the
/// weight of `i` among them: the product of the indices over the product of their
/// differences to `i`, which has an inverse.
pub proof fn lemma_lagrange_prefix(q: int, i: u16, included: Seq<u16>, m: nat)
    requires
        q > 1,
        small_units(q),
        m <= included.len(),
    ensures
        unit(lagrange_denom(i, included.take(m as int)), q),
        (lagrange_num(i, included.take(m as int)) * inv_mod(
            lagrange_denom(i, included.take(m as int)),
            q,
        )) % q == weight(indices(included), i as int, m, q) % q,
    decreases m,
{
    let xs = indices(included);
    let w = i as int;
    if m == 0 {
        assert(1int * 1 == 1);
        lemma_reduced(1, q);
        lemma_unit_intro(1, 1, q);
        assert(included.take(0).len() == 0);
    } else {
        let k = (m - 1) as nat;
        let l = included[k as int];
        let now = included.take(m as int);
        let before = included.take(k as int);
        assert(now.drop_last() =~= before);
        assert(now.last() == l);
        lemma_lagrange_prefix(q, i, included, k);
        lemma_weight_step(xs, w, k, q);
        let num = lagrange_num(i, before);
        let den = lagrange_denom(i, before);
        if l == i {
            assert(weight(xs, w, k, q) * 1 == weight(xs, w, k, q)) by (nonlinear_arith);
        } else {
            let x = l as int;
            let b = x - w;
            lemma_unit_difference(x, w, q);
            lemma_unit_mul(den, b, q);
            let id = inv_mod(den, q);
            let ib = inv_mod(b, q);
            // weight·(x·ib) = (num·id)·(x·ib) = (num·x)·(id·ib) = (num·x)·inv(den·b)
            lemma_cong_mul(weight(xs, w, k, q), num * id, x * ib, x * ib, q);
            assert((num * id) * (x * ib) == (num * x) * (id * ib)) by (nonlinear_arith);
            lemma_mul_mod_right(num * x, id * ib, q);
        }
    }
}

/// The Lagrange coefficient of `i` for a signing set is the weight of `i` among its
/// indices.
pub proof fn lemma_lagrange_weight(q: int, i: u16, included: Seq<u16>)
    requires
        q > 1,
        small_units(q),
    ensures
        lagrange_spec(q, i, included) == weight(indices(included), i as int, included.len(), q)
            % q,
{
    lemma_lagrange_prefix(q, i, included, included.len());
    assert(included.take(included.len() as int) =~= included);
    let den = lagrange_denom(i, included);
    vstd::arithmetic::div_mod::lemma_mod_twice(den, q);
    lemma_unit_cong(den, den % q, q);
}

/// What the first `upto` participants of a signing set recover of a polynomial: the sum of
/// its values at their indices, each times the Lagrange coefficient of its index.
pub open spec fn recovered(q: int, included: Seq<u16>, c: Seq<int>, upto: nat) -> int
    decreases upto,
{
    if upto == 0 {
        0
    } else {
        recovered(q, included, c, (upto - 1) as nat) + lagrange_spec(
            q,
            included[upto - 1],
            included,
        ) * poly_eval(c, included[upto - 1] as int)
    }
}

/// What the participants recover is the sum of the weighted values of the polynomial.
proof fn lemma_recovered(q: int, included: Seq<u16>, c: Seq<int>, upto: nat)
    requires
        q > 1,
        small_units(q),
        upto <= included.len(),
    ensures
        recovered(q, included, c, upto) % q == values_sum(
            indices(included),
            c,
            included.len(),
            upto,
            q,
        ) % q,
    decreases upto,
{
    if upto > 0 {
        let k = (upto - 1) as nat;
        let i = included[k as int];
        lemma_recovered(q, included, c, k);
        lemma_lagrange_weight(q, i, included);
        let xs = indices(included);
        let w = weight(xs, i as int, included.len(), q);
        let f = poly_eval(c, i as int);
        vstd::arithmetic::div_mod::lemma_mod_twice(w, q);
        lemma_cong_mul(lagrange_spec(q, i, included), w, f, f, q);
        lemma_cong_add(
            recovered(q, included, c, k),
            values_sum(xs, c, included.len(), k, q),
            lagrange_spec(q, i, included) * f,
            w * f,
            q,
        );
        assert(xs[k as int] == i as int);
    }
}

/// Lagrange reconstruction: the values of a polynomial at the indices of a signing set,
/// each times the Lagrange coefficient of its index, add up to the polynomial's constant
/// term modulo `q`, where the set has at least as many indices as the polynomial has
/// coefficients.
pub proof fn lemma_lagrange_reconstruction(q: int, included: Seq<u16>, c: Seq<int>)
    requires
        q > 1,
        small_units(q),
        distinct_indices(included),
        c.len() <= included.len(),
    ensures
        recovered(q, included, c, included.len()) % q == poly_eval(c, 0) % q,
{
    let xs = indices(included);
    assert(nodes(xs, included.len())) by {
        assert forall|j: int| 0 <= j < included.len() implies 0 < #[trigger] xs[j] < 0x10000 by {
            assert(included[j] != 0);
        }
    }
    lemma_recovered(q, included, c, included.len());
    lemma_interpolation(xs, c, included.len(), q);
}

} // verus!
