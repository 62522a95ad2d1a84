//! Univariate polynomials in the monomial basis: evaluation and the algebra
//! the round checks rely on.
use vstd::prelude::*;

use crate::field::Field;

verus! {

/// The value of `c[0] + c[1] x + ... + c[n-1] x^(n-1)` at `x`, in Horner form.
pub open spec fn evaluate<F: Field>(c: Seq<F>, x: F) -> F
    decreases c.len(),
{
    if c.len() == 0 {
        F::spec_zero()
    } else {
        c[0].spec_add(x.spec_mul(evaluate(c.subrange(1, c.len() as int), x)))
    }
}

/// The sum `c[0] + c[1] + ... + c[n-1]`.
pub open spec fn sum_of<F: Field>(c: Seq<F>) -> F
    decreases c.len(),
{
    if c.len() == 0 {
        F::spec_zero()
    } else {
        c[0].spec_add(sum_of(c.subrange(1, c.len() as int)))
    }
}

/// `p(0) + p(1)`: what a round polynomial must reproduce as the running sum.
pub open spec fn sum_over_boolean<F: Field>(c: Seq<F>) -> F {
    evaluate(c, F::spec_zero()).spec_add(evaluate(c, F::spec_one()))
}

/// A copy of `v`, element by element.
pub fn copy_vec<F: Copy>(v: &Vec<F>) -> (r: Vec<F>)
    ensures
        r@ == v@,
{
    let mut r: Vec<F> = Vec::new();
    let mut i: usize = 0;
    while i < v.len()
        invariant
            i <= v.len(),
            r@ == v@.subrange(0, i as int),
        decreases v.len() - i,
    {
        r.push(v[i]);
        i = i + 1;
    }
    assert(r@ =~= v@);
    r
}

/// Evaluates the polynomial with coefficients `coeffs` at `x`.
pub fn evaluate_univariate<F: Field>(coeffs: &Vec<F>, x: F) -> (r: F)
    ensures
        r == evaluate(coeffs@, x),
{
    let mut acc = F::zero();
    let mut i: usize = coeffs.len();
    assert(coeffs@.subrange(i as int, coeffs@.len() as int) =~= Seq::<F>::empty());
    while i > 0
        invariant
            i <= coeffs.len(),
            acc == evaluate(coeffs@.subrange(i as int, coeffs@.len() as int), x),
        decreases i,
    {
        i = i - 1;
        proof {
            let tail = coeffs@.subrange(i as int, coeffs@.len() as int);
            assert(tail.subrange(1, tail.len() as int) =~= coeffs@.subrange(
                i + 1,
                coeffs@.len() as int,
            ));
        }
        acc = coeffs[i].add(x.mul(acc));
    }
    assert(coeffs@.subrange(0, coeffs@.len() as int) =~= coeffs@);
    acc
}

/// Adding `a` twice cancels.
pub proof fn lemma_add_cancel<F: Field>(a: F, b: F)
    ensures
        b.spec_add(a).spec_add(a) == b,
{
    F::lemma_add_associative(b, a, a);
    F::lemma_add_self(a);
    F::lemma_add_zero(b);
}

/// At zero a polynomial takes its constant coefficient.
pub proof fn lemma_evaluate_zero<F: Field>(c: Seq<F>)
    requires
        c.len() > 0,
    ensures
        evaluate(c, F::spec_zero()) == c[0],
{
    let z = F::spec_zero();
    let rest = evaluate(c.subrange(1, c.len() as int), z);
    F::lemma_mul_commutative(z, rest);
    F::lemma_mul_zero(rest);
    F::lemma_add_zero(c[0]);
}

/// At one a polynomial takes the sum of its coefficients.
pub proof fn lemma_evaluate_one<F: Field>(c: Seq<F>)
    ensures
        evaluate(c, F::spec_one()) == sum_of(c),
    decreases c.len(),
{
    if c.len() > 0 {
        let rest = c.subrange(1, c.len() as int);
        lemma_evaluate_one(rest);
        F::lemma_mul_commutative(F::spec_one(), evaluate(rest, F::spec_one()));
        F::lemma_mul_one(evaluate(rest, F::spec_one()));
    }
}

/// Appending `a` adds `a` to the sum.
pub proof fn lemma_sum_push<F: Field>(c: Seq<F>, a: F)
    ensures
        sum_of(c.push(a)) == sum_of(c).spec_add(a),
    decreases c.len(),
{
    let p = c.push(a);
    if c.len() == 0 {
        assert(p.subrange(1, p.len() as int) =~= Seq::<F>::empty());
        assert(p[0] == a);
        F::lemma_add_zero(a);
        F::lemma_add_commutative(F::spec_zero(), a);
        assert(sum_of(p) == a.spec_add(sum_of(p.subrange(1, p.len() as int))));
        assert(sum_of(p) == a);
    } else {
        let rest = c.subrange(1, c.len() as int);
        assert(p.subrange(1, p.len() as int) =~= rest.push(a));
        lemma_sum_push(rest, a);
        assert(p[0] == c[0]);
        F::lemma_add_associative(c[0], sum_of(rest), a);
        assert(sum_of(p) == c[0].spec_add(sum_of(rest.push(a))));
        assert(sum_of(c) == c[0].spec_add(sum_of(rest)));
    }
}

/// `0 + a == a`.
pub proof fn lemma_zero_add<F: Field>(a: F)
    ensures
        F::spec_zero().spec_add(a) == a,
{
    F::lemma_add_commutative(F::spec_zero(), a);
    F::lemma_add_zero(a);
}

/// `(a + b) + (c + d) == (a + c) + (b + d)`.
pub proof fn lemma_add_swap<F: Field>(a: F, b: F, c: F, d: F)
    ensures
        a.spec_add(b).spec_add(c.spec_add(d)) == a.spec_add(c).spec_add(b.spec_add(d)),
{
    F::lemma_add_associative(a, b, c.spec_add(d));
    F::lemma_add_associative(b, c, d);
    F::lemma_add_commutative(b, c);
    F::lemma_add_associative(c, b, d);
    F::lemma_add_associative(a, c, b.spec_add(d));
}

/// `(b + c) a == b a + c a`.
pub proof fn lemma_distributive_right<F: Field>(a: F, b: F, c: F)
    ensures
        b.spec_add(c).spec_mul(a) == b.spec_mul(a).spec_add(c.spec_mul(a)),
{
    F::lemma_mul_commutative(b.spec_add(c), a);
    F::lemma_distributive(a, b, c);
    F::lemma_mul_commutative(a, b);
    F::lemma_mul_commutative(a, c);
}

/// The coefficients of `a p(X)`.
pub open spec fn scale<F: Field>(p: Seq<F>, a: F) -> Seq<F> {
    Seq::new(p.len(), |n: int| p[n].spec_mul(a))
}

/// Evaluation commutes with scaling: `(a p)(x) == p(x) a`.
pub proof fn lemma_evaluate_scale<F: Field>(p: Seq<F>, a: F, x: F)
    ensures
        evaluate(scale(p, a), x) == evaluate(p, x).spec_mul(a),
    decreases p.len(),
{
    if p.len() == 0 {
        F::lemma_mul_commutative(F::spec_zero(), a);
        F::lemma_mul_zero(a);
    } else {
        let rest = p.subrange(1, p.len() as int);
        let sp = scale(p, a);
        assert(sp.subrange(1, sp.len() as int) =~= scale(rest, a));
        lemma_evaluate_scale(rest, a, x);
        let e = evaluate(rest, x);
        // p0 a + x (e a) == (p0 + x e) a
        F::lemma_mul_associative(x, e, a);
        lemma_distributive_right(a, p[0], x.spec_mul(e));
    }
}

} // verus!
