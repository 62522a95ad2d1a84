//! Multilinear witness tables and the round polynomial of a product of them.
//!
//! A table of length `2^n` lists a multilinear polynomial's values on the
//! hypercube; bit `v` of an index is variable `v`, and variable 0 is bound
//! first. The composite is the product of several tables.
use vstd::prelude::*;

use crate::field::Field;
use crate::polynomial::{
    evaluate,
    lemma_add_cancel,
    lemma_add_swap,
    lemma_distributive_right,
    lemma_evaluate_scale,
    lemma_zero_add,
    scale,
    sum_over_boolean,
};

verus! {

/// Binds the lowest variable of table `t` to `r`:
/// `t'[i] = t[2i] + r (t[2i+1] - t[2i])`.
pub open spec fn fold<F: Field>(t: Seq<F>, r: F) -> Seq<F> {
    Seq::new(
        t.len() / 2,
        |i: int| t[2 * i].spec_add(r.spec_mul(t[2 * i + 1].spec_add(t[2 * i]))),
    )
}

/// Every table of `tables` folded by `r`.
pub open spec fn fold_all<F: Field>(tables: Seq<Seq<F>>, r: F) -> Seq<Seq<F>> {
    tables.map_values(|t: Seq<F>| fold(t, r))
}

/// The value of the composite at hypercube index `x`: the product of the
/// tables' entries there.
pub open spec fn product_at<F: Field>(tables: Seq<Seq<F>>, x: int) -> F
    decreases tables.len(),
{
    if tables.len() == 0 {
        F::spec_one()
    } else {
        product_at(tables.drop_last(), x).spec_mul(tables.last()[x])
    }
}

/// The sum of the composite over the first `n` hypercube indices.
pub open spec fn hypercube_sum<F: Field>(tables: Seq<Seq<F>>, n: int) -> F
    decreases n,
{
    if n <= 0 {
        F::spec_zero()
    } else {
        hypercube_sum(tables, n - 1).spec_add(product_at(tables, n - 1))
    }
}

/// The coefficient of `X^n` in `p`, zero beyond its ends.
pub open spec fn coeff<F: Field>(p: Seq<F>, n: int) -> F {
    if 0 <= n < p.len() {
        p[n]
    } else {
        F::spec_zero()
    }
}

/// The coefficients of `p(X) (a + b X)`.
pub open spec fn mul_linear<F: Field>(p: Seq<F>, a: F, b: F) -> Seq<F> {
    Seq::new(
        p.len() + 1,
        |n: int| coeff(p, n).spec_mul(a).spec_add(coeff(p, n - 1).spec_mul(b)),
    )
}

/// The coefficients of `p(X) + q(X)`, `q` no longer than `p`.
pub open spec fn poly_add<F: Field>(p: Seq<F>, q: Seq<F>) -> Seq<F> {
    Seq::new(p.len(), |n: int| p[n].spec_add(coeff(q, n)))
}

/// The coefficients of `prod_{j < m} (t_j[2i] + X (t_j[2i+1] - t_j[2i]))`:
/// the composite along the line through indices `2i` and `2i + 1`.
pub open spec fn pair_poly<F: Field>(tables: Seq<Seq<F>>, i: int, m: int) -> Seq<F>
    decreases m,
{
    if m <= 0 {
        seq![F::spec_one()]
    } else {
        let t = tables[m - 1];
        mul_linear(pair_poly(tables, i, m - 1), t[2 * i], t[2 * i + 1].spec_add(t[2 * i]))
    }
}

/// The zero polynomial with `len` coefficients.
pub open spec fn zero_poly<F: Field>(len: nat) -> Seq<F> {
    Seq::new(len, |n: int| F::spec_zero())
}

/// The round polynomial summed over the first `h` pairs: its coefficients,
/// one more than the number of tables.
pub open spec fn round_poly<F: Field>(tables: Seq<Seq<F>>, h: int) -> Seq<F>
    decreases h,
{
    if h <= 0 {
        zero_poly((tables.len() + 1) as nat)
    } else {
        poly_add(round_poly(tables, h - 1), pair_poly(tables, h - 1, tables.len() as int))
    }
}

/// The coefficients of `p(X) (a + b X)`.
pub fn mul_linear_exec<F: Field>(p: &Vec<F>, a: F, b: F) -> (r: Vec<F>)
    requires
        p.len() < usize::MAX,
    ensures
        r@ == mul_linear(p@, a, b),
{
    let mut r: Vec<F> = Vec::new();
    let mut n: usize = 0;
    while n <= p.len()
        invariant
            n <= p.len() + 1,
            p.len() < usize::MAX,
            r@.len() == n,
            forall|m: int| 0 <= m < n ==> r@[m] == #[trigger] mul_linear(p@, a, b)[m],
        decreases p.len() + 1 - n,
    {
        let lo = if n < p.len() {
            p[n]
        } else {
            F::zero()
        };
        let hi = if n >= 1 {
            p[n - 1]
        } else {
            F::zero()
        };
        r.push(lo.mul(a).add(hi.mul(b)));
        n = n + 1;
    }
    assert(r@ =~= mul_linear(p@, a, b));
    r
}

/// Adds `q` into `acc` coefficient by coefficient.
pub fn add_into<F: Field>(acc: &mut Vec<F>, q: &Vec<F>)
    requires
        q.len() <= old(acc).len(),
    ensures
        final(acc)@ == poly_add(old(acc)@, q@),
{
    let ghost start = acc@;
    let mut n: usize = 0;
    while n < acc.len()
        invariant
            q.len() <= start.len(),
            acc@.len() == start.len(),
            n <= acc@.len(),
            forall|m: int| 0 <= m < n ==> acc@[m] == #[trigger] poly_add(start, q@)[m],
            forall|m: int| n <= m < acc@.len() ==> acc@[m] == #[trigger] start[m],
        decreases acc@.len() - n,
    {
        let c = if n < q.len() {
            q[n]
        } else {
            F::zero()
        };
        let v = acc[n].add(c);
        acc.set(n, v);
        n = n + 1;
    }
    assert(acc@ =~= poly_add(start, q@));
}

/// Folds table `t` by `r`.
pub fn fold_table<F: Field>(t: &Vec<F>, r: F) -> (out: Vec<F>)
    ensures
        out@ == fold(t@, r),
{
    let half = t.len() / 2;
    let mut out: Vec<F> = Vec::new();
    let mut i: usize = 0;
    while i < half
        invariant
            half == t.len() / 2,
            i <= half,
            out@.len() == i,
            forall|m: int| 0 <= m < i ==> out@[m] == #[trigger] fold(t@, r)[m],
        decreases half - i,
    {
        let lo = t[2 * i];
        let hi = t[2 * i + 1];
        out.push(lo.add(r.mul(hi.add(lo))));
        i = i + 1;
    }
    assert(out@ =~= fold(t@, r));
    out
}

/// The tables' contents.
pub open spec fn tables_view<F>(tables: &Vec<Vec<F>>) -> Seq<Seq<F>> {
    tables@.map_values(|t: Vec<F>| t@)
}

/// Every table has `len` entries.
pub open spec fn all_len<F>(tables: Seq<Seq<F>>, len: nat) -> bool {
    forall|j: int| 0 <= j < tables.len() ==> (#[trigger] tables[j]).len() == len
}

/// Folds every table by `r`.
pub fn fold_tables<F: Field>(tables: &Vec<Vec<F>>, r: F) -> (out: Vec<Vec<F>>)
    ensures
        tables_view(&out) == fold_all(tables_view(tables), r),
{
    let mut out: Vec<Vec<F>> = Vec::new();
    let mut j: usize = 0;
    while j < tables.len()
        invariant
            j <= tables.len(),
            out@.len() == j,
            forall|m: int| 0 <= m < j ==> (#[trigger] out@[m])@ == fold(tables@[m]@, r),
        decreases tables.len() - j,
    {
        out.push(fold_table(&tables[j], r));
        j = j + 1;
    }
    assert(tables_view(&out) =~= fold_all(tables_view(tables), r));
    out
}

/// The composite's value at hypercube index `x`.
pub fn product_at_exec<F: Field>(tables: &Vec<Vec<F>>, x: usize) -> (r: F)
    requires
        forall|j: int| 0 <= j < tables.len() ==> x < (#[trigger] tables@[j]).len(),
    ensures
        r == product_at(tables_view(tables), x as int),
{
    let ghost all = tables_view(tables);
    let mut r = F::one();
    let mut j: usize = 0;
    while j < tables.len()
        invariant
            j <= tables.len(),
            all == tables_view(tables),
            forall|m: int| 0 <= m < tables.len() ==> x < (#[trigger] tables@[m]).len(),
            r == product_at(all.take(j as int), x as int),
        decreases tables.len() - j,
    {
        assert(all.take(j + 1).drop_last() =~= all.take(j as int));
        r = r.mul(tables[j][x]);
        j = j + 1;
    }
    assert(all.take(j as int) =~= all);
    r
}

/// The coefficients of the composite along the pair `2i`, `2i + 1`.
pub fn pair_poly_exec<F: Field>(tables: &Vec<Vec<F>>, i: usize) -> (r: Vec<F>)
    requires
        tables.len() < usize::MAX,
        forall|j: int| 0 <= j < tables.len() ==> 2 * i + 1 < (#[trigger] tables@[j]).len(),
    ensures
        r@ == pair_poly(tables_view(tables), i as int, tables.len() as int),
        r@.len() == tables.len() + 1,
{
    let ghost all = tables_view(tables);
    let mut r: Vec<F> = Vec::new();
    r.push(F::one());
    assert(r@ =~= pair_poly(all, i as int, 0));
    let mut j: usize = 0;
    while j < tables.len()
        invariant
            j <= tables.len(),
            tables.len() < usize::MAX,
            all == tables_view(tables),
            forall|m: int| 0 <= m < tables.len() ==> 2 * i + 1 < (#[trigger] tables@[m]).len(),
            r@ == pair_poly(all, i as int, j as int),
            r@.len() == j + 1,
        decreases tables.len() - j,
    {
        let lo = tables[j][2 * i];
        let hi = tables[j][2 * i + 1];
        r = mul_linear_exec(&r, lo, hi.add(lo));
        j = j + 1;
    }
    r
}

/// The round polynomial of the composite: for `p(X)` the sum over the
/// remaining variables with the lowest one set to `X`, all its coefficients.
pub fn round_poly_exec<F: Field>(tables: &Vec<Vec<F>>, len: usize) -> (r: Vec<F>)
    requires
        tables.len() < usize::MAX,
        all_len(tables_view(tables), len as nat),
    ensures
        r@ == round_poly(tables_view(tables), (len / 2) as int),
        r@.len() == tables.len() + 1,
{
    let ghost all = tables_view(tables);
    let half = len / 2;
    let mut acc: Vec<F> = Vec::new();
    let mut n: usize = 0;
    while n <= tables.len()
        invariant
            n <= tables.len() + 1,
            tables.len() < usize::MAX,
            acc@.len() == n,
            forall|m: int| 0 <= m < n ==> acc@[m] == F::spec_zero(),
        decreases tables.len() + 1 - n,
    {
        acc.push(F::zero());
        n = n + 1;
    }
    assert(acc@ =~= round_poly(all, 0));
    let mut i: usize = 0;
    while i < half
        invariant
            half == len / 2,
            i <= half,
            tables.len() < usize::MAX,
            all == tables_view(tables),
            all_len(all, len as nat),
            acc@ == round_poly(all, i as int),
            acc@.len() == tables.len() + 1,
        decreases half - i,
    {
        assert forall|j: int| 0 <= j < tables.len() implies 2 * i + 1 < (
        #[trigger] tables@[j]).len() by {
            assert(all[j] == tables@[j]@);
        }
        let q = pair_poly_exec(tables, i);
        add_into(&mut acc, &q);
        i = i + 1;
    }
    acc
}

/// Evaluation is additive: `(p + q)(x) == p(x) + q(x)`.
pub proof fn lemma_evaluate_poly_add<F: Field>(p: Seq<F>, q: Seq<F>, x: F)
    requires
        q.len() <= p.len(),
    ensures
        evaluate(poly_add(p, q), x) == evaluate(p, x).spec_add(evaluate(q, x)),
    decreases p.len(),
{
    let z = F::spec_zero();
    let pq = poly_add(p, q);
    if p.len() == 0 {
        assert(pq =~= Seq::<F>::empty());
        F::lemma_add_zero(z);
    } else {
        let tp = p.subrange(1, p.len() as int);
        let tq = if q.len() > 0 {
            q.subrange(1, q.len() as int)
        } else {
            q
        };
        assert(pq.subrange(1, pq.len() as int) =~= poly_add(tp, tq));
        lemma_evaluate_poly_add(tp, tq, x);
        let ep = evaluate(tp, x);
        let eq = evaluate(tq, x);
        F::lemma_distributive(x, ep, eq);
        lemma_add_swap(p[0], coeff(q, 0), x.spec_mul(ep), x.spec_mul(eq));
        if q.len() == 0 {
            assert(eq == z);
            F::lemma_mul_zero(x);
            F::lemma_add_zero(z);
        }
    }
}

/// The polynomial `q` with every coefficient raised one degree.
pub open spec fn shift<F: Field>(q: Seq<F>) -> Seq<F> {
    seq![F::spec_zero()] + q
}

/// `(a + b x) p(x)` is what `mul_linear` evaluates to.
pub proof fn lemma_evaluate_mul_linear<F: Field>(p: Seq<F>, a: F, b: F, x: F)
    ensures
        evaluate(mul_linear(p, a, b), x) == evaluate(p, x).spec_mul(a.spec_add(x.spec_mul(b))),
{
    let z = F::spec_zero();
    let ml = mul_linear(p, a, b);
    let hi = shift(scale(p, b));
    let lo = scale(p, a);
    F::lemma_mul_commutative(z, a);
    F::lemma_mul_zero(a);
    F::lemma_mul_commutative(z, b);
    F::lemma_mul_zero(b);
    assert forall|n: int| 0 <= n < ml.len() implies #[trigger] ml[n] == poly_add(hi, lo)[n] by {
        F::lemma_add_commutative(coeff(p, n).spec_mul(a), coeff(p, n - 1).spec_mul(b));
        if n == 0 {
            lemma_zero_add(coeff(lo, 0));
            F::lemma_add_zero(coeff(lo, 0));
        }
    }
    assert(ml =~= poly_add(hi, lo));
    lemma_evaluate_poly_add(hi, lo, x);
    let e = evaluate(p, x);
    assert(hi.subrange(1, hi.len() as int) =~= scale(p, b));
    lemma_evaluate_scale(p, b, x);
    lemma_evaluate_scale(p, a, x);
    lemma_zero_add(x.spec_mul(e.spec_mul(b)));
    // x (e b) == e (x b)
    F::lemma_mul_associative(x, e, b);
    F::lemma_mul_commutative(x, e);
    F::lemma_mul_associative(e, x, b);
    F::lemma_distributive(e, a, x.spec_mul(b));
    F::lemma_add_commutative(e.spec_mul(x.spec_mul(b)), e.spec_mul(a));
}

pub proof fn lemma_pair_poly_len<F: Field>(tables: Seq<Seq<F>>, i: int, m: int)
    requires
        m >= 0,
    ensures
        pair_poly(tables, i, m).len() == m + 1,
    decreases m,
{
    if m > 0 {
        lemma_pair_poly_len(tables, i, m - 1);
    }
}

pub proof fn lemma_round_poly_len<F: Field>(tables: Seq<Seq<F>>, h: int)
    ensures
        round_poly(tables, h).len() == tables.len() + 1,
    decreases h,
{
    if h > 0 {
        lemma_round_poly_len(tables, h - 1);
    }
}

/// Along the pair `2i`, `2i + 1`, the first `m` factors evaluate at `x` to
/// the product of the folded tables at `i`.
pub proof fn lemma_evaluate_pair_poly<F: Field>(tables: Seq<Seq<F>>, i: int, m: int, x: F)
    requires
        0 <= i,
        0 <= m <= tables.len(),
        forall|j: int| 0 <= j < m ==> 2 * i + 1 < (#[trigger] tables[j]).len(),
    ensures
        evaluate(pair_poly(tables, i, m), x) == product_at(fold_all(tables, x).take(m), i),
    decreases m,
{
    let folded = fold_all(tables, x);
    if m == 0 {
        let one = seq![F::spec_one()];
        assert(one.subrange(1, 1) =~= Seq::<F>::empty());
        F::lemma_mul_zero(x);
        F::lemma_add_zero(F::spec_one());
        assert(folded.take(0) =~= Seq::<Seq<F>>::empty());
        assert(evaluate(one, x) == F::spec_one().spec_add(x.spec_mul(evaluate(one.subrange(1, 1), x))));
        assert(evaluate(pair_poly(tables, i, m), x) == F::spec_one());
        assert(product_at(folded.take(m), i) == F::spec_one());
    } else {
        let t = tables[m - 1];
        assert(2 * i + 1 < t.len());
        lemma_evaluate_pair_poly(tables, i, m - 1, x);
        lemma_evaluate_mul_linear(
            pair_poly(tables, i, m - 1),
            t[2 * i],
            t[2 * i + 1].spec_add(t[2 * i]),
            x,
        );
        assert(folded.take(m).drop_last() =~= folded.take(m - 1));
        assert(folded.take(m).last() == fold(t, x));
        assert(fold(t, x)[i] == t[2 * i].spec_add(x.spec_mul(t[2 * i + 1].spec_add(t[2 * i]))));
        assert(evaluate(pair_poly(tables, i, m), x) == evaluate(pair_poly(tables, i, m - 1), x).spec_mul(fold(t, x)[i]));
    }
}

/// Evaluation of a zero polynomial gives zero.
pub proof fn lemma_evaluate_zero_poly<F: Field>(len: nat, x: F)
    ensures
        evaluate(zero_poly::<F>(len), x) == F::spec_zero(),
    decreases len,
{
    if len > 0 {
        let zp = zero_poly::<F>(len);
        assert(zp.subrange(1, zp.len() as int) =~= zero_poly::<F>((len - 1) as nat));
        lemma_evaluate_zero_poly::<F>((len - 1) as nat, x);
        F::lemma_mul_zero(x);
        F::lemma_add_zero(F::spec_zero());
    }
}

/// The round polynomial evaluates at `x` to the sum of the composite over
/// the tables folded by `x`.
pub proof fn lemma_evaluate_round_poly<F: Field>(tables: Seq<Seq<F>>, h: int, x: F)
    requires
        0 <= h,
        forall|j: int| 0 <= j < tables.len() ==> 2 * h <= (#[trigger] tables[j]).len(),
    ensures
        evaluate(round_poly(tables, h), x) == hypercube_sum(fold_all(tables, x), h),
    decreases h,
{
    if h == 0 {
        lemma_evaluate_zero_poly::<F>((tables.len() + 1) as nat, x);
    } else {
        let k = tables.len() as int;
        lemma_evaluate_round_poly(tables, h - 1, x);
        lemma_round_poly_len(tables, h - 1);
        lemma_pair_poly_len(tables, h - 1, k);
        lemma_evaluate_poly_add(round_poly(tables, h - 1), pair_poly(tables, h - 1, k), x);
        lemma_evaluate_pair_poly(tables, h - 1, k, x);
        assert(fold_all(tables, x).take(k) =~= fold_all(tables, x));
    }
}

/// Folding by zero picks the even entries, folding by one the odd ones.
pub proof fn lemma_product_fold_boolean<F: Field>(tables: Seq<Seq<F>>, i: int)
    requires
        0 <= i,
        forall|j: int| 0 <= j < tables.len() ==> 2 * i + 1 < (#[trigger] tables[j]).len(),
    ensures
        product_at(fold_all(tables, F::spec_zero()), i) == product_at(tables, 2 * i),
        product_at(fold_all(tables, F::spec_one()), i) == product_at(tables, 2 * i + 1),
    decreases tables.len(),
{
    if tables.len() > 0 {
        let t = tables.last();
        let z = F::spec_zero();
        let o = F::spec_one();
        assert(fold_all(tables, z).drop_last() =~= fold_all(tables.drop_last(), z));
        assert(fold_all(tables, o).drop_last() =~= fold_all(tables.drop_last(), o));
        lemma_product_fold_boolean(tables.drop_last(), i);
        let d = t[2 * i + 1].spec_add(t[2 * i]);
        F::lemma_mul_commutative(z, d);
        F::lemma_mul_zero(d);
        F::lemma_add_zero(t[2 * i]);
        F::lemma_mul_commutative(o, d);
        F::lemma_mul_one(d);
        F::lemma_add_commutative(t[2 * i], d);
        lemma_add_cancel(t[2 * i], t[2 * i + 1]);
    }
}

/// The round polynomial reproduces the sum over the hypercube:
/// `p(0) + p(1)` is the composite's sum over all `2h` indices.
pub proof fn lemma_round_poly_sum<F: Field>(tables: Seq<Seq<F>>, h: int)
    requires
        0 <= h,
        forall|j: int| 0 <= j < tables.len() ==> 2 * h <= (#[trigger] tables[j]).len(),
    ensures
        sum_over_boolean(round_poly(tables, h)) == hypercube_sum(tables, 2 * h),
{
    lemma_evaluate_round_poly(tables, h, F::spec_zero());
    lemma_evaluate_round_poly(tables, h, F::spec_one());
    lemma_split_even_odd(tables, h);
}

/// The sums over the even and over the odd indices below `2h` add up to the
/// sum over all of them.
proof fn lemma_split_even_odd<F: Field>(tables: Seq<Seq<F>>, h: int)
    requires
        0 <= h,
        forall|j: int| 0 <= j < tables.len() ==> 2 * h <= (#[trigger] tables[j]).len(),
    ensures
        hypercube_sum(fold_all(tables, F::spec_zero()), h).spec_add(
            hypercube_sum(fold_all(tables, F::spec_one()), h),
        ) == hypercube_sum(tables, 2 * h),
    decreases h,
{
    let evens = fold_all(tables, F::spec_zero());
    let odds = fold_all(tables, F::spec_one());
    if h == 0 {
        F::lemma_add_zero(F::spec_zero());
    } else {
        lemma_split_even_odd(tables, h - 1);
        lemma_product_fold_boolean(tables, h - 1);
        lemma_add_swap(
            hypercube_sum(evens, h - 1),
            product_at(evens, h - 1),
            hypercube_sum(odds, h - 1),
            product_at(odds, h - 1),
        );
        F::lemma_add_associative(
            hypercube_sum(tables, 2 * h - 2),
            product_at(tables, 2 * h - 2),
            product_at(tables, 2 * h - 1),
        );
        assert(hypercube_sum(tables, 2 * h - 1) == hypercube_sum(tables, 2 * h - 2).spec_add(
            product_at(tables, 2 * h - 2),
        ));
        assert(hypercube_sum(evens, h) == hypercube_sum(evens, h - 1).spec_add(
            product_at(evens, h - 1),
        ));
        assert(hypercube_sum(odds, h) == hypercube_sum(odds, h - 1).spec_add(
            product_at(odds, h - 1),
        ));
    }
}

/// The multilinear Lagrange weight of hypercube index `x` at point `r`:
/// `prod_v (x_v ? r_v : 1 + r_v)`, bit `v` of `x` paired with `r[v]`.
pub open spec fn eq_weight<F: Field>(x: int, r: Seq<F>) -> F
    decreases r.len(),
{
    if r.len() == 0 {
        F::spec_one()
    } else {
        let factor = if x % 2 == 1 {
            r[0]
        } else {
            F::spec_one().spec_add(r[0])
        };
        factor.spec_mul(eq_weight(x / 2, r.subrange(1, r.len() as int)))
    }
}

/// `sum_{x < n} t[x] eq(x, r)`.
pub open spec fn weighted_sum<F: Field>(t: Seq<F>, r: Seq<F>, n: int) -> F
    decreases n,
{
    if n <= 0 {
        F::spec_zero()
    } else {
        weighted_sum(t, r, n - 1).spec_add(t[n - 1].spec_mul(eq_weight(n - 1, r)))
    }
}

/// The value at `r` of the multilinear polynomial whose values on the
/// hypercube are the table `t`.
pub open spec fn multilinear_eval<F: Field>(t: Seq<F>, r: Seq<F>) -> F {
    weighted_sum(t, r, t.len() as int)
}

/// `a ((1 + c) e) + b (c e) == (a + c (b + a)) e`: one pair of weighted
/// entries gives the folded entry's weight.
proof fn lemma_pair_weight<F: Field>(a: F, b: F, c: F, e: F)
    ensures
        a.spec_mul(F::spec_one().spec_add(c).spec_mul(e)).spec_add(b.spec_mul(c.spec_mul(e))) == a.spec_add(
            c.spec_mul(b.spec_add(a)),
        ).spec_mul(e),
{
    let one = F::spec_one();
    // a ((1 + c) e) = (a (1 + c)) e = (a + a c) e
    F::lemma_mul_associative(a, one.spec_add(c), e);
    F::lemma_distributive(a, one, c);
    F::lemma_mul_one(a);
    F::lemma_mul_commutative(a, one);
    // b (c e) = (b c) e
    F::lemma_mul_associative(b, c, e);
    // (a + a c) e + (b c) e = ((a + a c) + b c) e
    lemma_distributive_right(e, a.spec_add(a.spec_mul(c)), b.spec_mul(c));
    // (a + a c) + b c = a + (a c + b c) = a + c (b + a)
    F::lemma_add_associative(a, a.spec_mul(c), b.spec_mul(c));
    F::lemma_mul_commutative(a, c);
    F::lemma_mul_commutative(b, c);
    F::lemma_distributive(c, b, a);
    F::lemma_add_commutative(c.spec_mul(a), c.spec_mul(b));
}

/// Folding by `r[0]` binds variable 0: the weighted sum of the first `2h`
/// entries at `r` is that of the first `h` folded entries at the rest of `r`.
pub proof fn lemma_weighted_sum_fold<F: Field>(t: Seq<F>, r: Seq<F>, h: int)
    requires
        r.len() >= 1,
        0 <= h,
        2 * h <= t.len(),
    ensures
        weighted_sum(t, r, 2 * h) == weighted_sum(
            fold(t, r[0]),
            r.subrange(1, r.len() as int),
            h,
        ),
    decreases h,
{
    if h > 0 {
        let rest = r.subrange(1, r.len() as int);
        let folded = fold(t, r[0]);
        lemma_weighted_sum_fold(t, r, h - 1);
        let e = eq_weight(h - 1, rest);
        assert((2 * h - 2) % 2 == 0 && (2 * h - 2) / 2 == h - 1);
        assert((2 * h - 1) % 2 == 1 && (2 * h - 1) / 2 == h - 1);
        assert(eq_weight(2 * h - 2, r) == F::spec_one().spec_add(r[0]).spec_mul(e));
        assert(eq_weight(2 * h - 1, r) == r[0].spec_mul(e));
        lemma_pair_weight(t[2 * h - 2], t[2 * h - 1], r[0], e);
        assert(folded[h - 1] == t[2 * h - 2].spec_add(
            r[0].spec_mul(t[2 * h - 1].spec_add(t[2 * h - 2])),
        ));
        F::lemma_add_associative(
            weighted_sum(t, r, 2 * h - 2),
            t[2 * h - 2].spec_mul(eq_weight(2 * h - 2, r)),
            t[2 * h - 1].spec_mul(eq_weight(2 * h - 1, r)),
        );
        assert(weighted_sum(t, r, 2 * h - 1) == weighted_sum(t, r, 2 * h - 2).spec_add(
            t[2 * h - 2].spec_mul(eq_weight(2 * h - 2, r)),
        ));
    }
}

} // verus!
