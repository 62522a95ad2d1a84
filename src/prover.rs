//! Honest prover of plain sumcheck for a product of multilinear polynomials.
use vstd::prelude::*;

use crate::abstract_sumcheck::{
    finalize_order_error,
    round_order_error,
    AbstractSumcheckProof,
    AbstractSumcheckProver,
    AbstractSumcheckReductor,
    AbstractSumcheckRound,
    Error,
};
use crate::evalcheck::{CompositePolyOracle, EvalcheckClaim};
use crate::field::Field;
use crate::multilinear::{
    all_len,
    eq_weight,
    fold,
    fold_all,
    fold_tables,
    hypercube_sum,
    lemma_evaluate_round_poly,
    lemma_round_poly_len,
    lemma_round_poly_sum,
    lemma_weighted_sum_fold,
    multilinear_eval,
    product_at,
    product_at_exec,
    round_poly,
    round_poly_exec,
    tables_view,
    weighted_sum,
};
use crate::polynomial::{copy_vec, lemma_zero_add};
use crate::sumcheck::{
    completed_coeffs,
    lemma_recovered_sum,
    lemma_trim_recover_round_trip,
    messages_coeffs,
    reduce_rounds,
    round_coeffs,
    trimmed_coeffs,
    SumcheckReductor,
};

verus! {

/// The number of points of the `n`-dimensional Boolean hypercube.
pub open spec fn hypercube_size(n: nat) -> nat
    decreases n,
{
    if n == 0 {
        1
    } else {
        2 * hypercube_size((n - 1) as nat)
    }
}

/// The round polynomial of a family of tables of equal length, all its
/// coefficients.
pub open spec fn round_poly_of<F: Field>(tables: Seq<Seq<F>>) -> Seq<F> {
    round_poly(tables, (tables[0].len() / 2) as int)
}

/// The tables folded by `challenge` when there is one, else unchanged.
pub open spec fn bound_by<F: Field>(tables: Seq<Seq<F>>, challenge: Option<F>) -> Seq<Seq<F>> {
    match challenge {
        Some(c) => fold_all(tables, c),
        None => tables,
    }
}

/// Prover of the claim that the product of the tables' multilinear
/// polynomials sums to a value over the hypercube. The composition has degree
/// one per table in each variable, so `poly_oracle.max_individual_degree` is
/// the number of tables.
pub struct SumcheckProver<F> {
    pub poly_oracle: CompositePolyOracle,
    /// The witness tables, with the challenges received so far bound.
    pub tables: Vec<Vec<F>>,
    /// Rounds executed so far.
    pub round: usize,
    /// The challenges bound into `tables`, in round order.
    pub challenges: Vec<F>,
}

/// `2^n`, or `None` when it does not fit in a `usize`.
fn hypercube_size_exec(n: usize) -> (r: Option<usize>)
    ensures
        r matches Some(v) ==> v == hypercube_size(n as nat),
        r is None ==> hypercube_size(n as nat) > usize::MAX,
{
    let mut v: usize = 1;
    let mut i: usize = 0;
    while i < n
        invariant
            i <= n,
            v == hypercube_size(i as nat),
        decreases n - i,
    {
        if v > usize::MAX / 2 {
            proof {
                lemma_hypercube_size_monotone((i + 1) as nat, n as nat);
            }
            return None;
        }
        v = v * 2;
        i = i + 1;
    }
    Some(v)
}

proof fn lemma_hypercube_size_monotone(a: nat, b: nat)
    requires
        a <= b,
    ensures
        hypercube_size(a) <= hypercube_size(b),
    decreases b - a,
{
    if a < b {
        lemma_hypercube_size_monotone(a, (b - 1) as nat);
    }
}

impl<F: Field> SumcheckProver<F> {
    /// The number of challenges bound into the tables after `round` rounds.
    pub open spec fn spec_n_bound(round: nat) -> nat {
        if round == 0 {
            0
        } else {
            (round - 1) as nat
        }
    }

    /// Starts a run on `tables`, one table of `2^n_vars` values per factor of
    /// the product. The witness is refused unless there is at least one table,
    /// the number of tables is the oracle's degree, and every table has
    /// `2^n_vars` values.
    pub fn new(poly_oracle: CompositePolyOracle, tables: Vec<Vec<F>>) -> (r: Result<Self, Error>)
        ensures
            match r {
                Ok(p) => {
                    &&& p.wf()
                    &&& p.round == 0
                    &&& p.poly_oracle == poly_oracle
                    &&& tables_view(&p.tables) == tables_view(&tables)
                },
                Err(e) => e == Error::ImproperWitness,
            },
            r is Ok <==> {
                &&& tables.len() >= 1
                &&& tables.len() < usize::MAX
                &&& tables.len() == poly_oracle.max_individual_degree
                &&& all_len(tables_view(&tables), hypercube_size(poly_oracle.n_vars as nat))
            },
    {
        let k = tables.len();
        if k == 0 || k == usize::MAX || k != poly_oracle.max_individual_degree {
            return Err(Error::ImproperWitness);
        }
        let size = match hypercube_size_exec(poly_oracle.n_vars) {
            Some(v) => v,
            None => {
                let first_len = tables[0].len();
                assert(tables_view(&tables)[0].len() == first_len);
                return Err(Error::ImproperWitness);
            },
        };
        let mut j: usize = 0;
        while j < k
            invariant
                k == tables.len(),
                j <= k,
                size == hypercube_size(poly_oracle.n_vars as nat),
                forall|m: int| 0 <= m < j ==> (#[trigger] tables@[m])@.len() == size,
            decreases k - j,
        {
            if tables[j].len() != size {
                assert(tables_view(&tables)[j as int] == tables@[j as int]@);
                return Err(Error::ImproperWitness);
            }
            j = j + 1;
        }
        let r = SumcheckProver { poly_oracle, tables, round: 0, challenges: Vec::new() };
        assert(all_len(tables_view(&r.tables), hypercube_size(poly_oracle.n_vars as nat)));
        Ok(r)
    }
}

impl<F: Field> AbstractSumcheckProver<F> for SumcheckProver<F> {
    open spec fn wf(&self) -> bool {
        let n_bound = Self::spec_n_bound(self.round as nat);
        &&& self.tables.len() >= 1
        &&& self.tables.len() < usize::MAX
        &&& self.tables.len() == self.poly_oracle.max_individual_degree
        &&& self.round <= self.poly_oracle.n_vars
        &&& self.challenges@.len() == n_bound
        &&& all_len(
            tables_view(&self.tables),
            hypercube_size((self.poly_oracle.n_vars - n_bound) as nat),
        )
    }

    open spec fn spec_round(&self) -> nat {
        self.round as nat
    }

    open spec fn spec_n_rounds(&self) -> nat {
        self.poly_oracle.n_vars as nat
    }

    open spec fn spec_round_message(&self, prev_rd_challenge: Option<F>) -> Seq<F> {
        trimmed_coeffs(round_poly_of(bound_by(tables_view(&self.tables), prev_rd_challenge)))
    }

    open spec fn spec_is_next_state(&self, next: &Self, prev_rd_challenge: Option<F>) -> bool {
        &&& next.poly_oracle == self.poly_oracle
        &&& next.round == self.round + 1
        &&& tables_view(&next.tables) == bound_by(tables_view(&self.tables), prev_rd_challenge)
        &&& next.challenges@ == match prev_rd_challenge {
            Some(c) => self.challenges@.push(c),
            None => self.challenges@,
        }
    }

    open spec fn spec_final_point(&self, prev_rd_challenge: Option<F>) -> Seq<F> {
        match prev_rd_challenge {
            Some(c) => self.challenges@.push(c),
            None => self.challenges@,
        }
    }

    open spec fn spec_final_eval(&self, prev_rd_challenge: Option<F>) -> F {
        product_at(bound_by(tables_view(&self.tables), prev_rd_challenge), 0)
    }

    open spec fn spec_poly_oracle(&self) -> CompositePolyOracle {
        self.poly_oracle
    }

    fn execute_round(&mut self, prev_rd_challenge: Option<F>) -> (r: Result<
        AbstractSumcheckRound<F>,
        Error,
    >) {
        if self.round >= self.poly_oracle.n_vars {
            return Err(Error::RoundsExhausted);
        }
        if self.round == 0 && prev_rd_challenge.is_some() {
            return Err(Error::UnexpectedChallenge);
        }
        if self.round > 0 && prev_rd_challenge.is_none() {
            return Err(Error::ExpectedChallenge);
        }
        let ghost n = self.poly_oracle.n_vars as nat;
        let ghost n_bound = Self::spec_n_bound(self.round as nat);
        let ghost before = tables_view(&self.tables);
        assert(self.tables@.len() >= 1);
        let mut len = self.tables[0].len();
        assert(before[0] == self.tables@[0]@);
        match prev_rd_challenge {
            Some(c) => {
                let folded = fold_tables(&self.tables, c);
                self.tables = folded;
                self.challenges.push(c);
                len = len / 2;
                proof {
                    assert(n - n_bound > 0);
                    assert(hypercube_size((n - n_bound) as nat) == 2 * hypercube_size(
                        (n - n_bound - 1) as nat,
                    ));
                    assert(all_len(tables_view(&self.tables), len as nat));
                }
            },
            None => {},
        }
        let ghost now = tables_view(&self.tables);
        assert(now.len() == self.tables@.len());
        assert(self.tables@.len() >= 1);
        assert(now[0] == self.tables@[0]@);
        let mut coeffs = round_poly_exec(&self.tables, len);
        coeffs.pop();
        self.round = self.round + 1;
        Ok(AbstractSumcheckRound { coeffs })
    }

    fn finalize(self, prev_rd_challenge: Option<F>) -> (r: Result<EvalcheckClaim<F>, Error>) {
        if self.round != self.poly_oracle.n_vars {
            return Err(Error::RoundsRemaining);
        }
        if self.round == 0 && prev_rd_challenge.is_some() {
            return Err(Error::UnexpectedChallenge);
        }
        if self.round > 0 && prev_rd_challenge.is_none() {
            return Err(Error::ExpectedChallenge);
        }
        let SumcheckProver { poly_oracle, tables, round, challenges } = self;
        let ghost n = poly_oracle.n_vars as nat;
        let ghost before = tables_view(&tables);
        let mut point = copy_vec(&challenges);
        let last = match prev_rd_challenge {
            Some(c) => {
                point.push(c);
                let folded = fold_tables(&tables, c);
                proof {
                    assert(hypercube_size(0) == 1);
                    assert(hypercube_size(1) == 2);
                    assert(round == n && n >= 1);
                    assert(all_len(before, hypercube_size(1)));
                    assert(tables_view(&folded).len() == before.len());
                    assert forall|j: int| 0 <= j < folded@.len() implies 0 < (
                    #[trigger] folded@[j]).len() by {
                        assert(folded@[j]@ == tables_view(&folded)[j]);
                        assert(before[j].len() == 2);
                    }
                }
                folded
            },
            None => {
                proof {
                    assert(hypercube_size(0) == 1);
                    assert(forall|j: int|
                        0 <= j < tables@.len() ==> (#[trigger] tables@[j])@ == before[j]);
                }
                tables
            },
        };
        let eval = product_at_exec(&last, 0);
        Ok(EvalcheckClaim { poly: poly_oracle, eval_point: point, eval })
    }
}

/// The tables once the first `m` challenges are bound, in round order.
pub open spec fn tables_after<F: Field>(tables: Seq<Seq<F>>, challenges: Seq<F>, m: int) -> Seq<
    Seq<F>,
>
    decreases m,
{
    if m <= 0 {
        tables
    } else {
        fold_all(tables_after(tables, challenges, m - 1), challenges[m - 1])
    }
}

/// The honest prover's messages of the first `m` rounds under `challenges`.
pub open spec fn honest_messages<F: Field>(tables: Seq<Seq<F>>, challenges: Seq<F>, m: int) -> Seq<
    Seq<F>,
> {
    Seq::new(
        m as nat,
        |r: int| trimmed_coeffs(round_poly_of(tables_after(tables, challenges, r))),
    )
}

proof fn lemma_tables_after_len<F: Field>(tables: Seq<Seq<F>>, n: nat, challenges: Seq<F>, m: int)
    requires
        0 <= m <= n,
        all_len(tables, hypercube_size(n)),
    ensures
        tables_after(tables, challenges, m).len() == tables.len(),
        all_len(tables_after(tables, challenges, m), hypercube_size((n - m) as nat)),
    decreases m,
{
    if m > 0 {
        lemma_tables_after_len(tables, n, challenges, m - 1);
        assert(hypercube_size((n - m + 1) as nat) == 2 * hypercube_size((n - m) as nat));
    }
}

/// Reducing the honest messages of the first `m` rounds keeps the claim equal
/// to the true sum of the composite over the tables bound so far.
proof fn lemma_honest_rounds<F: Field>(tables: Seq<Seq<F>>, n: nat, challenges: Seq<F>, m: int)
    requires
        1 <= tables.len() < usize::MAX,
        n <= usize::MAX,
        all_len(tables, hypercube_size(n)),
        challenges.len() == n,
        0 <= m <= n,
    ensures
        reduce_rounds(
            &SumcheckReductor { max_individual_degree: tables.len() as usize },
            hypercube_sum(tables, hypercube_size(n) as int),
            honest_messages(tables, challenges, m),
            challenges,
        ) == Ok::<(Seq<F>, F), Error>(
            (
                challenges.take(m),
                hypercube_sum(
                    tables_after(tables, challenges, m),
                    hypercube_size((n - m) as nat) as int,
                ),
            ),
        ),
    decreases m,
{
    let reductor = SumcheckReductor { max_individual_degree: tables.len() as usize };
    let rounds = honest_messages(tables, challenges, m);
    if m == 0 {
        assert(rounds =~= Seq::<Seq<F>>::empty());
        assert(challenges.take(0) =~= Seq::<F>::empty());
    } else {
        lemma_honest_rounds(tables, n, challenges, m - 1);
        assert(rounds.take(m - 1) =~= honest_messages(tables, challenges, m - 1));
        lemma_tables_after_len(tables, n, challenges, m - 1);
        let t = tables_after(tables, challenges, m - 1);
        let h = hypercube_size((n - m) as nat) as int;
        assert(hypercube_size((n - m + 1) as nat) == 2 * h);
        assert(t[0].len() == 2 * h);
        let full = round_poly(t, h);
        assert(round_poly_of(t) == full);
        lemma_round_poly_len(t, h);
        lemma_round_poly_sum(t, h);
        lemma_trim_recover_round_trip(full);
        let c = challenges[m - 1];
        lemma_evaluate_round_poly(t, h, c);
        assert(challenges.take(m - 1).push(c) =~= challenges.take(m));
        assert(rounds[m - 1] == trimmed_coeffs(full));
        assert(reductor.spec_round_error(
            (m - 1) as usize,
            challenges.take(m - 1),
            hypercube_sum(t, 2 * h),
            rounds[m - 1],
        ) is None);
    }
}

/// Completeness: for any witness, the honest prover's messages pass every
/// round of the verifier under any challenges, starting from the true sum over
/// the hypercube; the verifier's final claim is the value the prover's own
/// final claim holds, and both are the composite's value at the challenge
/// point, the product of the tables' multilinear extensions there.
pub proof fn lemma_completeness<F: Field>(tables: Seq<Seq<F>>, n: nat, challenges: Seq<F>)
    requires
        1 <= tables.len() < usize::MAX,
        n <= usize::MAX,
        all_len(tables, hypercube_size(n)),
        challenges.len() == n,
    ensures
        reduce_rounds(
            &SumcheckReductor { max_individual_degree: tables.len() as usize },
            hypercube_sum(tables, hypercube_size(n) as int),
            honest_messages(tables, challenges, n as int),
            challenges,
        ) == Ok::<(Seq<F>, F), Error>(
            (challenges, product_at(tables_after(tables, challenges, n as int), 0)),
        ),
        product_at(tables_after(tables, challenges, n as int), 0) == composite_eval(
            tables,
            challenges,
        ),
{
    lemma_final_value(tables, n, challenges);
    lemma_honest_rounds(tables, n, challenges, n as int);
    assert(challenges.take(n as int) =~= challenges);
    assert(hypercube_size(0) == 1);
    let tn = tables_after(tables, challenges, n as int);
    lemma_zero_add(product_at(tn, 0));
    assert(hypercube_sum(tn, 1) == hypercube_sum(tn, 0).spec_add(product_at(tn, 0)));
}

/// Table `t` with the challenges `r[0..m]` bound in order.
pub open spec fn fold_seq<F: Field>(t: Seq<F>, r: Seq<F>, m: int) -> Seq<F>
    decreases m,
{
    if m <= 0 {
        t
    } else {
        fold(fold_seq(t, r, m - 1), r[m - 1])
    }
}

/// The value at `r` of the composite: the product of the tables' multilinear
/// extensions there.
pub open spec fn composite_eval<F: Field>(tables: Seq<Seq<F>>, r: Seq<F>) -> F
    decreases tables.len(),
{
    if tables.len() == 0 {
        F::spec_one()
    } else {
        composite_eval(tables.drop_last(), r).spec_mul(multilinear_eval(tables.last(), r))
    }
}

proof fn lemma_tables_after_entry<F: Field>(tables: Seq<Seq<F>>, challenges: Seq<F>, m: int)
    requires
        m >= 0,
    ensures
        tables_after(tables, challenges, m).len() == tables.len(),
        forall|j: int|
            0 <= j < tables.len() ==> #[trigger] tables_after(tables, challenges, m)[j] == fold_seq(
                tables[j],
                challenges,
                m,
            ),
    decreases m,
{
    if m > 0 {
        lemma_tables_after_entry(tables, challenges, m - 1);
    }
}

proof fn lemma_fold_seq_len<F: Field>(t: Seq<F>, r: Seq<F>, n: nat, m: int)
    requires
        0 <= m <= n,
        t.len() == hypercube_size(n),
    ensures
        fold_seq(t, r, m).len() == hypercube_size((n - m) as nat),
    decreases m,
{
    if m > 0 {
        lemma_fold_seq_len(t, r, n, m - 1);
        assert(hypercube_size((n - m + 1) as nat) == 2 * hypercube_size((n - m) as nat));
    }
}

/// Binding the first `m` variables keeps the multilinear extension's value.
proof fn lemma_weighted_sum_fold_seq<F: Field>(t: Seq<F>, r: Seq<F>, n: nat, m: int)
    requires
        0 <= m <= n,
        t.len() == hypercube_size(n),
        r.len() == n,
    ensures
        weighted_sum(t, r, hypercube_size(n) as int) == weighted_sum(
            fold_seq(t, r, m),
            r.subrange(m, n as int),
            hypercube_size((n - m) as nat) as int,
        ),
    decreases m,
{
    if m == 0 {
        assert(r.subrange(0, n as int) =~= r);
    } else {
        lemma_weighted_sum_fold_seq(t, r, n, m - 1);
        lemma_fold_seq_len(t, r, n, m - 1);
        let tail = r.subrange(m - 1, n as int);
        assert(tail.subrange(1, tail.len() as int) =~= r.subrange(m, n as int));
        assert(hypercube_size((n - m + 1) as nat) == 2 * hypercube_size((n - m) as nat));
        lemma_weighted_sum_fold(
            fold_seq(t, r, m - 1),
            tail,
            hypercube_size((n - m) as nat) as int,
        );
    }
}

/// A table's multilinear extension at `r` is the single entry left once all
/// of `r` is bound by folding.
pub proof fn lemma_multilinear_eval_by_folding<F: Field>(t: Seq<F>, r: Seq<F>, n: nat)
    requires
        t.len() == hypercube_size(n),
        r.len() == n,
    ensures
        multilinear_eval(t, r) == fold_seq(t, r, n as int)[0],
{
    lemma_weighted_sum_fold_seq(t, r, n, n as int);
    lemma_fold_seq_len(t, r, n, n as int);
    let u = fold_seq(t, r, n as int);
    let empty = r.subrange(n as int, n as int);
    assert(empty.len() == 0);
    assert(hypercube_size(0) == 1);
    assert(weighted_sum(u, empty, 1) == weighted_sum(u, empty, 0).spec_add(
        u[0].spec_mul(eq_weight(0, empty)),
    ));
    F::lemma_mul_one(u[0]);
    lemma_zero_add(u[0]);
}

/// Once every challenge is bound, the product of the tables' single entries
/// is the composite's value at the challenge point.
pub proof fn lemma_final_value<F: Field>(tables: Seq<Seq<F>>, n: nat, challenges: Seq<F>)
    requires
        all_len(tables, hypercube_size(n)),
        challenges.len() == n,
    ensures
        product_at(tables_after(tables, challenges, n as int), 0) == composite_eval(
            tables,
            challenges,
        ),
    decreases tables.len(),
{
    lemma_tables_after_entry(tables, challenges, n as int);
    if tables.len() > 0 {
        let front = tables.drop_last();
        lemma_final_value(front, n, challenges);
        lemma_tables_after_entry(front, challenges, n as int);
        let after = tables_after(tables, challenges, n as int);
        assert(after.drop_last() =~= tables_after(front, challenges, n as int));
        lemma_multilinear_eval_by_folding(tables.last(), challenges, n);
        assert(after.last() == fold_seq(tables.last(), challenges, n as int));
    }
}

/// With a false claimed sum, the polynomial the verifier reconstructs from
/// the honest first message is not the true first round polynomial.
pub proof fn lemma_false_sum_alters_first_round<F: Field>(
    tables: Seq<Seq<F>>,
    n: nat,
    claimed_sum: F,
)
    requires
        1 <= tables.len() < usize::MAX,
        n >= 1,
        all_len(tables, hypercube_size(n)),
        claimed_sum != hypercube_sum(tables, hypercube_size(n) as int),
    ensures
        completed_coeffs(
            tables.len(),
            claimed_sum,
            trimmed_coeffs(round_poly_of(tables)),
        ) != round_poly_of(tables),
{
    let h = hypercube_size((n - 1) as nat) as int;
    let full = round_poly_of(tables);
    assert(tables[0].len() == 2 * h);
    lemma_round_poly_len(tables, h);
    lemma_round_poly_sum(tables, h);
    let msg = trimmed_coeffs(full);
    lemma_recovered_sum(claimed_sum, msg);
}

/// Runs every round of `prover`, round `i` answering `challenges[i - 1]`, and
/// finalizes it with the last challenge.
pub fn prove<F: Field>(prover: SumcheckProver<F>, challenges: &Vec<F>) -> (r: Result<
    (AbstractSumcheckProof<F>, EvalcheckClaim<F>),
    Error,
>)
    requires
        prover.wf(),
        prover.round == 0,
    ensures
        challenges.len() != prover.poly_oracle.n_vars ==> r == Err::<
            (AbstractSumcheckProof<F>, EvalcheckClaim<F>),
            Error,
        >(Error::NumberOfChallenges),
        challenges.len() == prover.poly_oracle.n_vars ==> (r matches Ok((proof, claim)) && {
            let n = prover.poly_oracle.n_vars as int;
            let start = tables_view(&prover.tables);
            &&& round_coeffs(&proof) == honest_messages(start, challenges@, n)
            &&& claim.poly == prover.poly_oracle
            &&& claim.eval_point@ == challenges@
            &&& claim.eval == product_at(tables_after(start, challenges@, n), 0)
            &&& claim.eval == composite_eval(start, challenges@)
        }),
{
    let n = prover.poly_oracle.n_vars;
    if challenges.len() != n {
        return Err(Error::NumberOfChallenges);
    }
    let ghost start = tables_view(&prover.tables);
    let ghost oracle = prover.poly_oracle;
    let mut p = prover;
    let mut rounds: Vec<AbstractSumcheckRound<F>> = Vec::new();
    let mut i: usize = 0;
    while i < n
        invariant
            n == oracle.n_vars,
            challenges.len() == n,
            i <= n,
            p.wf(),
            p.poly_oracle == oracle,
            p.round == i,
            i == 0 ==> tables_view(&p.tables) == start,
            i > 0 ==> tables_view(&p.tables) == tables_after(start, challenges@, i - 1),
            p.challenges@ == challenges@.take(if i == 0 { 0 } else { i - 1 }),
            rounds@.len() == i,
            messages_coeffs(rounds@) == honest_messages(
                start,
                challenges@,
                i as int,
            ),
        decreases n - i,
    {
        let prev = if i == 0 {
            None
        } else {
            Some(challenges[i - 1])
        };
        let m = match p.execute_round(prev) {
            Ok(m) => m,
            Err(e) => {
                return Err(e);
            },
        };
        proof {
            assert(tables_view(&p.tables) == tables_after(start, challenges@, i as int));
            if i > 0 {
                assert(challenges@.take(i - 1).push(challenges@[i - 1]) =~= challenges@.take(
                    i as int,
                ));
            }
        }
        let ghost before_push = rounds@;
        assert(m.coeffs@ == trimmed_coeffs(round_poly_of(tables_after(start, challenges@, i as int))));
        rounds.push(m);
        assert(messages_coeffs(rounds@) =~= honest_messages(start, challenges@, i + 1)) by {
            assert(rounds@ == before_push.push(m));
            assert(before_push.len() == i);
            assert(messages_coeffs(before_push) == honest_messages(start, challenges@, i as int));
            assert forall|j: int| 0 <= j <= i implies #[trigger] messages_coeffs(rounds@)[j]
                == honest_messages(start, challenges@, i + 1)[j] by {
                if j < i {
                    assert(messages_coeffs(before_push)[j] == before_push[j].coeffs@);
                }
            }
        }
        i = i + 1;
    }
    let last = if n == 0 {
        None
    } else {
        Some(challenges[n - 1])
    };
    let claim = match p.finalize(last) {
        Ok(c) => c,
        Err(e) => {
            return Err(e);
        },
    };
    proof {
        if n > 0 {
            assert(challenges@.take(n - 1).push(challenges@[n - 1]) =~= challenges@);
        } else {
            assert(challenges@ =~= Seq::<F>::empty());
        }
    }
    proof {
        lemma_final_value(start, n as nat, challenges@);
    }
    let proof = AbstractSumcheckProof { rounds };
    assert(round_coeffs(&proof) == honest_messages(start, challenges@, n as int));
    Ok((proof, claim))
}

} // verus!
