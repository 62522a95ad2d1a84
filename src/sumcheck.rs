//! Plain sumcheck: the reductor whose round polynomials must satisfy
//! `p(0) + p(1) = running sum`, and the verifier loop over a whole proof.
use vstd::prelude::*;

use crate::abstract_sumcheck::{
    AbstractSumcheckProof,
    AbstractSumcheckReductor,
    AbstractSumcheckRound,
    AbstractSumcheckRoundClaim,
    Error,
};
use crate::evalcheck::{CompositePolyOracle, EvalcheckClaim};
use crate::field::Field;
use crate::polynomial::{
    copy_vec,
    evaluate,
    evaluate_univariate,
    lemma_evaluate_one,
    lemma_evaluate_zero,
    lemma_sum_push,
    sum_of,
    sum_over_boolean,
};

verus! {

/// The leading coefficient left out of a trimmed message: the one that makes
/// `p(0) + p(1)` equal `round_sum` for `p = coeffs + a X^d`. In characteristic
/// two subtraction is addition.
pub open spec fn recovered_leading_coeff<F: Field>(round_sum: F, coeffs: Seq<F>) -> F {
    round_sum.spec_add(sum_over_boolean(coeffs))
}

/// The message with its leading coefficient restored when it was trimmed.
pub open spec fn completed_coeffs<F: Field>(
    max_individual_degree: nat,
    round_sum: F,
    coeffs: Seq<F>,
) -> Seq<F> {
    if coeffs.len() == max_individual_degree {
        coeffs.push(recovered_leading_coeff(round_sum, coeffs))
    } else {
        coeffs
    }
}

/// The round polynomial with its leading coefficient left out.
pub open spec fn trimmed_coeffs<F>(coeffs: Seq<F>) -> Seq<F> {
    coeffs.drop_last()
}

/// Reductor of plain sumcheck for compositions of degree at most
/// `max_individual_degree` in each variable.
///
/// A round message holds either the `d + 1` coefficients of the round
/// polynomial, which must then reproduce the running sum over {0, 1}, or
/// (for `d >= 1`) its `d` lower coefficients, from which the leading one is
/// recovered.
#[derive(Clone, Copy, Debug, PartialEq, Eq, Structural)]
pub struct SumcheckReductor {
    pub max_individual_degree: usize,
}

impl SumcheckReductor {
    pub fn new(max_individual_degree: usize) -> (r: SumcheckReductor)
        ensures
            r.max_individual_degree == max_individual_degree,
    {
        SumcheckReductor { max_individual_degree }
    }

    pub open spec fn is_trimmed_len(&self, n: nat) -> bool {
        n == self.max_individual_degree && n >= 1
    }

    pub open spec fn is_full_len(&self, n: nat) -> bool {
        n == self.max_individual_degree + 1
    }
}

impl<F: Field> AbstractSumcheckReductor<F> for SumcheckReductor {
    open spec fn spec_round_error(
        &self,
        round: usize,
        partial_point: Seq<F>,
        round_sum: F,
        coeffs: Seq<F>,
    ) -> Option<Error> {
        if partial_point.len() != round {
            Some(Error::RoundIndexMismatch { round })
        } else if !self.is_trimmed_len(coeffs.len()) && !self.is_full_len(coeffs.len()) {
            Some(Error::NumberOfCoefficients { round })
        } else if self.is_full_len(coeffs.len()) && sum_over_boolean(coeffs) != round_sum {
            Some(Error::RoundSumMismatch { round })
        } else {
            None
        }
    }

    open spec fn spec_next_round_sum(
        &self,
        round: usize,
        partial_point: Seq<F>,
        round_sum: F,
        challenge: F,
        coeffs: Seq<F>,
    ) -> F {
        evaluate(completed_coeffs(self.max_individual_degree as nat, round_sum, coeffs), challenge)
    }

    fn reduce_intermediate_round_claim(
        &self,
        round: usize,
        claim: AbstractSumcheckRoundClaim<F>,
        challenge: F,
        round_proof: AbstractSumcheckRound<F>,
    ) -> (r: Result<AbstractSumcheckRoundClaim<F>, Error>) {
        let AbstractSumcheckRoundClaim { mut partial_point, current_round_sum } = claim;
        let AbstractSumcheckRound { mut coeffs } = round_proof;
        if partial_point.len() != round {
            return Err(Error::RoundIndexMismatch { round });
        }
        let n = coeffs.len();
        let d = self.max_individual_degree;
        let trimmed = n == d && n >= 1;
        let full = n >= 1 && n - 1 == d;
        if !trimmed && !full {
            return Err(Error::NumberOfCoefficients { round });
        }
        let at_zero = evaluate_univariate(&coeffs, F::zero());
        let at_one = evaluate_univariate(&coeffs, F::one());
        let boolean_sum = at_zero.add(at_one);
        if trimmed {
            coeffs.push(current_round_sum.add(boolean_sum));
        } else if !boolean_sum.equals(&current_round_sum) {
            return Err(Error::RoundSumMismatch { round });
        }
        let next_sum = evaluate_univariate(&coeffs, challenge);
        partial_point.push(challenge);
        Ok(AbstractSumcheckRoundClaim { partial_point, current_round_sum: next_sum })
    }

    fn reduce_final_round_claim(
        &self,
        poly_oracle: &CompositePolyOracle,
        round_claim: AbstractSumcheckRoundClaim<F>,
    ) -> (r: Result<EvalcheckClaim<F>, Error>) {
        let AbstractSumcheckRoundClaim { partial_point, current_round_sum } = round_claim;
        if partial_point.len() != poly_oracle.n_vars {
            return Err(Error::ArityMismatch);
        }
        Ok(EvalcheckClaim { poly: *poly_oracle, eval_point: partial_point, eval: current_round_sum })
    }
}

/// The coefficients of each round message, in round order.
pub open spec fn messages_coeffs<F>(rounds: Seq<AbstractSumcheckRound<F>>) -> Seq<Seq<F>> {
    rounds.map_values(|r: AbstractSumcheckRound<F>| r.coeffs@)
}

/// The coefficients of each round message of `proof`, in round order.
pub open spec fn round_coeffs<F>(proof: &AbstractSumcheckProof<F>) -> Seq<Seq<F>> {
    messages_coeffs(proof.rounds@)
}

/// The claim, as (partial point, running sum), that reducing `rounds` in
/// order reaches from `claimed_sum`, or the first rejection.
pub open spec fn reduce_rounds<F: Field, R: AbstractSumcheckReductor<F>>(
    reductor: &R,
    claimed_sum: F,
    rounds: Seq<Seq<F>>,
    challenges: Seq<F>,
) -> Result<(Seq<F>, F), Error>
    decreases rounds.len(),
{
    if rounds.len() == 0 {
        Ok((Seq::empty(), claimed_sum))
    } else {
        let k = rounds.len() - 1;
        match reduce_rounds(reductor, claimed_sum, rounds.take(k), challenges) {
            Err(e) => Err(e),
            Ok((point, sum)) => match reductor.spec_round_error(k as usize, point, sum, rounds[k]) {
                Some(e) => Err(e),
                None => Ok(
                    (
                        point.push(challenges[k]),
                        reductor.spec_next_round_sum(k as usize, point, sum, challenges[k], rounds[k]),
                    ),
                ),
            },
        }
    }
}

/// Every claim a run reaches holds one challenge per round reduced, the
/// challenges in round order.
pub proof fn lemma_reduced_point_len<F: Field, R: AbstractSumcheckReductor<F>>(
    reductor: &R,
    claimed_sum: F,
    rounds: Seq<Seq<F>>,
    challenges: Seq<F>,
)
    requires
        rounds.len() <= challenges.len(),
    ensures
        reduce_rounds(reductor, claimed_sum, rounds, challenges) matches Ok((point, sum)) ==> point
            == challenges.take(rounds.len() as int),
    decreases rounds.len(),
{
    if rounds.len() > 0 {
        let k = rounds.len() - 1;
        lemma_reduced_point_len(reductor, claimed_sum, rounds.take(k), challenges);
        assert(challenges.take(k).push(challenges[k]) =~= challenges.take(k + 1));
    }
}

/// Once a run is rejected, reducing further rounds keeps the rejection.
proof fn lemma_rejection_persists<F: Field, R: AbstractSumcheckReductor<F>>(
    reductor: &R,
    claimed_sum: F,
    rounds: Seq<Seq<F>>,
    challenges: Seq<F>,
    j: int,
)
    requires
        0 <= j <= rounds.len(),
        reduce_rounds(reductor, claimed_sum, rounds.take(j), challenges) is Err,
    ensures
        reduce_rounds(reductor, claimed_sum, rounds, challenges) == reduce_rounds(
            reductor,
            claimed_sum,
            rounds.take(j),
            challenges,
        ),
    decreases rounds.len(),
{
    if j == rounds.len() {
        assert(rounds.take(j) =~= rounds);
    } else {
        let k = rounds.len() - 1;
        assert(rounds.take(k).take(j) =~= rounds.take(j));
        lemma_rejection_persists(reductor, claimed_sum, rounds.take(k), challenges, j);
    }
}

/// Reduces every round of `proof` in order, round `i` with `challenges[i]`,
/// starting from the claim that the polynomial sums to `claimed_sum`.
pub fn reduce_all_rounds<F: Field, R: AbstractSumcheckReductor<F>>(
    reductor: &R,
    claimed_sum: F,
    proof: &AbstractSumcheckProof<F>,
    challenges: &Vec<F>,
) -> (r: Result<AbstractSumcheckRoundClaim<F>, Error>)
    requires
        challenges.len() == proof.rounds.len(),
    ensures
        match r {
            Ok(c) => reduce_rounds(reductor, claimed_sum, round_coeffs(proof), challenges@) == Ok::<
                (Seq<F>, F),
                Error,
            >((c.partial_point@, c.current_round_sum)),
            Err(e) => reduce_rounds(reductor, claimed_sum, round_coeffs(proof), challenges@) == Err::<
                (Seq<F>, F),
                Error,
            >(e),
        },
{
    let ghost rounds = round_coeffs(proof);
    let mut claim = AbstractSumcheckRoundClaim::initial(claimed_sum);
    let mut i: usize = 0;
    assert(rounds.take(0) =~= Seq::<Seq<F>>::empty());
    while i < proof.rounds.len()
        invariant
            i <= proof.rounds.len(),
            challenges.len() == proof.rounds.len(),
            rounds == round_coeffs(proof),
            reduce_rounds(reductor, claimed_sum, rounds.take(i as int), challenges@) == Ok::<
                (Seq<F>, F),
                Error,
            >((claim.partial_point@, claim.current_round_sum)),
        decreases proof.rounds.len() - i,
    {
        proof {
            lemma_reduced_point_len(reductor, claimed_sum, rounds.take(i as int), challenges@);
            assert(rounds.take(i + 1).take(i as int) =~= rounds.take(i as int));
        }
        let round_proof = AbstractSumcheckRound { coeffs: copy_vec(&proof.rounds[i].coeffs) };
        assert(round_proof.coeffs@ == rounds[i as int]);
        assert(rounds.take(i + 1)[i as int] == rounds[i as int]);
        match reductor.reduce_intermediate_round_claim(i, claim, challenges[i], round_proof) {
            Ok(next) => {
                claim = next;
            },
            Err(e) => {
                proof {
                    lemma_rejection_persists(
                        reductor,
                        claimed_sum,
                        rounds,
                        challenges@,
                        i + 1,
                    );
                }
                return Err(e);
            },
        }
        i = i + 1;
    }
    assert(rounds.take(i as int) =~= rounds);
    Ok(claim)
}

/// Verifies a whole proof that the polynomial of `poly_oracle` sums to
/// `claimed_sum` over the hypercube, round `i` under `challenges[i]`, and
/// yields the evaluation claim that remains to be checked.
pub fn verify<F: Field, R: AbstractSumcheckReductor<F>>(
    reductor: &R,
    poly_oracle: &CompositePolyOracle,
    claimed_sum: F,
    proof: &AbstractSumcheckProof<F>,
    challenges: &Vec<F>,
) -> (r: Result<EvalcheckClaim<F>, Error>)
    ensures
        proof.rounds.len() != poly_oracle.n_vars ==> r == Err::<EvalcheckClaim<F>, Error>(
            Error::NumberOfRounds,
        ),
        proof.rounds.len() == poly_oracle.n_vars && challenges.len() != poly_oracle.n_vars ==> r
            == Err::<EvalcheckClaim<F>, Error>(Error::NumberOfChallenges),
        proof.rounds.len() == poly_oracle.n_vars && challenges.len() == poly_oracle.n_vars ==> match r {
            Ok(c) => {
                &&& reduce_rounds(reductor, claimed_sum, round_coeffs(proof), challenges@)
                    == Ok::<(Seq<F>, F), Error>((c.eval_point@, c.eval))
                &&& c.eval_point@ == challenges@
                &&& c.poly == *poly_oracle
            },
            Err(e) => reduce_rounds(reductor, claimed_sum, round_coeffs(proof), challenges@)
                == Err::<(Seq<F>, F), Error>(e),
        },
{
    if proof.rounds.len() != poly_oracle.n_vars {
        return Err(Error::NumberOfRounds);
    }
    if challenges.len() != poly_oracle.n_vars {
        return Err(Error::NumberOfChallenges);
    }
    let claim = reduce_all_rounds(reductor, claimed_sum, proof, challenges)?;
    proof {
        lemma_reduced_point_len(reductor, claimed_sum, round_coeffs(proof), challenges@);
        assert(challenges@.take(challenges@.len() as int) =~= challenges@);
    }
    reductor.reduce_final_round_claim(poly_oracle, claim)
}

/// `(x + (y + a)) + (x + y) == a`: the running sum minus the trimmed
/// polynomial's `p(0) + p(1)` leaves the leading coefficient.
proof fn lemma_cancel_sum<F: Field>(x: F, y: F, a: F)
    ensures
        x.spec_add(y.spec_add(a)).spec_add(x.spec_add(y)) == a,
{
    let xy = x.spec_add(y);
    F::lemma_add_associative(x, y, a);
    F::lemma_add_associative(xy, a, xy);
    F::lemma_add_commutative(a, xy);
    F::lemma_add_associative(xy, xy, a);
    F::lemma_add_self(xy);
    F::lemma_add_commutative(F::spec_zero(), a);
    F::lemma_add_zero(a);
}

/// Trimming a round polynomial of degree `d >= 1` to its `d` lower
/// coefficients and recovering the leading one from its own `p(0) + p(1)`
/// gives back the polynomial.
pub proof fn lemma_trim_recover_round_trip<F: Field>(coeffs: Seq<F>)
    requires
        coeffs.len() >= 2,
    ensures
        completed_coeffs(
            (coeffs.len() - 1) as nat,
            sum_over_boolean(coeffs),
            trimmed_coeffs(coeffs),
        ) == coeffs,
{
    let t = trimmed_coeffs(coeffs);
    let a = coeffs.last();
    assert(t.push(a) =~= coeffs);
    lemma_evaluate_zero(coeffs);
    lemma_evaluate_zero(t);
    lemma_evaluate_one(coeffs);
    lemma_evaluate_one(t);
    lemma_sum_push(t, a);
    lemma_cancel_sum(evaluate(t, F::spec_zero()), sum_of(t), a);
}

/// A trimmed message, once completed, reproduces the running sum over {0, 1}:
/// the recovery rule never yields a polynomial the sum check would reject.
pub proof fn lemma_recovered_sum<F: Field>(round_sum: F, coeffs: Seq<F>)
    requires
        coeffs.len() >= 1,
    ensures
        sum_over_boolean(coeffs.push(recovered_leading_coeff(round_sum, coeffs))) == round_sum,
{
    let a = recovered_leading_coeff(round_sum, coeffs);
    let p = coeffs.push(a);
    let x = evaluate(coeffs, F::spec_zero());
    let y = sum_of(coeffs);
    lemma_evaluate_zero(p);
    lemma_evaluate_zero(coeffs);
    lemma_evaluate_one(p);
    lemma_evaluate_one(coeffs);
    lemma_sum_push(coeffs, a);
    assert(p[0] == coeffs[0]);
    // a = s + (x + y), so x + (y + a) = (x + y) + a = s
    F::lemma_add_associative(x, y, a);
    F::lemma_add_commutative(round_sum, x.spec_add(y));
    lemma_cancel_sum(x, y, round_sum);
    F::lemma_add_associative(x.spec_add(y), round_sum, x.spec_add(y));
    F::lemma_add_commutative(round_sum, x.spec_add(y));
    crate::polynomial::lemma_add_cancel(round_sum, x.spec_add(y));
    F::lemma_add_associative(x.spec_add(y), x.spec_add(y), round_sum);
    F::lemma_add_self(x.spec_add(y));
    F::lemma_add_commutative(F::spec_zero(), round_sum);
    F::lemma_add_zero(round_sum);
}

} // verus!
