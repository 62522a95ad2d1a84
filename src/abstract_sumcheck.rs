//! The round-reduction interface shared by every sumcheck-style protocol:
//! round messages, proofs, claims, and the reductor and prover capabilities.
use vstd::prelude::*;

use crate::evalcheck::{CompositePolyOracle, EvalcheckClaim};
use crate::field::Field;

verus! {

/// The prover's message for one round: monomial-basis coefficients of the
/// round polynomial. Coefficients the verifier can recover from the running
/// sum may be left out; which ones is up to the reductor.
#[derive(Clone, Debug)]
pub struct AbstractSumcheckRound<F> {
    pub coeffs: Vec<F>,
}

/// The round messages of a whole run, round 0 first.
#[derive(Clone, Debug)]
pub struct AbstractSumcheckProof<F> {
    pub rounds: Vec<AbstractSumcheckRound<F>>,
}

/// The verifier's state between rounds: one challenge per completed round and
/// the sum the remaining variables are claimed to have.
#[derive(Clone, Debug)]
pub struct AbstractSumcheckRoundClaim<F> {
    pub partial_point: Vec<F>,
    pub current_round_sum: F,
}

#[derive(Clone, Copy, Debug, PartialEq, Eq, Structural)]
pub enum Error {
    /// The round message has neither the trimmed nor the full number of coefficients.
    NumberOfCoefficients { round: usize },
    /// The round polynomial does not reproduce the running sum over {0, 1}.
    RoundSumMismatch { round: usize },
    /// The claim's point does not hold one challenge per completed round.
    RoundIndexMismatch { round: usize },
    /// The proof's number of rounds differs from the polynomial's number of variables.
    NumberOfRounds,
    /// The number of challenges differs from the number of rounds.
    NumberOfChallenges,
    /// The final point's length differs from the polynomial's number of variables.
    ArityMismatch,
    /// A round after the first was executed without the previous challenge.
    ExpectedChallenge,
    /// The first round was executed with a challenge.
    UnexpectedChallenge,
    /// A round was executed after the last one.
    RoundsExhausted,
    /// The prover was finalized before its last round.
    RoundsRemaining,
    /// The witness does not describe a polynomial of the stated shape.
    ImproperWitness,
}

impl<F: Copy> AbstractSumcheckRound<F> {
    pub fn new(coeffs: Vec<F>) -> (r: AbstractSumcheckRound<F>)
        ensures
            r.coeffs@ == coeffs@,
    {
        AbstractSumcheckRound { coeffs }
    }
}

impl<F: Copy> AbstractSumcheckRoundClaim<F> {
    /// The claim a run starts from: no challenge yet, the publicly claimed sum.
    pub fn initial(claimed_sum: F) -> (r: AbstractSumcheckRoundClaim<F>)
        ensures
            r.partial_point@ == Seq::<F>::empty(),
            r.current_round_sum == claimed_sum,
    {
        AbstractSumcheckRoundClaim { partial_point: Vec::new(), current_round_sum: claimed_sum }
    }
}

/// `r` is what `reductor` yields for the claim of `round` under `challenge`
/// and `round_proof`: the next claim when the round is accepted (the point
/// grows by the challenge), else the rejection.
pub open spec fn is_reduction_of<F: Field, R: AbstractSumcheckReductor<F>>(
    reductor: &R,
    round: usize,
    claim: &AbstractSumcheckRoundClaim<F>,
    challenge: F,
    round_proof: &AbstractSumcheckRound<F>,
    r: &Result<AbstractSumcheckRoundClaim<F>, Error>,
) -> bool {
    match r {
        Ok(next) => {
            &&& reductor.spec_round_error(
                round,
                claim.partial_point@,
                claim.current_round_sum,
                round_proof.coeffs@,
            ) is None
            &&& next.partial_point@ == claim.partial_point@.push(challenge)
            &&& next.current_round_sum == reductor.spec_next_round_sum(
                round,
                claim.partial_point@,
                claim.current_round_sum,
                challenge,
                round_proof.coeffs@,
            )
        },
        Err(e) => reductor.spec_round_error(
            round,
            claim.partial_point@,
            claim.current_round_sum,
            round_proof.coeffs@,
        ) == Some(*e),
    }
}

/// Two reductions of the same inputs agree: reduction has no hidden state, so
/// running it again yields the same claim, or the same rejection.
pub proof fn lemma_reduction_deterministic<F: Field, R: AbstractSumcheckReductor<F>>(
    reductor: &R,
    round: usize,
    claim: &AbstractSumcheckRoundClaim<F>,
    challenge: F,
    round_proof: &AbstractSumcheckRound<F>,
    r1: &Result<AbstractSumcheckRoundClaim<F>, Error>,
    r2: &Result<AbstractSumcheckRoundClaim<F>, Error>,
)
    requires
        is_reduction_of(reductor, round, claim, challenge, round_proof, r1),
        is_reduction_of(reductor, round, claim, challenge, round_proof, r2),
    ensures
        r1 is Ok <==> r2 is Ok,
        r1 matches Ok(c1) ==> r2 matches Ok(c2) && c1.partial_point@ == c2.partial_point@
            && c1.current_round_sum == c2.current_round_sum,
        r1 matches Err(e1) ==> r2 matches Err(e2) && e1 == e2,
{
}

/// Verifier-side reduction of one protocol: advances a claim by one round and
/// turns the last claim into an evaluation claim.
pub trait AbstractSumcheckReductor<F: Field>: Sized {
    /// The error with which a round is rejected, or `None` when it is accepted.
    spec fn spec_round_error(
        &self,
        round: usize,
        partial_point: Seq<F>,
        round_sum: F,
        coeffs: Seq<F>,
    ) -> Option<Error>;

    /// The running sum of the next claim when a round is accepted.
    spec fn spec_next_round_sum(
        &self,
        round: usize,
        partial_point: Seq<F>,
        round_sum: F,
        challenge: F,
        coeffs: Seq<F>,
    ) -> F;

    /// Reduces the claim of `round` to the claim of the next round.
    fn reduce_intermediate_round_claim(
        &self,
        round: usize,
        claim: AbstractSumcheckRoundClaim<F>,
        challenge: F,
        round_proof: AbstractSumcheckRound<F>,
    ) -> (r: Result<AbstractSumcheckRoundClaim<F>, Error>)
        ensures
            claim.partial_point@.len() != round ==> r is Err,
            match r {
                Ok(next) => {
                    &&& self.spec_round_error(
                        round,
                        claim.partial_point@,
                        claim.current_round_sum,
                        round_proof.coeffs@,
                    ) is None
                    &&& next.partial_point@ == claim.partial_point@.push(challenge)
                    &&& next.current_round_sum == self.spec_next_round_sum(
                        round,
                        claim.partial_point@,
                        claim.current_round_sum,
                        challenge,
                        round_proof.coeffs@,
                    )
                },
                Err(e) => self.spec_round_error(
                    round,
                    claim.partial_point@,
                    claim.current_round_sum,
                    round_proof.coeffs@,
                ) == Some(e),
            },
    ;

    /// Turns the claim after the last round into an evaluation claim on `poly_oracle`.
    fn reduce_final_round_claim(
        &self,
        poly_oracle: &CompositePolyOracle,
        round_claim: AbstractSumcheckRoundClaim<F>,
    ) -> (r: Result<EvalcheckClaim<F>, Error>)
        ensures
            match r {
                Ok(c) => {
                    &&& round_claim.partial_point@.len() == poly_oracle.n_vars
                    &&& c.poly == *poly_oracle
                    &&& c.eval_point@ == round_claim.partial_point@
                    &&& c.eval == round_claim.current_round_sum
                },
                Err(e) => round_claim.partial_point@.len() != poly_oracle.n_vars && e
                    == Error::ArityMismatch,
            },
    ;
}

/// The usage error of running a round when `round` rounds of `n_rounds` are
/// done, or `None` when the round may run: the first round takes no
/// challenge, every later one the previous round's.
pub open spec fn round_order_error<F>(round: nat, n_rounds: nat, prev_rd_challenge: Option<F>) -> Option<
    Error,
> {
    if round >= n_rounds {
        Some(Error::RoundsExhausted)
    } else if round == 0 && prev_rd_challenge is Some {
        Some(Error::UnexpectedChallenge)
    } else if round > 0 && prev_rd_challenge is None {
        Some(Error::ExpectedChallenge)
    } else {
        None
    }
}

/// The usage error of finalizing when `round` rounds of `n_rounds` are done,
/// or `None` when the driver may finish with the last round's challenge.
pub open spec fn finalize_order_error<F>(
    round: nat,
    n_rounds: nat,
    prev_rd_challenge: Option<F>,
) -> Option<Error> {
    if round != n_rounds {
        Some(Error::RoundsRemaining)
    } else if round == 0 && prev_rd_challenge is Some {
        Some(Error::UnexpectedChallenge)
    } else if round > 0 && prev_rd_challenge is None {
        Some(Error::ExpectedChallenge)
    } else {
        None
    }
}

/// Prover-side driver of one protocol run: emits one round message per round
/// and, once every round is done, the evaluation claim it can open.
pub trait AbstractSumcheckProver<F: Field>: Sized {
    /// The driver's internal invariant.
    spec fn wf(&self) -> bool;

    /// The number of rounds executed so far.
    spec fn spec_round(&self) -> nat;

    /// The number of rounds of the run.
    spec fn spec_n_rounds(&self) -> nat;

    /// The message of the next round, run with this previous challenge.
    spec fn spec_round_message(&self, prev_rd_challenge: Option<F>) -> Seq<F>;

    /// `next` is this driver after a round run with this previous challenge.
    spec fn spec_is_next_state(&self, next: &Self, prev_rd_challenge: Option<F>) -> bool;

    /// The point and value of the evaluation claim made with this last challenge.
    spec fn spec_final_point(&self, prev_rd_challenge: Option<F>) -> Seq<F>;

    spec fn spec_final_eval(&self, prev_rd_challenge: Option<F>) -> F;

    spec fn spec_poly_oracle(&self) -> CompositePolyOracle;

    fn execute_round(&mut self, prev_rd_challenge: Option<F>) -> (r: Result<
        AbstractSumcheckRound<F>,
        Error,
    >)
        requires
            old(self).wf(),
        ensures
            final(self).wf(),
            match round_order_error(
                old(self).spec_round(),
                old(self).spec_n_rounds(),
                prev_rd_challenge,
            ) {
                Some(e) => r == Err::<AbstractSumcheckRound<F>, Error>(e) && *final(self) == *old(
                    self,
                ),
                None => r matches Ok(m) && m.coeffs@ == old(self).spec_round_message(
                    prev_rd_challenge,
                ) && old(self).spec_is_next_state(final(self), prev_rd_challenge)
                    && final(self).spec_round() == old(self).spec_round() + 1
                    && final(self).spec_n_rounds() == old(self).spec_n_rounds(),
            },
    ;

    fn finalize(self, prev_rd_challenge: Option<F>) -> (r: Result<EvalcheckClaim<F>, Error>)
        requires
            self.wf(),
        ensures
            match finalize_order_error(self.spec_round(), self.spec_n_rounds(), prev_rd_challenge) {
                Some(e) => r == Err::<EvalcheckClaim<F>, Error>(e),
                None => r matches Ok(c) && c.poly == self.spec_poly_oracle() && c.eval_point@
                    == self.spec_final_point(prev_rd_challenge) && c.eval == self.spec_final_eval(
                    prev_rd_challenge,
                ),
            },
    ;
}

} // verus!
