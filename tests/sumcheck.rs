use binius_core::abstract_sumcheck::{
    AbstractSumcheckProof, AbstractSumcheckProver, AbstractSumcheckReductor, AbstractSumcheckRound,
    AbstractSumcheckRoundClaim, Error,
};
use binius_core::evalcheck::CompositePolyOracle;
use binius_core::field::{Field, Gf8};
use binius_core::polynomial::evaluate_univariate;
use binius_core::prover::{prove, SumcheckProver};
use binius_core::sumcheck::{verify, SumcheckReductor};

fn g(v: u8) -> Gf8 {
    Gf8::new(v)
}

fn gs(vs: &[u8]) -> Vec<Gf8> {
    vs.iter().map(|v| g(*v)).collect()
}

/// The multilinear extension of table `t` at `point`, variable 0 in bit 0.
fn mle(t: &[Gf8], point: &[Gf8]) -> Gf8 {
    let mut acc = Gf8::zero();
    for (x, value) in t.iter().enumerate() {
        let mut w = *value;
        for (v, r) in point.iter().enumerate() {
            let factor = if (x >> v) & 1 == 1 { *r } else { Gf8::one().add(*r) };
            w = w.mul(factor);
        }
        acc = acc.add(w);
    }
    acc
}

fn hypercube_sum_of_product(tables: &[Vec<Gf8>]) -> Gf8 {
    let mut acc = Gf8::zero();
    for x in 0..tables[0].len() {
        let mut p = Gf8::one();
        for t in tables {
            p = p.mul(t[x]);
        }
        acc = acc.add(p);
    }
    acc
}

fn claim(point: &[u8], sum: u8) -> AbstractSumcheckRoundClaim<Gf8> {
    AbstractSumcheckRoundClaim { partial_point: gs(point), current_round_sum: g(sum) }
}

fn round(coeffs: &[u8]) -> AbstractSumcheckRound<Gf8> {
    AbstractSumcheckRound { coeffs: gs(coeffs) }
}

/// g(x0, x1) = x0 * x1 as its table over {0,1}^2, index x0 + 2 x1.
fn and_table() -> Vec<Gf8> {
    gs(&[0, 0, 0, 1])
}

fn and_oracle() -> CompositePolyOracle {
    CompositePolyOracle::new(7, 2, 1)
}

#[test]
fn two_round_product_of_variables_end_to_end() {
    let oracle = and_oracle();
    let prover = SumcheckProver::new(oracle, vec![and_table()]).unwrap();
    let challenges = gs(&[3, 5]);
    let (proof, prover_claim) = prove(prover, &challenges).unwrap();
    assert_eq!(proof.rounds.len(), 2);
    assert_eq!(proof.rounds[0].coeffs.len(), 1);

    let claimed_sum = g(1);
    let reductor = SumcheckReductor::new(1);
    let verifier_claim = verify(&reductor, &oracle, claimed_sum, &proof, &challenges).unwrap();

    // g(c0, c1) = c0 * c1 = (x + 1)(x^2 + 1) = x^2
    assert_eq!(verifier_claim.eval.value(), 4);
    assert_eq!(verifier_claim.eval, g(3).mul(g(5)));
    assert_eq!(verifier_claim.eval, mle(&and_table(), &challenges));
    assert_eq!(verifier_claim.eval_point, challenges);
    assert_eq!(verifier_claim.poly, oracle);
    assert_eq!(prover_claim.eval, verifier_claim.eval);
    assert_eq!(prover_claim.eval_point, verifier_claim.eval_point);
}

#[test]
fn corrupted_full_round_message_is_rejected() {
    let reductor = SumcheckReductor::new(1);
    let c0 = g(3);
    // after round 0 the claim is p0(c0) = c0, and round 1's polynomial is c0 * X
    let honest = reductor
        .reduce_intermediate_round_claim(1, claim(&[3], 3), g(5), round(&[0, 3]))
        .unwrap();
    assert_eq!(honest.current_round_sum, c0.mul(g(5)));
    let corrupted =
        reductor.reduce_intermediate_round_claim(1, claim(&[3], 3), g(5), round(&[0, 2]));
    assert_eq!(corrupted.unwrap_err(), Error::RoundSumMismatch { round: 1 });
}

#[test]
fn corrupted_trimmed_message_fails_the_final_evaluation() {
    let oracle = and_oracle();
    let prover = SumcheckProver::new(oracle, vec![and_table()]).unwrap();
    let challenges = gs(&[3, 5]);
    let (mut proof, _) = prove(prover, &challenges).unwrap();
    let c = proof.rounds[1].coeffs[0];
    proof.rounds[1].coeffs[0] = c.add(Gf8::one());
    let reductor = SumcheckReductor::new(1);
    let claim = verify(&reductor, &oracle, g(1), &proof, &challenges).unwrap();
    assert_ne!(claim.eval, mle(&and_table(), &challenges));
}

#[test]
fn product_of_two_multilinears_is_complete() {
    let a = gs(&[1, 2, 3, 4, 5, 6, 7, 0]);
    let b = gs(&[7, 7, 1, 0, 2, 5, 3, 6]);
    let tables = vec![a.clone(), b.clone()];
    let sum = hypercube_sum_of_product(&tables);
    let oracle = CompositePolyOracle::new(1, 3, 2);
    for seed in 0..64u8 {
        let challenges = gs(&[seed, seed / 8, seed.wrapping_mul(5)]);
        let prover = SumcheckProver::new(oracle, tables.clone()).unwrap();
        let (proof, prover_claim) = prove(prover, &challenges).unwrap();
        assert!(proof.rounds.iter().all(|r| r.coeffs.len() == 2));
        let claim = verify(&SumcheckReductor::new(2), &oracle, sum, &proof, &challenges).unwrap();
        let expected = mle(&a, &challenges).mul(mle(&b, &challenges));
        assert_eq!(claim.eval, expected);
        assert_eq!(prover_claim.eval, expected);
    }
}

#[test]
fn false_sum_is_caught_with_high_probability() {
    let a = gs(&[1, 2, 3, 4, 5, 6, 7, 0]);
    let b = gs(&[7, 7, 1, 0, 2, 5, 3, 6]);
    let tables = vec![a.clone(), b.clone()];
    let false_sum = hypercube_sum_of_product(&tables).add(Gf8::one());
    let oracle = CompositePolyOracle::new(1, 3, 2);
    let mut passed = 0usize;
    let mut runs = 0usize;
    for c0 in 0..8u8 {
        for c1 in 0..8u8 {
            for c2 in 0..8u8 {
                let challenges = gs(&[c0, c1, c2]);
                let prover = SumcheckProver::new(oracle, tables.clone()).unwrap();
                let (proof, _) = prove(prover, &challenges).unwrap();
                let claim =
                    verify(&SumcheckReductor::new(2), &oracle, false_sum, &proof, &challenges)
                        .unwrap();
                let truth = mle(&a, &challenges).mul(mle(&b, &challenges));
                runs += 1;
                if claim.eval == truth {
                    passed += 1;
                }
            }
        }
    }
    // rounds * degree / |F| = 3 * 2 / 8
    assert!(passed * 8 <= 3 * 2 * runs, "{} of {} runs passed", passed, runs);
    assert!(passed < runs);
}

#[test]
fn trimmed_round_is_recovered_from_the_sum() {
    // p(X) = 3 + 6 X + 5 X^2, p(0) + p(1) = 3 + (3 ^ 6 ^ 5) = 6 ^ 5 = 3
    let full = gs(&[3, 6, 5]);
    let sum = evaluate_univariate(&full, Gf8::zero()).add(evaluate_univariate(&full, Gf8::one()));
    assert_eq!(sum.value(), 3);
    let reductor = SumcheckReductor::new(2);
    for r in 0..8u8 {
        let next = reductor
            .reduce_intermediate_round_claim(0, claim(&[], 3), g(r), round(&[3, 6]))
            .unwrap();
        assert_eq!(next.current_round_sum, evaluate_univariate(&full, g(r)));
        assert_eq!(next.partial_point, gs(&[r]));
    }
}

#[test]
fn reduction_is_repeatable() {
    let reductor = SumcheckReductor::new(2);
    let first = reductor
        .reduce_intermediate_round_claim(1, claim(&[4], 2), g(7), round(&[1, 5]))
        .unwrap();
    let second = reductor
        .reduce_intermediate_round_claim(1, claim(&[4], 2), g(7), round(&[1, 5]))
        .unwrap();
    assert_eq!(first.partial_point, second.partial_point);
    assert_eq!(first.current_round_sum, second.current_round_sum);
    assert_eq!(first.partial_point, gs(&[4, 7]));
}

#[test]
fn wrong_number_of_coefficients_is_rejected() {
    let reductor = SumcheckReductor::new(2);
    let r = reductor.reduce_intermediate_round_claim(0, claim(&[], 1), g(2), round(&[1]));
    assert_eq!(r.unwrap_err(), Error::NumberOfCoefficients { round: 0 });
    let r = reductor.reduce_intermediate_round_claim(0, claim(&[], 1), g(2), round(&[1, 2, 3, 4]));
    assert_eq!(r.unwrap_err(), Error::NumberOfCoefficients { round: 0 });
    let r = SumcheckReductor::new(0).reduce_intermediate_round_claim(
        0,
        claim(&[], 1),
        g(2),
        round(&[]),
    );
    assert_eq!(r.unwrap_err(), Error::NumberOfCoefficients { round: 0 });
}

#[test]
fn claim_point_must_match_the_round() {
    let reductor = SumcheckReductor::new(1);
    let r = reductor.reduce_intermediate_round_claim(2, claim(&[1], 1), g(2), round(&[1]));
    assert_eq!(r.unwrap_err(), Error::RoundIndexMismatch { round: 2 });
}

#[test]
fn wrong_number_of_rounds_is_rejected() {
    let oracle = and_oracle();
    let proof = AbstractSumcheckProof { rounds: vec![round(&[0])] };
    let r = verify(&SumcheckReductor::new(1), &oracle, g(1), &proof, &gs(&[3]));
    assert_eq!(r.unwrap_err(), Error::NumberOfRounds);
    let proof = AbstractSumcheckProof { rounds: vec![round(&[0]), round(&[0]), round(&[0])] };
    let r = verify(&SumcheckReductor::new(1), &oracle, g(1), &proof, &gs(&[3, 4, 5]));
    assert_eq!(r.unwrap_err(), Error::NumberOfRounds);
}

#[test]
fn wrong_number_of_challenges_is_rejected() {
    let oracle = and_oracle();
    let proof = AbstractSumcheckProof { rounds: vec![round(&[0]), round(&[0])] };
    let r = verify(&SumcheckReductor::new(1), &oracle, g(1), &proof, &gs(&[3]));
    assert_eq!(r.unwrap_err(), Error::NumberOfChallenges);
    let prover = SumcheckProver::new(oracle, vec![and_table()]).unwrap();
    assert_eq!(prove(prover, &gs(&[1, 2, 3])).unwrap_err(), Error::NumberOfChallenges);
}

#[test]
fn final_claim_arity_must_match_the_oracle() {
    let reductor = SumcheckReductor::new(1);
    let r = reductor.reduce_final_round_claim(&and_oracle(), claim(&[1], 1));
    assert_eq!(r.unwrap_err(), Error::ArityMismatch);
    let ok = reductor.reduce_final_round_claim(&and_oracle(), claim(&[1, 2], 6)).unwrap();
    assert_eq!(ok.eval_point, gs(&[1, 2]));
    assert_eq!(ok.eval.value(), 6);
}

#[test]
fn prover_enforces_round_order() {
    let oracle = and_oracle();
    let mut prover = SumcheckProver::new(oracle, vec![and_table()]).unwrap();
    assert_eq!(prover.execute_round(Some(g(1))).unwrap_err(), Error::UnexpectedChallenge);
    let first = prover.execute_round(None).unwrap();
    // p0(X) = sum over x1 of X * x1 = X: trimmed to its constant term
    assert_eq!(first.coeffs, gs(&[0]));
    assert_eq!(prover.execute_round(None).unwrap_err(), Error::ExpectedChallenge);
    let second = prover.execute_round(Some(g(3))).unwrap();
    // p1(X) = 3 X
    assert_eq!(second.coeffs, gs(&[0]));
    assert_eq!(prover.execute_round(Some(g(5))).unwrap_err(), Error::RoundsExhausted);
    assert_eq!(prover.tables[0], gs(&[0, 3]));
    let claim = prover.finalize(Some(g(5))).unwrap();
    assert_eq!(claim.eval, g(3).mul(g(5)));
}

#[test]
fn prover_cannot_finalize_early() {
    let mut prover = SumcheckProver::new(and_oracle(), vec![and_table()]).unwrap();
    prover.execute_round(None).unwrap();
    assert_eq!(prover.finalize(Some(g(2))).unwrap_err(), Error::RoundsRemaining);
    let prover = SumcheckProver::new(and_oracle(), vec![and_table()]).unwrap();
    assert_eq!(prover.finalize(None).unwrap_err(), Error::RoundsRemaining);
}

#[test]
fn improper_witness_is_refused() {
    let oracle = and_oracle();
    assert_eq!(SumcheckProver::new(oracle, vec![gs(&[0, 1, 0])]).err(), Some(Error::ImproperWitness));
    assert_eq!(SumcheckProver::<Gf8>::new(oracle, vec![]).err(), Some(Error::ImproperWitness));
    assert_eq!(
        SumcheckProver::new(oracle, vec![and_table(), and_table()]).err(),
        Some(Error::ImproperWitness)
    );
}

#[test]
fn zero_variable_run_finalizes_without_rounds() {
    let oracle = CompositePolyOracle::new(0, 0, 1);
    let prover = SumcheckProver::new(oracle, vec![gs(&[5])]).unwrap();
    assert_eq!(prover.finalize(Some(g(1))).unwrap_err(), Error::UnexpectedChallenge);
    let prover = SumcheckProver::new(oracle, vec![gs(&[5])]).unwrap();
    let (proof, claim) = prove(prover, &vec![]).unwrap();
    assert!(proof.rounds.is_empty());
    assert_eq!(claim.eval.value(), 5);
    let v = verify(&SumcheckReductor::new(1), &oracle, g(5), &proof, &vec![]).unwrap();
    assert_eq!(v.eval.value(), 5);
    assert!(v.eval_point.is_empty());
}

#[test]
fn claims_grow_one_challenge_per_round() {
    let a = gs(&[1, 2, 3, 4, 5, 6, 7, 0]);
    let b = gs(&[7, 7, 1, 0, 2, 5, 3, 6]);
    let tables = vec![a, b];
    let oracle = CompositePolyOracle::new(1, 3, 2);
    let challenges = gs(&[6, 1, 4]);
    let prover = SumcheckProver::new(oracle, tables.clone()).unwrap();
    let (proof, _) = prove(prover, &challenges).unwrap();
    let reductor = SumcheckReductor::new(2);
    let mut claim = AbstractSumcheckRoundClaim::initial(hypercube_sum_of_product(&tables));
    assert!(claim.partial_point.is_empty());
    for (i, r) in proof.rounds.iter().enumerate() {
        claim = reductor
            .reduce_intermediate_round_claim(i, claim, challenges[i], r.clone())
            .unwrap();
        assert_eq!(claim.partial_point.len(), i + 1);
        assert_eq!(claim.partial_point, challenges[..i + 1].to_vec());
    }
    // replaying a round against the grown claim is refused
    let replay = reductor.reduce_intermediate_round_claim(2, claim, g(1), proof.rounds[2].clone());
    assert_eq!(replay.unwrap_err(), Error::RoundIndexMismatch { round: 2 });
}
