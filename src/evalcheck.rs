//! The terminal artifacts of a reduction: the polynomial a claim is about and
//! the evaluation claim handed on to the opening machinery.
use vstd::prelude::*;

verus! {

/// Handle of a composite polynomial: its identity, its number of variables
/// and the degree of the composition in each variable.
#[derive(Clone, Copy, Debug, PartialEq, Eq, Structural)]
pub struct CompositePolyOracle {
    pub id: usize,
    pub n_vars: usize,
    pub max_individual_degree: usize,
}

impl CompositePolyOracle {
    pub fn new(id: usize, n_vars: usize, max_individual_degree: usize) -> (r: CompositePolyOracle)
        ensures
            r.id == id,
            r.n_vars == n_vars,
            r.max_individual_degree == max_individual_degree,
    {
        CompositePolyOracle { id, n_vars, max_individual_degree }
    }
}

/// The claim that `poly` evaluates to `eval` at `eval_point`.
#[derive(Clone, Debug)]
pub struct EvalcheckClaim<F> {
    pub poly: CompositePolyOracle,
    pub eval_point: Vec<F>,
    pub eval: F,
}

} // verus!
