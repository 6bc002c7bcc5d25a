//! Proofs of the terminal checks of an accumulator.

use vstd::prelude::*;

verus! {

/// A sumcheck proof: the polynomial of each round, by its values.
#[derive(Clone, Debug)]
pub struct SumcheckProof<EF> {
    /// The values of the round polynomials.
    pub rounds: Vec<Vec<EF>>,
}

/// Proof of the opening `f(alpha) = mu` of the accumulator codeword.
#[derive(Clone, Debug)]
pub struct WhirAccumulatorOpeningProof<PcsProof> {
    /// Opening proof of the multilinear commitment scheme.
    pub pcs_proof: PcsProof,
}

/// Proof of the terminal Boolean claim: the equation over the message subspace
/// is reduced by a sumcheck to one claim about the witness.
#[derive(Clone, Debug)]
pub struct WhirPesatProof<EF, PcsProof> {
    /// Sumcheck over the witness hypercube.
    pub decider_sumcheck: SumcheckProof<EF>,
    /// Claimed value of the witness at the sampled point.
    pub terminal_values: Vec<EF>,
    /// Opening proof for the terminal values on the systematic oracle.
    pub pcs_proof: PcsProof,
}

/// Proof of both terminal checks against one accumulator commitment:
///
/// ```text
///     f(alpha) = mu
///     Pb(beta, w) = eta
/// ```
#[derive(Clone, Debug)]
pub struct WhirWarpFinalizerProof<EF, PcsProof> {
    /// Opening proof for `f(alpha) = mu`.
    pub accumulator_opening: WhirAccumulatorOpeningProof<PcsProof>,
    /// Decider proof for `Pb(beta, w) = eta`.
    pub pesat: WhirPesatProof<EF, PcsProof>,
}

} // verus!
