//! Parameters of the opening protocol.

use vstd::prelude::*;

verus! {

/// What the root compiler and the commitment reader have to know of the
/// opening protocol.
#[derive(Clone, Copy, Debug, PartialEq, Eq, Structural)]
pub struct WhirConfig {
    /// Number of variables of the committed polynomials.
    pub num_variables: usize,
    /// Binary logarithm of the inverse rate of the initial code.
    pub starting_log_inv_rate: usize,
    /// Number of out-of-domain samples of the initial commitment.
    pub commitment_ood_samples: usize,
}

} // verus!
