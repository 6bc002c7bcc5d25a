//! What the compiler and the proof system report.

use vstd::prelude::*;

verus! {

/// The recorded root oracle proof does not fit the code.
#[derive(Clone, Copy, Debug, PartialEq, Eq, Structural)]
pub enum NativeWarpWhirRootReductionError {
    /// A claim is about an oracle that is not bound.
    UnknownOracle(usize),
    /// Two bound oracles have the same identifier.
    DuplicateOracle(usize),
    /// A bound oracle does not have the length of a codeword.
    OracleLogLengthMismatch {
        /// Identifier of the oracle.
        oracle_id: usize,
        /// Binary logarithm of the codeword length.
        expected: usize,
        /// Binary logarithm of the length that was bound.
        actual: usize,
    },
    /// The table of an oracle is over another field than the commitment says.
    OracleValueFieldMismatch(usize),
    /// A table has the wrong length.
    OracleValueLengthMismatch {
        /// Identifier of the oracle.
        oracle_id: usize,
        /// The length that the code asks for.
        expected: usize,
        /// The length of the table.
        actual: usize,
    },
    /// A codeword is not the encoding of its message.
    EncodingMismatch {
        /// Identifier of the oracle.
        oracle_id: usize,
    },
}

/// A claim cannot be compiled to a linear query.
#[derive(Clone, Copy, Debug, PartialEq, Eq, Structural)]
pub enum NativeWarpWhirClaimCompileError {
    /// The claimed value is over another field than the oracle.
    OracleFieldMismatch(usize),
    /// The claimed index lies outside the codeword.
    IndexOutOfBounds {
        /// Identifier of the oracle.
        oracle_id: usize,
        /// The index.
        index: usize,
    },
    /// A base-field oracle is not opened at points of its extension.
    UnsupportedBaseMle(usize),
    /// The claimed point does not have one coordinate for each variable.
    PointArityMismatch {
        /// Identifier of the oracle.
        oracle_id: usize,
    },
    /// There is nothing to prove of the oracle.
    EmptyOracle(usize),
}

/// Oracles and coefficients do not fit together.
#[derive(Clone, Copy, Debug, PartialEq, Eq, Structural)]
pub enum LinearSigmaReductionError {
    /// Two counts that have to agree differ.
    ArityMismatch {
        /// The count that was asked for.
        expected: usize,
        /// The count that was found.
        actual: usize,
    },
}

/// A root proof cannot be made or is not accepted. `E` is what the opening
/// backend reports.
#[derive(Debug)]
pub enum NativeWarpWhirRootProofError<E> {
    /// The recorded root oracle proof does not fit the code.
    Reduction(NativeWarpWhirRootReductionError),
    /// A claim cannot be compiled.
    ClaimCompile(NativeWarpWhirClaimCompileError),
    /// Oracles and coefficients do not fit together.
    LinearSigma(LinearSigmaReductionError),
    /// There is no prover data for an oracle.
    MissingProverData(usize),
    /// The prover data or the table of an oracle is of another kind than its
    /// commitment.
    OracleKindMismatch(usize),
    /// The backend did not reduce the claims to one opening.
    CompactReduction(E),
    /// The backend did not open or did not accept the batched opening.
    BatchedOpening(E),
}

} // verus!
