//! What may be handed to each operation.
//!
//! Where an operation reports what is wrong with its input, it may be called
//! with any input.

use crate::binding::{observe_all, observe_native_root_commitment};
use crate::code::ReedSolomonCode;
use crate::compiler::NativeWarpWhirCompiler;
use crate::decimal::append_decimal;
use crate::field::{ExtensionField, TwoAdicField};
use crate::grouping::{group_oracles, GroupKey, ResidualOracle};
use crate::params::WhirConfig;
use crate::proof_system::NativeWarpWhirRootProofSystem;
use crate::reader::{CommitmentReader, ParsedCommitment, WhirProof};
use crate::root_iop::{
    claims_include_oracle, RootIopBoundCommitment, RootIopBoundTranscript, RootIopOpeningClaim,
    RootIopOracleValues,
};
use crate::statement::{eval_claims_from_parts, NativeWarpWhirEvalClaim};
use crate::transcript::{Challenger, Digest};
use crate::types::{
    BoundRoot, NativeWarpBatchedResidualCommitment, NativeWarpBatchedResidualProverOracle,
    NativeWarpWhirRootCommitment, NativeWarpWhirRootOracleProverData,
};
use vstd::arithmetic::power2::pow2;
use vstd::prelude::*;

verus! {

/// The checks and the compilation of claims may be called with anything.
pub proof fn anything_may_be_compiled_and_checked<
    'a,
    F: TwoAdicField,
    EF: ExtensionField<F>,
    D: Digest,
    C: Challenger<F, EF, D>,
    Comm,
>(
    system: NativeWarpWhirRootProofSystem<'a, F, EF, D, C>,
    compiler: NativeWarpWhirCompiler<'a, F>,
    oracles: Vec<(RootIopBoundCommitment<Comm>, RootIopOracleValues<F, EF>)>,
    commitments: Vec<RootIopBoundCommitment<Comm>>,
    commitment: RootIopBoundCommitment<Comm>,
    values: Option<&RootIopOracleValues<F, EF>>,
    claims: Vec<RootIopOpeningClaim<F, EF>>,
    oracle_id: usize,
)
    ensures
        call_requires(
            NativeWarpWhirRootProofSystem::<
                'a,
                F,
                EF,
                D,
                C,
            >::compact_base_message_claim_statement,
            (&system, &claims, oracle_id),
        ),
        call_requires(
            NativeWarpWhirRootProofSystem::<
                'a,
                F,
                EF,
                D,
                C,
            >::compact_extension_message_claim_statement,
            (&system, &claims, oracle_id),
        ),
        call_requires(claims_include_oracle::<F, EF>, (&claims, oracle_id)),
        call_requires(
            NativeWarpWhirCompiler::<'a, F>::check_unique_bound_oracle_ids::<EF, Comm>,
            (&compiler, &oracles),
        ),
        call_requires(
            NativeWarpWhirCompiler::<'a, F>::check_unique_public_oracle_ids::<Comm>,
            (&compiler, &commitments),
        ),
        call_requires(
            NativeWarpWhirCompiler::<'a, F>::check_claim_oracles_bound::<EF, Comm>,
            (&compiler, &oracles, &claims),
        ),
        call_requires(
            NativeWarpWhirCompiler::<'a, F>::check_claim_oracles_public::<EF, Comm>,
            (&compiler, &commitments, &claims),
        ),
        call_requires(
            NativeWarpWhirCompiler::<'a, F>::check_bound_oracle_shape::<EF, Comm>,
            (&compiler, &commitment, values),
        ),
        call_requires(
            NativeWarpWhirRootProofSystem::<'a, F, EF, D, C>::base_oracle_challenger,
            (&system, oracle_id),
        ),
        call_requires(
            NativeWarpWhirRootProofSystem::<'a, F, EF, D, C>::extension_oracle_challenger,
            (&system, oracle_id),
        ),
{
}

/// Batches may be planned, grouped and scanned whatever they hold.
pub proof fn anything_may_be_grouped_and_scanned<
    'a,
    'b,
    F: TwoAdicField,
    EF: ExtensionField<F>,
    D: Digest,
    C: Challenger<F, EF, D>,
    PB,
    PS,
    PE,
    E,
    B: Copy,
    X: Copy,
    K: GroupKey,
>(
    system: NativeWarpWhirRootProofSystem<'a, F, EF, D, C>,
    transcript: RootIopBoundTranscript<F, EF, NativeWarpWhirRootCommitment<D>>,
    prover_data: &'b Vec<NativeWarpWhirRootOracleProverData<F, EF, C, PB, PS, PE>>,
    oracle_id: usize,
    oracles: Vec<NativeWarpBatchedResidualProverOracle<'b, PB, PS, PE>>,
    residuals: Vec<NativeWarpBatchedResidualCommitment<D>>,
    others: Vec<ResidualOracle<B, X, K>>,
    coeffs: Vec<EF>,
    commitments: Vec<BoundRoot<D>>,
    bound: BoundRoot<D>,
    claims: Vec<RootIopOpeningClaim<F, EF>>,
    challenger: &mut C,
)
    ensures
        call_requires(
            NativeWarpWhirRootProofSystem::<'a, F, EF, D, C>::plan_prover_batch::<PB, PS, PE, E>,
            (&system, &transcript, prover_data),
        ),
        call_requires(
            NativeWarpWhirRootProofSystem::<'a, F, EF, D, C>::base_message_for_oracle::<
                PB,
                PS,
                PE,
                E,
            >,
            (&system, prover_data, oracle_id),
        ),
        call_requires(
            NativeWarpWhirRootProofSystem::<'a, F, EF, D, C>::extension_message_for_oracle::<
                PB,
                PS,
                PE,
                E,
            >,
            (&system, prover_data, oracle_id),
        ),
        call_requires(
            NativeWarpWhirRootProofSystem::<'a, F, EF, D, C>::group_prover_oracles::<PB, PS, PE>,
            (&oracles, &coeffs),
        ),
        call_requires(
            NativeWarpWhirRootProofSystem::<'a, F, EF, D, C>::group_verifier_oracles,
            (&residuals, &coeffs),
        ),
        call_requires(group_oracles::<EF, B, X, K>, (&others, &coeffs)),
        call_requires(
            NativeWarpWhirRootProofSystem::<'a, F, EF, D, C>::scan_commitments::<E>,
            (&system, &commitments, &claims, challenger),
        ),
        call_requires(observe_native_root_commitment::<F, EF, D, C>, (challenger, &bound)),
        call_requires(observe_all::<F, EF, D, C>, (challenger, &commitments)),
{
}

/// A code may be made where the field has the subgroup of the codeword length
/// and codewords fit in memory, and messages and tables of the right lengths may
/// be encoded and decoded.
pub proof fn codes_take_messages_of_their_length<F: TwoAdicField, EF: ExtensionField<F>>(
    log_msg_len: usize,
    log_inv_rate: usize,
    systematic: bool,
    code: ReedSolomonCode<F>,
    message: Vec<F>,
    extension_message: Vec<EF>,
    table: Vec<EF>,
    point: Vec<EF>,
)
    ensures
        log_msg_len + log_inv_rate <= F::two_adicity() && pow2(
            (log_msg_len + log_inv_rate) as nat,
        ) * 64 <= isize::MAX ==> call_requires(
            ReedSolomonCode::<F>::new,
            (log_msg_len, log_inv_rate, systematic),
        ),
        message@.len() == pow2(code.shape().log_msg_len as nat) ==> call_requires(
            ReedSolomonCode::<F>::encode,
            (&code, &message),
        ),
        extension_message@.len() == pow2(code.shape().log_msg_len as nat) ==> call_requires(
            ReedSolomonCode::<F>::encode_algebra::<EF>,
            (&code, &extension_message),
        ),
        table@.len() == pow2((code.shape().log_msg_len + code.shape().log_inv_rate) as nat)
            ==> call_requires(
            ReedSolomonCode::<F>::message_from_codeword::<EF>,
            (&code, &table),
        ),
        code.shape().systematic && point@.len() == code.shape().log_msg_len ==> call_requires(
            ReedSolomonCode::<F>::systematic_message_point::<EF>,
            (&code, &point),
        ),
{
}

/// Claims at points of the codeword hypercube may be turned into constraints,
/// and so may claims about messages of a systematic code; points may be paired
/// with as many values.
pub proof fn claims_at_points_may_be_constrained<'a, F: TwoAdicField, EF: ExtensionField<F>>(
    compiler: NativeWarpWhirCompiler<'a, F>,
    claim: NativeWarpWhirEvalClaim<EF>,
    claims: Vec<NativeWarpWhirEvalClaim<EF>>,
    point: Vec<EF>,
    value: EF,
    points: Vec<Vec<EF>>,
    values: Vec<EF>,
)
    ensures
        ({
            let shape = compiler.shape();
            let n = shape.log_msg_len + shape.log_inv_rate;
            &&& claim.point@.len() == n ==> call_requires(
                NativeWarpWhirCompiler::<'a, F>::eval_claim_constraint::<EF>,
                (&compiler, &claim),
            )
            &&& (forall|i: int|
                0 <= i < claims@.len() ==> (#[trigger] claims@[i]).point@.len() == n)
                ==> call_requires(
                NativeWarpWhirCompiler::<'a, F>::eval_claim_statement::<EF>,
                (&compiler, &claims),
            )
            &&& shape.systematic && point@.len() == shape.log_msg_len ==> call_requires(
                NativeWarpWhirCompiler::<'a, F>::systematic_message_eval_constraint::<EF>,
                (&compiler, &point, value),
            )
            &&& points@.len() == values@.len() ==> call_requires(
                eval_claims_from_parts::<EF>,
                (&points, &values),
            )
        }),
{
}

/// Any proof may be read, as long as the points that are drawn fit in memory.
pub proof fn any_proof_may_be_read<
    'a,
    F: TwoAdicField,
    EF: ExtensionField<F>,
    D: Copy,
    C: Challenger<F, EF, D>,
>(
    proof_read: WhirProof<EF, D>,
    challenger: &mut C,
    num_variables: usize,
    ood_samples: usize,
    round_index: Option<usize>,
    params: WhirConfig,
    reader: CommitmentReader<'a>,
    text: &mut String,
)
    ensures
        num_variables * 64 <= isize::MAX || ood_samples == 0 ==> call_requires(
            ParsedCommitment::<EF, D>::parse_with_round::<F, C>,
            (&proof_read, challenger, num_variables, ood_samples, round_index),
        ),
        num_variables * 64 <= isize::MAX || ood_samples == 0
            || proof_read.initial_commitment is None
            ==> call_requires(
            ParsedCommitment::<EF, D>::parse::<F, C>,
            (&proof_read, challenger, num_variables, ood_samples),
        ),
        reader.config().num_variables * 64 <= isize::MAX || reader.config().commitment_ood_samples
            == 0 || proof_read.initial_commitment is None ==> call_requires(
            CommitmentReader::<'a>::parse_commitment::<F, EF, D, C>,
            (&reader, &proof_read, challenger),
        ),
        call_requires(CommitmentReader::<'a>::new, (&params,)),
        call_requires(append_decimal, (text, num_variables)),
{
}

} // verus!
