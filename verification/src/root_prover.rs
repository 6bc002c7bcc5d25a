//! Proving the recorded claims.

use crate::binding::{all_binding_items, observe_all};
use crate::claims::{
    base_statement, extension_statement, CompactStatement, NativeWarpCompactRootStatement,
};
use crate::code::{base_generators, extension_generators, CodeShape};
use crate::compiler::{bound_commitments, distinct_ids, known_oracles, oracle_shape, public_ids};
use crate::error::{
    LinearSigmaReductionError, NativeWarpWhirClaimCompileError, NativeWarpWhirRootProofError,
    NativeWarpWhirRootReductionError,
};
use crate::field::{ExtensionField, Field, TwoAdicField};
use crate::grouping::{group_oracles, grouping, groups_of, BatchedOracle, Group, ResidualOracle};
use crate::proof_system::{consistent_message, NativeWarpWhirRootProofSystem};
use crate::root_iop::{
    claimed, claims_include_oracle, RootIopBoundTranscript, RootIopOpeningClaim,
    RootIopOracleValues,
};
use crate::transcript::{Challenger, Digest, TranscriptItem};
use crate::types::{
    BatchedLinearSigmaOpeningClaim, BoundRoot, NativeWarpBatchedResidualProverOracle,
    NativeWarpDirectBatchedResidualPoly, NativeWarpWhirRootBatchedOpeningProof,
    NativeWarpWhirRootCommitment, NativeWarpWhirRootOracleProverData, NativeWarpWhirRootProof,
    NativeWarpWhirRootProverData, SharedHandle,
};
use vstd::prelude::*;

verus! {

/// The first prover data of an oracle.
pub open spec fn find_prover_data<'b, F, EF, C, PB, PS, PE>(
    data: Seq<NativeWarpWhirRootOracleProverData<F, EF, C, PB, PS, PE>>,
    oracle_id: usize,
) -> Option<&'b NativeWarpWhirRootOracleProverData<F, EF, C, PB, PS, PE>>
    decreases data.len(),
{
    if data.len() == 0 {
        None
    } else {
        match find_prover_data(data.drop_last(), oracle_id) {
            Some(found) => Some(found),
            None => if data.last().oracle_id == oracle_id {
                Some(&data.last())
            } else {
                None
            },
        }
    }
}

/// The message of a base-field oracle.
pub open spec fn base_message<'b, F, EF, C, PB, PS, PE, E>(
    data: Seq<NativeWarpWhirRootOracleProverData<F, EF, C, PB, PS, PE>>,
    oracle_id: usize,
) -> Result<&'b Vec<F>, NativeWarpWhirRootProofError<E>> {
    match find_prover_data(data, oracle_id) {
        None => Err(NativeWarpWhirRootProofError::MissingProverData(oracle_id)),
        Some(found) => match found.data {
            NativeWarpWhirRootProverData::Base(d) => Ok(&d.message),
            NativeWarpWhirRootProverData::BaseShared(d) => Ok(&d.message),
            NativeWarpWhirRootProverData::ExtensionMessage(_) => Err(
                NativeWarpWhirRootProofError::OracleKindMismatch(oracle_id),
            ),
        },
    }
}

/// The message of an extension-field oracle.
pub open spec fn extension_message<'b, F, EF, C, PB, PS, PE, E>(
    data: Seq<NativeWarpWhirRootOracleProverData<F, EF, C, PB, PS, PE>>,
    oracle_id: usize,
) -> Result<&'b Vec<EF>, NativeWarpWhirRootProofError<E>> {
    match find_prover_data(data, oracle_id) {
        None => Err(NativeWarpWhirRootProofError::MissingProverData(oracle_id)),
        Some(found) => match found.data {
            NativeWarpWhirRootProverData::ExtensionMessage(d) => Ok(&d.message),
            _ => Err(NativeWarpWhirRootProofError::OracleKindMismatch(oracle_id)),
        },
    }
}

/// One oracle of the batch that is opened.
pub struct PlannedOracle<'b, F, EF, D, PB, PS, PE> {
    /// Its public commitment.
    pub commitment: BoundRoot<D>,
    /// The queries to its codeword.
    pub statement: CompactStatement<EF>,
    /// Its message.
    pub poly: NativeWarpDirectBatchedResidualPoly<'b, F, EF>,
    /// What is needed to open it.
    pub oracle: NativeWarpBatchedResidualProverOracle<'b, PB, PS, PE>,
}

/// The planned oracle with the given parts, if its claims can be compiled.
pub open spec fn with_statement<'b, F, EF, D, PB, PS, PE, E>(
    commitment: BoundRoot<D>,
    statement: Result<CompactStatement<EF>, NativeWarpWhirClaimCompileError>,
    poly: NativeWarpDirectBatchedResidualPoly<'b, F, EF>,
    oracle: NativeWarpBatchedResidualProverOracle<'b, PB, PS, PE>,
) -> Result<PlannedOracle<'b, F, EF, D, PB, PS, PE>, NativeWarpWhirRootProofError<E>> {
    match statement {
        Err(e) => Err(NativeWarpWhirRootProofError::ClaimCompile(e)),
        Ok(statement) => Ok(PlannedOracle { commitment, statement, poly, oracle }),
    }
}

/// How one oracle that claims are about is opened. Its table has to fit the
/// code, to be of the kind of its commitment, and to be the encoding of the
/// message in its prover data, which has to be of that kind and of that column
/// too; and the claims about it have to compile.
pub open spec fn prover_oracle<
    'b,
    F: TwoAdicField,
    EF: ExtensionField<F>,
    D,
    C,
    PB,
    PS,
    PE,
    E,
>(
    shape: CodeShape,
    claims: Seq<RootIopOpeningClaim<F, EF>>,
    data: Seq<NativeWarpWhirRootOracleProverData<F, EF, C, PB, PS, PE>>,
    commitment: BoundRoot<D>,
    values: RootIopOracleValues<F, EF>,
) -> Result<PlannedOracle<'b, F, EF, D, PB, PS, PE>, NativeWarpWhirRootProofError<E>> {
    let id = commitment.oracle_id;
    match oracle_shape(shape, commitment, Some(values)) {
        Err(e) => Err(NativeWarpWhirRootProofError::Reduction(e)),
        Ok(()) => match (commitment.commitment, values) {
            (
                NativeWarpWhirRootCommitment::BaseMessage(_),
                RootIopOracleValues::Base(table),
            ) => match base_message::<F, EF, C, PB, PS, PE, E>(data, id) {
                Err(e) => Err(e),
                Ok(message) => match consistent_message(
                    shape,
                    base_generators::<F>(),
                    id,
                    table@,
                    message@,
                ) {
                    Err(e) => Err(NativeWarpWhirRootProofError::Reduction(e)),
                    Ok(()) => match find_prover_data(data, id)->Some_0.data {
                        NativeWarpWhirRootProverData::Base(d) => with_statement(
                            commitment,
                            base_statement(shape, claims, id),
                            NativeWarpDirectBatchedResidualPoly::Base(message),
                            ResidualOracle::Base(&d.prover_data),
                        ),
                        _ => Err(NativeWarpWhirRootProofError::OracleKindMismatch(id)),
                    },
                },
            },
            (
                NativeWarpWhirRootCommitment::BaseMessageShared { column, width, .. },
                RootIopOracleValues::Base(table),
            ) => match base_message::<F, EF, C, PB, PS, PE, E>(data, id) {
                Err(e) => Err(e),
                Ok(message) => match consistent_message(
                    shape,
                    base_generators::<F>(),
                    id,
                    table@,
                    message@,
                ) {
                    Err(e) => Err(NativeWarpWhirRootProofError::Reduction(e)),
                    Ok(()) => match find_prover_data(data, id)->Some_0.data {
                        NativeWarpWhirRootProverData::BaseShared(d) => if d.column != column
                            || d.width != width {
                            Err(NativeWarpWhirRootProofError::OracleKindMismatch(id))
                        } else {
                            with_statement(
                                commitment,
                                base_statement(shape, claims, id),
                                NativeWarpDirectBatchedResidualPoly::Base(message),
                                ResidualOracle::SharedBase { shared: &d.shared, column, width },
                            )
                        },
                        _ => Err(NativeWarpWhirRootProofError::OracleKindMismatch(id)),
                    },
                },
            },
            (
                NativeWarpWhirRootCommitment::ExtensionMessage(_),
                RootIopOracleValues::Extension(table),
            ) => match extension_message::<F, EF, C, PB, PS, PE, E>(data, id) {
                Err(e) => Err(e),
                Ok(message) => match consistent_message(
                    shape,
                    extension_generators::<F, EF>(),
                    id,
                    table@,
                    message@,
                ) {
                    Err(e) => Err(NativeWarpWhirRootProofError::Reduction(e)),
                    Ok(()) => match find_prover_data(data, id)->Some_0.data {
                        NativeWarpWhirRootProverData::ExtensionMessage(d) => with_statement(
                            commitment,
                            extension_statement(shape, claims, id),
                            NativeWarpDirectBatchedResidualPoly::Extension(message),
                            ResidualOracle::Extension(&d.prover_data),
                        ),
                        _ => Err(NativeWarpWhirRootProofError::OracleKindMismatch(id)),
                    },
                },
            },
            _ => Err(NativeWarpWhirRootProofError::OracleKindMismatch(id)),
        },
    }
}

/// How the oracles that claims are about are opened, in order; if one cannot
/// be opened, the first such is reported. Oracles that no claim is about are
/// left out.
pub open spec fn planned_oracles<
    'b,
    F: TwoAdicField,
    EF: ExtensionField<F>,
    D,
    C,
    PB,
    PS,
    PE,
    E,
>(
    shape: CodeShape,
    oracles: Seq<(BoundRoot<D>, RootIopOracleValues<F, EF>)>,
    claims: Seq<RootIopOpeningClaim<F, EF>>,
    data: Seq<NativeWarpWhirRootOracleProverData<F, EF, C, PB, PS, PE>>,
) -> Result<Seq<PlannedOracle<'b, F, EF, D, PB, PS, PE>>, NativeWarpWhirRootProofError<E>>
    decreases oracles.len(),
{
    if oracles.len() == 0 {
        Ok(Seq::empty())
    } else {
        match planned_oracles::<F, EF, D, C, PB, PS, PE, E>(
            shape,
            oracles.drop_last(),
            claims,
            data,
        ) {
            Err(e) => Err(e),
            Ok(planned) => {
                let (commitment, values) = oracles.last();
                if !claimed(claims, commitment.oracle_id) {
                    Ok(planned)
                } else {
                    match prover_oracle::<F, EF, D, C, PB, PS, PE, E>(
                        shape,
                        claims,
                        data,
                        commitment,
                        values,
                    ) {
                        Err(e) => Err(e),
                        Ok(next) => Ok(planned.push(next)),
                    }
                }
            },
        }
    }
}

/// The batch that is opened for a recorded root oracle proof: the identifiers
/// of the oracles have to be pairwise different, every claim has to be about a
/// bound oracle, and there has to be a claim.
pub open spec fn prover_batch<
    'b,
    F: TwoAdicField,
    EF: ExtensionField<F>,
    D,
    C,
    PB,
    PS,
    PE,
    E,
>(
    shape: CodeShape,
    oracles: Seq<(BoundRoot<D>, RootIopOracleValues<F, EF>)>,
    claims: Seq<RootIopOpeningClaim<F, EF>>,
    data: Seq<NativeWarpWhirRootOracleProverData<F, EF, C, PB, PS, PE>>,
) -> Result<Seq<PlannedOracle<'b, F, EF, D, PB, PS, PE>>, NativeWarpWhirRootProofError<E>> {
    let ids = public_ids(bound_commitments(oracles));
    match distinct_ids(ids) {
        Err(e) => Err(NativeWarpWhirRootProofError::Reduction(e)),
        Ok(()) => match known_oracles(ids, claims) {
            Err(e) => Err(NativeWarpWhirRootProofError::Reduction(e)),
            Ok(()) => match planned_oracles::<F, EF, D, C, PB, PS, PE, E>(
                shape,
                oracles,
                claims,
                data,
            ) {
                Err(e) => Err(e),
                Ok(planned) => if planned.len() == 0 {
                    Err(
                        NativeWarpWhirRootProofError::ClaimCompile(
                            NativeWarpWhirClaimCompileError::EmptyOracle(usize::MAX),
                        ),
                    )
                } else {
                    Ok(planned)
                },
            },
        },
    }
}

/// The public commitments of a batch.
pub open spec fn planned_commitments<'b, F, EF, D, PB, PS, PE>(
    planned: Seq<PlannedOracle<'b, F, EF, D, PB, PS, PE>>,
) -> Seq<BoundRoot<D>> {
    Seq::new(planned.len(), |i: int| planned[i].commitment)
}

/// The statements of a batch.
pub open spec fn planned_statements<'b, F, EF, D, PB, PS, PE>(
    planned: Seq<PlannedOracle<'b, F, EF, D, PB, PS, PE>>,
) -> Seq<CompactStatement<EF>> {
    Seq::new(planned.len(), |i: int| planned[i].statement)
}

/// The messages of a batch.
pub open spec fn planned_polys<'b, F, EF, D, PB, PS, PE>(
    planned: Seq<PlannedOracle<'b, F, EF, D, PB, PS, PE>>,
) -> Seq<NativeWarpDirectBatchedResidualPoly<'b, F, EF>> {
    Seq::new(planned.len(), |i: int| planned[i].poly)
}

/// The oracles of a batch.
pub open spec fn planned_residuals<'b, F, EF, D, PB, PS, PE>(
    planned: Seq<PlannedOracle<'b, F, EF, D, PB, PS, PE>>,
) -> Seq<NativeWarpBatchedResidualProverOracle<'b, PB, PS, PE>> {
    Seq::new(planned.len(), |i: int| planned[i].oracle)
}

/// The models of statements.
pub open spec fn statements_of<EF>(v: Seq<NativeWarpCompactRootStatement<EF>>) -> Seq<
    CompactStatement<EF>,
> {
    Seq::new(v.len(), |i: int| v[i]@)
}

/// A batch that is opened: four lists with one entry for each oracle.
pub struct ProverBatch<'b, F, EF, D, PB, PS, PE> {
    /// Public commitments.
    pub commitments: Vec<BoundRoot<D>>,
    /// Statements.
    pub statements: Vec<NativeWarpCompactRootStatement<EF>>,
    /// Messages.
    pub polys: Vec<NativeWarpDirectBatchedResidualPoly<'b, F, EF>>,
    /// What is needed to open the oracles.
    pub oracles: Vec<NativeWarpBatchedResidualProverOracle<'b, PB, PS, PE>>,
}

impl<'b, F, EF, D, PB, PS, PE> ProverBatch<'b, F, EF, D, PB, PS, PE> {
    /// The lists hold the parts of the planned oracles.
    pub open spec fn holds(
        self,
        planned: Seq<PlannedOracle<'b, F, EF, D, PB, PS, PE>>,
    ) -> bool {
        &&& self.commitments@ == planned_commitments(planned)
        &&& statements_of(self.statements@) == planned_statements(planned)
        &&& self.polys@ == planned_polys(planned)
        &&& self.oracles@ == planned_residuals(planned)
    }
}

/// What the reduction of a batch is handed: the statements, the messages, and a
/// transcript that has absorbed all public commitments of the batch.
pub open spec fn reduction_input<
    'b,
    F: Field,
    EF,
    D,
    C: Challenger<F, EF, D>,
    PB,
    PS,
    PE,
>(
    planned: Seq<PlannedOracle<'b, F, EF, D, PB, PS, PE>>,
    history: Seq<TranscriptItem<F, EF, D>>,
    statements: Vec<NativeWarpCompactRootStatement<EF>>,
    polys: Vec<NativeWarpDirectBatchedResidualPoly<'b, F, EF>>,
    challenger: C,
) -> bool {
    &&& statements_of(statements@) == planned_statements(planned)
    &&& polys@ == planned_polys(planned)
    &&& challenger.history() == history + all_binding_items(planned_commitments(planned))
}

/// What the opening of a batch is handed: the oracles, grouped with the
/// coefficients that a reduction of the batch gave, the point and the value that
/// it gave, and the transcript as it left it.
pub open spec fn opening_input<
    'b,
    F: TwoAdicField,
    EF: ExtensionField<F>,
    D,
    C: Challenger<F, EF, D>,
    PB,
    PS,
    PE,
    RP,
    E,
    G: FnOnce(
        Vec<NativeWarpCompactRootStatement<EF>>,
        Vec<NativeWarpDirectBatchedResidualPoly<'b, F, EF>>,
        C,
        usize,
    ) -> (Result<(RP, BatchedLinearSigmaOpeningClaim<EF>), E>, C),
>(
    planned: Seq<PlannedOracle<'b, F, EF, D, PB, PS, PE>>,
    history: Seq<TranscriptItem<F, EF, D>>,
    reduction_pow_bits: usize,
    reduce: G,
    groups: Vec<BatchedOracle<EF, &'b PB, &'b PE, &'b SharedHandle<PS>>>,
    point: Vec<EF>,
    value: EF,
    challenger: C,
) -> bool {
    exists|
        statements: Vec<NativeWarpCompactRootStatement<EF>>,
        polys: Vec<NativeWarpDirectBatchedResidualPoly<'b, F, EF>>,
        c: C,
        reduction: RP,
        claim: BatchedLinearSigmaOpeningClaim<EF>,
    |
        reduction_input(planned, history, statements, polys, c) && #[trigger] call_ensures(
            reduce,
            (statements, polys, c, reduction_pow_bits),
            (Ok((reduction, claim)), challenger),
        ) && grouping(planned_residuals(planned), claim.coeffs@) == Ok::<
            Seq<Group<EF, &'b PB, &'b PE, &'b SharedHandle<PS>>>,
            LinearSigmaReductionError,
        >(groups_of(groups@)) && point == claim.point && value == claim.value
}

/// What becomes of a batch after its reduction: an error of the reduction is
/// reported; otherwise the oracles are grouped with the coefficients that it
/// gave, and the groups are opened at the point that it gave.
pub open spec fn opened_after<
    'b,
    F,
    EF: Field,
    D,
    C,
    PB,
    PS,
    PE,
    RP,
    OP,
    E,
    H: FnOnce(
        Vec<BatchedOracle<EF, &'b PB, &'b PE, &'b SharedHandle<PS>>>,
        Vec<EF>,
        EF,
        C,
    ) -> (Result<OP, E>, C),
>(
    planned: Seq<PlannedOracle<'b, F, EF, D, PB, PS, PE>>,
    reduced: (Result<(RP, BatchedLinearSigmaOpeningClaim<EF>), E>, C),
    open: H,
    r: Result<NativeWarpWhirRootBatchedOpeningProof<RP, OP>, NativeWarpWhirRootProofError<E>>,
    after: C,
) -> bool {
    match reduced.0 {
        Err(e) => r == Err::<
            NativeWarpWhirRootBatchedOpeningProof<RP, OP>,
            NativeWarpWhirRootProofError<E>,
        >(NativeWarpWhirRootProofError::CompactReduction(e)) && after == reduced.1,
        Ok((reduction, claim)) => match grouping(planned_residuals(planned), claim.coeffs@) {
            Err(e) => r == Err::<
                NativeWarpWhirRootBatchedOpeningProof<RP, OP>,
                NativeWarpWhirRootProofError<E>,
            >(NativeWarpWhirRootProofError::LinearSigma(e)) && after == reduced.1,
            Ok(groups) => exists|
                g: Vec<BatchedOracle<EF, &'b PB, &'b PE, &'b SharedHandle<PS>>>,
                out: (Result<OP, E>, C),
            |
                groups_of(g@) == groups && #[trigger] call_ensures(
                    open,
                    (g, claim.point, claim.value, reduced.1),
                    out,
                ) && after == out.1 && r == match out.0 {
                    Ok(opening) => Ok(
                        NativeWarpWhirRootBatchedOpeningProof { reduction, opening },
                    ),
                    Err(e) => Err(NativeWarpWhirRootProofError::BatchedOpening(e)),
                },
        },
    }
}

/// What proving a recorded root oracle proof gives, and the transcript after
/// it: where there is no batch to open, the reason is reported and nothing has
/// been absorbed; otherwise the batch is reduced and opened.
pub open spec fn proving_result<
    'b,
    F: TwoAdicField,
    EF: ExtensionField<F>,
    D,
    C: Challenger<F, EF, D>,
    PB,
    PS,
    PE,
    RP,
    OP,
    E,
    G: FnOnce(
        Vec<NativeWarpCompactRootStatement<EF>>,
        Vec<NativeWarpDirectBatchedResidualPoly<'b, F, EF>>,
        C,
        usize,
    ) -> (Result<(RP, BatchedLinearSigmaOpeningClaim<EF>), E>, C),
    H: FnOnce(
        Vec<BatchedOracle<EF, &'b PB, &'b PE, &'b SharedHandle<PS>>>,
        Vec<EF>,
        EF,
        C,
    ) -> (Result<OP, E>, C),
>(
    batch: Result<Seq<PlannedOracle<'b, F, EF, D, PB, PS, PE>>, NativeWarpWhirRootProofError<E>>,
    history: Seq<TranscriptItem<F, EF, D>>,
    reduction_pow_bits: usize,
    reduce: G,
    open: H,
    r: Result<NativeWarpWhirRootBatchedOpeningProof<RP, OP>, NativeWarpWhirRootProofError<E>>,
    after: C,
) -> bool {
    match batch {
        Err(e) => r == Err::<
            NativeWarpWhirRootBatchedOpeningProof<RP, OP>,
            NativeWarpWhirRootProofError<E>,
        >(e) && after.history() == history,
        Ok(planned) => exists|
            statements: Vec<NativeWarpCompactRootStatement<EF>>,
            polys: Vec<NativeWarpDirectBatchedResidualPoly<'b, F, EF>>,
            c: C,
            reduced: (Result<(RP, BatchedLinearSigmaOpeningClaim<EF>), E>, C),
        |
            reduction_input(planned, history, statements, polys, c) && #[trigger] call_ensures(
                reduce,
                (statements, polys, c, reduction_pow_bits),
                reduced,
            ) && opened_after(planned, reduced, open, r, after),
    }
}

/// The root proof with an opening, or the error of one that was not made.
pub open spec fn wrapped<RP, OP, E>(
    opened: Result<NativeWarpWhirRootBatchedOpeningProof<RP, OP>, NativeWarpWhirRootProofError<E>>,
) -> Result<NativeWarpWhirRootProof<RP, OP>, NativeWarpWhirRootProofError<E>> {
    match opened {
        Ok(opening) => Ok(NativeWarpWhirRootProof { opening }),
        Err(e) => Err(e),
    }
}

/// What the root proof of a recorded root oracle proof is, and the transcript
/// after it: the opening of its batch, wrapped.
pub open spec fn root_proving_result<
    'b,
    F: TwoAdicField,
    EF: ExtensionField<F>,
    D,
    C: Challenger<F, EF, D>,
    PB,
    PS,
    PE,
    RP,
    OP,
    E,
    G: FnOnce(
        Vec<NativeWarpCompactRootStatement<EF>>,
        Vec<NativeWarpDirectBatchedResidualPoly<'b, F, EF>>,
        C,
        usize,
    ) -> (Result<(RP, BatchedLinearSigmaOpeningClaim<EF>), E>, C),
    H: FnOnce(
        Vec<BatchedOracle<EF, &'b PB, &'b PE, &'b SharedHandle<PS>>>,
        Vec<EF>,
        EF,
        C,
    ) -> (Result<OP, E>, C),
>(
    batch: Result<Seq<PlannedOracle<'b, F, EF, D, PB, PS, PE>>, NativeWarpWhirRootProofError<E>>,
    history: Seq<TranscriptItem<F, EF, D>>,
    reduction_pow_bits: usize,
    reduce: G,
    open: H,
    r: Result<NativeWarpWhirRootProof<RP, OP>, NativeWarpWhirRootProofError<E>>,
    after: C,
) -> bool {
    exists|
        opened: Result<
            NativeWarpWhirRootBatchedOpeningProof<RP, OP>,
            NativeWarpWhirRootProofError<E>,
        >,
    | #[trigger]
        proving_result(batch, history, reduction_pow_bits, reduce, open, opened, after) && r
            == wrapped(opened)
}

proof fn lemma_planned_prefix<
    'b,
    F: TwoAdicField,
    EF: ExtensionField<F>,
    D,
    C,
    PB,
    PS,
    PE,
    E,
>(
    shape: CodeShape,
    oracles: Seq<(BoundRoot<D>, RootIopOracleValues<F, EF>)>,
    claims: Seq<RootIopOpeningClaim<F, EF>>,
    data: Seq<NativeWarpWhirRootOracleProverData<F, EF, C, PB, PS, PE>>,
    n: int,
)
    requires
        0 <= n <= oracles.len(),
    ensures
        planned_oracles::<F, EF, D, C, PB, PS, PE, E>(shape, oracles.take(n), claims, data) is Err
            ==> planned_oracles::<F, EF, D, C, PB, PS, PE, E>(shape, oracles, claims, data)
            == planned_oracles::<F, EF, D, C, PB, PS, PE, E>(
            shape,
            oracles.take(n),
            claims,
            data,
        ),
    decreases oracles.len(),
{
    if n == oracles.len() {
        assert(oracles.take(n) =~= oracles);
    } else {
        lemma_planned_prefix::<F, EF, D, C, PB, PS, PE, E>(
            shape,
            oracles.drop_last(),
            claims,
            data,
            n,
        );
        assert(oracles.drop_last().take(n) =~= oracles.take(n));
    }
}

proof fn lemma_find_prefix<'b, F, EF, C, PB, PS, PE>(
    data: Seq<NativeWarpWhirRootOracleProverData<F, EF, C, PB, PS, PE>>,
    oracle_id: usize,
    n: int,
)
    requires
        0 <= n <= data.len(),
    ensures
        find_prover_data(data.take(n), oracle_id) is Some ==> find_prover_data(data, oracle_id)
            == find_prover_data(data.take(n), oracle_id),
    decreases data.len(),
{
    if n == data.len() {
        assert(data.take(n) =~= data);
    } else {
        lemma_find_prefix(data.drop_last(), oracle_id, n);
        assert(data.drop_last().take(n) =~= data.take(n));
    }
}

/// The first prover data of an oracle.
fn find_oracle_data<'b, F, EF, C, PB, PS, PE>(
    data: &'b Vec<NativeWarpWhirRootOracleProverData<F, EF, C, PB, PS, PE>>,
    oracle_id: usize,
) -> (r: Option<&'b NativeWarpWhirRootOracleProverData<F, EF, C, PB, PS, PE>>)
    ensures
        r == find_prover_data(data@, oracle_id),
{
    let mut i: usize = 0;
    while i < data.len()
        invariant
            i <= data@.len(),
            find_prover_data(data@.take(i as int), oracle_id) is None,
        decreases data@.len() - i,
    {
        proof {
            assert(data@.take(i as int + 1).drop_last() =~= data@.take(i as int));
            lemma_find_prefix(data@, oracle_id, i as int + 1);
        }
        if data[i].oracle_id == oracle_id {
            return Some(&data[i]);
        }
        i = i + 1;
    }
    assert(data@.take(i as int) =~= data@);
    None
}

impl<
    'a,
    F: TwoAdicField,
    EF: ExtensionField<F>,
    D: Digest,
    C: Challenger<F, EF, D>,
> NativeWarpWhirRootProofSystem<'a, F, EF, D, C> {
    /// The message of a base-field oracle.
    pub fn base_message_for_oracle<'b, PB, PS, PE, E>(
        &self,
        prover_data: &'b Vec<NativeWarpWhirRootOracleProverData<F, EF, C, PB, PS, PE>>,
        oracle_id: usize,
    ) -> (r: Result<&'b Vec<F>, NativeWarpWhirRootProofError<E>>)
        ensures
            r == base_message::<F, EF, C, PB, PS, PE, E>(prover_data@, oracle_id),
    {
        match find_oracle_data(prover_data, oracle_id) {
            None => Err(NativeWarpWhirRootProofError::MissingProverData(oracle_id)),
            Some(oracle_data) => match &oracle_data.data {
                NativeWarpWhirRootProverData::Base(data) => Ok(&data.message),
                NativeWarpWhirRootProverData::BaseShared(data) => Ok(&data.message),
                NativeWarpWhirRootProverData::ExtensionMessage(_) => Err(
                    NativeWarpWhirRootProofError::OracleKindMismatch(oracle_id),
                ),
            },
        }
    }

    /// The message of an extension-field oracle.
    pub fn extension_message_for_oracle<'b, PB, PS, PE, E>(
        &self,
        prover_data: &'b Vec<NativeWarpWhirRootOracleProverData<F, EF, C, PB, PS, PE>>,
        oracle_id: usize,
    ) -> (r: Result<&'b Vec<EF>, NativeWarpWhirRootProofError<E>>)
        ensures
            r == extension_message::<F, EF, C, PB, PS, PE, E>(prover_data@, oracle_id),
    {
        match find_oracle_data(prover_data, oracle_id) {
            None => Err(NativeWarpWhirRootProofError::MissingProverData(oracle_id)),
            Some(oracle_data) => match &oracle_data.data {
                NativeWarpWhirRootProverData::ExtensionMessage(data) => Ok(&data.message),
                NativeWarpWhirRootProverData::Base(_)
                | NativeWarpWhirRootProverData::BaseShared(_) => Err(
                    NativeWarpWhirRootProofError::OracleKindMismatch(oracle_id),
                ),
            },
        }
    }

    /// The message has the length of the code, and the table is its encoding.
    fn check_base_message<E>(&self, oracle_id: usize, table: &Vec<F>, message: &Vec<F>) -> (r:
        Result<(), NativeWarpWhirRootProofError<E>>)
        ensures
            match consistent_message(
                self.shape(),
                base_generators::<F>(),
                oracle_id,
                table@,
                message@,
            ) {
                Err(e) => r matches Err(NativeWarpWhirRootProofError::Reduction(found)) && found
                    == e,
                Ok(()) => r is Ok,
            },
    {
        let expected: usize = self.compiler().code().msg_len();
        if message.len() != expected {
            return Err(
                NativeWarpWhirRootProofError::Reduction(
                    NativeWarpWhirRootReductionError::OracleValueLengthMismatch {
                        oracle_id,
                        expected,
                        actual: message.len(),
                    },
                ),
            );
        }
        self.ensure_base_codeword_matches_message(oracle_id, table, message)
    }

    /// The message over the extension has the length of the code, and the table
    /// is its encoding.
    fn check_extension_message<E>(
        &self,
        oracle_id: usize,
        table: &Vec<EF>,
        message: &Vec<EF>,
    ) -> (r: Result<(), NativeWarpWhirRootProofError<E>>)
        ensures
            match consistent_message(
                self.shape(),
                extension_generators::<F, EF>(),
                oracle_id,
                table@,
                message@,
            ) {
                Err(e) => r matches Err(NativeWarpWhirRootProofError::Reduction(found)) && found
                    == e,
                Ok(()) => r is Ok,
            },
    {
        let expected: usize = self.compiler().code().msg_len();
        if message.len() != expected {
            return Err(
                NativeWarpWhirRootProofError::Reduction(
                    NativeWarpWhirRootReductionError::OracleValueLengthMismatch {
                        oracle_id,
                        expected,
                        actual: message.len(),
                    },
                ),
            );
        }
        self.ensure_extension_codeword_matches_message(oracle_id, table, message)
    }

    /// How one oracle that claims are about is opened.
    fn plan_prover_oracle<'b, PB, PS, PE, E>(
        &self,
        claims: &Vec<RootIopOpeningClaim<F, EF>>,
        prover_data: &'b Vec<NativeWarpWhirRootOracleProverData<F, EF, C, PB, PS, PE>>,
        commitment: &BoundRoot<D>,
        values: &RootIopOracleValues<F, EF>,
    ) -> (r: Result<
        (
            NativeWarpCompactRootStatement<EF>,
            NativeWarpDirectBatchedResidualPoly<'b, F, EF>,
            NativeWarpBatchedResidualProverOracle<'b, PB, PS, PE>,
        ),
        NativeWarpWhirRootProofError<E>,
    >)
        ensures
            match prover_oracle::<F, EF, D, C, PB, PS, PE, E>(
                self.shape(),
                claims@,
                prover_data@,
                *commitment,
                *values,
            ) {
                Ok(planned) => r matches Ok((statement, poly, oracle)) && statement@
                    == planned.statement && poly == planned.poly && oracle == planned.oracle
                    && planned.commitment == *commitment,
                Err(e) => r matches Err(found) && found == e,
            },
    {
        let oracle_id: usize = commitment.oracle_id;
        match self.compiler().check_bound_oracle_shape(commitment, Some(values)) {
            Ok(()) => {},
            Err(e) => {
                return Err(NativeWarpWhirRootProofError::Reduction(e));
            },
        }
        match (&commitment.commitment, values) {
            (NativeWarpWhirRootCommitment::BaseMessage(_), RootIopOracleValues::Base(values)) => {
                let message = match self.base_message_for_oracle(prover_data, oracle_id) {
                    Ok(message) => message,
                    Err(e) => {
                        return Err(e);
                    },
                };
                match self.check_base_message(oracle_id, values, message) {
                    Ok(()) => {},
                    Err(e) => {
                        return Err(e);
                    },
                }
                let data = match find_oracle_data(prover_data, oracle_id) {
                    Some(oracle_data) => match &oracle_data.data {
                        NativeWarpWhirRootProverData::Base(data) => data,
                        _ => {
                            return Err(NativeWarpWhirRootProofError::OracleKindMismatch(oracle_id));
                        },
                    },
                    None => {
                        return Err(NativeWarpWhirRootProofError::MissingProverData(oracle_id));
                    },
                };
                match self.compact_base_message_claim_statement(claims, oracle_id) {
                    Ok(statement) => Ok(
                        (
                            statement,
                            NativeWarpDirectBatchedResidualPoly::Base(message),
                            ResidualOracle::Base(&data.prover_data),
                        ),
                    ),
                    Err(e) => Err(NativeWarpWhirRootProofError::ClaimCompile(e)),
                }
            },
            (
                NativeWarpWhirRootCommitment::BaseMessageShared { column, width, .. },
                RootIopOracleValues::Base(values),
            ) => {
                let message = match self.base_message_for_oracle(prover_data, oracle_id) {
                    Ok(message) => message,
                    Err(e) => {
                        return Err(e);
                    },
                };
                match self.check_base_message(oracle_id, values, message) {
                    Ok(()) => {},
                    Err(e) => {
                        return Err(e);
                    },
                }
                let data = match find_oracle_data(prover_data, oracle_id) {
                    Some(oracle_data) => match &oracle_data.data {
                        NativeWarpWhirRootProverData::BaseShared(data) => data,
                        _ => {
                            return Err(NativeWarpWhirRootProofError::OracleKindMismatch(oracle_id));
                        },
                    },
                    None => {
                        return Err(NativeWarpWhirRootProofError::MissingProverData(oracle_id));
                    },
                };
                if data.column != *column || data.width != *width {
                    return Err(NativeWarpWhirRootProofError::OracleKindMismatch(oracle_id));
                }
                match self.compact_base_message_claim_statement(claims, oracle_id) {
                    Ok(statement) => Ok(
                        (
                            statement,
                            NativeWarpDirectBatchedResidualPoly::Base(message),
                            ResidualOracle::SharedBase {
                                shared: &data.shared,
                                column: *column,
                                width: *width,
                            },
                        ),
                    ),
                    Err(e) => Err(NativeWarpWhirRootProofError::ClaimCompile(e)),
                }
            },
            (
                NativeWarpWhirRootCommitment::ExtensionMessage(_),
                RootIopOracleValues::Extension(values),
            ) => {
                let message = match self.extension_message_for_oracle(prover_data, oracle_id) {
                    Ok(message) => message,
                    Err(e) => {
                        return Err(e);
                    },
                };
                match self.check_extension_message(oracle_id, values, message) {
                    Ok(()) => {},
                    Err(e) => {
                        return Err(e);
                    },
                }
                let data = match find_oracle_data(prover_data, oracle_id) {
                    Some(oracle_data) => match &oracle_data.data {
                        NativeWarpWhirRootProverData::ExtensionMessage(data) => data,
                        _ => {
                            return Err(NativeWarpWhirRootProofError::OracleKindMismatch(oracle_id));
                        },
                    },
                    None => {
                        return Err(NativeWarpWhirRootProofError::MissingProverData(oracle_id));
                    },
                };
                match self.compact_extension_message_claim_statement(claims, oracle_id) {
                    Ok(statement) => Ok(
                        (
                            statement,
                            NativeWarpDirectBatchedResidualPoly::Extension(message),
                            ResidualOracle::Extension(&data.prover_data),
                        ),
                    ),
                    Err(e) => Err(NativeWarpWhirRootProofError::ClaimCompile(e)),
                }
            },
            _ => Err(NativeWarpWhirRootProofError::OracleKindMismatch(oracle_id)),
        }
    }

    /// The batch that is opened for a recorded root oracle proof.
    pub fn plan_prover_batch<'b, PB, PS, PE, E>(
        &self,
        transcript: &RootIopBoundTranscript<F, EF, NativeWarpWhirRootCommitment<D>>,
        prover_data: &'b Vec<NativeWarpWhirRootOracleProverData<F, EF, C, PB, PS, PE>>,
    ) -> (r: Result<
        ProverBatch<'b, F, EF, D, PB, PS, PE>,
        NativeWarpWhirRootProofError<E>,
    >)
        ensures
            match prover_batch::<F, EF, D, C, PB, PS, PE, E>(
                self.shape(),
                transcript.oracles@,
                transcript.claims@,
                prover_data@,
            ) {
                Ok(planned) => r matches Ok(batch) && batch.holds(planned),
                Err(e) => r matches Err(found) && found == e,
            },
    {
        match self.compiler().check_unique_bound_oracle_ids(&transcript.oracles) {
            Ok(()) => {},
            Err(e) => {
                return Err(NativeWarpWhirRootProofError::Reduction(e));
            },
        }
        match self.compiler().check_claim_oracles_bound(&transcript.oracles, &transcript.claims) {
            Ok(()) => {},
            Err(e) => {
                return Err(NativeWarpWhirRootProofError::Reduction(e));
            },
        }
        let ghost (oracles, claims, data) = (transcript.oracles@, transcript.claims@, prover_data@);
        let mut batch = ProverBatch {
            commitments: Vec::new(),
            statements: Vec::new(),
            polys: Vec::new(),
            oracles: Vec::new(),
        };
        let ghost mut planned: Seq<PlannedOracle<'b, F, EF, D, PB, PS, PE>> = Seq::empty();
        assert(batch.holds(planned)) by {
            assert(batch.commitments@ =~= planned_commitments(planned));
            assert(statements_of(batch.statements@) =~= planned_statements(planned));
            assert(batch.polys@ =~= planned_polys(planned));
            assert(batch.oracles@ =~= planned_residuals(planned));
        }
        let mut i: usize = 0;
        while i < transcript.oracles.len()
            invariant
                oracles == transcript.oracles@,
                claims == transcript.claims@,
                data == prover_data@,
                distinct_ids(public_ids(bound_commitments(oracles))) is Ok,
                known_oracles(public_ids(bound_commitments(oracles)), claims) is Ok,
                i <= oracles.len(),
                planned_oracles::<F, EF, D, C, PB, PS, PE, E>(
                    self.shape(),
                    oracles.take(i as int),
                    claims,
                    data,
                ) == Ok::<
                    Seq<PlannedOracle<'b, F, EF, D, PB, PS, PE>>,
                    NativeWarpWhirRootProofError<E>,
                >(planned),
                batch.holds(planned),
            decreases oracles.len() - i,
        {
            let oracle = &transcript.oracles[i];
            proof {
                let n = i as int + 1;
                assert(oracles.take(n).drop_last() =~= oracles.take(n - 1));
                assert(oracles.take(n).last() == oracles[n - 1]);
                lemma_planned_prefix::<F, EF, D, C, PB, PS, PE, E>(
                    self.shape(),
                    oracles,
                    claims,
                    data,
                    n,
                );
            }
            if claims_include_oracle(&transcript.claims, oracle.0.oracle_id) {
                match self.plan_prover_oracle(
                    &transcript.claims,
                    prover_data,
                    &oracle.0,
                    &oracle.1,
                ) {
                    Ok((statement, poly, residual)) => {
                        let ghost next = prover_oracle::<F, EF, D, C, PB, PS, PE, E>(
                            self.shape(),
                            claims,
                            data,
                            oracle.0,
                            oracle.1,
                        )->Ok_0;
                        let ghost before = batch;
                        batch.commitments.push(oracle.0);
                        batch.statements.push(statement);
                        batch.polys.push(poly);
                        batch.oracles.push(residual);
                        proof {
                            assert(batch.statements@.drop_last() =~= before.statements@);
                            lemma_batch_push(before, batch, planned, next);
                            planned = planned.push(next);
                        }
                    },
                    Err(e) => {
                        return Err(e);
                    },
                }
            }
            i = i + 1;
        }
        assert(oracles.take(i as int) =~= oracles);
        if batch.statements.len() == 0 {
            assert(statements_of(batch.statements@).len() == planned.len());
            return Err(
                NativeWarpWhirRootProofError::ClaimCompile(
                    NativeWarpWhirClaimCompileError::EmptyOracle(usize::MAX),
                ),
            );
        }
        assert(statements_of(batch.statements@).len() == planned.len());
        Ok(batch)
    }

    /// Groups the oracles of a batch by the allocation of their shared prover
    /// data.
    pub fn group_prover_oracles<'b, PB, PS, PE>(
        oracles: &Vec<NativeWarpBatchedResidualProverOracle<'b, PB, PS, PE>>,
        coeffs: &Vec<EF>,
    ) -> (r: Result<
        Vec<BatchedOracle<EF, &'b PB, &'b PE, &'b SharedHandle<PS>>>,
        LinearSigmaReductionError,
    >)
        ensures
            match grouping(oracles@, coeffs@) {
                Ok(groups) => r matches Ok(v) && groups_of(v@) == groups,
                Err(e) => r matches Err(found) && found == e,
            },
    {
        group_oracles(oracles, coeffs)
    }

    /// Proves the recorded claims with one batched opening: the proof holds what
    /// [`Self::prove_direct_batched_root`] gives.
    pub fn prove<
        'b,
        PB,
        PS,
        PE,
        RP,
        OP,
        E,
        G: FnOnce(
            Vec<NativeWarpCompactRootStatement<EF>>,
            Vec<NativeWarpDirectBatchedResidualPoly<'b, F, EF>>,
            C,
            usize,
        ) -> (Result<(RP, BatchedLinearSigmaOpeningClaim<EF>), E>, C),
        H: FnOnce(
            Vec<BatchedOracle<EF, &'b PB, &'b PE, &'b SharedHandle<PS>>>,
            Vec<EF>,
            EF,
            C,
        ) -> (Result<OP, E>, C),
    >(
        &self,
        transcript: &RootIopBoundTranscript<F, EF, NativeWarpWhirRootCommitment<D>>,
        prover_data: &'b Vec<NativeWarpWhirRootOracleProverData<F, EF, C, PB, PS, PE>>,
        challenger: &mut C,
        reduction_pow_bits: usize,
        reduce: G,
        open: H,
    ) -> (r: Result<NativeWarpWhirRootProof<RP, OP>, NativeWarpWhirRootProofError<E>>)
        requires
            prover_batch::<F, EF, D, C, PB, PS, PE, E>(
                self.shape(),
                transcript.oracles@,
                transcript.claims@,
                prover_data@,
            ) matches Ok(planned) ==> forall|
                statements: Vec<NativeWarpCompactRootStatement<EF>>,
                polys: Vec<NativeWarpDirectBatchedResidualPoly<'b, F, EF>>,
                c: C,
            |
                reduction_input(planned, old(challenger).history(), statements, polys, c)
                    ==> #[trigger] call_requires(
                    reduce,
                    (statements, polys, c, reduction_pow_bits),
                ),
            prover_batch::<F, EF, D, C, PB, PS, PE, E>(
                self.shape(),
                transcript.oracles@,
                transcript.claims@,
                prover_data@,
            ) matches Ok(planned) ==> forall|
                g: Vec<BatchedOracle<EF, &'b PB, &'b PE, &'b SharedHandle<PS>>>,
                point: Vec<EF>,
                value: EF,
                c: C,
            |
                opening_input(
                    planned,
                    old(challenger).history(),
                    reduction_pow_bits,
                    reduce,
                    g,
                    point,
                    value,
                    c,
                ) ==> #[trigger] call_requires(open, (g, point, value, c)),
        ensures
            root_proving_result(
                prover_batch::<F, EF, D, C, PB, PS, PE, E>(
                    self.shape(),
                    transcript.oracles@,
                    transcript.claims@,
                    prover_data@,
                ),
                old(challenger).history(),
                reduction_pow_bits,
                reduce,
                open,
                r,
                *final(challenger),
            ),
    {
        match self.prove_direct_batched_root(
            transcript,
            prover_data,
            challenger,
            reduction_pow_bits,
            reduce,
            open,
        ) {
            Ok(opening) => Ok(NativeWarpWhirRootProof { opening }),
            Err(e) => Err(e),
        }
    }

    /// Opens the batch of a recorded root oracle proof. `reduce` reduces all
    /// statements to one claim about a combination of the oracles, and `open`
    /// opens the grouped oracles at the point of that claim; both are handed
    /// the transcript and hand it back as they leave it.
    pub fn prove_direct_batched_root<
        'b,
        PB,
        PS,
        PE,
        RP,
        OP,
        E,
        G: FnOnce(
            Vec<NativeWarpCompactRootStatement<EF>>,
            Vec<NativeWarpDirectBatchedResidualPoly<'b, F, EF>>,
            C,
            usize,
        ) -> (Result<(RP, BatchedLinearSigmaOpeningClaim<EF>), E>, C),
        H: FnOnce(
            Vec<BatchedOracle<EF, &'b PB, &'b PE, &'b SharedHandle<PS>>>,
            Vec<EF>,
            EF,
            C,
        ) -> (Result<OP, E>, C),
    >(
        &self,
        transcript: &RootIopBoundTranscript<F, EF, NativeWarpWhirRootCommitment<D>>,
        prover_data: &'b Vec<NativeWarpWhirRootOracleProverData<F, EF, C, PB, PS, PE>>,
        challenger: &mut C,
        reduction_pow_bits: usize,
        reduce: G,
        open: H,
    ) -> (r: Result<
        NativeWarpWhirRootBatchedOpeningProof<RP, OP>,
        NativeWarpWhirRootProofError<E>,
    >)
        requires
            prover_batch::<F, EF, D, C, PB, PS, PE, E>(
                self.shape(),
                transcript.oracles@,
                transcript.claims@,
                prover_data@,
            ) matches Ok(planned) ==> forall|
                statements: Vec<NativeWarpCompactRootStatement<EF>>,
                polys: Vec<NativeWarpDirectBatchedResidualPoly<'b, F, EF>>,
                c: C,
            |
                reduction_input(planned, old(challenger).history(), statements, polys, c)
                    ==> #[trigger] call_requires(
                    reduce,
                    (statements, polys, c, reduction_pow_bits),
                ),
            prover_batch::<F, EF, D, C, PB, PS, PE, E>(
                self.shape(),
                transcript.oracles@,
                transcript.claims@,
                prover_data@,
            ) matches Ok(planned) ==> forall|
                g: Vec<BatchedOracle<EF, &'b PB, &'b PE, &'b SharedHandle<PS>>>,
                point: Vec<EF>,
                value: EF,
                c: C,
            |
                opening_input(
                    planned,
                    old(challenger).history(),
                    reduction_pow_bits,
                    reduce,
                    g,
                    point,
                    value,
                    c,
                ) ==> #[trigger] call_requires(open, (g, point, value, c)),
        ensures
            proving_result(
                prover_batch::<F, EF, D, C, PB, PS, PE, E>(
                    self.shape(),
                    transcript.oracles@,
                    transcript.claims@,
                    prover_data@,
                ),
                old(challenger).history(),
                reduction_pow_bits,
                reduce,
                open,
                r,
                *final(challenger),
            ),
    {
        let ghost planned = prover_batch::<F, EF, D, C, PB, PS, PE, E>(
            self.shape(),
            transcript.oracles@,
            transcript.claims@,
            prover_data@,
        )->Ok_0;
        let batch = match self.plan_prover_batch(transcript, prover_data) {
            Ok(batch) => batch,
            Err(e) => {
                return Err(e);
            },
        };
        // All public commitments of the batch are absorbed before the reduction
        // draws its first challenge.
        observe_all(challenger, &batch.commitments);
        let ProverBatch { commitments: _, statements, polys, oracles } = batch;
        let (reduced, after) = reduce(statements, polys, challenger.fork(), reduction_pow_bits);
        let (reduction, claim) = match reduced {
            Ok(reduced) => reduced,
            Err(e) => {
                *challenger = after;
                return Err(NativeWarpWhirRootProofError::CompactReduction(e));
            },
        };
        let groups = match Self::group_prover_oracles(&oracles, &claim.coeffs) {
            Ok(groups) => groups,
            Err(e) => {
                *challenger = after;
                return Err(NativeWarpWhirRootProofError::LinearSigma(e));
            },
        };
        let (opened, after) = open(groups, claim.point, claim.value, after);
        *challenger = after;
        match opened {
            Ok(opening) => Ok(NativeWarpWhirRootBatchedOpeningProof { reduction, opening }),
            Err(e) => Err(NativeWarpWhirRootProofError::BatchedOpening(e)),
        }
    }
}

proof fn lemma_batch_push<'b, F, EF, D, PB, PS, PE>(
    before: ProverBatch<'b, F, EF, D, PB, PS, PE>,
    after: ProverBatch<'b, F, EF, D, PB, PS, PE>,
    planned: Seq<PlannedOracle<'b, F, EF, D, PB, PS, PE>>,
    next: PlannedOracle<'b, F, EF, D, PB, PS, PE>,
)
    requires
        before.holds(planned),
        after.commitments@ == before.commitments@.push(next.commitment),
        after.statements@.len() == before.statements@.len() + 1,
        after.statements@.drop_last() == before.statements@,
        after.statements@.last()@ == next.statement,
        after.polys@ == before.polys@.push(next.poly),
        after.oracles@ == before.oracles@.push(next.oracle),
    ensures
        after.holds(planned.push(next)),
{
    let n = planned.len() as int;
    assert(statements_of(before.statements@).len() == n);
    assert(after.commitments@ =~= planned_commitments(planned.push(next)));
    assert forall|i: int| 0 <= i <= n implies #[trigger] statements_of(after.statements@)[i]
        == planned_statements(planned.push(next))[i] by {
        if i < n {
            assert(after.statements@.drop_last()[i] == after.statements@[i]);
            assert(statements_of(before.statements@)[i] == planned_statements(planned)[i]);
        }
    }
    assert(statements_of(after.statements@) =~= planned_statements(planned.push(next)));
    assert(after.polys@ =~= planned_polys(planned.push(next)));
    assert(after.oracles@ =~= planned_residuals(planned.push(next)));
}

} // verus!
