//! What proving gives.

use crate::claims::{CompactStatement, NativeWarpCompactRootStatement};
use crate::code::{base_generators, extension_generators, CodeShape};
use crate::compiler::{
    bound_commitments, distinct_ids, distinct_ids_means_no_duplicates, known_oracles,
    known_oracles_means_all_given, public_ids,
};
use crate::error::{
    LinearSigmaReductionError, NativeWarpWhirClaimCompileError, NativeWarpWhirRootProofError,
    NativeWarpWhirRootReductionError,
};
use crate::field::{ExtensionField, Field, TwoAdicField};
use crate::grouped::columns_fit;
use crate::grouping::{groups_of, grouping, BatchedOracle, Group, GroupKey, ResidualOracle};
use crate::operations::checking::{
    first_repeated, first_unknown, the_first_repeated_identifier_is_reported,
    the_first_unknown_oracle_is_reported,
};
use crate::operations::committing::{is_encoded, lemma_lengths_fit};
use crate::operations::compiling::{
    asks_for_all, base_claim_fits, base_statement_asks_for_claims, extension_claim_fits,
    extension_statement_asks_for_claims, lemma_filtered,
};
use crate::operations::grouping_oracles::{is_grouping_of, lemma_is_grouping_of};
use crate::operations::transcripts::{commitments_are_absorbed_item_by_item, items_of_all};
use crate::proof_system::NativeWarpWhirRootProofSystem;
use crate::root_iop::{
    claimed, claims_about, lemma_claims_about_nonempty, RootIopBoundTranscript, RootIopOpeningClaim,
    RootIopOpeningPoint, RootIopOpeningValue, RootIopOracleField, RootIopOracleValues,
};
use crate::root_prover::{
    find_prover_data, opened_after, opening_input, planned_commitments, planned_oracles,
    planned_polys, planned_residuals, planned_statements, prover_batch, prover_oracle,
    proving_result, reduction_input, statements_of, wrapped, PlannedOracle, ProverBatch,
};
use crate::transcript::{Challenger, Digest, TranscriptItem};
use crate::types::{
    BatchedLinearSigmaOpeningClaim, BoundRoot, NativeWarpBatchedResidualProverOracle,
    NativeWarpDirectBatchedResidualPoly, NativeWarpWhirRootBatchedOpeningProof,
    NativeWarpWhirRootCommitment, NativeWarpWhirRootOracleProverData, NativeWarpWhirRootProof,
    NativeWarpWhirRootProverData, SharedHandle,
};
use std::sync::Arc;
use vstd::arithmetic::power2::pow2;
use vstd::prelude::*;

verus! {

/// The entry at `k` is the first one of the oracle.
pub open spec fn is_first_data_of<F, EF, C, PB, PS, PE>(
    data: Seq<NativeWarpWhirRootOracleProverData<F, EF, C, PB, PS, PE>>,
    oracle_id: usize,
    k: int,
) -> bool {
    &&& 0 <= k < data.len()
    &&& data[k].oracle_id == oracle_id
    &&& forall|j: int| 0 <= j < k ==> (#[trigger] data[j]).oracle_id != oracle_id
}

/// Prover data is looked up by the identifier, and the first entry counts.
pub proof fn the_first_prover_data_is_found<F, EF, C, PB, PS, PE>(
    data: Seq<NativeWarpWhirRootOracleProverData<F, EF, C, PB, PS, PE>>,
    oracle_id: usize,
) -> (k: int)
    ensures
        match find_prover_data(data, oracle_id) {
            Some(found) => is_first_data_of(data, oracle_id, k) && *found == data[k],
            None => forall|j: int| 0 <= j < data.len() ==> (#[trigger] data[j]).oracle_id
                != oracle_id,
        },
    decreases data.len(),
{
    if data.len() == 0 {
        0
    } else {
        let rest = data.drop_last();
        let n = data.len() - 1;
        let k = the_first_prover_data_is_found(rest, oracle_id);
        assert(data[n] == data.last());
        assert(forall|j: int| 0 <= j < n ==> #[trigger] data[j] == rest[j]);
        assert(forall|j: int| 0 <= j < n ==> #[trigger] rest[j] == data[j]);
        if find_prover_data(rest, oracle_id) is Some {
            k
        } else {
            n
        }
    }
}

/// The statement asks for what the claims about a base-field oracle are about,
/// all of which can be made.
pub open spec fn base_statement_of<F: TwoAdicField, EF: ExtensionField<F>>(
    shape: CodeShape,
    claims: Seq<RootIopOpeningClaim<F, EF>>,
    oracle_id: usize,
    statement: CompactStatement<EF>,
) -> bool {
    &&& forall|i: int|
        0 <= i < claims.len() && (#[trigger] claims[i]).oracle_id == oracle_id ==> base_claim_fits(
            shape,
            claims[i],
        )
    &&& asks_for_all(
        shape,
        statement,
        claims.filter(|c: RootIopOpeningClaim<F, EF>| c.oracle_id == oracle_id),
    )
}

/// The statement asks for what the claims about an extension-field oracle are
/// about, all of which can be made.
pub open spec fn extension_statement_of<F: TwoAdicField, EF: ExtensionField<F>>(
    shape: CodeShape,
    claims: Seq<RootIopOpeningClaim<F, EF>>,
    oracle_id: usize,
    statement: CompactStatement<EF>,
) -> bool {
    &&& forall|i: int|
        0 <= i < claims.len() && (#[trigger] claims[i]).oracle_id == oracle_id
            ==> extension_claim_fits(shape, claims[i])
    &&& asks_for_all(
        shape,
        statement,
        claims.filter(|c: RootIopOpeningClaim<F, EF>| c.oracle_id == oracle_id),
    )
}

/// The oracle is opened with the given parts: its commitment has the length of a
/// codeword and the field of its table; the first prover data of the oracle is
/// of the kind and of the place of the commitment; the table is the encoding of
/// the message in it; and the statement is that of the claims about the oracle.
pub open spec fn opens_with<'b, F: TwoAdicField, EF: ExtensionField<F>, D, C, PB, PS, PE>(
    shape: CodeShape,
    claims: Seq<RootIopOpeningClaim<F, EF>>,
    data: Seq<NativeWarpWhirRootOracleProverData<F, EF, C, PB, PS, PE>>,
    oracle: (BoundRoot<D>, RootIopOracleValues<F, EF>),
    statement: CompactStatement<EF>,
    poly: NativeWarpDirectBatchedResidualPoly<'b, F, EF>,
    residual: NativeWarpBatchedResidualProverOracle<'b, PB, PS, PE>,
) -> bool {
    let (bound, values) = oracle;
    let id = bound.oracle_id;
    &&& bound.log_len == shape.log_msg_len + shape.log_inv_rate
    &&& exists|k: int| #[trigger]
        is_first_data_of(data, id, k) && match (bound.commitment, values, data[k].data) {
            (
                NativeWarpWhirRootCommitment::BaseMessage(_),
                RootIopOracleValues::Base(table),
                NativeWarpWhirRootProverData::Base(d),
            ) => bound.field == RootIopOracleField::Base && is_encoded(
                shape,
                table@,
                d.message@,
                shape.encoding(base_generators::<F>(), d.message@),
            ) && base_statement_of(shape, claims, id, statement) && poly
                == NativeWarpDirectBatchedResidualPoly::<'b, F, EF>::Base(&d.message) && (
            residual matches ResidualOracle::Base(given) && *given == d.prover_data),
            (
                NativeWarpWhirRootCommitment::BaseMessageShared { column, width, .. },
                RootIopOracleValues::Base(table),
                NativeWarpWhirRootProverData::BaseShared(d),
            ) => bound.field == RootIopOracleField::Base && is_encoded(
                shape,
                table@,
                d.message@,
                shape.encoding(base_generators::<F>(), d.message@),
            ) && d.column == column && d.width == width && base_statement_of(
                shape,
                claims,
                id,
                statement,
            ) && poly == NativeWarpDirectBatchedResidualPoly::<'b, F, EF>::Base(&d.message)
                && (residual matches ResidualOracle::SharedBase {
                shared: given,
                column: at,
                width: of,
            } && *given == d.shared && at == column && of == width),
            (
                NativeWarpWhirRootCommitment::ExtensionMessage(_),
                RootIopOracleValues::Extension(table),
                NativeWarpWhirRootProverData::ExtensionMessage(d),
            ) => bound.field == RootIopOracleField::Extension && is_encoded(
                shape,
                table@,
                d.message@,
                shape.encoding(extension_generators::<F, EF>(), d.message@),
            ) && extension_statement_of(shape, claims, id, statement) && poly
                == NativeWarpDirectBatchedResidualPoly::<'b, F, EF>::Extension(&d.message)
                && (residual matches ResidualOracle::Extension(given) && *given == d.prover_data),
            _ => false,
        }
}

proof fn lemma_oracle_opens_with<
    'b,
    F: TwoAdicField,
    EF: ExtensionField<F>,
    D,
    C,
    PB,
    PS,
    PE,
    E,
>(
    shape: CodeShape,
    claims: Seq<RootIopOpeningClaim<F, EF>>,
    data: Seq<NativeWarpWhirRootOracleProverData<F, EF, C, PB, PS, PE>>,
    oracle: (BoundRoot<D>, RootIopOracleValues<F, EF>),
)
    requires
        claimed(claims, oracle.0.oracle_id),
    ensures
        match prover_oracle::<F, EF, D, C, PB, PS, PE, E>(
            shape,
            claims,
            data,
            oracle.0,
            oracle.1,
        ) {
            Ok(planned) => planned.commitment == oracle.0 && opens_with(
                shape,
                claims,
                data,
                oracle,
                planned.statement,
                planned.poly,
                planned.oracle,
            ),
            Err(_) => forall|
                statement: CompactStatement<EF>,
                poly: NativeWarpDirectBatchedResidualPoly<'b, F, EF>,
                residual: NativeWarpBatchedResidualProverOracle<'b, PB, PS, PE>,
            | !#[trigger] opens_with(shape, claims, data, oracle, statement, poly, residual),
        },
{
    let id = oracle.0.oracle_id;
    let k = the_first_prover_data_is_found(data, id);
    base_statement_asks_for_claims(shape, claims, id);
    extension_statement_asks_for_claims(shape, claims, id);
    assert(exists|i: int| 0 <= i < claims.len() && (#[trigger] claims[i]).oracle_id == id);
    match prover_oracle::<F, EF, D, C, PB, PS, PE, E>(shape, claims, data, oracle.0, oracle.1) {
        Ok(planned) => {
            assert(is_first_data_of(data, id, k));
        },
        Err(_) => {
            assert forall|
                statement: CompactStatement<EF>,
                poly: NativeWarpDirectBatchedResidualPoly<'b, F, EF>,
                residual: NativeWarpBatchedResidualProverOracle<'b, PB, PS, PE>,
            | !#[trigger] opens_with(shape, claims, data, oracle, statement, poly, residual) by {
                if opens_with(shape, claims, data, oracle, statement, poly, residual) {
                    let j = choose|j: int| #[trigger] is_first_data_of(data, id, j);
                    assert(is_first_data_of(data, id, j));
                    assert forall|l: int| #[trigger] is_first_data_of(data, id, l) implies l
                        == k by {
                        if l < k {
                            assert(data[l].oracle_id != id);
                        } else if k < l {
                            assert(data[k].oracle_id != id);
                        }
                    }
                }
            }
        },
    }
}

/// What the statements say, one after the other.
pub open spec fn views_of<EF>(statements: Seq<NativeWarpCompactRootStatement<EF>>) -> Seq<
    CompactStatement<EF>,
> {
    Seq::new(statements.len(), |i: int| statements[i]@)
}

/// The oracles that claims are about, in order.
pub open spec fn oracles_named<F, EF, D>(
    oracles: Seq<(BoundRoot<D>, RootIopOracleValues<F, EF>)>,
    claims: Seq<RootIopOpeningClaim<F, EF>>,
) -> Seq<(BoundRoot<D>, RootIopOracleValues<F, EF>)> {
    oracles.filter(
        |o: (BoundRoot<D>, RootIopOracleValues<F, EF>)|
            exists|i: int|
                0 <= i < claims.len() && (#[trigger] claims[i]).oracle_id == o.0.oracle_id,
    )
}

/// No two oracles have the same identifier, and every claim is about one.
pub open spec fn well_bound<F, EF, D>(
    commitments: Seq<BoundRoot<D>>,
    claims: Seq<RootIopOpeningClaim<F, EF>>,
) -> bool {
    &&& forall|i: int, j: int|
        #![trigger commitments[i], commitments[j]]
        0 <= i < j < commitments.len() ==> commitments[i].oracle_id != commitments[j].oracle_id
    &&& forall|i: int|
        0 <= i < claims.len() ==> exists|j: int|
            0 <= j < commitments.len() && (#[trigger] commitments[j]).oracle_id == (
            #[trigger] claims[i]).oracle_id
}

/// The lists are the parts with which the given oracles are opened, in order.
pub open spec fn all_open_with<'b, F: TwoAdicField, EF: ExtensionField<F>, D, C, PB, PS, PE>(
    shape: CodeShape,
    claims: Seq<RootIopOpeningClaim<F, EF>>,
    data: Seq<NativeWarpWhirRootOracleProverData<F, EF, C, PB, PS, PE>>,
    oracles: Seq<(BoundRoot<D>, RootIopOracleValues<F, EF>)>,
    statements: Seq<CompactStatement<EF>>,
    polys: Seq<NativeWarpDirectBatchedResidualPoly<'b, F, EF>>,
    residuals: Seq<NativeWarpBatchedResidualProverOracle<'b, PB, PS, PE>>,
) -> bool {
    &&& statements.len() == oracles.len()
    &&& polys.len() == oracles.len()
    &&& residuals.len() == oracles.len()
    &&& forall|k: int|
        0 <= k < oracles.len() ==> opens_with(
            shape,
            claims,
            data,
            #[trigger] oracles[k],
            statements[k],
            polys[k],
            residuals[k],
        )
}

proof fn lemma_planned_open<
    'b,
    F: TwoAdicField,
    EF: ExtensionField<F>,
    D,
    C,
    PB,
    PS,
    PE,
    E,
>(
    shape: CodeShape,
    oracles: Seq<(BoundRoot<D>, RootIopOracleValues<F, EF>)>,
    claims: Seq<RootIopOpeningClaim<F, EF>>,
    data: Seq<NativeWarpWhirRootOracleProverData<F, EF, C, PB, PS, PE>>,
)
    ensures
        oracles_named(oracles, claims).len() <= oracles.len(),
        match planned_oracles::<F, EF, D, C, PB, PS, PE, E>(shape, oracles, claims, data) {
            Ok(planned) => planned_commitments(planned) == bound_commitments(
                oracles_named(oracles, claims),
            ) && all_open_with(
                shape,
                claims,
                data,
                oracles_named(oracles, claims),
                planned_statements(planned),
                planned_polys(planned),
                planned_residuals(planned),
            ),
            Err(e) => exists|k: int|
                0 <= k < oracles_named(oracles, claims).len() && prover_oracle::<
                    F,
                    EF,
                    D,
                    C,
                    PB,
                    PS,
                    PE,
                    E,
                >(
                    shape,
                    claims,
                    data,
                    (#[trigger] oracles_named(oracles, claims)[k]).0,
                    oracles_named(oracles, claims)[k].1,
                ) == Err::<
                    PlannedOracle<'b, F, EF, D, PB, PS, PE>,
                    NativeWarpWhirRootProofError<E>,
                >(e) && forall|j: int|
                    0 <= j < k ==> prover_oracle::<F, EF, D, C, PB, PS, PE, E>(
                        shape,
                        claims,
                        data,
                        (#[trigger] oracles_named(oracles, claims)[j]).0,
                        oracles_named(oracles, claims)[j].1,
                    ) is Ok,
        },
    decreases oracles.len(),
{
    reveal(Seq::filter);
    let named = oracles_named(oracles, claims);
    if oracles.len() == 0 {
        let planned = planned_oracles::<F, EF, D, C, PB, PS, PE, E>(
            shape,
            oracles,
            claims,
            data,
        )->Ok_0;
        assert(planned_commitments(planned) =~= bound_commitments(named));
    } else {
        let rest = oracles.drop_last();
        let last = oracles.last();
        let before = oracles_named(rest, claims);
        lemma_planned_open::<F, EF, D, C, PB, PS, PE, E>(shape, rest, claims, data);
        assert(claimed(claims, last.0.oracle_id) <==> exists|i: int|
            0 <= i < claims.len() && (#[trigger] claims[i]).oracle_id == last.0.oracle_id);
        assert(named == if claimed(claims, last.0.oracle_id) {
            before.push(last)
        } else {
            before
        });
        match planned_oracles::<F, EF, D, C, PB, PS, PE, E>(shape, rest, claims, data) {
            Err(e) => {
                let k = choose|k: int|
                    0 <= k < before.len() && prover_oracle::<F, EF, D, C, PB, PS, PE, E>(
                        shape,
                        claims,
                        data,
                        (#[trigger] before[k]).0,
                        before[k].1,
                    ) == Err::<
                        PlannedOracle<'b, F, EF, D, PB, PS, PE>,
                        NativeWarpWhirRootProofError<E>,
                    >(e) && forall|j: int|
                        0 <= j < k ==> prover_oracle::<F, EF, D, C, PB, PS, PE, E>(
                            shape,
                            claims,
                            data,
                            (#[trigger] before[j]).0,
                            before[j].1,
                        ) is Ok;
                assert(named[k] == before[k]);
                assert forall|j: int| 0 <= j < k implies prover_oracle::<
                    F,
                    EF,
                    D,
                    C,
                    PB,
                    PS,
                    PE,
                    E,
                >(shape, claims, data, (#[trigger] named[j]).0, named[j].1) is Ok by {
                    assert(named[j] == before[j]);
                }
            },
            Ok(done) => {
                if claimed(claims, last.0.oracle_id) {
                    lemma_oracle_opens_with::<F, EF, D, C, PB, PS, PE, E>(
                        shape,
                        claims,
                        data,
                        last,
                    );
                    let n = before.len() as int;
                    assert(named[n] == last);
                    match planned_oracles::<F, EF, D, C, PB, PS, PE, E>(
                        shape,
                        oracles,
                        claims,
                        data,
                    ) {
                        Ok(planned) => {
                            assert(done.len() == n);
                            assert(planned =~= done.push(planned[n]));
                            assert forall|k: int| 0 <= k <= n implies opens_with(
                                shape,
                                claims,
                                data,
                                #[trigger] named[k],
                                planned_statements(planned)[k],
                                planned_polys(planned)[k],
                                planned_residuals(planned)[k],
                            ) by {
                                if k < n {
                                    assert(named[k] == before[k]);
                                    assert(planned[k] == done[k]);
                                    assert(planned_statements(done)[k] == done[k].statement);
                                }
                            }
                            assert forall|k: int| 0 <= k <= n implies planned_commitments(
                                planned,
                            )[k] == #[trigger] bound_commitments(named)[k] by {
                                if k < n {
                                    assert(named[k] == before[k]);
                                    assert(planned[k] == done[k]);
                                    assert(planned_commitments(done)[k] == bound_commitments(
                                        before,
                                    )[k]);
                                }
                            }
                            assert(planned_commitments(planned) =~= bound_commitments(named));
                        },
                        Err(e) => {
                            lemma_done_opens::<F, EF, D, C, PB, PS, PE, E>(
                                shape,
                                rest,
                                claims,
                                data,
                            );
                            assert forall|j: int| 0 <= j < n implies prover_oracle::<
                                F,
                                EF,
                                D,
                                C,
                                PB,
                                PS,
                                PE,
                                E,
                            >(shape, claims, data, (#[trigger] named[j]).0, named[j].1) is Ok by {
                                assert(named[j] == before[j]);
                            }
                        },
                    }
                }
            },
        }
    }
}

/// Where all named oracles are planned, each of them can be.
proof fn lemma_done_opens<
    'b,
    F: TwoAdicField,
    EF: ExtensionField<F>,
    D,
    C,
    PB,
    PS,
    PE,
    E,
>(
    shape: CodeShape,
    oracles: Seq<(BoundRoot<D>, RootIopOracleValues<F, EF>)>,
    claims: Seq<RootIopOpeningClaim<F, EF>>,
    data: Seq<NativeWarpWhirRootOracleProverData<F, EF, C, PB, PS, PE>>,
)
    requires
        planned_oracles::<F, EF, D, C, PB, PS, PE, E>(shape, oracles, claims, data) is Ok,
    ensures
        forall|j: int|
            0 <= j < oracles_named(oracles, claims).len() ==> prover_oracle::<
                F,
                EF,
                D,
                C,
                PB,
                PS,
                PE,
                E,
            >(
                shape,
                claims,
                data,
                (#[trigger] oracles_named(oracles, claims)[j]).0,
                oracles_named(oracles, claims)[j].1,
            ) is Ok,
    decreases oracles.len(),
{
    reveal(Seq::filter);
    if oracles.len() > 0 {
        let rest = oracles.drop_last();
        let last = oracles.last();
        let (before, named) = (oracles_named(rest, claims), oracles_named(oracles, claims));
        lemma_done_opens::<F, EF, D, C, PB, PS, PE, E>(shape, rest, claims, data);
        assert(claimed(claims, last.0.oracle_id) <==> exists|i: int|
            0 <= i < claims.len() && (#[trigger] claims[i]).oracle_id == last.0.oracle_id);
        assert(named == if claimed(claims, last.0.oracle_id) {
            before.push(last)
        } else {
            before
        });
        assert forall|j: int| 0 <= j < named.len() implies prover_oracle::<
            F,
            EF,
            D,
            C,
            PB,
            PS,
            PE,
            E,
        >(shape, claims, data, (#[trigger] named[j]).0, named[j].1) is Ok by {
            if j < before.len() {
                assert(named[j] == before[j]);
            }
        }
    }
}

/// What becomes of a batch after its reduction. An error of the reduction is
/// reported, with the transcript as the reduction left it. Otherwise the oracles
/// are grouped with the coefficients that the reduction gave; if that fails, it
/// is reported. Otherwise the groups are opened at the point and with the value
/// that the reduction gave, and what comes out holds the proof of the reduction
/// and the opening, or is the error of the opening.
pub open spec fn opened_as<
    'b,
    EF: Field,
    C,
    PB,
    PS,
    PE,
    RP,
    OP,
    E,
    H: FnOnce(
        Vec<BatchedOracle<EF, &'b PB, &'b PE, &'b SharedHandle<PS>>>,
        Vec<EF>,
        EF,
        C,
    ) -> (Result<OP, E>, C),
>(
    residuals: Seq<NativeWarpBatchedResidualProverOracle<'b, PB, PS, PE>>,
    reduced: (Result<(RP, BatchedLinearSigmaOpeningClaim<EF>), E>, C),
    open: H,
    r: Result<NativeWarpWhirRootBatchedOpeningProof<RP, OP>, NativeWarpWhirRootProofError<E>>,
    after: C,
) -> bool {
    match reduced.0 {
        Err(e) => after == reduced.1 && (r matches Err(
            NativeWarpWhirRootProofError::CompactReduction(found),
        ) && found == e),
        Ok((reduction, claim)) => {
            ||| exists|
                g: Vec<BatchedOracle<EF, &'b PB, &'b PE, &'b SharedHandle<PS>>>,
                out: (Result<OP, E>, C),
            | #[trigger]
                call_ensures(open, (g, claim.point, claim.value, reduced.1), out)
                    && is_grouping_of(residuals, claim.coeffs@, Ok(g)) && after == out.1
                    && match out.0 {
                    Ok(opening) => r matches Ok(made) && made.reduction == reduction
                        && made.opening == opening,
                    Err(e) => r matches Err(NativeWarpWhirRootProofError::BatchedOpening(found))
                        && found == e,
                }
            ||| after == reduced.1 && (r matches Err(NativeWarpWhirRootProofError::LinearSigma(e))
                && is_grouping_of(residuals, claim.coeffs@, Err(e)))
        },
    }
}

/// The batch was reduced and opened: the reduction was handed the statements and
/// the messages of the oracles that claims are about, in a transcript that had
/// absorbed their public commitments in order.
pub open spec fn reduced_and_opened<
    'b,
    F: TwoAdicField + 'b,
    EF: ExtensionField<F> + 'b,
    D,
    C: Challenger<F, EF, D>,
    PB: 'b,
    PS: 'b,
    PE: 'b,
    RP,
    OP,
    E,
    G: FnOnce(
        Vec<NativeWarpCompactRootStatement<EF>>,
        Vec<NativeWarpDirectBatchedResidualPoly<'b, F, EF>>,
        C,
        usize,
    ) -> (Result<(RP, BatchedLinearSigmaOpeningClaim<EF>), E>, C),
    H: FnOnce(
        Vec<BatchedOracle<EF, &'b PB, &'b PE, &'b SharedHandle<PS>>>,
        Vec<EF>,
        EF,
        C,
    ) -> (Result<OP, E>, C),
>(
    shape: CodeShape,
    named: Seq<(BoundRoot<D>, RootIopOracleValues<F, EF>)>,
    claims: Seq<RootIopOpeningClaim<F, EF>>,
    data: Seq<NativeWarpWhirRootOracleProverData<F, EF, C, PB, PS, PE>>,
    before: Seq<TranscriptItem<F, EF, D>>,
    pow_bits: usize,
    reduce: G,
    open: H,
    r: Result<NativeWarpWhirRootBatchedOpeningProof<RP, OP>, NativeWarpWhirRootProofError<E>>,
    after: C,
) -> bool {
    exists|
        statements: Vec<NativeWarpCompactRootStatement<EF>>,
        polys: Vec<NativeWarpDirectBatchedResidualPoly<'b, F, EF>>,
        c: C,
        reduced: (Result<(RP, BatchedLinearSigmaOpeningClaim<EF>), E>, C),
        residuals: Seq<NativeWarpBatchedResidualProverOracle<'b, PB, PS, PE>>,
    |
        #![trigger
            call_ensures(reduce, (statements, polys, c, pow_bits), reduced),
            opened_as(residuals, reduced, open, r, after)
        ]
        call_ensures(reduce, (statements, polys, c, pow_bits), reduced) && all_open_with(
            shape,
            claims,
            data,
            named,
            views_of(statements@),
            polys@,
            residuals,
        ) && c.history() == before + items_of_all::<F, EF, D>(
            Seq::new(named.len(), |i: int| named[i].0),
        ) && opened_as(residuals, reduced, open, r, after)
}

/// Every one of the oracles can be opened.
pub open spec fn all_can_be_opened<'b, F: TwoAdicField, EF: ExtensionField<F>, D, C, PB, PS, PE>(
    shape: CodeShape,
    claims: Seq<RootIopOpeningClaim<F, EF>>,
    data: Seq<NativeWarpWhirRootOracleProverData<F, EF, C, PB, PS, PE>>,
    oracles: Seq<(BoundRoot<D>, RootIopOracleValues<F, EF>)>,
) -> bool {
    exists|
        statements: Seq<CompactStatement<EF>>,
        polys: Seq<NativeWarpDirectBatchedResidualPoly<'b, F, EF>>,
        residuals: Seq<NativeWarpBatchedResidualProverOracle<'b, PB, PS, PE>>,
    | #[trigger]
        all_open_with(shape, claims, data, oracles, statements, polys, residuals)
}

/// What the batch of a record is.
proof fn lemma_batch<
    'b,
    F: TwoAdicField,
    EF: ExtensionField<F>,
    D,
    C,
    PB,
    PS,
    PE,
    E,
>(
    shape: CodeShape,
    oracles: Seq<(BoundRoot<D>, RootIopOracleValues<F, EF>)>,
    claims: Seq<RootIopOpeningClaim<F, EF>>,
    data: Seq<NativeWarpWhirRootOracleProverData<F, EF, C, PB, PS, PE>>,
)
    ensures
        ({
            let named = oracles_named(oracles, claims);
            &&& named.len() <= oracles.len()
            &&& prover_batch::<F, EF, D, C, PB, PS, PE, E>(shape, oracles, claims, data) is Ok
                <==> well_bound(Seq::new(oracles.len(), |i: int| oracles[i].0), claims)
                && named.len() > 0 && all_can_be_opened::<F, EF, D, C, PB, PS, PE>(
                shape,
                claims,
                data,
                named,
            )
            &&& prover_batch::<F, EF, D, C, PB, PS, PE, E>(shape, oracles, claims, data) matches Ok(
                planned,
            ) ==> planned.len() == named.len() && planned_commitments(planned) == Seq::new(
                named.len(),
                |i: int| named[i].0,
            ) && all_open_with(
                shape,
                claims,
                data,
                named,
                planned_statements(planned),
                planned_polys(planned),
                planned_residuals(planned),
            )
        }),
{
    let named = oracles_named(oracles, claims);
    let commitments = Seq::new(oracles.len(), |i: int| oracles[i].0);
    let ids = public_ids(bound_commitments(oracles));
    lemma_planned_open::<F, EF, D, C, PB, PS, PE, E>(shape, oracles, claims, data);
    lemma_well_bound(commitments, claims);
    assert(bound_commitments(oracles) =~= commitments);
    assert(bound_commitments(named) =~= Seq::new(named.len(), |i: int| named[i].0));
    match planned_oracles::<F, EF, D, C, PB, PS, PE, E>(shape, oracles, claims, data) {
        Ok(planned) => {
            assert(planned_commitments(planned).len() == planned.len());
            assert(all_can_be_opened::<F, EF, D, C, PB, PS, PE>(shape, claims, data, named));
        },
        Err(e) => {
            if all_can_be_opened::<F, EF, D, C, PB, PS, PE>(shape, claims, data, named) {
                let (statements, polys, residuals) = choose|
                    statements: Seq<CompactStatement<EF>>,
                    polys: Seq<NativeWarpDirectBatchedResidualPoly<'b, F, EF>>,
                    residuals: Seq<NativeWarpBatchedResidualProverOracle<'b, PB, PS, PE>>,
                | #[trigger]
                    all_open_with(shape, claims, data, named, statements, polys, residuals);
                let k = choose|k: int|
                    0 <= k < named.len() && prover_oracle::<F, EF, D, C, PB, PS, PE, E>(
                        shape,
                        claims,
                        data,
                        (#[trigger] named[k]).0,
                        named[k].1,
                    ) == Err::<
                        PlannedOracle<'b, F, EF, D, PB, PS, PE>,
                        NativeWarpWhirRootProofError<E>,
                    >(e);
                lemma_named_is_claimed(oracles, claims, k);
                lemma_oracle_opens_with::<F, EF, D, C, PB, PS, PE, E>(
                    shape,
                    claims,
                    data,
                    named[k],
                );
                assert(opens_with(
                    shape,
                    claims,
                    data,
                    named[k],
                    statements[k],
                    polys[k],
                    residuals[k],
                ));
                assert(false);
            }
        },
    }
}

proof fn lemma_named_is_claimed<F, EF, D>(
    oracles: Seq<(BoundRoot<D>, RootIopOracleValues<F, EF>)>,
    claims: Seq<RootIopOpeningClaim<F, EF>>,
    k: int,
)
    requires
        0 <= k < oracles_named(oracles, claims).len(),
    ensures
        claimed(claims, oracles_named(oracles, claims)[k].0.oracle_id),
{
    let pred = |o: (BoundRoot<D>, RootIopOracleValues<F, EF>)|
        exists|i: int| 0 <= i < claims.len() && (#[trigger] claims[i]).oracle_id == o.0.oracle_id;
    lemma_filtered(oracles, pred);
    assert(pred(oracles.filter(pred)[k]));
}

/// The two checks on identifiers pass exactly when they are as they should be.
pub proof fn lemma_well_bound<F, EF, D>(
    commitments: Seq<BoundRoot<D>>,
    claims: Seq<RootIopOpeningClaim<F, EF>>,
)
    ensures
        distinct_ids(public_ids(commitments)) is Ok && known_oracles(
            public_ids(commitments),
            claims,
        ) is Ok <==> well_bound(commitments, claims),
{
    let ids = public_ids(commitments);
    distinct_ids_means_no_duplicates(ids);
    known_oracles_means_all_given(ids, claims);
    assert(forall|i: int| 0 <= i < ids.len() ==> #[trigger] ids[i] == commitments[i].oracle_id);
    if well_bound(commitments, claims) {
        assert forall|i: int, j: int| 0 <= i < ids.len() && 0 <= j < ids.len() && i
            != j implies ids[i] != ids[j] by {
            if i < j {
                assert(commitments[i].oracle_id != commitments[j].oracle_id);
            } else {
                assert(commitments[j].oracle_id != commitments[i].oracle_id);
            }
        }
        assert forall|i: int| 0 <= i < claims.len() implies ids.contains(
            (#[trigger] claims[i]).oracle_id,
        ) by {
            let j = choose|j: int|
                0 <= j < commitments.len() && (#[trigger] commitments[j]).oracle_id
                    == claims[i].oracle_id;
            assert(ids[j] == claims[i].oracle_id);
        }
    }
    if ids.no_duplicates() && known_oracles(ids, claims) is Ok {
        assert forall|i: int, j: int|
            #![trigger commitments[i], commitments[j]]
            0 <= i < j < commitments.len() implies commitments[i].oracle_id
            != commitments[j].oracle_id by {
            assert(ids[i] != ids[j]);
        }
        assert forall|i: int| 0 <= i < claims.len() implies exists|j: int|
            0 <= j < commitments.len() && (#[trigger] commitments[j]).oracle_id == (
            #[trigger] claims[i]).oracle_id by {
            assert(ids.contains(claims[i].oracle_id));
            let j = choose|j: int| 0 <= j < ids.len() && ids[j] == claims[i].oracle_id;
            assert(commitments[j].oracle_id == claims[i].oracle_id);
        }
    }
}

/// What proving a record with one batched opening is. Where no two oracles have
/// the same identifier, every claim is about one, there is a claim, and every
/// oracle that claims are about can be opened, all of these are reduced and
/// opened together, however many there are. Otherwise the record is refused for
/// the first thing that is wrong with it, with nothing absorbed.
pub open spec fn record_is_proved<
    'b,
    F: TwoAdicField + 'b,
    EF: ExtensionField<F> + 'b,
    D,
    C: Challenger<F, EF, D>,
    PB: 'b,
    PS: 'b,
    PE: 'b,
    RP,
    OP,
    E,
    G: FnOnce(
        Vec<NativeWarpCompactRootStatement<EF>>,
        Vec<NativeWarpDirectBatchedResidualPoly<'b, F, EF>>,
        C,
        usize,
    ) -> (Result<(RP, BatchedLinearSigmaOpeningClaim<EF>), E>, C),
    H: FnOnce(
        Vec<BatchedOracle<EF, &'b PB, &'b PE, &'b SharedHandle<PS>>>,
        Vec<EF>,
        EF,
        C,
    ) -> (Result<OP, E>, C),
>(
    shape: CodeShape,
    oracles: Seq<(BoundRoot<D>, RootIopOracleValues<F, EF>)>,
    claims: Seq<RootIopOpeningClaim<F, EF>>,
    data: Seq<NativeWarpWhirRootOracleProverData<F, EF, C, PB, PS, PE>>,
    before: Seq<TranscriptItem<F, EF, D>>,
    pow_bits: usize,
    reduce: G,
    open: H,
    r: Result<NativeWarpWhirRootBatchedOpeningProof<RP, OP>, NativeWarpWhirRootProofError<E>>,
    after: C,
) -> bool {
    let named = oracles_named(oracles, claims);
    if well_bound(Seq::new(oracles.len(), |i: int| oracles[i].0), claims) && named.len() > 0
        && all_can_be_opened::<F, EF, D, C, PB, PS, PE>(shape, claims, data, named) {
        reduced_and_opened(
            shape,
            named,
            claims,
            data,
            before,
            pow_bits,
            reduce,
            open,
            r,
            after,
        )
    } else {
        after.history() == before && (r matches Err(e) && why_refused(
            shape,
            oracles,
            claims,
            data,
            e,
        ))
    }
}

proof fn lemma_opened_as<
    'b,
    F: TwoAdicField + 'b,
    EF: ExtensionField<F> + 'b,
    D,
    C: Challenger<F, EF, D>,
    PB: 'b,
    PS: 'b,
    PE: 'b,
    RP,
    OP,
    E,
    G: FnOnce(
        Vec<NativeWarpCompactRootStatement<EF>>,
        Vec<NativeWarpDirectBatchedResidualPoly<'b, F, EF>>,
        C,
        usize,
    ) -> (Result<(RP, BatchedLinearSigmaOpeningClaim<EF>), E>, C),
    H: FnOnce(
        Vec<BatchedOracle<EF, &'b PB, &'b PE, &'b SharedHandle<PS>>>,
        Vec<EF>,
        EF,
        C,
    ) -> (Result<OP, E>, C),
>(
    shape: CodeShape,
    oracles: Seq<(BoundRoot<D>, RootIopOracleValues<F, EF>)>,
    claims: Seq<RootIopOpeningClaim<F, EF>>,
    data: Seq<NativeWarpWhirRootOracleProverData<F, EF, C, PB, PS, PE>>,
    before: Seq<TranscriptItem<F, EF, D>>,
    pow_bits: usize,
    reduce: G,
    open: H,
    r: Result<NativeWarpWhirRootBatchedOpeningProof<RP, OP>, NativeWarpWhirRootProofError<E>>,
    after: C,
)
    requires
        pow2((shape.log_msg_len + shape.log_inv_rate) as nat) <= usize::MAX,
        oracles.len() <= usize::MAX,
        proving_result(
            prover_batch::<F, EF, D, C, PB, PS, PE, E>(shape, oracles, claims, data),
            before,
            pow_bits,
            reduce,
            open,
            r,
            after,
        ),
    ensures
        record_is_proved(
            shape,
            oracles,
            claims,
            data,
            before,
            pow_bits,
            reduce,
            open,
            r,
            after,
        ),
{
    let named = oracles_named(oracles, claims);
    lemma_batch::<F, EF, D, C, PB, PS, PE, E>(shape, oracles, claims, data);
    lemma_refused::<F, EF, D, C, PB, PS, PE, E>(shape, oracles, claims, data);
    if let Ok(planned) = prover_batch::<F, EF, D, C, PB, PS, PE, E>(shape, oracles, claims, data) {
        let (statements, polys, c, reduced) = choose|
            statements: Vec<NativeWarpCompactRootStatement<EF>>,
            polys: Vec<NativeWarpDirectBatchedResidualPoly<'b, F, EF>>,
            c: C,
            reduced: (Result<(RP, BatchedLinearSigmaOpeningClaim<EF>), E>, C),
        |
            reduction_input(planned, before, statements, polys, c) && #[trigger] call_ensures(
                reduce,
                (statements, polys, c, pow_bits),
                reduced,
            ) && opened_after(planned, reduced, open, r, after);
        let residuals = planned_residuals(planned);
        assert(planned_commitments(planned) == Seq::new(named.len(), |i: int| named[i].0));
        commitments_are_absorbed_item_by_item::<F, EF, D>(planned_commitments(planned));
        assert(views_of(statements@) =~= planned_statements(
            planned,
        )) by {
            assert(statements_of(statements@) == planned_statements(planned));
        }
        if let Ok((reduction, claim)) = reduced.0 {
            assert(claim.coeffs.len() == claim.coeffs@.len());
            match grouping(residuals, claim.coeffs@) {
                Err(e) => {
                    lemma_is_grouping_of(residuals, claim.coeffs@, Err(e));
                },
                Ok(groups) => {
                    let (g, x) = choose|
                        g: Vec<BatchedOracle<EF, &'b PB, &'b PE, &'b SharedHandle<PS>>>,
                        x: (Result<OP, E>, C),
                    |
                        groups_of(g@) == groups && #[trigger] call_ensures(
                            open,
                            (g, claim.point, claim.value, reduced.1),
                            x,
                        ) && after == x.1 && r == match x.0 {
                            Ok(opening) => Ok(
                                NativeWarpWhirRootBatchedOpeningProof { reduction, opening },
                            ),
                            Err(e) => Err(NativeWarpWhirRootProofError::BatchedOpening(e)),
                        };
                    lemma_is_grouping_of(residuals, claim.coeffs@, Ok(g));
                    assert(call_ensures(open, (g, claim.point, claim.value, reduced.1), x));
                },
            }
        }
        assert(opened_as(residuals, reduced, open, r, after));
        assert(call_ensures(reduce, (statements, polys, c, pow_bits), reduced));
    }
}

/// Proving a record with one batched opening reduces and opens it.
pub proof fn proving_reduces_and_opens<
    'a,
    'b,
    F: TwoAdicField + 'b,
    EF: ExtensionField<F> + 'b,
    D: Digest,
    C: Challenger<F, EF, D>,
    PB: 'b,
    PS: 'b,
    PE: 'b,
    RP,
    OP,
    E,
    G: FnOnce(
        Vec<NativeWarpCompactRootStatement<EF>>,
        Vec<NativeWarpDirectBatchedResidualPoly<'b, F, EF>>,
        C,
        usize,
    ) -> (Result<(RP, BatchedLinearSigmaOpeningClaim<EF>), E>, C),
    H: FnOnce(
        Vec<BatchedOracle<EF, &'b PB, &'b PE, &'b SharedHandle<PS>>>,
        Vec<EF>,
        EF,
        C,
    ) -> (Result<OP, E>, C),
>(
    system: NativeWarpWhirRootProofSystem<'a, F, EF, D, C>,
    transcript: RootIopBoundTranscript<F, EF, NativeWarpWhirRootCommitment<D>>,
    prover_data: &'b Vec<NativeWarpWhirRootOracleProverData<F, EF, C, PB, PS, PE>>,
    challenger: &mut C,
    pow_bits: usize,
    reduce: G,
    open: H,
    r: Result<NativeWarpWhirRootBatchedOpeningProof<RP, OP>, NativeWarpWhirRootProofError<E>>,
)
    requires
        pow2((system.shape().log_msg_len + system.shape().log_inv_rate) as nat) <= usize::MAX,
        call_ensures(
            NativeWarpWhirRootProofSystem::<'a, F, EF, D, C>::prove_direct_batched_root::<
                PB,
                PS,
                PE,
                RP,
                OP,
                E,
                G,
                H,
            >,
            (&system, &transcript, prover_data, challenger, pow_bits, reduce, open),
            r,
        ),
    ensures
        record_is_proved(
            system.shape(),
            transcript.oracles@,
            transcript.claims@,
            prover_data@,
            old(challenger).history(),
            pow_bits,
            reduce,
            open,
            r,
            *final(challenger),
        ),
{
    assert(transcript.oracles.len() == transcript.oracles@.len());
    lemma_opened_as(
        system.shape(),
        transcript.oracles@,
        transcript.claims@,
        prover_data@,
        old(challenger).history(),
        pow_bits,
        reduce,
        open,
        r,
        *final(challenger),
    );
}

/// A root proof holds the batched opening of the record, and is refused exactly
/// when and as that is.
pub proof fn root_proofs_hold_the_opening<
    'a,
    'b,
    F: TwoAdicField + 'b,
    EF: ExtensionField<F> + 'b,
    D: Digest,
    C: Challenger<F, EF, D>,
    PB: 'b,
    PS: 'b,
    PE: 'b,
    RP,
    OP,
    E,
    G: FnOnce(
        Vec<NativeWarpCompactRootStatement<EF>>,
        Vec<NativeWarpDirectBatchedResidualPoly<'b, F, EF>>,
        C,
        usize,
    ) -> (Result<(RP, BatchedLinearSigmaOpeningClaim<EF>), E>, C),
    H: FnOnce(
        Vec<BatchedOracle<EF, &'b PB, &'b PE, &'b SharedHandle<PS>>>,
        Vec<EF>,
        EF,
        C,
    ) -> (Result<OP, E>, C),
>(
    system: NativeWarpWhirRootProofSystem<'a, F, EF, D, C>,
    transcript: RootIopBoundTranscript<F, EF, NativeWarpWhirRootCommitment<D>>,
    prover_data: &'b Vec<NativeWarpWhirRootOracleProverData<F, EF, C, PB, PS, PE>>,
    challenger: &mut C,
    pow_bits: usize,
    reduce: G,
    open: H,
    r: Result<NativeWarpWhirRootProof<RP, OP>, NativeWarpWhirRootProofError<E>>,
)
    requires
        pow2((system.shape().log_msg_len + system.shape().log_inv_rate) as nat) <= usize::MAX,
        call_ensures(
            NativeWarpWhirRootProofSystem::<'a, F, EF, D, C>::prove::<
                PB,
                PS,
                PE,
                RP,
                OP,
                E,
                G,
                H,
            >,
            (&system, &transcript, prover_data, challenger, pow_bits, reduce, open),
            r,
        ),
    ensures
        exists|
            opened: Result<
                NativeWarpWhirRootBatchedOpeningProof<RP, OP>,
                NativeWarpWhirRootProofError<E>,
            >,
        |
            #[trigger] record_is_proved(
                system.shape(),
                transcript.oracles@,
                transcript.claims@,
                prover_data@,
                old(challenger).history(),
                pow_bits,
                reduce,
                open,
                opened,
                *final(challenger),
            ) && match opened {
                Ok(opening) => r matches Ok(made) && made.opening == opening,
                Err(e) => r matches Err(found) && found == e,
            },
{
    assert(transcript.oracles.len() == transcript.oracles@.len());
    let opened = choose|
        opened: Result<
            NativeWarpWhirRootBatchedOpeningProof<RP, OP>,
            NativeWarpWhirRootProofError<E>,
        >,
    | #[trigger]
        proving_result(
            prover_batch::<F, EF, D, C, PB, PS, PE, E>(
                system.shape(),
                transcript.oracles@,
                transcript.claims@,
                prover_data@,
            ),
            old(challenger).history(),
            pow_bits,
            reduce,
            open,
            opened,
            *final(challenger),
        ) && r == wrapped(opened);
    lemma_opened_as(
        system.shape(),
        transcript.oracles@,
        transcript.claims@,
        prover_data@,
        old(challenger).history(),
        pow_bits,
        reduce,
        open,
        opened,
        *final(challenger),
    );
}

/// The parts of proving the record succeed: whatever the reduction of the oracles
/// that claims are about gives, it is a proof with a claim that has one
/// coefficient for each of them, their columns fit, and whatever the opening of
/// the groups gives is an opening.
pub open spec fn parts_succeed<
    'b,
    F: TwoAdicField + 'b,
    EF: ExtensionField<F> + 'b,
    D,
    C: Challenger<F, EF, D>,
    PB: 'b,
    PS: 'b,
    PE: 'b,
    RP,
    OP,
    E,
    G: FnOnce(
        Vec<NativeWarpCompactRootStatement<EF>>,
        Vec<NativeWarpDirectBatchedResidualPoly<'b, F, EF>>,
        C,
        usize,
    ) -> (Result<(RP, BatchedLinearSigmaOpeningClaim<EF>), E>, C),
    H: FnOnce(
        Vec<BatchedOracle<EF, &'b PB, &'b PE, &'b SharedHandle<PS>>>,
        Vec<EF>,
        EF,
        C,
    ) -> (Result<OP, E>, C),
>(
    shape: CodeShape,
    named: Seq<(BoundRoot<D>, RootIopOracleValues<F, EF>)>,
    claims: Seq<RootIopOpeningClaim<F, EF>>,
    data: Seq<NativeWarpWhirRootOracleProverData<F, EF, C, PB, PS, PE>>,
    before: Seq<TranscriptItem<F, EF, D>>,
    pow_bits: usize,
    reduce: G,
    open: H,
) -> bool {
    forall|
        statements: Vec<NativeWarpCompactRootStatement<EF>>,
        polys: Vec<NativeWarpDirectBatchedResidualPoly<'b, F, EF>>,
        c: C,
        reduced: (Result<(RP, BatchedLinearSigmaOpeningClaim<EF>), E>, C),
        residuals: Seq<NativeWarpBatchedResidualProverOracle<'b, PB, PS, PE>>,
    |
        #[trigger] call_ensures(reduce, (statements, polys, c, pow_bits), reduced)
            && #[trigger] all_open_with(
            shape,
            claims,
            data,
            named,
            views_of(statements@),
            polys@,
            residuals,
        ) && c.history() == before + items_of_all::<F, EF, D>(
            Seq::new(named.len(), |i: int| named[i].0),
        ) ==> (reduced.0 matches Ok((_, claim)) && claim.coeffs@.len() == named.len()
            && columns_fit(residuals) && forall|
            g: Vec<BatchedOracle<EF, &'b PB, &'b PE, &'b SharedHandle<PS>>>,
            out: (Result<OP, E>, C),
        | #[trigger]
            call_ensures(open, (g, claim.point, claim.value, reduced.1), out) && is_grouping_of(
                residuals,
                claim.coeffs@,
                Ok(g),
            ) ==> out.0 is Ok)
}

/// Proving succeeds where its parts do: where there is something to open, it can
/// be opened, and the parts of proving succeed, there is a proof, for records of
/// every size. It holds a proof that the reduction gave and an opening that the
/// backend gave.
pub proof fn proving_succeeds_where_its_parts_do<
    'a,
    'b,
    F: TwoAdicField + 'b,
    EF: ExtensionField<F> + 'b,
    D: Digest,
    C: Challenger<F, EF, D>,
    PB: 'b,
    PS: 'b,
    PE: 'b,
    RP,
    OP,
    E,
    G: FnOnce(
        Vec<NativeWarpCompactRootStatement<EF>>,
        Vec<NativeWarpDirectBatchedResidualPoly<'b, F, EF>>,
        C,
        usize,
    ) -> (Result<(RP, BatchedLinearSigmaOpeningClaim<EF>), E>, C),
    H: FnOnce(
        Vec<BatchedOracle<EF, &'b PB, &'b PE, &'b SharedHandle<PS>>>,
        Vec<EF>,
        EF,
        C,
    ) -> (Result<OP, E>, C),
>(
    system: NativeWarpWhirRootProofSystem<'a, F, EF, D, C>,
    transcript: RootIopBoundTranscript<F, EF, NativeWarpWhirRootCommitment<D>>,
    prover_data: &'b Vec<NativeWarpWhirRootOracleProverData<F, EF, C, PB, PS, PE>>,
    challenger: &mut C,
    pow_bits: usize,
    reduce: G,
    open: H,
    r: Result<NativeWarpWhirRootBatchedOpeningProof<RP, OP>, NativeWarpWhirRootProofError<E>>,
)
    requires
        pow2((system.shape().log_msg_len + system.shape().log_inv_rate) as nat) <= usize::MAX,
        call_ensures(
            NativeWarpWhirRootProofSystem::<'a, F, EF, D, C>::prove_direct_batched_root::<
                PB,
                PS,
                PE,
                RP,
                OP,
                E,
                G,
                H,
            >,
            (&system, &transcript, prover_data, challenger, pow_bits, reduce, open),
            r,
        ),
        well_bound(
            Seq::new(transcript.oracles@.len(), |i: int| transcript.oracles@[i].0),
            transcript.claims@,
        ),
        transcript.claims@.len() > 0,
        all_can_be_opened::<F, EF, D, C, PB, PS, PE>(
            system.shape(),
            transcript.claims@,
            prover_data@,
            oracles_named(transcript.oracles@, transcript.claims@),
        ),
        parts_succeed::<F, EF, D, C, PB, PS, PE, RP, OP, E, G, H>(
            system.shape(),
            oracles_named(transcript.oracles@, transcript.claims@),
            transcript.claims@,
            prover_data@,
            old(challenger).history(),
            pow_bits,
            reduce,
            open,
        ),
    ensures
        r matches Ok(made) && (exists|
            statements: Vec<NativeWarpCompactRootStatement<EF>>,
            polys: Vec<NativeWarpDirectBatchedResidualPoly<'b, F, EF>>,
            c: C,
            claim: BatchedLinearSigmaOpeningClaim<EF>,
            d: C,
            g: Vec<BatchedOracle<EF, &'b PB, &'b PE, &'b SharedHandle<PS>>>,
        |
            #[trigger] call_ensures(
                reduce,
                (statements, polys, c, pow_bits),
                (Ok((made.reduction, claim)), d),
            ) && #[trigger] call_ensures(
                open,
                (g, claim.point, claim.value, d),
                (Ok(made.opening), *final(challenger)),
            )),
{
    let oracles = transcript.oracles@;
    let named = oracles_named(oracles, transcript.claims@);
    assert(transcript.oracles.len() == transcript.oracles@.len());
    lemma_opened_as(
        system.shape(),
        transcript.oracles@,
        transcript.claims@,
        prover_data@,
        old(challenger).history(),
        pow_bits,
        reduce,
        open,
        r,
        *final(challenger),
    );
    lemma_something_named(oracles, transcript.claims@);
    let (statements, polys, c, reduced, residuals) = choose|
        statements: Vec<NativeWarpCompactRootStatement<EF>>,
        polys: Vec<NativeWarpDirectBatchedResidualPoly<'b, F, EF>>,
        c: C,
        reduced: (Result<(RP, BatchedLinearSigmaOpeningClaim<EF>), E>, C),
        residuals: Seq<NativeWarpBatchedResidualProverOracle<'b, PB, PS, PE>>,
    |
        #![trigger
            call_ensures(reduce, (statements, polys, c, pow_bits), reduced),
            opened_as(residuals, reduced, open, r, *final(challenger))
        ]
        call_ensures(reduce, (statements, polys, c, pow_bits), reduced) && all_open_with(
            system.shape(),
            transcript.claims@,
            prover_data@,
            named,
            views_of(statements@),
            polys@,
            residuals,
        ) && c.history() == old(challenger).history() + items_of_all::<F, EF, D>(
            Seq::new(named.len(), |i: int| named[i].0),
        ) && opened_as(residuals, reduced, open, r, *final(challenger));
    let (reduction, claim) = reduced.0->Ok_0;
    assert(reduced.0 is Ok);
    assert(reduced == (
        Ok::<(RP, BatchedLinearSigmaOpeningClaim<EF>), E>((reduction, claim)),
        reduced.1,
    ));
    let (g, out) = choose|
        g: Vec<BatchedOracle<EF, &'b PB, &'b PE, &'b SharedHandle<PS>>>,
        out: (Result<OP, E>, C),
    | #[trigger]
        call_ensures(open, (g, claim.point, claim.value, reduced.1), out) && is_grouping_of(
            residuals,
            claim.coeffs@,
            Ok(g),
        ) && *final(challenger) == out.1 && match out.0 {
            Ok(opening) => r matches Ok(made) && made.reduction == reduction && made.opening
                == opening,
            Err(e) => r matches Err(NativeWarpWhirRootProofError::BatchedOpening(found)) && found
                == e,
        };
    assert(out.0 is Ok);
    assert(out == (Ok::<OP, E>(r->Ok_0.opening), *final(challenger)));
}

/// Where every claim is about an oracle and there is one, some oracle is named.
proof fn lemma_something_named<F, EF, D>(
    oracles: Seq<(BoundRoot<D>, RootIopOracleValues<F, EF>)>,
    claims: Seq<RootIopOpeningClaim<F, EF>>,
)
    requires
        well_bound(Seq::new(oracles.len(), |i: int| oracles[i].0), claims),
        claims.len() > 0,
    ensures
        oracles_named(oracles, claims).len() > 0,
{
    let commitments = Seq::new(oracles.len(), |i: int| oracles[i].0);
    let pred = |o: (BoundRoot<D>, RootIopOracleValues<F, EF>)|
        exists|i: int| 0 <= i < claims.len() && (#[trigger] claims[i]).oracle_id == o.0.oracle_id;
    let j = choose|j: int|
        0 <= j < commitments.len() && (#[trigger] commitments[j]).oracle_id == claims[0].oracle_id;
    assert(claims[0].oracle_id == oracles[j].0.oracle_id);
    assert(pred(oracles[j]));
    lemma_filtered(oracles, pred);
}

/// The claims about an oracle cannot all be made about its codeword, and the
/// first that cannot is reported.
pub open spec fn claims_refused<F: TwoAdicField, EF: ExtensionField<F>>(
    shape: CodeShape,
    claims: Seq<RootIopOpeningClaim<F, EF>>,
    oracle_id: usize,
    over_base: bool,
    e: NativeWarpWhirClaimCompileError,
) -> bool {
    let about = claims.filter(|c: RootIopOpeningClaim<F, EF>| c.oracle_id == oracle_id);
    exists|k: int|
        0 <= k < about.len() && (forall|j: int|
            0 <= j < k ==> if over_base {
                base_claim_fits(shape, #[trigger] about[j])
            } else {
                extension_claim_fits(shape, about[j])
            }) && (if over_base {
            !base_claim_fits(shape, about[k])
        } else {
            !extension_claim_fits(shape, about[k])
        }) && e == match ((#[trigger] about[k]).value, about[k].point) {
            (RootIopOpeningValue::Extension(_), _) if over_base => {
                NativeWarpWhirClaimCompileError::OracleFieldMismatch(oracle_id)
            },
            (RootIopOpeningValue::Base(_), _) if !over_base => {
                NativeWarpWhirClaimCompileError::OracleFieldMismatch(oracle_id)
            },
            (_, RootIopOpeningPoint::Mle(_)) => if over_base {
                NativeWarpWhirClaimCompileError::UnsupportedBaseMle(oracle_id)
            } else {
                NativeWarpWhirClaimCompileError::PointArityMismatch { oracle_id }
            },
            (_, RootIopOpeningPoint::Index(index)) => {
                NativeWarpWhirClaimCompileError::IndexOutOfBounds { oracle_id, index }
            },
            (_, RootIopOpeningPoint::RsCodewordIndex(index)) => {
                NativeWarpWhirClaimCompileError::IndexOutOfBounds { oracle_id, index }
            },
        }
}

/// Why an oracle is not opened. The bound length is looked at first, then the
/// field and the length of the table, then whether the commitment is of the kind
/// of the table, then the prover data, the length of the message, the encoding,
/// the kind and the place of the prover data, and last the claims.
pub open spec fn not_opened<F: TwoAdicField, EF: ExtensionField<F>, D, C, PB, PS, PE, E>(
    shape: CodeShape,
    claims: Seq<RootIopOpeningClaim<F, EF>>,
    data: Seq<NativeWarpWhirRootOracleProverData<F, EF, C, PB, PS, PE>>,
    oracle: (BoundRoot<D>, RootIopOracleValues<F, EF>),
    e: NativeWarpWhirRootProofError<E>,
) -> bool {
    let (bound, values) = oracle;
    let id = bound.oracle_id;
    let log_len = shape.log_msg_len + shape.log_inv_rate;
    let (n, m) = (pow2(log_len as nat), pow2(shape.log_msg_len as nat));
    let over_base = values is Base;
    let table_len = match values {
        RootIopOracleValues::Base(t) => t@.len(),
        RootIopOracleValues::Extension(t) => t@.len(),
    };
    if bound.log_len != log_len {
        e matches NativeWarpWhirRootProofError::Reduction(
            NativeWarpWhirRootReductionError::OracleLogLengthMismatch {
                oracle_id,
                expected,
                actual,
            },
        ) && oracle_id == id && expected == log_len && actual == bound.log_len
    } else if over_base != (bound.field == RootIopOracleField::Base) {
        e matches NativeWarpWhirRootProofError::Reduction(
            NativeWarpWhirRootReductionError::OracleValueFieldMismatch(oracle_id),
        ) && oracle_id == id
    } else if table_len != n {
        e matches NativeWarpWhirRootProofError::Reduction(
            NativeWarpWhirRootReductionError::OracleValueLengthMismatch {
                oracle_id,
                expected,
                actual,
            },
        ) && oracle_id == id && expected == n && actual == table_len
    } else if over_base == (bound.commitment is ExtensionMessage) {
        e matches NativeWarpWhirRootProofError::OracleKindMismatch(found) && found == id
    } else if forall|k: int| !#[trigger] is_first_data_of(data, id, k) {
        e matches NativeWarpWhirRootProofError::MissingProverData(found) && found == id
    } else {
        exists|k: int| #[trigger]
            is_first_data_of(data, id, k) && {
                let message_len = match data[k].data {
                    NativeWarpWhirRootProverData::Base(d) => d.message@.len(),
                    NativeWarpWhirRootProverData::BaseShared(d) => d.message@.len(),
                    NativeWarpWhirRootProverData::ExtensionMessage(d) => d.message@.len(),
                };
                let encoded = match (data[k].data, values) {
                    (
                        NativeWarpWhirRootProverData::Base(d),
                        RootIopOracleValues::Base(t),
                    ) => t@ == shape.encoding(base_generators::<F>(), d.message@),
                    (
                        NativeWarpWhirRootProverData::BaseShared(d),
                        RootIopOracleValues::Base(t),
                    ) => t@ == shape.encoding(base_generators::<F>(), d.message@),
                    (
                        NativeWarpWhirRootProverData::ExtensionMessage(d),
                        RootIopOracleValues::Extension(t),
                    ) => t@ == shape.encoding(extension_generators::<F, EF>(), d.message@),
                    _ => false,
                };
                let of_its_place = match (data[k].data, bound.commitment) {
                    (
                        NativeWarpWhirRootProverData::Base(_),
                        NativeWarpWhirRootCommitment::BaseMessage(_),
                    ) => true,
                    (
                        NativeWarpWhirRootProverData::BaseShared(d),
                        NativeWarpWhirRootCommitment::BaseMessageShared { column, width, .. },
                    ) => d.column == column && d.width == width,
                    (
                        NativeWarpWhirRootProverData::ExtensionMessage(_),
                        NativeWarpWhirRootCommitment::ExtensionMessage(_),
                    ) => true,
                    _ => false,
                };
                if over_base == (data[k].data is ExtensionMessage) {
                    e matches NativeWarpWhirRootProofError::OracleKindMismatch(found) && found == id
                } else if message_len != m {
                    e matches NativeWarpWhirRootProofError::Reduction(
                        NativeWarpWhirRootReductionError::OracleValueLengthMismatch {
                            oracle_id,
                            expected,
                            actual,
                        },
                    ) && oracle_id == id && expected == m && actual == message_len
                } else if !encoded {
                    e matches NativeWarpWhirRootProofError::Reduction(
                        NativeWarpWhirRootReductionError::EncodingMismatch { oracle_id },
                    ) && oracle_id == id
                } else if !of_its_place {
                    e matches NativeWarpWhirRootProofError::OracleKindMismatch(found) && found == id
                } else {
                    e matches NativeWarpWhirRootProofError::ClaimCompile(found) && claims_refused(
                        shape,
                        claims,
                        id,
                        over_base,
                        found,
                    )
                }
            }
    }
}

proof fn lemma_not_opened<
    'b,
    F: TwoAdicField,
    EF: ExtensionField<F>,
    D,
    C,
    PB,
    PS,
    PE,
    E,
>(
    shape: CodeShape,
    claims: Seq<RootIopOpeningClaim<F, EF>>,
    data: Seq<NativeWarpWhirRootOracleProverData<F, EF, C, PB, PS, PE>>,
    oracle: (BoundRoot<D>, RootIopOracleValues<F, EF>),
    e: NativeWarpWhirRootProofError<E>,
)
    requires
        pow2((shape.log_msg_len + shape.log_inv_rate) as nat) <= usize::MAX,
        claimed(claims, oracle.0.oracle_id),
        prover_oracle::<F, EF, D, C, PB, PS, PE, E>(
            shape,
            claims,
            data,
            oracle.0,
            oracle.1,
        ) == Err::<PlannedOracle<'b, F, EF, D, PB, PS, PE>, NativeWarpWhirRootProofError<E>>(e),
    ensures
        not_opened(shape, claims, data, oracle, e),
{
    let id = oracle.0.oracle_id;
    let k = the_first_prover_data_is_found(data, id);
    lemma_lengths_fit(shape);
    base_statement_asks_for_claims(shape, claims, id);
    extension_statement_asks_for_claims(shape, claims, id);
    let about = claims.filter(|c: RootIopOpeningClaim<F, EF>| c.oracle_id == id);
    assert(about.len() > 0) by {
        lemma_claims_about_nonempty(claims, id);
        assert(about == claims_about(claims, id));
    }
    match oracle.1 {
        RootIopOracleValues::Base(t) => {
            assert(t.len() == t@.len());
        },
        RootIopOracleValues::Extension(t) => {
            assert(t.len() == t@.len());
        },
    }
    if find_prover_data(data, id) is Some {
        assert(is_first_data_of(data, id, k));
        match data[k].data {
            NativeWarpWhirRootProverData::Base(d) => {
                assert(d.message.len() == d.message@.len());
            },
            NativeWarpWhirRootProverData::BaseShared(d) => {
                assert(d.message.len() == d.message@.len());
            },
            NativeWarpWhirRootProverData::ExtensionMessage(d) => {
                assert(d.message.len() == d.message@.len());
            },
        }
    } else {
        assert forall|j: int| !#[trigger] is_first_data_of(data, id, j) by {
            if 0 <= j < data.len() {
                assert(data[j].oracle_id != id);
            }
        }
    }
}

/// Why a record is refused. A repeated identifier is reported first, then a
/// claim about an oracle that is not bound, then the first oracle that claims
/// are about and that cannot be opened; and last, that there are no claims.
pub open spec fn why_refused<F: TwoAdicField, EF: ExtensionField<F>, D, C, PB, PS, PE, E>(
    shape: CodeShape,
    oracles: Seq<(BoundRoot<D>, RootIopOracleValues<F, EF>)>,
    claims: Seq<RootIopOpeningClaim<F, EF>>,
    data: Seq<NativeWarpWhirRootOracleProverData<F, EF, C, PB, PS, PE>>,
    e: NativeWarpWhirRootProofError<E>,
) -> bool {
    let ids = Seq::new(oracles.len(), |i: int| oracles[i].0.oracle_id);
    let named = oracles_named(oracles, claims);
    if exists|j: int| #[trigger] first_repeated(ids, j) {
        exists|j: int| #[trigger]
            first_repeated(ids, j) && e == NativeWarpWhirRootProofError::<E>::Reduction(
                NativeWarpWhirRootReductionError::DuplicateOracle(ids[j]),
            )
    } else if exists|k: int| #[trigger] first_unknown(ids, claims, k) {
        exists|k: int| #[trigger]
            first_unknown(ids, claims, k) && e == NativeWarpWhirRootProofError::<E>::Reduction(
                NativeWarpWhirRootReductionError::UnknownOracle(claims[k].oracle_id),
            )
    } else if named.len() == 0 {
        e == NativeWarpWhirRootProofError::<E>::ClaimCompile(
            NativeWarpWhirClaimCompileError::EmptyOracle(usize::MAX),
        )
    } else {
        exists|k: int|
            0 <= k < named.len() && not_opened(shape, claims, data, #[trigger] named[k], e) && (
            forall|j: int|
                0 <= j < k ==> all_can_be_opened::<F, EF, D, C, PB, PS, PE>(
                    shape,
                    claims,
                    data,
                    seq![#[trigger] named[j]],
                ))
    }
}

proof fn lemma_refused<'b, F: TwoAdicField, EF: ExtensionField<F>, D, C, PB, PS, PE, E>(
    shape: CodeShape,
    oracles: Seq<(BoundRoot<D>, RootIopOracleValues<F, EF>)>,
    claims: Seq<RootIopOpeningClaim<F, EF>>,
    data: Seq<NativeWarpWhirRootOracleProverData<F, EF, C, PB, PS, PE>>,
)
    requires
        pow2((shape.log_msg_len + shape.log_inv_rate) as nat) <= usize::MAX,
    ensures
        prover_batch::<F, EF, D, C, PB, PS, PE, E>(shape, oracles, claims, data) matches Err(e)
            ==> why_refused(shape, oracles, claims, data, e),
{
    let named = oracles_named(oracles, claims);
    let ids = Seq::new(oracles.len(), |i: int| oracles[i].0.oracle_id);
    lemma_batch::<F, EF, D, C, PB, PS, PE, E>(shape, oracles, claims, data);
    lemma_planned_open::<F, EF, D, C, PB, PS, PE, E>(shape, oracles, claims, data);
    assert(public_ids(bound_commitments(oracles)) =~= ids);
    the_first_repeated_identifier_is_reported(ids);
    the_first_unknown_oracle_is_reported(ids, claims);
    if let Err(e) = prover_batch::<F, EF, D, C, PB, PS, PE, E>(shape, oracles, claims, data) {
        if distinct_ids(ids) is Ok {
            assert forall|j: int| !#[trigger] first_repeated(ids, j) by {
                if first_repeated(ids, j) {
                    let i = choose|i: int| 0 <= i < j && #[trigger] ids[i] == ids[j];
                    assert(ids[i] != ids[j]);
                }
            }
            if known_oracles(ids, claims) is Ok {
                assert forall|k: int| !#[trigger] first_unknown(ids, claims, k) by {
                    if first_unknown(ids, claims, k) {
                        assert(ids.contains(claims[k].oracle_id));
                    }
                }
                match planned_oracles::<F, EF, D, C, PB, PS, PE, E>(shape, oracles, claims, data) {
                    Ok(planned) => {
                        assert(planned_commitments(planned).len() == planned.len());
                        assert(bound_commitments(named).len() == named.len());
                    },
                    Err(_) => {
                        let k = choose|k: int|
                            0 <= k < named.len() && prover_oracle::<F, EF, D, C, PB, PS, PE, E>(
                                shape,
                                claims,
                                data,
                                (#[trigger] named[k]).0,
                                named[k].1,
                            ) == Err::<
                                PlannedOracle<'b, F, EF, D, PB, PS, PE>,
                                NativeWarpWhirRootProofError<E>,
                            >(e) && forall|j: int|
                                0 <= j < k ==> prover_oracle::<F, EF, D, C, PB, PS, PE, E>(
                                    shape,
                                    claims,
                                    data,
                                    (#[trigger] named[j]).0,
                                    named[j].1,
                                ) is Ok;
                        lemma_named_is_claimed(oracles, claims, k);
                        lemma_not_opened::<F, EF, D, C, PB, PS, PE, E>(
                            shape,
                            claims,
                            data,
                            named[k],
                            e,
                        );
                        assert forall|j: int| 0 <= j < k implies all_can_be_opened::<
                            F,
                            EF,
                            D,
                            C,
                            PB,
                            PS,
                            PE,
                        >(shape, claims, data, seq![#[trigger] named[j]]) by {
                            lemma_named_is_claimed(oracles, claims, j);
                            lemma_oracle_opens_with::<F, EF, D, C, PB, PS, PE, E>(
                                shape,
                                claims,
                                data,
                                named[j],
                            );
                            let planned = prover_oracle::<F, EF, D, C, PB, PS, PE, E>(
                                shape,
                                claims,
                                data,
                                named[j].0,
                                named[j].1,
                            )->Ok_0;
                            assert(all_open_with(
                                shape,
                                claims,
                                data,
                                seq![named[j]],
                                seq![planned.statement],
                                seq![planned.poly],
                                seq![planned.oracle],
                            ));
                        }
                    },
                }
            }
        }
    }
}

/// The message of an oracle is looked up in its first prover data, which has to
/// be of the right field.
pub proof fn messages_are_looked_up<
    'a,
    'b,
    F: TwoAdicField,
    EF: ExtensionField<F>,
    D: Digest,
    C: Challenger<F, EF, D>,
    PB,
    PS,
    PE,
    E,
>(
    system: NativeWarpWhirRootProofSystem<'a, F, EF, D, C>,
    prover_data: &'b Vec<NativeWarpWhirRootOracleProverData<F, EF, C, PB, PS, PE>>,
    oracle_id: usize,
    k: int,
    base: Result<&'b Vec<F>, NativeWarpWhirRootProofError<E>>,
    extension: Result<&'b Vec<EF>, NativeWarpWhirRootProofError<E>>,
)
    requires
        call_ensures(
            NativeWarpWhirRootProofSystem::<'a, F, EF, D, C>::base_message_for_oracle::<
                PB,
                PS,
                PE,
                E,
            >,
            (&system, prover_data, oracle_id),
            base,
        ),
        call_ensures(
            NativeWarpWhirRootProofSystem::<'a, F, EF, D, C>::extension_message_for_oracle::<
                PB,
                PS,
                PE,
                E,
            >,
            (&system, prover_data, oracle_id),
            extension,
        ),
    ensures
        (forall|j: int|
            0 <= j < prover_data@.len() ==> (#[trigger] prover_data@[j]).oracle_id != oracle_id)
            ==> (base matches Err(NativeWarpWhirRootProofError::MissingProverData(id)) && id
            == oracle_id) && (extension matches Err(
            NativeWarpWhirRootProofError::MissingProverData(id),
        ) && id == oracle_id),
        is_first_data_of(prover_data@, oracle_id, k) ==> match prover_data@[k].data {
            NativeWarpWhirRootProverData::Base(d) => (base matches Ok(m) && *m == d.message) && (
            extension matches Err(NativeWarpWhirRootProofError::OracleKindMismatch(id)) && id
                == oracle_id),
            NativeWarpWhirRootProverData::BaseShared(d) => (base matches Ok(m) && *m == d.message)
                && (extension matches Err(NativeWarpWhirRootProofError::OracleKindMismatch(id))
                && id == oracle_id),
            NativeWarpWhirRootProverData::ExtensionMessage(d) => (extension matches Ok(m) && *m
                == d.message) && (base matches Err(
                NativeWarpWhirRootProofError::OracleKindMismatch(id),
            ) && id == oracle_id),
        },
{
    let found = the_first_prover_data_is_found(prover_data@, oracle_id);
    if find_prover_data(prover_data@, oracle_id) is Some {
        assert(prover_data@[found].oracle_id == oracle_id);
        if is_first_data_of(prover_data@, oracle_id, k) {
            if found < k {
                assert(prover_data@[found].oracle_id != oracle_id);
            } else if k < found {
                assert(prover_data@[k].oracle_id != oracle_id);
            }
        }
    }
}

/// The batch of a record holds the public commitments of the oracles that claims
/// are about, in order, and the parts with which these are opened; a record that
/// has none is refused for the first thing that is wrong with it.
pub proof fn batches_hold_what_claims_are_about<
    'a,
    'b,
    F: TwoAdicField,
    EF: ExtensionField<F>,
    D: Digest,
    C: Challenger<F, EF, D>,
    PB,
    PS,
    PE,
    E,
>(
    system: NativeWarpWhirRootProofSystem<'a, F, EF, D, C>,
    transcript: RootIopBoundTranscript<F, EF, NativeWarpWhirRootCommitment<D>>,
    prover_data: &'b Vec<NativeWarpWhirRootOracleProverData<F, EF, C, PB, PS, PE>>,
    r: Result<ProverBatch<'b, F, EF, D, PB, PS, PE>, NativeWarpWhirRootProofError<E>>,
)
    requires
        pow2((system.shape().log_msg_len + system.shape().log_inv_rate) as nat) <= usize::MAX,
        call_ensures(
            NativeWarpWhirRootProofSystem::<'a, F, EF, D, C>::plan_prover_batch::<PB, PS, PE, E>,
            (&system, &transcript, prover_data),
            r,
        ),
    ensures
        ({
            let (oracles, claims) = (transcript.oracles@, transcript.claims@);
            let named = oracles_named(oracles, claims);
            &&& r is Ok <==> well_bound(Seq::new(oracles.len(), |i: int| oracles[i].0), claims)
                && named.len() > 0 && all_can_be_opened::<F, EF, D, C, PB, PS, PE>(
                system.shape(),
                claims,
                prover_data@,
                named,
            )
            &&& r matches Err(e) ==> why_refused(
                system.shape(),
                oracles,
                claims,
                prover_data@,
                e,
            )
            &&& r matches Ok(batch) ==> batch.commitments@ == Seq::new(
                named.len(),
                |i: int| named[i].0,
            ) && all_open_with(
                system.shape(),
                claims,
                prover_data@,
                named,
                views_of(batch.statements@),
                batch.polys@,
                batch.oracles@,
            )
        }),
{
    lemma_batch::<F, EF, D, C, PB, PS, PE, E>(
        system.shape(),
        transcript.oracles@,
        transcript.claims@,
        prover_data@,
    );
    lemma_refused::<F, EF, D, C, PB, PS, PE, E>(
        system.shape(),
        transcript.oracles@,
        transcript.claims@,
        prover_data@,
    );
    if let Ok(batch) = r {
        assert(views_of(batch.statements@) =~= statements_of(batch.statements@));
    }
}

/// A handle lends the prover data that it was made for, a shared handle is the
/// same, and handles belong together exactly when their allocations are the
/// same.
pub proof fn handles_lend_their_prover_data<'b, P>(
    data: Arc<P>,
    made: SharedHandle<P>,
    lent: &P,
    shared: SharedHandle<P>,
    a: &'b SharedHandle<P>,
    b: &'b SharedHandle<P>,
    together: bool,
)
    requires
        call_ensures(SharedHandle::<P>::new, (data,), made),
        call_ensures(SharedHandle::<P>::get, (&made,), lent),
        call_ensures(SharedHandle::<P>::share, (&made,), shared),
        call_ensures(<&'b SharedHandle<P> as GroupKey>::is_same_group, (a, b), together),
    ensures
        *lent == *data,
        shared == made,
        shared.address() == made.address(),
        together <==> a.address() == b.address(),
{
}

/// The backend takes what proving hands it: the reduction takes the statements
/// and the messages of the oracles that claims are about, in a transcript that
/// has absorbed their commitments, and the opening takes the groups, the point,
/// the value and the transcript that the reduction gave.
pub open spec fn backend_takes_the_batch<
    'b,
    F: TwoAdicField + 'b,
    EF: ExtensionField<F> + 'b,
    D,
    C: Challenger<F, EF, D>,
    PB: 'b,
    PS: 'b,
    PE: 'b,
    RP,
    OP,
    E,
    G: FnOnce(
        Vec<NativeWarpCompactRootStatement<EF>>,
        Vec<NativeWarpDirectBatchedResidualPoly<'b, F, EF>>,
        C,
        usize,
    ) -> (Result<(RP, BatchedLinearSigmaOpeningClaim<EF>), E>, C),
    H: FnOnce(
        Vec<BatchedOracle<EF, &'b PB, &'b PE, &'b SharedHandle<PS>>>,
        Vec<EF>,
        EF,
        C,
    ) -> (Result<OP, E>, C),
>(
    shape: CodeShape,
    named: Seq<(BoundRoot<D>, RootIopOracleValues<F, EF>)>,
    claims: Seq<RootIopOpeningClaim<F, EF>>,
    data: Seq<NativeWarpWhirRootOracleProverData<F, EF, C, PB, PS, PE>>,
    before: Seq<TranscriptItem<F, EF, D>>,
    pow_bits: usize,
    reduce: G,
    open: H,
) -> bool {
    forall|
        statements: Vec<NativeWarpCompactRootStatement<EF>>,
        polys: Vec<NativeWarpDirectBatchedResidualPoly<'b, F, EF>>,
        c: C,
        residuals: Seq<NativeWarpBatchedResidualProverOracle<'b, PB, PS, PE>>,
    |
        #[trigger] all_open_with(
            shape,
            claims,
            data,
            named,
            views_of(statements@),
            polys@,
            residuals,
        ) && (#[trigger] c.history()) == before + items_of_all::<F, EF, D>(
            Seq::new(named.len(), |i: int| named[i].0),
        ) ==> call_requires(reduce, (statements, polys, c, pow_bits)) && forall|
            reduction: RP,
            claim: BatchedLinearSigmaOpeningClaim<EF>,
            d: C,
            g: Vec<BatchedOracle<EF, &'b PB, &'b PE, &'b SharedHandle<PS>>>,
        |
            #![trigger
                call_ensures(
                    reduce,
                    (statements, polys, c, pow_bits),
                    (Ok((reduction, claim)), d),
                ),
                call_requires(open, (g, claim.point, claim.value, d))
            ]
            call_ensures(
                reduce,
                (statements, polys, c, pow_bits),
                (Ok((reduction, claim)), d),
            ) && is_grouping_of(residuals, claim.coeffs@, Ok(g)) ==> call_requires(
                open,
                (g, claim.point, claim.value, d),
            )
}

/// Any record may be proved: the backend has to take the batch only where there
/// is one.
pub proof fn any_record_may_be_proved<
    'a,
    'b,
    F: TwoAdicField + 'b,
    EF: ExtensionField<F> + 'b,
    D: Digest,
    C: Challenger<F, EF, D>,
    PB: 'b,
    PS: 'b,
    PE: 'b,
    RP,
    OP,
    E,
    G: FnOnce(
        Vec<NativeWarpCompactRootStatement<EF>>,
        Vec<NativeWarpDirectBatchedResidualPoly<'b, F, EF>>,
        C,
        usize,
    ) -> (Result<(RP, BatchedLinearSigmaOpeningClaim<EF>), E>, C),
    H: FnOnce(
        Vec<BatchedOracle<EF, &'b PB, &'b PE, &'b SharedHandle<PS>>>,
        Vec<EF>,
        EF,
        C,
    ) -> (Result<OP, E>, C),
>(
    system: NativeWarpWhirRootProofSystem<'a, F, EF, D, C>,
    transcript: RootIopBoundTranscript<F, EF, NativeWarpWhirRootCommitment<D>>,
    prover_data: &'b Vec<NativeWarpWhirRootOracleProverData<F, EF, C, PB, PS, PE>>,
    challenger: &mut C,
    pow_bits: usize,
    reduce: G,
    open: H,
)
    requires
        ({
            let oracles = transcript.oracles@;
            let named = oracles_named(oracles, transcript.claims@);
            well_bound(Seq::new(oracles.len(), |i: int| oracles[i].0), transcript.claims@)
                && named.len() > 0 && all_can_be_opened::<F, EF, D, C, PB, PS, PE>(
                system.shape(),
                transcript.claims@,
                prover_data@,
                named,
            ) ==> backend_takes_the_batch::<F, EF, D, C, PB, PS, PE, RP, OP, E, G, H>(
                system.shape(),
                named,
                transcript.claims@,
                prover_data@,
                old(challenger).history(),
                pow_bits,
                reduce,
                open,
            )
        }),
    ensures
        call_requires(
            NativeWarpWhirRootProofSystem::<'a, F, EF, D, C>::prove_direct_batched_root::<
                PB,
                PS,
                PE,
                RP,
                OP,
                E,
                G,
                H,
            >,
            (&system, &transcript, prover_data, challenger, pow_bits, reduce, open),
        ),
        call_requires(
            NativeWarpWhirRootProofSystem::<'a, F, EF, D, C>::prove::<
                PB,
                PS,
                PE,
                RP,
                OP,
                E,
                G,
                H,
            >,
            (&system, &transcript, prover_data, challenger, pow_bits, reduce, open),
        ),
{
    let (shape, oracles, claims, data) = (
        system.shape(),
        transcript.oracles@,
        transcript.claims@,
        prover_data@,
    );
    let before = old(challenger).history();
    let named = oracles_named(oracles, claims);
    assert(transcript.oracles.len() == oracles.len());
    lemma_batch::<F, EF, D, C, PB, PS, PE, E>(shape, oracles, claims, data);
    if let Ok(planned) = prover_batch::<F, EF, D, C, PB, PS, PE, E>(shape, oracles, claims, data) {
        let residuals = planned_residuals(planned);
        commitments_are_absorbed_item_by_item::<F, EF, D>(planned_commitments(planned));
        assert forall|
            statements: Vec<NativeWarpCompactRootStatement<EF>>,
            polys: Vec<NativeWarpDirectBatchedResidualPoly<'b, F, EF>>,
            c: C,
        |
            reduction_input(
                planned,
                before,
                statements,
                polys,
                c,
            ) implies #[trigger] call_requires(reduce, (statements, polys, c, pow_bits)) by {
            assert(views_of(statements@) =~= statements_of(statements@));
            assert(all_open_with(
                shape,
                claims,
                data,
                named,
                views_of(statements@),
                polys@,
                residuals,
            ));
        }
        assert forall|
            g: Vec<BatchedOracle<EF, &'b PB, &'b PE, &'b SharedHandle<PS>>>,
            point: Vec<EF>,
            value: EF,
            d: C,
        |
            opening_input(
                planned,
                before,
                pow_bits,
                reduce,
                g,
                point,
                value,
                d,
            ) implies #[trigger] call_requires(open, (g, point, value, d)) by {
            let (statements, polys, c, reduction, claim) = choose|
                statements: Vec<NativeWarpCompactRootStatement<EF>>,
                polys: Vec<NativeWarpDirectBatchedResidualPoly<'b, F, EF>>,
                c: C,
                reduction: RP,
                claim: BatchedLinearSigmaOpeningClaim<EF>,
            |
                reduction_input(planned, before, statements, polys, c) && #[trigger] call_ensures(
                    reduce,
                    (statements, polys, c, pow_bits),
                    (Ok((reduction, claim)), d),
                ) && grouping(residuals, claim.coeffs@) == Ok::<
                    Seq<Group<EF, &'b PB, &'b PE, &'b SharedHandle<PS>>>,
                    LinearSigmaReductionError,
                >(groups_of(g@)) && point == claim.point && value == claim.value;
            assert(views_of(statements@) =~= statements_of(statements@));
            assert(all_open_with(
                shape,
                claims,
                data,
                named,
                views_of(statements@),
                polys@,
                residuals,
            ));
            assert(claim.coeffs.len() == claim.coeffs@.len());
            lemma_is_grouping_of(residuals, claim.coeffs@, Ok(g));
            let wanted = call_requires(open, (g, claim.point, claim.value, d));
            assert(wanted);
        }
    }
}

} // verus!
