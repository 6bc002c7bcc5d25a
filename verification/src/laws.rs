//! What holds of the compiler and the proof system as a whole.

use crate::algebra::generator_chain;
use crate::claims::{
    base_statement, claim_count, extension_statement, lemma_every_claim_counted_once,
    lemma_query_count, CompactStatement,
};
use crate::code::{
    base_generators, extension_generators, lemma_encoding_valid, systematic_evaluation, CodeShape,
};
use crate::commit::{bound_commitment, id_items, stack_header, stack_transcript};
use crate::compiler::{
    bound_commitments, distinct_ids, distinct_ids_means_no_duplicates, known_oracles,
    known_oracles_means_all_given, public_ids,
};
use crate::domain::{ROOT_WHIR_BASE_ORACLE, ROOT_WHIR_EXTENSION_ORACLE};
use crate::error::NativeWarpWhirRootProofError;
use crate::field::{all_valid, ExtensionField, Field, TwoAdicField};
use crate::grouping::{
    corresponding, corresponding_batches_group_alike, grouped_alike, grouping, same_place, GroupKey,
    ResidualOracle,
};
use crate::multilinear::{eq_table, lifted, mle};
use crate::proof_system::{base_transcript, consistent_input, extension_transcript};
use crate::root_iop::{
    claimed, lemma_claims_about_nonempty, RootIopOpeningClaim, RootIopOracleField,
    RootIopOracleValues,
};
use crate::root_prover::{
    find_prover_data, planned_commitments, planned_oracles, planned_residuals, planned_statements,
    prover_batch, prover_oracle, with_statement, PlannedOracle,
};
use crate::root_verifier::{residual_commitment, residual_commitments, scan, verifier_scan};
use crate::statement::{eval_constraint_is_evaluation, LinearSigmaConstraint};
use crate::transcript::{Digest, TranscriptItem};
use crate::types::{
    BoundRoot, NativeWarpDirectBatchedResidualPoly, NativeWarpWhirRootBaseProverData,
    NativeWarpWhirRootCommitment, NativeWarpWhirRootExtensionProverData,
    NativeWarpWhirRootOracleProverData, NativeWarpWhirRootProverData,
    NativeWarpWhirRootSharedBaseProverData,
};
use vstd::prelude::*;

verus! {

/// The constraint that a systematic code compiles a message claim to holds for
/// the codeword of a message exactly when the claim is true of the message.
pub proof fn systematic_constraint_is_message_evaluation<F: Field>(
    shape: CodeShape,
    g: spec_fn(nat) -> F,
    top: nat,
    message: Seq<F>,
    y: Seq<F>,
    constraint: LinearSigmaConstraint<F>,
)
    requires
        generator_chain(g, top),
        shape.log_codeword_len() <= top,
        shape.systematic,
        message.len() == shape.msg_len(),
        all_valid(message),
        y.len() == shape.log_msg_len,
        constraint.weights@ == eq_table(lifted(y, shape.log_inv_rate as nat)),
    ensures
        constraint.holds_for(shape.encoding(g, message)) <==> mle(message, y) == constraint.value,
{
    systematic_evaluation(shape, g, top, message, y);
    lemma_encoding_valid(shape, g, message);
    eval_constraint_is_evaluation(
        constraint,
        lifted(y, shape.log_inv_rate as nat),
        shape.encoding(g, message),
    );
}

/// Transcripts of different roles or of different oracles differ: those in
/// which base-field oracles, extension-field oracles and stacks are committed.
pub proof fn commitment_transcripts_differ<F: Field, EF, D>(
    seed: Seq<TranscriptItem<F, EF, D>>,
    a: usize,
    b: usize,
    ids: Seq<usize>,
)
    requires
        ROOT_WHIR_BASE_ORACLE < F::characteristic(),
        ROOT_WHIR_EXTENSION_ORACLE < F::characteristic(),
        a < F::characteristic(),
        b < F::characteristic(),
    ensures
        base_transcript(seed, a) != extension_transcript(seed, b),
        a != b ==> base_transcript(seed, a) != base_transcript(seed, b),
        a != b ==> extension_transcript(seed, a) != extension_transcript(seed, b),
        ids.len() > 0 ==> base_transcript(seed, a) != stack_transcript(seed, ids),
        stack_transcript(seed, ids) != extension_transcript(seed, b),
{
    let n = seed.len() as int;
    let (x, y) = (ROOT_WHIR_BASE_ORACLE as nat, ROOT_WHIR_EXTENSION_ORACLE as nat);
    if F::nat_spec(x) == F::nat_spec(y) {
        F::nat_is_injective(x, y);
    }
    if F::nat_spec(a as nat) == F::nat_spec(b as nat) {
        F::nat_is_injective(a as nat, b as nat);
    }
    let (ta, tb) = (base_transcript(seed, a), base_transcript(seed, b));
    let (ea, eb) = (extension_transcript(seed, a), extension_transcript(seed, b));
    let s = stack_transcript(seed, ids);
    assert(ta[n] == TranscriptItem::<F, EF, D>::Base(F::nat_spec(x)));
    assert(eb[n] == TranscriptItem::<F, EF, D>::Base(F::nat_spec(y)));
    assert(s[n] == stack_header(seed, ids.len())[n]);
    assert(s[n] == TranscriptItem::<F, EF, D>::Base(F::nat_spec(x)));
    assert(ta[n + 1] == TranscriptItem::<F, EF, D>::Base(F::nat_spec(a as nat)));
    assert(tb[n + 1] == TranscriptItem::<F, EF, D>::Base(F::nat_spec(b as nat)));
    assert(ea[n + 1] == TranscriptItem::<F, EF, D>::Base(F::nat_spec(a as nat)));
    assert(eb[n + 1] == TranscriptItem::<F, EF, D>::Base(F::nat_spec(b as nat)));
    assert(s.len() == n + 2 + ids.len());
    assert(ta.len() == n + 2);
}

/// Stacks with different identifiers, or the same in another order, are
/// committed in different transcripts.
pub proof fn stack_transcripts_differ<F: Field, EF, D>(
    seed: Seq<TranscriptItem<F, EF, D>>,
    a: Seq<usize>,
    b: Seq<usize>,
)
    requires
        forall|i: int| 0 <= i < a.len() ==> (#[trigger] a[i]) < F::characteristic(),
        forall|i: int| 0 <= i < b.len() ==> (#[trigger] b[i]) < F::characteristic(),
        stack_transcript(seed, a) == stack_transcript(seed, b),
    ensures
        a == b,
{
    let (s, t) = (stack_transcript(seed, a), stack_transcript(seed, b));
    let n = seed.len() as int + 2;
    assert(s.len() == n + a.len());
    assert(t.len() == n + b.len());
    assert forall|i: int| 0 <= i < a.len() implies a[i] == b[i] by {
        assert(s[n + i] == id_items::<F, EF, D>(a)[i]);
        assert(t[n + i] == id_items::<F, EF, D>(b)[i]);
        F::nat_is_injective(a[i] as nat, b[i] as nat);
    }
    assert(a =~= b);
}

/// The message of a planned oracle is encoded by its table.
pub open spec fn encodes<'b, F: TwoAdicField, EF: ExtensionField<F>>(
    shape: CodeShape,
    poly: NativeWarpDirectBatchedResidualPoly<'b, F, EF>,
    values: RootIopOracleValues<F, EF>,
) -> bool {
    match (poly, values) {
        (
            NativeWarpDirectBatchedResidualPoly::Base(message),
            RootIopOracleValues::Base(table),
        ) => message@.len() == shape.msg_len() && table@ == shape.encoding(
            base_generators::<F>(),
            message@,
        ),
        (
            NativeWarpDirectBatchedResidualPoly::Extension(message),
            RootIopOracleValues::Extension(table),
        ) => message@.len() == shape.msg_len() && table@ == shape.encoding(
            extension_generators::<F, EF>(),
            message@,
        ),
        _ => false,
    }
}

/// One code: every message of a batch that is opened is encoded by the table of
/// the oracle with its commitment.
pub proof fn opened_messages_are_encoded<
    'b,
    F: TwoAdicField,
    EF: ExtensionField<F>,
    D,
    C,
    PB,
    PS,
    PE,
    E,
>(
    shape: CodeShape,
    oracles: Seq<(BoundRoot<D>, RootIopOracleValues<F, EF>)>,
    claims: Seq<RootIopOpeningClaim<F, EF>>,
    data: Seq<NativeWarpWhirRootOracleProverData<F, EF, C, PB, PS, PE>>,
)
    ensures
        planned_oracles::<F, EF, D, C, PB, PS, PE, E>(shape, oracles, claims, data) matches Ok(
            planned,
        ) ==> forall|j: int|
            0 <= j < planned.len() ==> exists|i: int|
                0 <= i < oracles.len() && (#[trigger] oracles[i]).0 == (
                #[trigger] planned[j]).commitment && encodes(shape, planned[j].poly, oracles[i].1),
    decreases oracles.len(),
{
    if oracles.len() > 0 {
        let rest = oracles.drop_last();
        opened_messages_are_encoded::<F, EF, D, C, PB, PS, PE, E>(shape, rest, claims, data);
        if let Ok(planned) = planned_oracles::<F, EF, D, C, PB, PS, PE, E>(
            shape,
            oracles,
            claims,
            data,
        ) {
            let before = planned_oracles::<F, EF, D, C, PB, PS, PE, E>(
                shape,
                rest,
                claims,
                data,
            )->Ok_0;
            assert forall|j: int| 0 <= j < planned.len() implies exists|i: int|
                0 <= i < oracles.len() && (#[trigger] oracles[i]).0 == (
                #[trigger] planned[j]).commitment && encodes(
                    shape,
                    planned[j].poly,
                    oracles[i].1,
                ) by {
                if j < before.len() {
                    assert(before[j] == planned[j]);
                    let i = choose|i: int|
                        0 <= i < rest.len() && (#[trigger] rest[i]).0 == before[j].commitment
                            && encodes(shape, before[j].poly, rest[i].1);
                    assert(oracles[i] == rest[i]);
                } else {
                    let i = oracles.len() - 1;
                    assert(oracles[i] == oracles.last());
                    assert(oracles[i].0 == planned[j].commitment);
                }
            }
        }
    }
}

/// What is committed can be opened: with the prover data that the commitment of
/// a base-field oracle gave, the oracle is planned whenever its claims compile.
pub proof fn committed_base_oracle_can_be_opened<
    'b,
    F: TwoAdicField,
    EF: ExtensionField<F>,
    D,
    C,
    PB,
    PS,
    PE,
    E,
>(
    shape: CodeShape,
    claims: Seq<RootIopOpeningClaim<F, EF>>,
    data: Seq<NativeWarpWhirRootOracleProverData<F, EF, C, PB, PS, PE>>,
    oracle_id: usize,
    codeword: Vec<F>,
    root: D,
    held: NativeWarpWhirRootBaseProverData<F, C, PB>,
)
    requires
        shape.log_codeword_len() <= usize::MAX,
        consistent_input(shape, base_generators::<F>(), oracle_id, codeword@, held.message@) is Ok,
        find_prover_data(data, oracle_id) matches Some(found) && found.data
            == NativeWarpWhirRootProverData::<F, EF, C, PB, PS, PE>::Base(held),
    ensures
        prover_oracle::<F, EF, D, C, PB, PS, PE, E>(
            shape,
            claims,
            data,
            bound_commitment(
                shape,
                oracle_id,
                RootIopOracleField::Base,
                NativeWarpWhirRootCommitment::BaseMessage(root),
            ),
            RootIopOracleValues::Base(codeword),
        ) == with_statement::<F, EF, D, PB, PS, PE, E>(
            bound_commitment(
                shape,
                oracle_id,
                RootIopOracleField::Base,
                NativeWarpWhirRootCommitment::BaseMessage(root),
            ),
            base_statement(shape, claims, oracle_id),
            NativeWarpDirectBatchedResidualPoly::Base(&held.message),
            ResidualOracle::Base(&held.prover_data),
        ),
{
}

/// What is committed can be opened: with the prover data that the commitment of
/// a stack gave for a column, the column is planned whenever its claims compile.
pub proof fn committed_stack_column_can_be_opened<
    'b,
    F: TwoAdicField,
    EF: ExtensionField<F>,
    D,
    C,
    PB,
    PS,
    PE,
    E,
>(
    shape: CodeShape,
    claims: Seq<RootIopOpeningClaim<F, EF>>,
    data: Seq<NativeWarpWhirRootOracleProverData<F, EF, C, PB, PS, PE>>,
    oracle_id: usize,
    codeword: Vec<F>,
    root: D,
    held: NativeWarpWhirRootSharedBaseProverData<F, PS>,
)
    requires
        shape.log_codeword_len() <= usize::MAX,
        consistent_input(shape, base_generators::<F>(), oracle_id, codeword@, held.message@) is Ok,
        find_prover_data(data, oracle_id) matches Some(found) && found.data
            == NativeWarpWhirRootProverData::<F, EF, C, PB, PS, PE>::BaseShared(held),
    ensures
        prover_oracle::<F, EF, D, C, PB, PS, PE, E>(
            shape,
            claims,
            data,
            bound_commitment(
                shape,
                oracle_id,
                RootIopOracleField::Base,
                NativeWarpWhirRootCommitment::BaseMessageShared {
                    root,
                    column: held.column,
                    width: held.width,
                },
            ),
            RootIopOracleValues::Base(codeword),
        ) == with_statement::<F, EF, D, PB, PS, PE, E>(
            bound_commitment(
                shape,
                oracle_id,
                RootIopOracleField::Base,
                NativeWarpWhirRootCommitment::BaseMessageShared {
                    root,
                    column: held.column,
                    width: held.width,
                },
            ),
            base_statement(shape, claims, oracle_id),
            NativeWarpDirectBatchedResidualPoly::Base(&held.message),
            ResidualOracle::SharedBase {
                shared: &held.shared,
                column: held.column,
                width: held.width,
            },
        ),
{
}

/// What is committed can be opened: with the prover data that the commitment of
/// an extension-field oracle gave, the oracle is planned whenever its claims
/// compile.
pub proof fn committed_extension_oracle_can_be_opened<
    'b,
    F: TwoAdicField,
    EF: ExtensionField<F>,
    D,
    C,
    PB,
    PS,
    PE,
    E,
>(
    shape: CodeShape,
    claims: Seq<RootIopOpeningClaim<F, EF>>,
    data: Seq<NativeWarpWhirRootOracleProverData<F, EF, C, PB, PS, PE>>,
    oracle_id: usize,
    codeword: Vec<EF>,
    root: D,
    held: NativeWarpWhirRootExtensionProverData<EF, C, PE>,
)
    requires
        shape.log_codeword_len() <= usize::MAX,
        consistent_input(
            shape,
            extension_generators::<F, EF>(),
            oracle_id,
            codeword@,
            held.message@,
        ) is Ok,
        find_prover_data(data, oracle_id) matches Some(found) && found.data
            == NativeWarpWhirRootProverData::<F, EF, C, PB, PS, PE>::ExtensionMessage(held),
    ensures
        prover_oracle::<F, EF, D, C, PB, PS, PE, E>(
            shape,
            claims,
            data,
            bound_commitment(
                shape,
                oracle_id,
                RootIopOracleField::Extension,
                NativeWarpWhirRootCommitment::ExtensionMessage(root),
            ),
            RootIopOracleValues::Extension(codeword),
        ) == with_statement::<F, EF, D, PB, PS, PE, E>(
            bound_commitment(
                shape,
                oracle_id,
                RootIopOracleField::Extension,
                NativeWarpWhirRootCommitment::ExtensionMessage(root),
            ),
            extension_statement(shape, claims, oracle_id),
            NativeWarpDirectBatchedResidualPoly::Extension(&held.message),
            ResidualOracle::Extension(&held.prover_data),
        ),
{
}

/// The oracles of a batch correspond to its public commitments, place by place.
proof fn lemma_same_places<
    'b,
    F: TwoAdicField,
    EF: ExtensionField<F>,
    D,
    C,
    PB,
    PS,
    PE,
    E,
>(
    shape: CodeShape,
    oracles: Seq<(BoundRoot<D>, RootIopOracleValues<F, EF>)>,
    claims: Seq<RootIopOpeningClaim<F, EF>>,
    data: Seq<NativeWarpWhirRootOracleProverData<F, EF, C, PB, PS, PE>>,
)
    ensures
        planned_oracles::<F, EF, D, C, PB, PS, PE, E>(shape, oracles, claims, data) matches Ok(
            planned,
        ) ==> {
            let s = scan::<F, EF, D, E>(shape, bound_commitments(oracles), claims);
            &&& s.absorbed == planned_commitments(planned)
            &&& s.statements == Ok::<Seq<CompactStatement<EF>>, NativeWarpWhirRootProofError<E>>(
                planned_statements(planned),
            )
            &&& forall|i: int|
                0 <= i < planned.len() ==> same_place(
                    (#[trigger] planned[i]).oracle,
                    residual_commitment(planned[i].commitment.commitment),
                )
        },
    decreases oracles.len(),
{
    if oracles.len() == 0 {
        let planned = planned_oracles::<F, EF, D, C, PB, PS, PE, E>(
            shape,
            oracles,
            claims,
            data,
        )->Ok_0;
        assert(bound_commitments(oracles).len() == 0);
        assert(planned_commitments(planned) =~= Seq::empty());
        assert(planned_statements(planned) =~= Seq::empty());
    } else {
        let rest = oracles.drop_last();
        lemma_same_places::<F, EF, D, C, PB, PS, PE, E>(shape, rest, claims, data);
        if let Ok(planned) = planned_oracles::<F, EF, D, C, PB, PS, PE, E>(
            shape,
            oracles,
            claims,
            data,
        ) {
            let before = planned_oracles::<F, EF, D, C, PB, PS, PE, E>(
                shape,
                rest,
                claims,
                data,
            )->Ok_0;
            assert(bound_commitments(oracles).drop_last() =~= bound_commitments(rest));
            assert(bound_commitments(oracles).last() == oracles.last().0);
            if claimed(claims, oracles.last().0.oracle_id) {
                let next = planned.last();
                assert(planned =~= before.push(next));
                assert(planned_commitments(planned) =~= planned_commitments(before).push(
                    next.commitment,
                ));
                assert(planned_statements(planned) =~= planned_statements(before).push(
                    next.statement,
                ));
                assert forall|i: int| 0 <= i < planned.len() implies same_place(
                    (#[trigger] planned[i]).oracle,
                    residual_commitment(planned[i].commitment.commitment),
                ) by {
                    if i < before.len() {
                        assert(planned[i] == before[i]);
                    }
                }
            }
        }
    }
}

/// What the prover opens, the verifier accepts as a batch: where the prover has
/// a batch to open, the verifier's scan of the public commitments and claims
/// succeeds, with the same statements, and absorbs the same commitments in the
/// same order. Both then hand the reduction the same statements after the same
/// transcript.
pub proof fn prover_and_verifier_agree<
    'b,
    F: TwoAdicField,
    EF: ExtensionField<F>,
    D,
    C,
    PB,
    PS,
    PE,
    E,
>(
    shape: CodeShape,
    oracles: Seq<(BoundRoot<D>, RootIopOracleValues<F, EF>)>,
    claims: Seq<RootIopOpeningClaim<F, EF>>,
    data: Seq<NativeWarpWhirRootOracleProverData<F, EF, C, PB, PS, PE>>,
)
    ensures
        prover_batch::<F, EF, D, C, PB, PS, PE, E>(shape, oracles, claims, data) matches Ok(
            planned,
        ) ==> {
            let scanned = verifier_scan::<F, EF, D, E>(shape, bound_commitments(oracles), claims);
            &&& scanned.absorbed == planned_commitments(planned)
            &&& scanned.statements == Ok::<
                Seq<CompactStatement<EF>>,
                NativeWarpWhirRootProofError<E>,
            >(planned_statements(planned))
        },
{
    lemma_same_places::<F, EF, D, C, PB, PS, PE, E>(shape, oracles, claims, data);
}

/// In the batch, two columns have the same prover data exactly when they have
/// the same root.
pub open spec fn handles_match_roots<'b, F, EF, D, PB, PS, PE>(
    planned: Seq<PlannedOracle<'b, F, EF, D, PB, PS, PE>>,
) -> bool {
    forall|i: int, j: int|
        #![trigger planned[i], planned[j]]
        0 <= i < planned.len() && 0 <= j < planned.len() && planned[i].oracle is SharedBase
            && planned[j].oracle is SharedBase ==> (
        planned[i].oracle->shared.address() == planned[j].oracle->shared.address() <==>
            residual_commitment(planned[i].commitment.commitment)->shared == residual_commitment(
            planned[j].commitment.commitment,
        )->shared)
}

/// Where columns have the same prover data exactly when they have the same
/// root, the prover and the verifier group the batch alike, whatever the
/// coefficients: the same kinds and coefficients in the same order, for the
/// same oracles, or the same error.
pub proof fn prover_and_verifier_group_alike<
    'b,
    F: TwoAdicField,
    EF: ExtensionField<F>,
    D: Digest,
    C,
    PB,
    PS,
    PE,
    E,
>(
    shape: CodeShape,
    oracles: Seq<(BoundRoot<D>, RootIopOracleValues<F, EF>)>,
    claims: Seq<RootIopOpeningClaim<F, EF>>,
    data: Seq<NativeWarpWhirRootOracleProverData<F, EF, C, PB, PS, PE>>,
    planned: Seq<PlannedOracle<'b, F, EF, D, PB, PS, PE>>,
    coeffs: Seq<EF>,
) -> (origin: Seq<int>)
    requires
        prover_batch::<F, EF, D, C, PB, PS, PE, E>(shape, oracles, claims, data) == Ok::<
            Seq<PlannedOracle<'b, F, EF, D, PB, PS, PE>>,
            NativeWarpWhirRootProofError<E>,
        >(planned),
        handles_match_roots(planned),
    ensures
        ({
            let scanned = verifier_scan::<F, EF, D, E>(shape, bound_commitments(oracles), claims);
            match (
                grouping(planned_residuals(planned), coeffs),
                grouping(residual_commitments(scanned.absorbed), coeffs),
            ) {
                (Ok(a), Ok(b)) => grouped_alike(
                    planned_residuals(planned),
                    residual_commitments(scanned.absorbed),
                    a,
                    b,
                    origin,
                ),
                (Err(a), Err(b)) => a == b,
                _ => false,
            }
        }),
{
    lemma_same_places::<F, EF, D, C, PB, PS, PE, E>(shape, oracles, claims, data);
    let scanned = verifier_scan::<F, EF, D, E>(shape, bound_commitments(oracles), claims);
    let (a, b) = (planned_residuals(planned), residual_commitments(scanned.absorbed));
    assert(corresponding(a, b)) by {
        assert forall|i: int| 0 <= i < a.len() implies same_place(#[trigger] a[i], b[i]) by {
            assert(same_place(
                planned[i].oracle,
                residual_commitment(planned[i].commitment.commitment),
            ));
        }
        assert forall|i: int, j: int|
            #![trigger a[i], a[j]]
            0 <= i < a.len() && 0 <= j < a.len() && a[i] is SharedBase
                && a[j] is SharedBase implies (a[i]->shared.same_group(a[j]->shared)
            <==> b[i]->shared.same_group(b[j]->shared)) by {
            assert(planned[i].oracle is SharedBase && planned[j].oracle is SharedBase);
            assert(same_place(a[i], b[i]) && same_place(a[j], b[j]));
        }
    }
    corresponding_batches_group_alike(a, b, coeffs)
}

/// The number of queries in all statements.
pub open spec fn query_count<EF>(statements: Seq<CompactStatement<EF>>) -> nat
    decreases statements.len(),
{
    if statements.len() == 0 {
        0
    } else {
        query_count(statements.drop_last()) + statements.last().queries.len()
    }
}

proof fn lemma_scanned_queries<F: TwoAdicField, EF: ExtensionField<F>, D, E>(
    shape: CodeShape,
    commitments: Seq<BoundRoot<D>>,
    claims: Seq<RootIopOpeningClaim<F, EF>>,
)
    ensures
        scan::<F, EF, D, E>(shape, commitments, claims).statements matches Ok(statements)
            ==> query_count(statements) == claim_count(claims, public_ids(commitments)),
    decreases commitments.len(),
{
    if commitments.len() == 0 {
        assert(public_ids(commitments).len() == 0);
    } else {
        let rest = commitments.drop_last();
        let id = commitments.last().oracle_id;
        lemma_scanned_queries::<F, EF, D, E>(shape, rest, claims);
        assert(public_ids(commitments).drop_last() =~= public_ids(rest));
        assert(public_ids(commitments).last() == id);
        lemma_claims_about_nonempty(claims, id);
        lemma_query_count(shape, claims, id);
        if let Ok(statements) = scan::<F, EF, D, E>(shape, commitments, claims).statements {
            let before = scan::<F, EF, D, E>(shape, rest, claims).statements->Ok_0;
            if claimed(claims, id) {
                assert(statements.drop_last() =~= before);
            }
        }
    }
}

/// No claim is lost and none is doubled: where the scan of the public
/// commitments succeeds, its statements have as many queries as there are
/// claims, each statement one for every claim about its oracle.
pub proof fn every_claim_is_queried_once<F: TwoAdicField, EF: ExtensionField<F>, D, E>(
    shape: CodeShape,
    commitments: Seq<BoundRoot<D>>,
    claims: Seq<RootIopOpeningClaim<F, EF>>,
)
    ensures
        verifier_scan::<F, EF, D, E>(shape, commitments, claims).statements matches Ok(statements)
            ==> query_count(statements) == claims.len(),
{
    let ids = public_ids(commitments);
    distinct_ids_means_no_duplicates(ids);
    known_oracles_means_all_given(ids, claims);
    lemma_scanned_queries::<F, EF, D, E>(shape, commitments, claims);
    if distinct_ids(ids) is Ok && known_oracles(ids, claims) is Ok {
        lemma_every_claim_counted_once(claims, ids);
    }
}

} // verus!
