//! From committing an oracle to accepting its openings.

use crate::acceptance::{
    batch_is_paired, honest_proofs_are_accepted, opening_is_complete, reduction_is_complete,
    Belongs,
};
use crate::claims::NativeWarpCompactRootStatement;
use crate::code::{base_generators, extension_generators, CodeShape};
use crate::collect::lemma_collected_ok;
use crate::commit::{
    bound_commitment, committed, consistent_inputs, extension_committed, stack_column, stack_of,
};
use crate::compiler::{
    bound_commitments, distinct_ids, known_oracles, known_oracles_means_all_given, public_ids,
    table_field,
};
use crate::error::{NativeWarpWhirRootProofError, NativeWarpWhirRootReductionError};
use crate::field::{ExtensionField, TwoAdicField};
use crate::grouping::{BatchedOracle, RootKey};
use crate::laws::handles_match_roots;
use crate::proof_system::consistent_input;
use crate::root_iop::{claimed, RootIopOpeningClaim, RootIopOracleField, RootIopOracleValues};
use crate::root_prover::{
    find_prover_data, planned_oracles, prover_batch, prover_oracle, proving_result,
    root_proving_result, wrapped, PlannedOracle,
};
use crate::root_verifier::{
    committed_statement, residual_commitment, verification_result, verifier_scan,
};
use crate::transcript::{Challenger, Digest, TranscriptItem};
use crate::types::{
    BatchedLinearSigmaOpeningClaim, BoundRoot, NativeWarpDirectBatchedResidualPoly,
    NativeWarpWhirRootBaseProverData, NativeWarpWhirRootBatchedOpeningProof,
    NativeWarpWhirRootCommitment, NativeWarpWhirRootOracleProverData, NativeWarpWhirRootProof,
    NativeWarpWhirRootProverData, SharedHandle,
};
use vstd::prelude::*;

verus! {

/// The prover data is of the oracle of the commitment, of the same kind and
/// place, and belongs to it.
pub open spec fn paired<F, EF, D, C, PB, PS, PE>(
    belongs: Belongs<D, PB, PS, PE>,
    commitment: BoundRoot<D>,
    data: NativeWarpWhirRootOracleProverData<F, EF, C, PB, PS, PE>,
) -> bool {
    &&& data.oracle_id == commitment.oracle_id
    &&& match (commitment.commitment, data.data) {
        (
            NativeWarpWhirRootCommitment::BaseMessage(root),
            NativeWarpWhirRootProverData::Base(d),
        ) => (belongs.base)(d.prover_data, root),
        (
            NativeWarpWhirRootCommitment::BaseMessageShared { root, column, width },
            NativeWarpWhirRootProverData::BaseShared(d),
        ) => d.column == column && d.width == width && (belongs.shared)(d.shared, root),
        (
            NativeWarpWhirRootCommitment::ExtensionMessage(root),
            NativeWarpWhirRootProverData::ExtensionMessage(d),
        ) => (belongs.extension)(d.prover_data, root),
        _ => false,
    }
}

/// The commitment is one to an oracle of the length of a codeword, and the table
/// is the codeword of the message in the prover data.
pub open spec fn holds_table<F: TwoAdicField, EF: ExtensionField<F>, D, C, PB, PS, PE>(
    shape: CodeShape,
    commitment: BoundRoot<D>,
    data: NativeWarpWhirRootOracleProverData<F, EF, C, PB, PS, PE>,
    values: RootIopOracleValues<F, EF>,
) -> bool {
    let id = commitment.oracle_id;
    &&& commitment == bound_commitment(shape, id, table_field(values), commitment.commitment)
    &&& match (data.data, values) {
        (NativeWarpWhirRootProverData::Base(d), RootIopOracleValues::Base(table)) => {
            consistent_input(shape, base_generators::<F>(), id, table@, d.message@) is Ok
        },
        (NativeWarpWhirRootProverData::BaseShared(d), RootIopOracleValues::Base(table)) => {
            consistent_input(shape, base_generators::<F>(), id, table@, d.message@) is Ok
        },
        (
            NativeWarpWhirRootProverData::ExtensionMessage(d),
            RootIopOracleValues::Extension(table),
        ) => consistent_input(
            shape,
            extension_generators::<F, EF>(),
            id,
            table@,
            d.message@,
        ) is Ok,
        _ => false,
    }
}

/// Committing a base-field oracle gives prover data that is paired with the
/// commitment, where what the backend gave belongs together, and that holds the
/// committed table.
pub proof fn committed_base_oracle_is_paired<
    F: TwoAdicField,
    EF: ExtensionField<F>,
    D,
    C,
    PB,
    PS,
    PE,
    E,
    G: FnOnce(Vec<F>, C) -> (D, PB, C),
>(
    belongs: Belongs<D, PB, PS, PE>,
    shape: CodeShape,
    oracle_id: usize,
    codeword: Vec<F>,
    message: Vec<F>,
    commit: G,
    m: Vec<F>,
    c: C,
    root: D,
    prover_data: PB,
    challenger: C,
    r: Result<
        (BoundRoot<D>, NativeWarpWhirRootOracleProverData<F, EF, C, PB, PS, PE>),
        NativeWarpWhirRootProofError<E>,
    >,
)
    requires
        consistent_input(shape, base_generators::<F>(), oracle_id, codeword@, message@) is Ok,
        call_ensures(commit, (m, c), (root, prover_data, challenger)),
        committed(
            r,
            bound_commitment(
                shape,
                oracle_id,
                RootIopOracleField::Base,
                NativeWarpWhirRootCommitment::BaseMessage(root),
            ),
            NativeWarpWhirRootProverData::Base(
                NativeWarpWhirRootBaseProverData { prover_data, challenger, message },
            ),
        ),
        forall|m: Vec<F>, c: C, root: D, given: PB, after: C| #[trigger]
            call_ensures(commit, (m, c), (root, given, after)) ==> (belongs.base)(given, root),
    ensures
        r matches Ok((commitment, data)) && paired(belongs, commitment, data) && holds_table(
            shape,
            commitment,
            data,
            RootIopOracleValues::Base(codeword),
        ),
{
}

/// Committing a stack gives prover data for every column that is paired with
/// its commitment, where what the backend gave belongs together, and that holds
/// the table of the column.
pub proof fn committed_stack_is_paired<
    F: TwoAdicField,
    EF: ExtensionField<F>,
    D,
    C,
    PB,
    PS,
    PE,
    G: FnOnce(Vec<Vec<F>>, C) -> (D, SharedHandle<PS>, C),
>(
    belongs: Belongs<D, PB, PS, PE>,
    shape: CodeShape,
    inputs: Seq<(usize, Vec<F>, Vec<F>)>,
    commit: G,
    m: Vec<Vec<F>>,
    c: C,
    root: D,
    shared: SharedHandle<PS>,
    after: C,
    out: Seq<(BoundRoot<D>, NativeWarpWhirRootOracleProverData<F, EF, C, PB, PS, PE>)>,
)
    requires
        inputs.len() <= usize::MAX,
        consistent_inputs(shape, inputs) is Ok,
        call_ensures(commit, (m, c), (root, shared, after)),
        stack_of(shape, inputs, root, shared, out),
        forall|m: Vec<Vec<F>>, c: C, root: D, given: SharedHandle<PS>, after: C| #[trigger]
            call_ensures(commit, (m, c), (root, given, after)) ==> (belongs.shared)(given, root),
    ensures
        forall|i: int|
            0 <= i < out.len() ==> paired(belongs, (#[trigger] out[i]).0, out[i].1) && holds_table(
                shape,
                out[i].0,
                out[i].1,
                RootIopOracleValues::Base(inputs[i].1),
            ),
{
    let check = |input: (usize, Vec<F>, Vec<F>)|
        consistent_input(shape, base_generators::<F>(), input.0, input.1@, input.2@);
    let done = consistent_inputs(shape, inputs)->Ok_0;
    lemma_collected_ok(inputs, check);
    assert forall|i: int| 0 <= i < out.len() implies paired(
        belongs,
        (#[trigger] out[i]).0,
        out[i].1,
    ) && holds_table(shape, out[i].0, out[i].1, RootIopOracleValues::Base(inputs[i].1)) by {
        assert(stack_column(shape, inputs, root, shared, i, out[i]));
        assert(check(inputs[i]) == Ok::<(), NativeWarpWhirRootReductionError>(done[i]));
    }
}

/// Committing an extension-field oracle gives prover data that is paired with
/// the commitment, where what the backend gave belongs together, and that holds
/// the table that encodes the committed message.
pub proof fn committed_extension_oracle_is_paired<
    F: TwoAdicField,
    EF: ExtensionField<F>,
    D,
    C,
    PB,
    PS,
    PE,
    E,
    G: FnOnce(Vec<EF>, C) -> (D, PE, C),
>(
    belongs: Belongs<D, PB, PS, PE>,
    shape: CodeShape,
    oracle_id: usize,
    codeword: Vec<EF>,
    commit: G,
    m: Vec<EF>,
    c: C,
    root: D,
    prover_data: PE,
    challenger: C,
    message: Seq<EF>,
    r: Result<
        (BoundRoot<D>, NativeWarpWhirRootOracleProverData<F, EF, C, PB, PS, PE>),
        NativeWarpWhirRootProofError<E>,
    >,
)
    requires
        consistent_input(shape, extension_generators::<F, EF>(), oracle_id, codeword@, message)
            is Ok,
        call_ensures(commit, (m, c), (root, prover_data, challenger)),
        extension_committed(
            r,
            shape,
            oracle_id,
            root,
            prover_data,
            challenger,
            message,
        ),
        forall|m: Vec<EF>, c: C, root: D, given: PE, after: C| #[trigger]
            call_ensures(commit, (m, c), (root, given, after)) ==> (belongs.extension)(given, root),
    ensures
        r matches Ok((commitment, data)) && paired(belongs, commitment, data) && holds_table(
            shape,
            commitment,
            data,
            RootIopOracleValues::Extension(codeword),
        ),
{
}

/// The commitments that were made, each with its prover data: no two are of the
/// same oracle, and in each the prover data is paired with the commitment.
pub open spec fn all_paired<F, EF, D, C, PB, PS, PE>(
    belongs: Belongs<D, PB, PS, PE>,
    made: Seq<(BoundRoot<D>, NativeWarpWhirRootOracleProverData<F, EF, C, PB, PS, PE>)>,
) -> bool {
    &&& forall|i: int| 0 <= i < made.len() ==> paired(belongs, (#[trigger] made[i]).0, made[i].1)
    &&& forall|i: int, j: int|
        #![trigger made[i], made[j]]
        0 <= i < j < made.len() ==> made[i].0.oracle_id != made[j].0.oracle_id
}

/// The prover data of the commitments that were made.
pub open spec fn made_data<F, EF, D, C, PB, PS, PE>(
    made: Seq<(BoundRoot<D>, NativeWarpWhirRootOracleProverData<F, EF, C, PB, PS, PE>)>,
) -> Seq<NativeWarpWhirRootOracleProverData<F, EF, C, PB, PS, PE>> {
    Seq::new(made.len(), |i: int| made[i].1)
}

/// The commitments of the oracles that claims are about are among those that
/// were made.
pub open spec fn made_for<F, EF, D, C, PB, PS, PE>(
    made: Seq<(BoundRoot<D>, NativeWarpWhirRootOracleProverData<F, EF, C, PB, PS, PE>)>,
    oracles: Seq<(BoundRoot<D>, RootIopOracleValues<F, EF>)>,
    claims: Seq<RootIopOpeningClaim<F, EF>>,
) -> bool {
    forall|i: int|
        0 <= i < oracles.len() && claimed(claims, (#[trigger] oracles[i]).0.oracle_id)
            ==> exists|k: int| 0 <= k < made.len() && (#[trigger] made[k]).0 == oracles[i].0
}

/// The stacks that were made, each with its root and its handle, have pairwise
/// different roots and pairwise different handles, and prover data of stacks
/// belongs to these only.
pub open spec fn stacks_told_apart<D, PB, PS, PE>(
    belongs: Belongs<D, PB, PS, PE>,
    stacks: Seq<(D, SharedHandle<PS>)>,
) -> bool {
    &&& forall|i: int, j: int|
        #![trigger stacks[i], stacks[j]]
        0 <= i < j < stacks.len() ==> stacks[i].0 != stacks[j].0 && stacks[i].1.address()
            != stacks[j].1.address()
    &&& forall|handle: SharedHandle<PS>, root: D| #[trigger]
        (belongs.shared)(handle, root) ==> stacks.contains((root, handle))
}

/// Where no two commitments are of the same oracle, the prover data of one is
/// found under its identifier.
proof fn lemma_made_is_found<F, EF, D, C, PB, PS, PE>(
    belongs: Belongs<D, PB, PS, PE>,
    made: Seq<(BoundRoot<D>, NativeWarpWhirRootOracleProverData<F, EF, C, PB, PS, PE>)>,
    k: int,
)
    requires
        all_paired(belongs, made),
        0 <= k < made.len(),
    ensures
        find_prover_data(made_data(made), made[k].0.oracle_id) == Some(&made[k].1),
    decreases made.len(),
{
    let rest = made.drop_last();
    let last = made.len() - 1;
    assert(all_paired(belongs, rest)) by {
        assert forall|i: int| 0 <= i < rest.len() implies paired(
            belongs,
            (#[trigger] rest[i]).0,
            rest[i].1,
        ) by {
            assert(rest[i] == made[i]);
        }
    }
    assert(made_data(made).drop_last() =~= made_data(rest));
    assert(made_data(made).last() == made[last].1);
    assert(paired(belongs, made[k].0, made[k].1));
    if k < last {
        assert(rest[k] == made[k]);
        lemma_made_is_found(belongs, rest, k);
    } else {
        assert forall|i: int| 0 <= i < made_data(rest).len() implies (#[trigger] made_data(
            rest,
        )[i]).oracle_id != made[k].0.oracle_id by {
            assert(rest[i] == made[i]);
            assert(paired(belongs, made[i].0, made[i].1));
            assert(made[i].0.oracle_id != made[k].0.oracle_id);
        }
        lemma_not_found(made_data(rest), made[k].0.oracle_id);
    }
}

proof fn lemma_not_found<F, EF, C, PB, PS, PE>(
    data: Seq<NativeWarpWhirRootOracleProverData<F, EF, C, PB, PS, PE>>,
    oracle_id: usize,
)
    requires
        forall|i: int| 0 <= i < data.len() ==> (#[trigger] data[i]).oracle_id != oracle_id,
    ensures
        find_prover_data(data, oracle_id) is None,
    decreases data.len(),
{
    if data.len() > 0 {
        assert(data[data.len() - 1].oracle_id != oracle_id);
        lemma_not_found(data.drop_last(), oracle_id);
    }
}

/// The prover data that is found for the oracles that claims are about is
/// paired with their commitments.
spec fn paired_found<F, EF, D, C, PB, PS, PE>(
    belongs: Belongs<D, PB, PS, PE>,
    oracles: Seq<(BoundRoot<D>, RootIopOracleValues<F, EF>)>,
    claims: Seq<RootIopOpeningClaim<F, EF>>,
    data: Seq<NativeWarpWhirRootOracleProverData<F, EF, C, PB, PS, PE>>,
) -> bool {
    forall|i: int|
        0 <= i < oracles.len() && claimed(claims, (#[trigger] oracles[i]).0.oracle_id) ==> (
        find_prover_data(data, oracles[i].0.oracle_id) matches Some(found) && paired(
            belongs,
            oracles[i].0,
            *found,
        ))
}

proof fn lemma_made_is_paired_found<F, EF, D, C, PB, PS, PE>(
    belongs: Belongs<D, PB, PS, PE>,
    made: Seq<(BoundRoot<D>, NativeWarpWhirRootOracleProverData<F, EF, C, PB, PS, PE>)>,
    oracles: Seq<(BoundRoot<D>, RootIopOracleValues<F, EF>)>,
    claims: Seq<RootIopOpeningClaim<F, EF>>,
)
    requires
        all_paired(belongs, made),
        made_for(made, oracles, claims),
    ensures
        paired_found(belongs, oracles, claims, made_data(made)),
{
    assert forall|i: int|
        0 <= i < oracles.len() && claimed(claims, (#[trigger] oracles[i]).0.oracle_id) implies (
    find_prover_data(made_data(made), oracles[i].0.oracle_id) matches Some(found) && paired(
        belongs,
        oracles[i].0,
        *found,
    )) by {
        let k = choose|k: int| 0 <= k < made.len() && (#[trigger] made[k]).0 == oracles[i].0;
        lemma_made_is_found(belongs, made, k);
        assert(paired(belongs, made[k].0, made[k].1));
    }
}

proof fn lemma_planned_is_paired<
    'b,
    F: TwoAdicField,
    EF: ExtensionField<F>,
    D,
    C,
    PB,
    PS,
    PE,
    E,
>(
    belongs: Belongs<D, PB, PS, PE>,
    shape: CodeShape,
    oracles: Seq<(BoundRoot<D>, RootIopOracleValues<F, EF>)>,
    claims: Seq<RootIopOpeningClaim<F, EF>>,
    data: Seq<NativeWarpWhirRootOracleProverData<F, EF, C, PB, PS, PE>>,
)
    requires
        paired_found(belongs, oracles, claims, data),
    ensures
        planned_oracles::<F, EF, D, C, PB, PS, PE, E>(shape, oracles, claims, data) matches Ok(
            planned,
        ) ==> batch_is_paired(belongs, planned),
    decreases oracles.len(),
{
    if oracles.len() > 0 {
        let rest = oracles.drop_last();
        assert(paired_found(belongs, rest, claims, data)) by {
            assert forall|i: int|
                0 <= i < rest.len() && claimed(claims, (#[trigger] rest[i]).0.oracle_id) implies (
            find_prover_data(data, rest[i].0.oracle_id) matches Some(found) && paired(
                belongs,
                rest[i].0,
                *found,
            )) by {
                assert(rest[i] == oracles[i]);
            }
        }
        lemma_planned_is_paired::<F, EF, D, C, PB, PS, PE, E>(belongs, shape, rest, claims, data);
        assert(oracles[oracles.len() - 1] == oracles.last());
        if let Ok(planned) = planned_oracles::<F, EF, D, C, PB, PS, PE, E>(
            shape,
            oracles,
            claims,
            data,
        ) {
            let before = planned_oracles::<F, EF, D, C, PB, PS, PE, E>(
                shape,
                rest,
                claims,
                data,
            )->Ok_0;
            assert forall|i: int| 0 <= i < planned.len() implies belongs.pairs(
                (#[trigger] planned[i]).oracle,
                residual_commitment(planned[i].commitment.commitment),
            ) by {
                if i < before.len() {
                    assert(planned[i] == before[i]);
                }
            }
        }
    }
}

/// Oracles that were committed make a batch in which the prover data belongs to
/// the commitments and columns have the same prover data exactly when they have
/// the same root, where different stacks are told apart by their roots and by
/// their handles.
pub proof fn committed_oracles_are_paired<
    'b,
    F: TwoAdicField,
    EF: ExtensionField<F>,
    D,
    C,
    PB,
    PS,
    PE,
    E,
>(
    belongs: Belongs<D, PB, PS, PE>,
    stacks: Seq<(D, SharedHandle<PS>)>,
    made: Seq<(BoundRoot<D>, NativeWarpWhirRootOracleProverData<F, EF, C, PB, PS, PE>)>,
    shape: CodeShape,
    oracles: Seq<(BoundRoot<D>, RootIopOracleValues<F, EF>)>,
    claims: Seq<RootIopOpeningClaim<F, EF>>,
    planned: Seq<PlannedOracle<'b, F, EF, D, PB, PS, PE>>,
)
    requires
        all_paired(belongs, made),
        made_for(made, oracles, claims),
        stacks_told_apart(belongs, stacks),
        prover_batch::<F, EF, D, C, PB, PS, PE, E>(shape, oracles, claims, made_data(made)) == Ok::<
            Seq<PlannedOracle<'b, F, EF, D, PB, PS, PE>>,
            NativeWarpWhirRootProofError<E>,
        >(planned),
    ensures
        batch_is_paired(belongs, planned),
        handles_match_roots(planned),
{
    lemma_made_is_paired_found(belongs, made, oracles, claims);
    lemma_planned_is_paired::<F, EF, D, C, PB, PS, PE, E>(
        belongs,
        shape,
        oracles,
        claims,
        made_data(made),
    );
    assert forall|i: int, j: int|
        #![trigger planned[i], planned[j]]
        0 <= i < planned.len() && 0 <= j < planned.len() && planned[i].oracle is SharedBase
            && planned[j].oracle is SharedBase implies (planned[i].oracle->shared.address()
        == planned[j].oracle->shared.address() <==> residual_commitment(
        planned[i].commitment.commitment,
    )->shared == residual_commitment(planned[j].commitment.commitment)->shared) by {
        let (x, y) = (planned[i].oracle->shared, planned[j].oracle->shared);
        let a = residual_commitment(planned[i].commitment.commitment);
        let b = residual_commitment(planned[j].commitment.commitment);
        assert(belongs.pairs(planned[i].oracle, a));
        assert(belongs.pairs(planned[j].oracle, b));
        assert((belongs.shared)(*x, a->shared.root));
        assert((belongs.shared)(*y, b->shared.root));
        let s = choose|s: int|
            0 <= s < stacks.len() && stacks[s] == (a->shared.root, *x);
        let t = choose|t: int|
            0 <= t < stacks.len() && stacks[t] == (b->shared.root, *y);
        assert(stacks[s] == (a->shared.root, *x));
        assert(stacks[t] == (b->shared.root, *y));
        if s < t || t < s {
            assert(stacks[s].0 != stacks[t].0);
        }
    }
}

/// The claims about an oracle compile, and the prover data that is found for it
/// is paired with its commitment and holds its table.
spec fn can_be_planned<F: TwoAdicField, EF: ExtensionField<F>, D, C, PB, PS, PE>(
    belongs: Belongs<D, PB, PS, PE>,
    shape: CodeShape,
    claims: Seq<RootIopOpeningClaim<F, EF>>,
    data: Seq<NativeWarpWhirRootOracleProverData<F, EF, C, PB, PS, PE>>,
    oracle: (BoundRoot<D>, RootIopOracleValues<F, EF>),
) -> bool {
    &&& committed_statement(shape, claims, oracle.0) is Ok
    &&& find_prover_data(data, oracle.0.oracle_id) matches Some(found)
    &&& paired(belongs, oracle.0, *found)
    &&& holds_table(shape, oracle.0, *found, oracle.1)
}

proof fn lemma_all_planned<
    'b,
    F: TwoAdicField,
    EF: ExtensionField<F>,
    D,
    C,
    PB,
    PS,
    PE,
    E,
>(
    belongs: Belongs<D, PB, PS, PE>,
    shape: CodeShape,
    oracles: Seq<(BoundRoot<D>, RootIopOracleValues<F, EF>)>,
    claims: Seq<RootIopOpeningClaim<F, EF>>,
    data: Seq<NativeWarpWhirRootOracleProverData<F, EF, C, PB, PS, PE>>,
)
    requires
        shape.log_codeword_len() <= usize::MAX,
        forall|i: int|
            0 <= i < oracles.len() && claimed(claims, (#[trigger] oracles[i]).0.oracle_id)
                ==> can_be_planned(belongs, shape, claims, data, oracles[i]),
    ensures
        planned_oracles::<F, EF, D, C, PB, PS, PE, E>(shape, oracles, claims, data) matches Ok(
            planned,
        ) && (planned.len() > 0 <==> exists|i: int|
            0 <= i < oracles.len() && claimed(claims, (#[trigger] oracles[i]).0.oracle_id)),
    decreases oracles.len(),
{
    if oracles.len() > 0 {
        let rest = oracles.drop_last();
        assert forall|i: int|
            0 <= i < rest.len() && claimed(
                claims,
                (#[trigger] rest[i]).0.oracle_id,
            ) implies can_be_planned(belongs, shape, claims, data, rest[i]) by {
            assert(rest[i] == oracles[i]);
        }
        lemma_all_planned::<F, EF, D, C, PB, PS, PE, E>(belongs, shape, rest, claims, data);
        let (commitment, values) = oracles.last();
        let n = oracles.len() - 1;
        assert(oracles[n] == oracles.last());
        if claimed(claims, commitment.oracle_id) {
            assert(can_be_planned(belongs, shape, claims, data, oracles[n]));
            assert(prover_oracle::<F, EF, D, C, PB, PS, PE, E>(
                shape,
                claims,
                data,
                commitment,
                values,
            ) is Ok);
        } else {
            if exists|i: int|
                0 <= i < oracles.len() && claimed(claims, (#[trigger] oracles[i]).0.oracle_id) {
                let i = choose|i: int|
                    0 <= i < oracles.len() && claimed(claims, (#[trigger] oracles[i]).0.oracle_id);
                assert(rest[i] == oracles[i]);
            }
            if exists|i: int|
                0 <= i < rest.len() && claimed(claims, (#[trigger] rest[i]).0.oracle_id) {
                let i = choose|i: int|
                    0 <= i < rest.len() && claimed(claims, (#[trigger] rest[i]).0.oracle_id);
                assert(rest[i] == oracles[i]);
            }
        }
    }
}

/// What is committed can be opened, all of it together: where the oracles that
/// claims are about were committed, with the tables that are now opened, and
/// their claims compile, there is a batch to open.
pub proof fn committed_oracles_have_a_batch<
    'b,
    F: TwoAdicField,
    EF: ExtensionField<F>,
    D,
    C,
    PB,
    PS,
    PE,
    E,
>(
    belongs: Belongs<D, PB, PS, PE>,
    made: Seq<(BoundRoot<D>, NativeWarpWhirRootOracleProverData<F, EF, C, PB, PS, PE>)>,
    shape: CodeShape,
    oracles: Seq<(BoundRoot<D>, RootIopOracleValues<F, EF>)>,
    claims: Seq<RootIopOpeningClaim<F, EF>>,
)
    requires
        shape.log_codeword_len() <= usize::MAX,
        all_paired(belongs, made),
        distinct_ids(public_ids(bound_commitments(oracles))) is Ok,
        known_oracles(public_ids(bound_commitments(oracles)), claims) is Ok,
        claims.len() > 0,
        forall|i: int|
            0 <= i < oracles.len() && claimed(claims, (#[trigger] oracles[i]).0.oracle_id)
                ==> committed_statement(shape, claims, oracles[i].0) is Ok && exists|k: int|
                0 <= k < made.len() && (#[trigger] made[k]).0 == oracles[i].0 && holds_table(
                    shape,
                    made[k].0,
                    made[k].1,
                    oracles[i].1,
                ),
    ensures
        prover_batch::<F, EF, D, C, PB, PS, PE, E>(shape, oracles, claims, made_data(made)) is Ok,
{
    assert forall|i: int|
        0 <= i < oracles.len() && claimed(
            claims,
            (#[trigger] oracles[i]).0.oracle_id,
        ) implies can_be_planned(belongs, shape, claims, made_data(made), oracles[i]) by {
        let k = choose|k: int|
            0 <= k < made.len() && (#[trigger] made[k]).0 == oracles[i].0 && holds_table(
                shape,
                made[k].0,
                made[k].1,
                oracles[i].1,
            );
        lemma_made_is_found(belongs, made, k);
        assert(paired(belongs, made[k].0, made[k].1));
    }
    lemma_all_planned::<F, EF, D, C, PB, PS, PE, E>(
        belongs,
        shape,
        oracles,
        claims,
        made_data(made),
    );
    let ids = public_ids(bound_commitments(oracles));
    known_oracles_means_all_given(ids, claims);
    assert(ids.contains(claims[0].oracle_id));
    let i = choose|i: int| 0 <= i < ids.len() && ids[i] == claims[0].oracle_id;
    assert(claimed(claims, oracles[i].0.oracle_id));
}

/// Proofs about committed oracles are accepted: where the oracles that claims
/// are about were committed and their stacks are told apart, a proof that the
/// proof system makes with the prover data of the commitments is accepted by it,
/// after the same transcript, and with a backend that accepts the reduction and
/// the opening that it made for this batch.
pub proof fn committed_oracles_are_accepted<
    'b,
    F: TwoAdicField,
    EF: ExtensionField<F>,
    D: Digest,
    C: Challenger<F, EF, D>,
    PB,
    PS,
    PE,
    RP,
    OP,
    E,
    G: FnOnce(
        Vec<NativeWarpCompactRootStatement<EF>>,
        Vec<NativeWarpDirectBatchedResidualPoly<'b, F, EF>>,
        C,
        usize,
    ) -> (Result<(RP, BatchedLinearSigmaOpeningClaim<EF>), E>, C),
    H: FnOnce(
        Vec<BatchedOracle<EF, &'b PB, &'b PE, &'b SharedHandle<PS>>>,
        Vec<EF>,
        EF,
        C,
    ) -> (Result<OP, E>, C),
    V: FnOnce(Vec<NativeWarpCompactRootStatement<EF>>, &RP, C, usize) -> (
        Result<BatchedLinearSigmaOpeningClaim<EF>, E>,
        C,
    ),
    W: FnOnce(Vec<BatchedOracle<EF, D, D, RootKey<D>>>, Vec<EF>, EF, &OP, C) -> (Result<(), E>, C),
>(
    belongs: Belongs<D, PB, PS, PE>,
    stacks: Seq<(D, SharedHandle<PS>)>,
    made: Seq<(BoundRoot<D>, NativeWarpWhirRootOracleProverData<F, EF, C, PB, PS, PE>)>,
    shape: CodeShape,
    oracles: Seq<(BoundRoot<D>, RootIopOracleValues<F, EF>)>,
    claims: Seq<RootIopOpeningClaim<F, EF>>,
    planned: Seq<PlannedOracle<'b, F, EF, D, PB, PS, PE>>,
    history: Seq<TranscriptItem<F, EF, D>>,
    pow_bits: usize,
    reduce: G,
    open: H,
    check_reduction: V,
    check_opening: W,
    root_proof: NativeWarpWhirRootProof<RP, OP>,
    after_proving: C,
    r: Result<(), NativeWarpWhirRootProofError<E>>,
    after_verifying: C,
)
    requires
        all_paired(belongs, made),
        made_for(made, oracles, claims),
        stacks_told_apart(belongs, stacks),
        prover_batch::<F, EF, D, C, PB, PS, PE, E>(shape, oracles, claims, made_data(made)) == Ok::<
            Seq<PlannedOracle<'b, F, EF, D, PB, PS, PE>>,
            NativeWarpWhirRootProofError<E>,
        >(planned),
        root_proving_result(
            prover_batch::<F, EF, D, C, PB, PS, PE, E>(shape, oracles, claims, made_data(made)),
            history,
            pow_bits,
            reduce,
            open,
            Ok(root_proof),
            after_proving,
        ),
        verification_result(
            verifier_scan::<F, EF, D, E>(shape, bound_commitments(oracles), claims),
            history,
            &root_proof.opening,
            pow_bits,
            check_reduction,
            check_opening,
            r,
            after_verifying,
        ),
        reduction_is_complete(planned, history, pow_bits, reduce, check_reduction),
        opening_is_complete(
            belongs,
            planned,
            history,
            pow_bits,
            reduce,
            open,
            check_opening,
        ),
    ensures
        r is Ok,
{
    committed_oracles_are_paired::<F, EF, D, C, PB, PS, PE, E>(
        belongs,
        stacks,
        made,
        shape,
        oracles,
        claims,
        planned,
    );
    let opened = choose|
        opened: Result<
            NativeWarpWhirRootBatchedOpeningProof<RP, OP>,
            NativeWarpWhirRootProofError<E>,
        >,
    | #[trigger]
        proving_result(
            prover_batch::<F, EF, D, C, PB, PS, PE, E>(shape, oracles, claims, made_data(made)),
            history,
            pow_bits,
            reduce,
            open,
            opened,
            after_proving,
        ) && wrapped(opened) == Ok::<
            NativeWarpWhirRootProof<RP, OP>,
            NativeWarpWhirRootProofError<E>,
        >(root_proof);
    assert(opened == Ok::<
        NativeWarpWhirRootBatchedOpeningProof<RP, OP>,
        NativeWarpWhirRootProofError<E>,
    >(root_proof.opening));
    honest_proofs_are_accepted(
        shape,
        oracles,
        claims,
        made_data(made),
        planned,
        belongs,
        history,
        pow_bits,
        reduce,
        open,
        check_reduction,
        check_opening,
        root_proof.opening,
        after_proving,
        r,
        after_verifying,
    );
}

} // verus!
