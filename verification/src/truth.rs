//! Proofs of true claims.

use crate::acceptance::{opening_is_complete, reduction_is_complete, same_claim, Belongs};
use crate::claims::{
    base_claim_holds, base_statement_is_faithful, extension_claim_holds,
    extension_statement_is_faithful, statement_holds, CompactStatement,
    NativeWarpCompactRootStatement,
};
use crate::code::{base_generators, embedded, extension_generators, CodeShape};
use crate::compiler::bound_commitments;
use crate::error::NativeWarpWhirRootProofError;
use crate::field::{ExtensionField, TwoAdicField};
use crate::grouping::{BatchedOracle, RootKey};
use crate::lifecycle::{
    all_paired, committed_oracles_are_accepted, made_data, made_for, stacks_told_apart,
};
use crate::root_iop::{
    claimed, claims_about, lemma_claims_about_nonempty, RootIopOpeningClaim, RootIopOracleValues,
};
use crate::root_prover::{
    planned_oracles, planned_polys, planned_statements, prover_batch,
    root_proving_result, statements_of, PlannedOracle,
};
use crate::root_verifier::{verification_result, verifier_scan};
use crate::transcript::{Challenger, Digest, TranscriptItem};
use crate::types::{
    BatchedLinearSigmaOpeningClaim, BoundRoot, NativeWarpDirectBatchedResidualPoly,
    NativeWarpWhirRootOracleProverData, NativeWarpWhirRootProof, SharedHandle,
};
use vstd::prelude::*;

verus! {

/// The codeword of a message, over the extension.
pub open spec fn codeword_of<'b, F: TwoAdicField, EF: ExtensionField<F>>(
    shape: CodeShape,
    poly: NativeWarpDirectBatchedResidualPoly<'b, F, EF>,
) -> Seq<EF> {
    match poly {
        NativeWarpDirectBatchedResidualPoly::Base(message) => embedded::<F, EF>(
            shape.encoding(base_generators::<F>(), message@),
        ),
        NativeWarpDirectBatchedResidualPoly::Extension(message) => shape.encoding(
            extension_generators::<F, EF>(),
            message@,
        ),
    }
}

/// There is one statement for each message, and each is true of the codeword of
/// its message.
pub open spec fn statements_are_true<'b, F: TwoAdicField, EF: ExtensionField<F>>(
    shape: CodeShape,
    statements: Seq<CompactStatement<EF>>,
    polys: Seq<NativeWarpDirectBatchedResidualPoly<'b, F, EF>>,
) -> bool {
    &&& statements.len() == polys.len()
    &&& forall|i: int|
        0 <= i < statements.len() ==> statement_holds(
            codeword_of(shape, polys[i]),
            #[trigger] statements[i],
        )
}

/// Every claim about the oracle is true of its table.
pub open spec fn claims_are_true_of<F: TwoAdicField, EF: ExtensionField<F>>(
    claims: Seq<RootIopOpeningClaim<F, EF>>,
    oracle_id: usize,
    values: RootIopOracleValues<F, EF>,
) -> bool {
    let about = claims_about(claims, oracle_id);
    match values {
        RootIopOracleValues::Base(table) => forall|i: int|
            0 <= i < about.len() ==> base_claim_holds(table@, #[trigger] about[i]),
        RootIopOracleValues::Extension(table) => forall|i: int|
            0 <= i < about.len() ==> extension_claim_holds(table@, #[trigger] about[i]),
    }
}

/// Every claim is true of the table of the oracle that it is about.
pub open spec fn claims_are_true<F: TwoAdicField, EF: ExtensionField<F>, D>(
    oracles: Seq<(BoundRoot<D>, RootIopOracleValues<F, EF>)>,
    claims: Seq<RootIopOpeningClaim<F, EF>>,
) -> bool {
    forall|i: int|
        0 <= i < oracles.len() ==> claims_are_true_of(
            claims,
            (#[trigger] oracles[i]).0.oracle_id,
            oracles[i].1,
        )
}

proof fn lemma_planned_is_true<
    'b,
    F: TwoAdicField,
    EF: ExtensionField<F>,
    D,
    C,
    PB,
    PS,
    PE,
    E,
>(
    shape: CodeShape,
    oracles: Seq<(BoundRoot<D>, RootIopOracleValues<F, EF>)>,
    claims: Seq<RootIopOpeningClaim<F, EF>>,
    data: Seq<NativeWarpWhirRootOracleProverData<F, EF, C, PB, PS, PE>>,
)
    ensures
        planned_oracles::<F, EF, D, C, PB, PS, PE, E>(shape, oracles, claims, data) matches Ok(
            planned,
        ) ==> (statements_are_true(shape, planned_statements(planned), planned_polys(planned))
            <==> forall|i: int|
            0 <= i < oracles.len() && claimed(claims, (#[trigger] oracles[i]).0.oracle_id)
                ==> claims_are_true_of(claims, oracles[i].0.oracle_id, oracles[i].1)),
    decreases oracles.len(),
{
    if oracles.len() > 0 {
        let rest = oracles.drop_last();
        let n = oracles.len() - 1;
        let (commitment, values) = oracles.last();
        let id = commitment.oracle_id;
        assert(oracles[n] == oracles.last());
        assert(forall|i: int| 0 <= i < rest.len() ==> #[trigger] rest[i] == oracles[i]);
        assert(forall|i: int| 0 <= i < rest.len() ==> #[trigger] oracles[i] == rest[i]);
        lemma_planned_is_true::<F, EF, D, C, PB, PS, PE, E>(shape, rest, claims, data);
        if let Ok(planned) = planned_oracles::<F, EF, D, C, PB, PS, PE, E>(
            shape,
            oracles,
            claims,
            data,
        ) {
            let before = planned_oracles::<F, EF, D, C, PB, PS, PE, E>(
                shape,
                rest,
                claims,
                data,
            )->Ok_0;
            if claimed(claims, id) {
                let k = before.len() as int;
                let (s, p) = (planned_statements(planned), planned_polys(planned));
                let (t, q) = (planned_statements(before), planned_polys(before));
                assert(planned =~= before.push(planned[k]));
                assert(forall|i: int| 0 <= i < k ==> #[trigger] t[i] == s[i]);
                assert(forall|i: int| 0 <= i < k ==> #[trigger] s[i] == t[i]);
                assert(forall|i: int| 0 <= i < k ==> #[trigger] p[i] == q[i]);
                match values {
                    RootIopOracleValues::Base(table) => {
                        base_statement_is_faithful(shape, claims, id, table@);
                    },
                    RootIopOracleValues::Extension(table) => {
                        extension_statement_is_faithful(shape, claims, id, table@);
                    },
                }
                assert(statement_holds(codeword_of(shape, p[k]), s[k]) <==> claims_are_true_of(
                    claims,
                    id,
                    values,
                ));
            }
        }
    }
}

/// The statements of a batch are true of the codewords of its messages exactly
/// when the claims about the opened oracles are true of their tables.
pub proof fn statements_are_true_when_claims_are<
    'b,
    F: TwoAdicField,
    EF: ExtensionField<F>,
    D,
    C,
    PB,
    PS,
    PE,
    E,
>(
    shape: CodeShape,
    oracles: Seq<(BoundRoot<D>, RootIopOracleValues<F, EF>)>,
    claims: Seq<RootIopOpeningClaim<F, EF>>,
    data: Seq<NativeWarpWhirRootOracleProverData<F, EF, C, PB, PS, PE>>,
)
    ensures
        prover_batch::<F, EF, D, C, PB, PS, PE, E>(shape, oracles, claims, data) matches Ok(
            planned,
        ) ==> (statements_are_true(shape, planned_statements(planned), planned_polys(planned))
            <==> claims_are_true(oracles, claims)),
{
    lemma_planned_is_true::<F, EF, D, C, PB, PS, PE, E>(shape, oracles, claims, data);
    assert forall|i: int| 0 <= i < oracles.len() && !claimed(
        claims,
        (#[trigger] oracles[i]).0.oracle_id,
    ) implies claims_are_true_of(claims, oracles[i].0.oracle_id, oracles[i].1) by {
        lemma_claims_about_nonempty(claims, oracles[i].0.oracle_id);
    }
}

/// A reduction of true statements is accepted: checked with the same statements
/// after the same transcript, it gives the same claim and leaves the transcript
/// with the same history. Nothing is asked of reductions of false statements.
pub open spec fn true_reductions_are_accepted<
    'b,
    F: TwoAdicField + 'b,
    EF: ExtensionField<F> + 'b,
    D,
    C: Challenger<F, EF, D>,
    RP,
    E,
    G: FnOnce(
        Vec<NativeWarpCompactRootStatement<EF>>,
        Vec<NativeWarpDirectBatchedResidualPoly<'b, F, EF>>,
        C,
        usize,
    ) -> (Result<(RP, BatchedLinearSigmaOpeningClaim<EF>), E>, C),
    V: FnOnce(Vec<NativeWarpCompactRootStatement<EF>>, &RP, C, usize) -> (
        Result<BatchedLinearSigmaOpeningClaim<EF>, E>,
        C,
    ),
>(shape: CodeShape, pow_bits: usize, reduce: G, check: V) -> bool {
    forall|
        made_for: Vec<NativeWarpCompactRootStatement<EF>>,
        polys: Vec<NativeWarpDirectBatchedResidualPoly<'b, F, EF>>,
        c: C,
        made: (Result<(RP, BatchedLinearSigmaOpeningClaim<EF>), E>, C),
        checked_for: Vec<NativeWarpCompactRootStatement<EF>>,
        d: C,
        found: (Result<BatchedLinearSigmaOpeningClaim<EF>, E>, C),
    |
        statements_are_true(shape, statements_of(made_for@), polys@) && #[trigger] call_ensures(
            reduce,
            (made_for, polys, c, pow_bits),
            made,
        ) && made.0 is Ok && statements_of(made_for@) == statements_of(checked_for@)
            && c.history() == d.history() && #[trigger] call_ensures(
            check,
            (checked_for, &made.0->Ok_0.0, d, pow_bits),
            found,
        ) ==> (found.0 matches Ok(claim) && same_claim(claim, made.0->Ok_0.1) && found.1.history()
            == made.1.history())
}

/// Proofs of true claims about committed oracles are accepted: where the oracles
/// that claims are about were committed, their stacks are told apart and the
/// claims are true of the tables, a proof that the proof system makes with the
/// prover data of the commitments is accepted by it, after the same transcript,
/// and with a backend that accepts its reductions of true statements and its
/// openings of what the reduction of this batch gave.
pub proof fn true_claims_are_accepted<
    'b,
    F: TwoAdicField,
    EF: ExtensionField<F>,
    D: Digest,
    C: Challenger<F, EF, D>,
    PB,
    PS,
    PE,
    RP,
    OP,
    E,
    G: FnOnce(
        Vec<NativeWarpCompactRootStatement<EF>>,
        Vec<NativeWarpDirectBatchedResidualPoly<'b, F, EF>>,
        C,
        usize,
    ) -> (Result<(RP, BatchedLinearSigmaOpeningClaim<EF>), E>, C),
    H: FnOnce(
        Vec<BatchedOracle<EF, &'b PB, &'b PE, &'b SharedHandle<PS>>>,
        Vec<EF>,
        EF,
        C,
    ) -> (Result<OP, E>, C),
    V: FnOnce(Vec<NativeWarpCompactRootStatement<EF>>, &RP, C, usize) -> (
        Result<BatchedLinearSigmaOpeningClaim<EF>, E>,
        C,
    ),
    W: FnOnce(Vec<BatchedOracle<EF, D, D, RootKey<D>>>, Vec<EF>, EF, &OP, C) -> (Result<(), E>, C),
>(
    belongs: Belongs<D, PB, PS, PE>,
    stacks: Seq<(D, SharedHandle<PS>)>,
    made: Seq<(BoundRoot<D>, NativeWarpWhirRootOracleProverData<F, EF, C, PB, PS, PE>)>,
    shape: CodeShape,
    oracles: Seq<(BoundRoot<D>, RootIopOracleValues<F, EF>)>,
    claims: Seq<RootIopOpeningClaim<F, EF>>,
    planned: Seq<PlannedOracle<'b, F, EF, D, PB, PS, PE>>,
    history: Seq<TranscriptItem<F, EF, D>>,
    pow_bits: usize,
    reduce: G,
    open: H,
    check_reduction: V,
    check_opening: W,
    root_proof: NativeWarpWhirRootProof<RP, OP>,
    after_proving: C,
    r: Result<(), NativeWarpWhirRootProofError<E>>,
    after_verifying: C,
)
    requires
        all_paired(belongs, made),
        made_for(made, oracles, claims),
        stacks_told_apart(belongs, stacks),
        claims_are_true(oracles, claims),
        prover_batch::<F, EF, D, C, PB, PS, PE, E>(shape, oracles, claims, made_data(made)) == Ok::<
            Seq<PlannedOracle<'b, F, EF, D, PB, PS, PE>>,
            NativeWarpWhirRootProofError<E>,
        >(planned),
        root_proving_result(
            prover_batch::<F, EF, D, C, PB, PS, PE, E>(shape, oracles, claims, made_data(made)),
            history,
            pow_bits,
            reduce,
            open,
            Ok(root_proof),
            after_proving,
        ),
        verification_result(
            verifier_scan::<F, EF, D, E>(shape, bound_commitments(oracles), claims),
            history,
            &root_proof.opening,
            pow_bits,
            check_reduction,
            check_opening,
            r,
            after_verifying,
        ),
        true_reductions_are_accepted::<F, EF, D, C, RP, E, G, V>(
            shape,
            pow_bits,
            reduce,
            check_reduction,
        ),
        opening_is_complete(
            belongs,
            planned,
            history,
            pow_bits,
            reduce,
            open,
            check_opening,
        ),
    ensures
        r is Ok,
{
    statements_are_true_when_claims_are::<F, EF, D, C, PB, PS, PE, E>(
        shape,
        oracles,
        claims,
        made_data(made),
    );
    assert(reduction_is_complete(planned, history, pow_bits, reduce, check_reduction));
    committed_oracles_are_accepted(
        belongs,
        stacks,
        made,
        shape,
        oracles,
        claims,
        planned,
        history,
        pow_bits,
        reduce,
        open,
        check_reduction,
        check_opening,
        root_proof,
        after_proving,
        r,
        after_verifying,
    );
}

} // verus!
