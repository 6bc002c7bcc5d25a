//! Honest proofs are accepted, and what is accepted was checked.
//!
//! Whether a proof is accepted rests on the opening backend. What is asked of
//! the backend is stated here, and from it follows that a proof that the proof
//! system makes is accepted by it.

use crate::claims::NativeWarpCompactRootStatement;
use crate::code::CodeShape;
use crate::compiler::{
    bound_commitments, distinct_ids_means_no_duplicates, known_oracles_means_all_given, public_ids,
};
use crate::error::{LinearSigmaReductionError, NativeWarpWhirRootProofError};
use crate::field::{ExtensionField, Field, TwoAdicField};
use crate::grouping::{
    groups_of, grouped_alike, grouping, layout_of, BatchedOracle, Group, ResidualOracle, RootKey,
};
use crate::laws::{
    every_claim_is_queried_once, handles_match_roots, prover_and_verifier_agree,
    prover_and_verifier_group_alike, query_count,
};
use crate::root_iop::{RootIopOpeningClaim, RootIopOracleValues};
use crate::root_prover::{
    opened_after, opening_input, planned_commitments, planned_residuals, prover_batch,
    proving_result, reduction_input, statements_of, PlannedOracle,
};
use crate::root_verifier::{
    checked_after, residual_commitment, residual_commitments, verification_input,
    verification_result, verifier_scan,
};
use crate::transcript::{Challenger, Digest, TranscriptItem};
use crate::types::{
    BatchedLinearSigmaOpeningClaim, BoundRoot, NativeWarpBatchedResidualCommitment,
    NativeWarpBatchedResidualProverOracle, NativeWarpDirectBatchedResidualPoly,
    NativeWarpWhirRootBatchedOpeningProof, NativeWarpWhirRootOracleProverData, SharedHandle,
};
use vstd::prelude::*;

verus! {

/// Which prover data belongs to which commitment.
#[verifier::reject_recursive_types(D)]
#[verifier::reject_recursive_types(PB)]
#[verifier::reject_recursive_types(PS)]
#[verifier::reject_recursive_types(PE)]
pub struct Belongs<D, PB, PS, PE> {
    /// For base-field oracles that were committed alone.
    pub base: spec_fn(PB, D) -> bool,
    /// For stacks.
    pub shared: spec_fn(SharedHandle<PS>, D) -> bool,
    /// For extension-field oracles.
    pub extension: spec_fn(PE, D) -> bool,
}

impl<D, PB, PS, PE> Belongs<D, PB, PS, PE> {
    /// The prover data of an oracle belongs to its commitment.
    pub open spec fn pairs(
        self,
        oracle: NativeWarpBatchedResidualProverOracle<'_, PB, PS, PE>,
        commitment: NativeWarpBatchedResidualCommitment<D>,
    ) -> bool {
        match (oracle, commitment) {
            (ResidualOracle::Base(data), ResidualOracle::Base(root)) => (self.base)(*data, root),
            (
                ResidualOracle::SharedBase { shared, .. },
                ResidualOracle::SharedBase { shared: key, .. },
            ) => (self.shared)(*shared, key.root),
            (ResidualOracle::Extension(data), ResidualOracle::Extension(root)) => (self.extension)(
                *data,
                root,
            ),
            _ => false,
        }
    }

    /// The prover data of a group belongs to its commitment, and both have the
    /// same coefficients.
    pub open spec fn pairs_groups<EF>(
        self,
        a: Group<EF, &PB, &PE, &SharedHandle<PS>>,
        b: Group<EF, D, D, RootKey<D>>,
    ) -> bool {
        &&& layout_of(a) == layout_of(b)
        &&& match (a, b) {
            (Group::Base { data, .. }, Group::Base { data: root, .. }) => (self.base)(*data, root),
            (Group::SharedBase { data, .. }, Group::SharedBase { data: key, .. }) => (self.shared)(
                *data,
                key.root,
            ),
            (Group::Extension { data, .. }, Group::Extension { data: root, .. }) => (
            self.extension)(*data, root),
            _ => false,
        }
    }
}

/// Both are the same claim.
pub open spec fn same_claim<EF>(
    a: BatchedLinearSigmaOpeningClaim<EF>,
    b: BatchedLinearSigmaOpeningClaim<EF>,
) -> bool {
    a.point@ == b.point@ && a.value == b.value && a.coeffs@ == b.coeffs@
}

/// A reduction of the given batch, made after the given transcript, is accepted:
/// checked with the same statements after the same transcript, it gives the same
/// claim and leaves the transcript with the same history. Nothing is asked of
/// reductions of other batches.
pub open spec fn reduction_is_complete<
    'b,
    F: Field,
    EF,
    D,
    C: Challenger<F, EF, D>,
    PB,
    PS,
    PE,
    RP,
    E,
    G: FnOnce(
        Vec<NativeWarpCompactRootStatement<EF>>,
        Vec<NativeWarpDirectBatchedResidualPoly<'b, F, EF>>,
        C,
        usize,
    ) -> (Result<(RP, BatchedLinearSigmaOpeningClaim<EF>), E>, C),
    V: FnOnce(Vec<NativeWarpCompactRootStatement<EF>>, &RP, C, usize) -> (
        Result<BatchedLinearSigmaOpeningClaim<EF>, E>,
        C,
    ),
>(
    planned: Seq<PlannedOracle<'b, F, EF, D, PB, PS, PE>>,
    history: Seq<TranscriptItem<F, EF, D>>,
    pow_bits: usize,
    reduce: G,
    check: V,
) -> bool {
    forall|
        made_for: Vec<NativeWarpCompactRootStatement<EF>>,
        polys: Vec<NativeWarpDirectBatchedResidualPoly<'b, F, EF>>,
        c: C,
        made: (Result<(RP, BatchedLinearSigmaOpeningClaim<EF>), E>, C),
        checked_for: Vec<NativeWarpCompactRootStatement<EF>>,
        d: C,
        found: (Result<BatchedLinearSigmaOpeningClaim<EF>, E>, C),
    |
        reduction_input(planned, history, made_for, polys, c) && #[trigger] call_ensures(
            reduce,
            (made_for, polys, c, pow_bits),
            made,
        ) && made.0 is Ok && statements_of(made_for@) == statements_of(checked_for@)
            && c.history() == d.history() && #[trigger] call_ensures(
            check,
            (checked_for, &made.0->Ok_0.0, d, pow_bits),
            found,
        ) ==> (found.0 matches Ok(claim) && same_claim(claim, made.0->Ok_0.1) && found.1.history()
            == made.1.history())
}

/// An opening of what a reduction of the given batch gave, made after the given
/// transcript, is accepted: checked for the commitments that the prover data
/// belongs to, with the same coefficients, at the same point with the same
/// value, after the same transcript. Nothing is asked of openings at other
/// points or with other values.
pub open spec fn opening_is_complete<
    'b,
    F: TwoAdicField,
    EF: ExtensionField<F>,
    D,
    C: Challenger<F, EF, D>,
    PB,
    PS,
    PE,
    RP,
    OP,
    E,
    G: FnOnce(
        Vec<NativeWarpCompactRootStatement<EF>>,
        Vec<NativeWarpDirectBatchedResidualPoly<'b, F, EF>>,
        C,
        usize,
    ) -> (Result<(RP, BatchedLinearSigmaOpeningClaim<EF>), E>, C),
    H: FnOnce(
        Vec<BatchedOracle<EF, &'b PB, &'b PE, &'b SharedHandle<PS>>>,
        Vec<EF>,
        EF,
        C,
    ) -> (Result<OP, E>, C),
    W: FnOnce(Vec<BatchedOracle<EF, D, D, RootKey<D>>>, Vec<EF>, EF, &OP, C) -> (Result<(), E>, C),
>(
    belongs: Belongs<D, PB, PS, PE>,
    planned: Seq<PlannedOracle<'b, F, EF, D, PB, PS, PE>>,
    history: Seq<TranscriptItem<F, EF, D>>,
    pow_bits: usize,
    reduce: G,
    open: H,
    check: W,
) -> bool {
    forall|
        opened: Vec<BatchedOracle<EF, &'b PB, &'b PE, &'b SharedHandle<PS>>>,
        point: Vec<EF>,
        value: EF,
        c: C,
        made: (Result<OP, E>, C),
        groups: Vec<BatchedOracle<EF, D, D, RootKey<D>>>,
        at: Vec<EF>,
        d: C,
        found: (Result<(), E>, C),
    |
        opening_input(planned, history, pow_bits, reduce, opened, point, value, c)
            && #[trigger] call_ensures(open, (opened, point, value, c), made) && made.0 is Ok
            && opened@.len() == groups@.len() && (forall|i: int|
            0 <= i < opened@.len() ==> belongs.pairs_groups(
                (#[trigger] opened@[i])@,
                groups@[i]@,
            )) && point@ == at@ && c.history() == d.history() && #[trigger] call_ensures(
            check,
            (groups, at, value, &made.0->Ok_0, d),
            found,
        ) ==> found.0 is Ok
}

/// In a batch, prover data belongs to the commitments.
pub open spec fn batch_is_paired<'b, F, EF, D, PB, PS, PE>(
    belongs: Belongs<D, PB, PS, PE>,
    planned: Seq<PlannedOracle<'b, F, EF, D, PB, PS, PE>>,
) -> bool {
    forall|i: int|
        0 <= i < planned.len() ==> belongs.pairs(
            (#[trigger] planned[i]).oracle,
            residual_commitment(planned[i].commitment.commitment),
        )
}

/// Groups that are grouped alike are paired where their oracles are.
proof fn lemma_groups_are_paired<'b, F, EF: Field, D: Digest, PB, PS, PE>(
    belongs: Belongs<D, PB, PS, PE>,
    planned: Seq<PlannedOracle<'b, F, EF, D, PB, PS, PE>>,
    a: Seq<Group<EF, &'b PB, &'b PE, &'b SharedHandle<PS>>>,
    b: Seq<Group<EF, D, D, RootKey<D>>>,
    origin: Seq<int>,
)
    requires
        batch_is_paired(belongs, planned),
        grouped_alike(
            planned_residuals(planned),
            residual_commitments(planned_commitments(planned)),
            a,
            b,
            origin,
        ),
    ensures
        a.len() == b.len(),
        forall|i: int| 0 <= i < a.len() ==> belongs.pairs_groups(#[trigger] a[i], b[i]),
{
    assert forall|i: int| 0 <= i < a.len() implies belongs.pairs_groups(#[trigger] a[i], b[i]) by {
        let t = origin[i];
        assert(layout_of(a[i]) == layout_of(b[i]));
        assert(belongs.pairs(
            planned[t].oracle,
            residual_commitment(planned[t].commitment.commitment),
        ));
    }
}

/// A proof that the proof system makes is accepted by it: after the same
/// transcript, with the same public commitments and claims, and with a backend
/// that accepts the reduction and the opening that it made for this batch.
pub proof fn honest_proofs_are_accepted<
    'b,
    F: TwoAdicField,
    EF: ExtensionField<F>,
    D: Digest,
    C: Challenger<F, EF, D>,
    PB,
    PS,
    PE,
    RP,
    OP,
    E,
    G: FnOnce(
        Vec<NativeWarpCompactRootStatement<EF>>,
        Vec<NativeWarpDirectBatchedResidualPoly<'b, F, EF>>,
        C,
        usize,
    ) -> (Result<(RP, BatchedLinearSigmaOpeningClaim<EF>), E>, C),
    H: FnOnce(
        Vec<BatchedOracle<EF, &'b PB, &'b PE, &'b SharedHandle<PS>>>,
        Vec<EF>,
        EF,
        C,
    ) -> (Result<OP, E>, C),
    V: FnOnce(Vec<NativeWarpCompactRootStatement<EF>>, &RP, C, usize) -> (
        Result<BatchedLinearSigmaOpeningClaim<EF>, E>,
        C,
    ),
    W: FnOnce(Vec<BatchedOracle<EF, D, D, RootKey<D>>>, Vec<EF>, EF, &OP, C) -> (Result<(), E>, C),
>(
    shape: CodeShape,
    oracles: Seq<(BoundRoot<D>, RootIopOracleValues<F, EF>)>,
    claims: Seq<RootIopOpeningClaim<F, EF>>,
    data: Seq<NativeWarpWhirRootOracleProverData<F, EF, C, PB, PS, PE>>,
    planned: Seq<PlannedOracle<'b, F, EF, D, PB, PS, PE>>,
    belongs: Belongs<D, PB, PS, PE>,
    history: Seq<TranscriptItem<F, EF, D>>,
    pow_bits: usize,
    reduce: G,
    open: H,
    check_reduction: V,
    check_opening: W,
    root_proof: NativeWarpWhirRootBatchedOpeningProof<RP, OP>,
    after_proving: C,
    r: Result<(), NativeWarpWhirRootProofError<E>>,
    after_verifying: C,
)
    requires
        prover_batch::<F, EF, D, C, PB, PS, PE, E>(shape, oracles, claims, data) == Ok::<
            Seq<PlannedOracle<'b, F, EF, D, PB, PS, PE>>,
            NativeWarpWhirRootProofError<E>,
        >(planned),
        proving_result(
            prover_batch::<F, EF, D, C, PB, PS, PE, E>(shape, oracles, claims, data),
            history,
            pow_bits,
            reduce,
            open,
            Ok(root_proof),
            after_proving,
        ),
        verification_result(
            verifier_scan::<F, EF, D, E>(shape, bound_commitments(oracles), claims),
            history,
            &root_proof,
            pow_bits,
            check_reduction,
            check_opening,
            r,
            after_verifying,
        ),
        handles_match_roots(planned),
        batch_is_paired(belongs, planned),
        reduction_is_complete(planned, history, pow_bits, reduce, check_reduction),
        opening_is_complete(
            belongs,
            planned,
            history,
            pow_bits,
            reduce,
            open,
            check_opening,
        ),
    ensures
        r is Ok,
{
    prover_and_verifier_agree::<F, EF, D, C, PB, PS, PE, E>(shape, oracles, claims, data);
    let scanned = verifier_scan::<F, EF, D, E>(shape, bound_commitments(oracles), claims);
    let (statements, polys, c, made) = choose|
        statements: Vec<NativeWarpCompactRootStatement<EF>>,
        polys: Vec<NativeWarpDirectBatchedResidualPoly<'b, F, EF>>,
        c: C,
        made: (Result<(RP, BatchedLinearSigmaOpeningClaim<EF>), E>, C),
    |
        reduction_input(planned, history, statements, polys, c) && #[trigger] call_ensures(
            reduce,
            (statements, polys, c, pow_bits),
            made,
        ) && opened_after(planned, made, open, Ok(root_proof), after_proving);
    let (checked_for, d, found) = choose|
        checked_for: Vec<NativeWarpCompactRootStatement<EF>>,
        d: C,
        found: (Result<BatchedLinearSigmaOpeningClaim<EF>, E>, C),
    |
        verification_input(scanned, history, checked_for, d) && #[trigger] call_ensures(
            check_reduction,
            (checked_for, &root_proof.reduction, d, pow_bits),
            found,
        ) && checked_after(
            scanned.absorbed,
            found,
            &root_proof.opening,
            check_opening,
            r,
            after_verifying,
        );
    let (reduction, claim) = made.0->Ok_0;
    assert(reduction == root_proof.reduction);
    assert(call_ensures(check_reduction, (checked_for, &made.0->Ok_0.0, d, pow_bits), found));
    let checked_claim = found.0->Ok_0;
    assert(same_claim(checked_claim, claim));
    let origin = prover_and_verifier_group_alike::<F, EF, D, C, PB, PS, PE, E>(
        shape,
        oracles,
        claims,
        data,
        planned,
        claim.coeffs@,
    );
    let a = grouping(planned_residuals(planned), claim.coeffs@)->Ok_0;
    let b = grouping(residual_commitments(scanned.absorbed), claim.coeffs@)->Ok_0;
    lemma_groups_are_paired(belongs, planned, a, b, origin);
    let (opened, opening) = choose|
        opened: Vec<BatchedOracle<EF, &'b PB, &'b PE, &'b SharedHandle<PS>>>,
        opening: (Result<OP, E>, C),
    |
        groups_of(opened@) == a && #[trigger] call_ensures(
            open,
            (opened, claim.point, claim.value, made.1),
            opening,
        ) && opening.0 == Ok::<OP, E>(root_proof.opening);
    let (groups, last) = choose|
        groups: Vec<BatchedOracle<EF, D, D, RootKey<D>>>,
        last: (Result<(), E>, C),
    |
        groups_of(groups@) == b && #[trigger] call_ensures(
            check_opening,
            (groups, checked_claim.point, checked_claim.value, &root_proof.opening, found.1),
            last,
        ) && r == match last.0 {
            Ok(()) => Ok(()),
            Err(e) => Err(NativeWarpWhirRootProofError::BatchedOpening(e)),
        };
    assert(made == (
        Ok::<(RP, BatchedLinearSigmaOpeningClaim<EF>), E>((reduction, claim)),
        made.1,
    ));
    assert(opening_input(
        planned,
        history,
        pow_bits,
        reduce,
        opened,
        claim.point,
        claim.value,
        made.1,
    ));
    assert(groups_of(opened@).len() == opened@.len());
    assert(groups_of(groups@).len() == groups@.len());
    assert forall|i: int| 0 <= i < opened@.len() implies belongs.pairs_groups(
        (#[trigger] opened@[i])@,
        groups@[i]@,
    ) by {
        assert(groups_of(opened@)[i] == opened@[i]@);
        assert(groups_of(groups@)[i] == groups@[i]@);
        assert(belongs.pairs_groups(a[i], b[i]));
    }
    assert(call_ensures(
        check_opening,
        (groups, checked_claim.point, checked_claim.value, &opening.0->Ok_0, found.1),
        last,
    ));
}

/// What is accepted was checked: the identifiers are pairwise different, every
/// claim is about one of the commitments and was compiled to exactly one query,
/// all commitments that claims are about were absorbed before the reduction was
/// checked on these queries, and the opening of their groups was accepted.
pub proof fn accepted_claims_were_checked<
    F: TwoAdicField,
    EF: ExtensionField<F>,
    D: Digest,
    C: Challenger<F, EF, D>,
    RP,
    OP,
    E,
    V: FnOnce(Vec<NativeWarpCompactRootStatement<EF>>, &RP, C, usize) -> (
        Result<BatchedLinearSigmaOpeningClaim<EF>, E>,
        C,
    ),
    W: FnOnce(Vec<BatchedOracle<EF, D, D, RootKey<D>>>, Vec<EF>, EF, &OP, C) -> (Result<(), E>, C),
>(
    shape: CodeShape,
    commitments: Seq<BoundRoot<D>>,
    claims: Seq<RootIopOpeningClaim<F, EF>>,
    history: Seq<TranscriptItem<F, EF, D>>,
    root_proof: NativeWarpWhirRootBatchedOpeningProof<RP, OP>,
    pow_bits: usize,
    check_reduction: V,
    check_opening: W,
    after: C,
)
    requires
        verification_result::<F, EF, D, C, RP, OP, E, V, W>(
            verifier_scan(shape, commitments, claims),
            history,
            &root_proof,
            pow_bits,
            check_reduction,
            check_opening,
            Ok(()),
            after,
        ),
    ensures
        public_ids(commitments).no_duplicates(),
        forall|i: int|
            0 <= i < claims.len() ==> public_ids(commitments).contains(
                (#[trigger] claims[i]).oracle_id,
            ),
        ({
            let scanned = verifier_scan::<F, EF, D, E>(shape, commitments, claims);
            &&& scanned.statements matches Ok(statements) && query_count(statements) == claims.len()
            &&& exists|
                statements: Vec<NativeWarpCompactRootStatement<EF>>,
                c: C,
                claim: BatchedLinearSigmaOpeningClaim<EF>,
                d: C,
                groups: Vec<BatchedOracle<EF, D, D, RootKey<D>>>,
            |
                verification_input(scanned, history, statements, c) && #[trigger] call_ensures(
                    check_reduction,
                    (statements, &root_proof.reduction, c, pow_bits),
                    (Ok(claim), d),
                ) && grouping(residual_commitments(scanned.absorbed), claim.coeffs@) == Ok::<
                    _,
                    LinearSigmaReductionError,
                >(groups_of(groups@)) && #[trigger] call_ensures(
                    check_opening,
                    (groups, claim.point, claim.value, &root_proof.opening, d),
                    (Ok(()), after),
                )
        }),
{
    let ids = public_ids(commitments);
    let scanned = verifier_scan::<F, EF, D, E>(shape, commitments, claims);
    distinct_ids_means_no_duplicates(ids);
    known_oracles_means_all_given(ids, claims);
    every_claim_is_queried_once::<F, EF, D, E>(shape, commitments, claims);
    let (statements, c, found) = choose|
        statements: Vec<NativeWarpCompactRootStatement<EF>>,
        c: C,
        found: (Result<BatchedLinearSigmaOpeningClaim<EF>, E>, C),
    |
        verification_input(scanned, history, statements, c) && #[trigger] call_ensures(
            check_reduction,
            (statements, &root_proof.reduction, c, pow_bits),
            found,
        ) && checked_after(
            scanned.absorbed,
            found,
            &root_proof.opening,
            check_opening,
            Ok(()),
            after,
        );
    let claim = found.0->Ok_0;
    assert(found == (Ok::<BatchedLinearSigmaOpeningClaim<EF>, E>(claim), found.1));
    let b = grouping(residual_commitments(scanned.absorbed), claim.coeffs@)->Ok_0;
    let (groups, last) = choose|
        groups: Vec<BatchedOracle<EF, D, D, RootKey<D>>>,
        last: (Result<(), E>, C),
    |
        groups_of(groups@) == b && #[trigger] call_ensures(
            check_opening,
            (groups, claim.point, claim.value, &root_proof.opening, found.1),
            last,
        ) && after == last.1 && Ok::<(), NativeWarpWhirRootProofError<E>>(()) == match last.0 {
            Ok(()) => Ok(()),
            Err(e) => Err(NativeWarpWhirRootProofError::BatchedOpening(e)),
        };
    assert(last.0 is Ok);
    assert(last.0->Ok_0 == ());
    assert(last == (Ok::<(), E>(()), after));
}

} // verus!
