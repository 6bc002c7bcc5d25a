//! Verifying the recorded claims.

use crate::binding::{all_binding_items, observe_native_root_commitment};
use crate::claims::{
    base_statement, extension_statement, CompactStatement, NativeWarpCompactRootStatement,
};
use crate::code::CodeShape;
use crate::compiler::{distinct_ids, known_oracles, oracle_shape, public_ids};
use crate::error::{
    LinearSigmaReductionError, NativeWarpWhirClaimCompileError, NativeWarpWhirRootProofError,
};
use crate::field::{ExtensionField, Field, TwoAdicField};
use crate::grouping::{
    group_oracles, grouping, groups_of, BatchedOracle, Group, ResidualOracle, RootKey,
};
use crate::proof_system::NativeWarpWhirRootProofSystem;
use crate::root_prover::statements_of;
use crate::root_iop::{claimed, claims_include_oracle, RootIopOpeningClaim};
use crate::transcript::{Challenger, Digest, TranscriptItem};
use crate::types::{
    BatchedLinearSigmaOpeningClaim, BoundRoot, NativeWarpBatchedResidualCommitment,
    NativeWarpWhirRootBatchedOpeningProof, NativeWarpWhirRootCommitment, NativeWarpWhirRootProof,
};
use vstd::prelude::*;

verus! {

/// The oracle that a commitment stands for.
pub open spec fn residual_commitment<D>(
    commitment: NativeWarpWhirRootCommitment<D>,
) -> NativeWarpBatchedResidualCommitment<D> {
    match commitment {
        NativeWarpWhirRootCommitment::BaseMessage(root) => ResidualOracle::Base(root),
        NativeWarpWhirRootCommitment::BaseMessageShared { root, column, width } => {
            ResidualOracle::SharedBase { shared: RootKey { root }, column, width }
        },
        NativeWarpWhirRootCommitment::ExtensionMessage(root) => ResidualOracle::Extension(root),
    }
}

/// The statement of the claims about a committed oracle.
pub open spec fn committed_statement<F: TwoAdicField, EF: ExtensionField<F>, D>(
    shape: CodeShape,
    claims: Seq<RootIopOpeningClaim<F, EF>>,
    commitment: BoundRoot<D>,
) -> Result<CompactStatement<EF>, NativeWarpWhirClaimCompileError> {
    match commitment.commitment {
        NativeWarpWhirRootCommitment::ExtensionMessage(_) => extension_statement(
            shape,
            claims,
            commitment.oracle_id,
        ),
        _ => base_statement(shape, claims, commitment.oracle_id),
    }
}

/// The state of going through the public commitments.
pub struct Scan<EF, D, E> {
    /// The commitments that have been absorbed.
    pub absorbed: Seq<BoundRoot<D>>,
    /// The statements about the oracles of these commitments, or why there are
    /// none.
    pub statements: Result<Seq<CompactStatement<EF>>, NativeWarpWhirRootProofError<E>>,
}

/// Going through the public commitments in order: each that claims are about
/// has to fit the code, is absorbed, and then its claims have to compile. The
/// first that does not stops the scan.
pub open spec fn scan<F: TwoAdicField, EF: ExtensionField<F>, D, E>(
    shape: CodeShape,
    commitments: Seq<BoundRoot<D>>,
    claims: Seq<RootIopOpeningClaim<F, EF>>,
) -> Scan<EF, D, E>
    decreases commitments.len(),
{
    if commitments.len() == 0 {
        Scan { absorbed: Seq::empty(), statements: Ok(Seq::empty()) }
    } else {
        let before = scan::<F, EF, D, E>(shape, commitments.drop_last(), claims);
        let next = commitments.last();
        match before.statements {
            Err(_) => before,
            Ok(done) => if !claimed(claims, next.oracle_id) {
                before
            } else {
                match oracle_shape::<F, EF, _>(shape, next, None) {
                    Err(e) => Scan {
                        absorbed: before.absorbed,
                        statements: Err(NativeWarpWhirRootProofError::Reduction(e)),
                    },
                    Ok(()) => Scan {
                        absorbed: before.absorbed.push(next),
                        statements: match committed_statement(shape, claims, next) {
                            Err(e) => Err(NativeWarpWhirRootProofError::ClaimCompile(e)),
                            Ok(statement) => Ok(done.push(statement)),
                        },
                    },
                }
            },
        }
    }
}

/// The scan of the public commitments of a root proof: their identifiers have
/// to be pairwise different, and every claim has to be about one of them.
pub open spec fn verifier_scan<F: TwoAdicField, EF: ExtensionField<F>, D, E>(
    shape: CodeShape,
    commitments: Seq<BoundRoot<D>>,
    claims: Seq<RootIopOpeningClaim<F, EF>>,
) -> Scan<EF, D, E> {
    let ids = public_ids(commitments);
    match distinct_ids(ids) {
        Err(e) => Scan {
            absorbed: Seq::empty(),
            statements: Err(NativeWarpWhirRootProofError::Reduction(e)),
        },
        Ok(()) => match known_oracles(ids, claims) {
            Err(e) => Scan {
                absorbed: Seq::empty(),
                statements: Err(NativeWarpWhirRootProofError::Reduction(e)),
            },
            Ok(()) => scan(shape, commitments, claims),
        },
    }
}

/// The oracles that commitments stand for.
pub open spec fn residual_commitments<D>(commitments: Seq<BoundRoot<D>>) -> Seq<
    NativeWarpBatchedResidualCommitment<D>,
> {
    Seq::new(commitments.len(), |i: int| residual_commitment(commitments[i].commitment))
}

proof fn lemma_scan_prefix<F: TwoAdicField, EF: ExtensionField<F>, D, E>(
    shape: CodeShape,
    commitments: Seq<BoundRoot<D>>,
    claims: Seq<RootIopOpeningClaim<F, EF>>,
    n: int,
)
    requires
        0 <= n <= commitments.len(),
    ensures
        scan::<F, EF, D, E>(shape, commitments.take(n), claims).statements is Err ==> scan::<
            F,
            EF,
            D,
            E,
        >(shape, commitments, claims) == scan::<F, EF, D, E>(shape, commitments.take(n), claims),
    decreases commitments.len(),
{
    if n == commitments.len() {
        assert(commitments.take(n) =~= commitments);
    } else {
        lemma_scan_prefix::<F, EF, D, E>(shape, commitments.drop_last(), claims, n);
        assert(commitments.drop_last().take(n) =~= commitments.take(n));
    }
}

/// What the verifier of a reduction is handed: the statements, and a transcript
/// that has absorbed all public commitments that claims are about.
pub open spec fn verification_input<F: Field, EF, D, C: Challenger<F, EF, D>, E>(
    scanned: Scan<EF, D, E>,
    history: Seq<TranscriptItem<F, EF, D>>,
    statements: Vec<NativeWarpCompactRootStatement<EF>>,
    challenger: C,
) -> bool {
    &&& scanned.statements == Ok::<Seq<CompactStatement<EF>>, NativeWarpWhirRootProofError<E>>(
        statements_of(statements@),
    )
    &&& challenger.history() == history + all_binding_items(scanned.absorbed)
}

/// What the check of an opening is handed: the committed oracles, grouped with
/// the coefficients that the verifier of the reduction gave, the point and the
/// value that it gave, and the transcript as it left it.
pub open spec fn check_input<
    F: TwoAdicField,
    EF: ExtensionField<F>,
    D: Digest,
    C: Challenger<F, EF, D>,
    RP,
    E,
    G: FnOnce(Vec<NativeWarpCompactRootStatement<EF>>, &RP, C, usize) -> (
        Result<BatchedLinearSigmaOpeningClaim<EF>, E>,
        C,
    ),
>(
    scanned: Scan<EF, D, E>,
    history: Seq<TranscriptItem<F, EF, D>>,
    reduction: &RP,
    reduction_pow_bits: usize,
    reduce: G,
    groups: Vec<BatchedOracle<EF, D, D, RootKey<D>>>,
    point: Vec<EF>,
    value: EF,
    challenger: C,
) -> bool {
    exists|
        statements: Vec<NativeWarpCompactRootStatement<EF>>,
        c: C,
        claim: BatchedLinearSigmaOpeningClaim<EF>,
    |
        verification_input(scanned, history, statements, c) && #[trigger] call_ensures(
            reduce,
            (statements, reduction, c, reduction_pow_bits),
            (Ok(claim), challenger),
        ) && grouping(residual_commitments(scanned.absorbed), claim.coeffs@) == Ok::<
            Seq<Group<EF, D, D, RootKey<D>>>,
            LinearSigmaReductionError,
        >(groups_of(groups@)) && point == claim.point && value == claim.value
}

/// What becomes of a verification after the reduction: its error is reported;
/// otherwise the committed oracles are grouped with the coefficients that it
/// gave, and the opening is checked at the point that it gave.
pub open spec fn checked_after<
    EF: Field,
    D: Digest,
    C,
    OP,
    E,
    H: FnOnce(Vec<BatchedOracle<EF, D, D, RootKey<D>>>, Vec<EF>, EF, &OP, C) -> (Result<(), E>, C),
>(
    absorbed: Seq<BoundRoot<D>>,
    reduced: (Result<BatchedLinearSigmaOpeningClaim<EF>, E>, C),
    opening: &OP,
    check: H,
    r: Result<(), NativeWarpWhirRootProofError<E>>,
    after: C,
) -> bool {
    match reduced.0 {
        Err(e) => r == Err::<(), NativeWarpWhirRootProofError<E>>(
            NativeWarpWhirRootProofError::CompactReduction(e),
        ) && after == reduced.1,
        Ok(claim) => match grouping(residual_commitments(absorbed), claim.coeffs@) {
            Err(e) => r == Err::<(), NativeWarpWhirRootProofError<E>>(
                NativeWarpWhirRootProofError::LinearSigma(e),
            ) && after == reduced.1,
            Ok(groups) => exists|
                g: Vec<BatchedOracle<EF, D, D, RootKey<D>>>,
                out: (Result<(), E>, C),
            |
                groups_of(g@) == groups && #[trigger] call_ensures(
                    check,
                    (g, claim.point, claim.value, opening, reduced.1),
                    out,
                ) && after == out.1 && r == match out.0 {
                    Ok(()) => Ok(()),
                    Err(e) => Err(NativeWarpWhirRootProofError::BatchedOpening(e)),
                },
        },
    }
}

/// What verifying a root proof gives, and the transcript after it: where the
/// public commitments and claims do not pass, the reason is reported;
/// otherwise the reduction and the opening are checked. Either way the
/// transcript has absorbed the commitments that the scan passed.
pub open spec fn verification_result<
    F: TwoAdicField,
    EF: ExtensionField<F>,
    D: Digest,
    C: Challenger<F, EF, D>,
    RP,
    OP,
    E,
    G: FnOnce(Vec<NativeWarpCompactRootStatement<EF>>, &RP, C, usize) -> (
        Result<BatchedLinearSigmaOpeningClaim<EF>, E>,
        C,
    ),
    H: FnOnce(Vec<BatchedOracle<EF, D, D, RootKey<D>>>, Vec<EF>, EF, &OP, C) -> (Result<(), E>, C),
>(
    scanned: Scan<EF, D, E>,
    history: Seq<TranscriptItem<F, EF, D>>,
    root_proof: &NativeWarpWhirRootBatchedOpeningProof<RP, OP>,
    reduction_pow_bits: usize,
    reduce: G,
    check: H,
    r: Result<(), NativeWarpWhirRootProofError<E>>,
    after: C,
) -> bool {
    match scanned.statements {
        Err(e) => r == Err::<(), NativeWarpWhirRootProofError<E>>(e) && after.history() == history
            + all_binding_items(scanned.absorbed),
        Ok(_) => exists|
            statements: Vec<NativeWarpCompactRootStatement<EF>>,
            c: C,
            reduced: (Result<BatchedLinearSigmaOpeningClaim<EF>, E>, C),
        |
            verification_input(scanned, history, statements, c) && #[trigger] call_ensures(
                reduce,
                (statements, &root_proof.reduction, c, reduction_pow_bits),
                reduced,
            ) && checked_after(scanned.absorbed, reduced, &root_proof.opening, check, r, after),
    }
}

impl<
    'a,
    F: TwoAdicField,
    EF: ExtensionField<F>,
    D: Digest,
    C: Challenger<F, EF, D>,
> NativeWarpWhirRootProofSystem<'a, F, EF, D, C> {
    /// Compiles the claims about a committed oracle.
    fn committed_claim_statement(
        &self,
        claims: &Vec<RootIopOpeningClaim<F, EF>>,
        commitment: &BoundRoot<D>,
    ) -> (r: Result<NativeWarpCompactRootStatement<EF>, NativeWarpWhirClaimCompileError>)
        ensures
            match committed_statement(self.shape(), claims@, *commitment) {
                Ok(statement) => r matches Ok(found) && found@ == statement,
                Err(e) => r matches Err(found) && found == e,
            },
    {
        match commitment.commitment {
            NativeWarpWhirRootCommitment::BaseMessage(_)
            | NativeWarpWhirRootCommitment::BaseMessageShared { .. } => {
                self.compact_base_message_claim_statement(claims, commitment.oracle_id)
            },
            NativeWarpWhirRootCommitment::ExtensionMessage(_) => {
                self.compact_extension_message_claim_statement(claims, commitment.oracle_id)
            },
        }
    }

    /// Goes through the public commitments: checks them, absorbs those that
    /// claims are about, and compiles the claims about them.
    pub fn scan_commitments<E>(
        &self,
        expected_commitments: &Vec<BoundRoot<D>>,
        expected_claims: &Vec<RootIopOpeningClaim<F, EF>>,
        challenger: &mut C,
    ) -> (r: Result<
        (
            Vec<NativeWarpCompactRootStatement<EF>>,
            Vec<NativeWarpBatchedResidualCommitment<D>>,
        ),
        NativeWarpWhirRootProofError<E>,
    >)
        ensures
            ({
                let scanned = verifier_scan::<F, EF, D, E>(
                    self.shape(),
                    expected_commitments@,
                    expected_claims@,
                );
                &&& final(challenger).history() == old(challenger).history() + all_binding_items(
                    scanned.absorbed,
                )
                &&& match scanned.statements {
                    Ok(statements) => r matches Ok((found, oracles)) && statements_of(found@)
                        == statements && oracles@ == residual_commitments(scanned.absorbed),
                    Err(e) => r matches Err(found) && found == e,
                }
            }),
    {
        let ghost start = challenger.history();
        let ghost (commitments, claims) = (expected_commitments@, expected_claims@);
        assert(start =~= start + all_binding_items::<F, EF, D>(Seq::empty()));
        match self.compiler().check_unique_public_oracle_ids(expected_commitments) {
            Ok(()) => {},
            Err(e) => {
                return Err(NativeWarpWhirRootProofError::Reduction(e));
            },
        }
        match self.compiler().check_claim_oracles_public(expected_commitments, expected_claims) {
            Ok(()) => {},
            Err(e) => {
                return Err(NativeWarpWhirRootProofError::Reduction(e));
            },
        }
        let mut statements: Vec<NativeWarpCompactRootStatement<EF>> = Vec::new();
        let mut oracles: Vec<NativeWarpBatchedResidualCommitment<D>> = Vec::new();
        let mut i: usize = 0;
        assert(statements_of(statements@) =~= Seq::empty());
        assert(oracles@ =~= residual_commitments(Seq::<BoundRoot<D>>::empty()));
        while i < expected_commitments.len()
            invariant
                start == old(challenger).history(),
                commitments == expected_commitments@,
                claims == expected_claims@,
                i <= commitments.len(),
                verifier_scan::<F, EF, D, E>(self.shape(), commitments, claims) == scan::<
                    F,
                    EF,
                    D,
                    E,
                >(self.shape(), commitments, claims),
                ({
                    let s = scan::<F, EF, D, E>(self.shape(), commitments.take(i as int), claims);
                    &&& challenger.history() == start + all_binding_items(s.absorbed)
                    &&& s.statements == Ok::<
                        Seq<CompactStatement<EF>>,
                        NativeWarpWhirRootProofError<E>,
                    >(statements_of(statements@))
                    &&& oracles@ == residual_commitments(s.absorbed)
                }),
            decreases commitments.len() - i,
        {
            let commitment = &expected_commitments[i];
            let ghost before = scan::<F, EF, D, E>(
                self.shape(),
                commitments.take(i as int),
                claims,
            );
            let ghost after = scan::<F, EF, D, E>(
                self.shape(),
                commitments.take(i as int + 1),
                claims,
            );
            proof {
                let n = i as int + 1;
                assert(commitments.take(n).drop_last() =~= commitments.take(n - 1));
                assert(commitments.take(n).last() == commitments[n - 1]);
                lemma_scan_prefix::<F, EF, D, E>(self.shape(), commitments, claims, n);
            }
            if claims_include_oracle(expected_claims, commitment.oracle_id) {
                match self.compiler().check_bound_oracle_shape::<EF, _>(commitment, None) {
                    Ok(()) => {},
                    Err(e) => {
                        return Err(NativeWarpWhirRootProofError::Reduction(e));
                    },
                }
                observe_native_root_commitment(challenger, commitment);
                proof {
                    assert(after.absorbed.drop_last() =~= before.absorbed);
                    assert(challenger.history() =~= start + all_binding_items(after.absorbed));
                }
                let statement = match self.committed_claim_statement(expected_claims, commitment) {
                    Ok(statement) => statement,
                    Err(e) => {
                        return Err(NativeWarpWhirRootProofError::ClaimCompile(e));
                    },
                };
                let residual = match commitment.commitment {
                    NativeWarpWhirRootCommitment::BaseMessage(root) => ResidualOracle::Base(root),
                    NativeWarpWhirRootCommitment::BaseMessageShared { root, column, width } => {
                        ResidualOracle::SharedBase { shared: RootKey { root }, column, width }
                    },
                    NativeWarpWhirRootCommitment::ExtensionMessage(root) => {
                        ResidualOracle::Extension(root)
                    },
                };
                let ghost earlier = statements@;
                statements.push(statement);
                oracles.push(residual);
                proof {
                    assert(statements_of(statements@) =~= statements_of(earlier).push(statement@));
                    assert(oracles@ =~= residual_commitments(after.absorbed));
                }
            }
            i = i + 1;
        }
        assert(commitments.take(i as int) =~= commitments);
        Ok((statements, oracles))
    }

    /// Groups the committed oracles by their shared roots.
    pub fn group_verifier_oracles(
        commitments: &Vec<NativeWarpBatchedResidualCommitment<D>>,
        coeffs: &Vec<EF>,
    ) -> (r: Result<Vec<BatchedOracle<EF, D, D, RootKey<D>>>, LinearSigmaReductionError>)
        ensures
            match grouping(commitments@, coeffs@) {
                Ok(groups) => r matches Ok(v) && groups_of(v@) == groups,
                Err(e) => r matches Err(found) && found == e,
            },
    {
        group_oracles(commitments, coeffs)
    }

    /// Verifies the recorded claims against a root proof.
    pub fn verify<
        RP,
        OP,
        E,
        G: FnOnce(Vec<NativeWarpCompactRootStatement<EF>>, &RP, C, usize) -> (
            Result<BatchedLinearSigmaOpeningClaim<EF>, E>,
            C,
        ),
        H: FnOnce(Vec<BatchedOracle<EF, D, D, RootKey<D>>>, Vec<EF>, EF, &OP, C) -> (
            Result<(), E>,
            C,
        ),
    >(
        &self,
        expected_commitments: &Vec<BoundRoot<D>>,
        expected_claims: &Vec<RootIopOpeningClaim<F, EF>>,
        root_proof: &NativeWarpWhirRootProof<RP, OP>,
        challenger: &mut C,
        reduction_pow_bits: usize,
        reduce: G,
        check: H,
    ) -> (r: Result<(), NativeWarpWhirRootProofError<E>>)
        requires
            forall|statements: Vec<NativeWarpCompactRootStatement<EF>>, c: C|
                verification_input(
                    verifier_scan::<F, EF, D, E>(
                        self.shape(),
                        expected_commitments@,
                        expected_claims@,
                    ),
                    old(challenger).history(),
                    statements,
                    c,
                ) ==> #[trigger] call_requires(
                    reduce,
                    (statements, &root_proof.opening.reduction, c, reduction_pow_bits),
                ),
            forall|
                g: Vec<BatchedOracle<EF, D, D, RootKey<D>>>,
                point: Vec<EF>,
                value: EF,
                c: C,
            |
                check_input(
                    verifier_scan::<F, EF, D, E>(
                        self.shape(),
                        expected_commitments@,
                        expected_claims@,
                    ),
                    old(challenger).history(),
                    &root_proof.opening.reduction,
                    reduction_pow_bits,
                    reduce,
                    g,
                    point,
                    value,
                    c,
                ) ==> #[trigger] call_requires(
                    check,
                    (g, point, value, &root_proof.opening.opening, c),
                ),
        ensures
            verification_result(
                verifier_scan::<F, EF, D, E>(
                    self.shape(),
                    expected_commitments@,
                    expected_claims@,
                ),
                old(challenger).history(),
                &root_proof.opening,
                reduction_pow_bits,
                reduce,
                check,
                r,
                *final(challenger),
            ),
    {
        self.verify_direct_batched_root(
            expected_commitments,
            expected_claims,
            &root_proof.opening,
            challenger,
            reduction_pow_bits,
            reduce,
            check,
        )
    }

    /// Checks a batched opening against the public commitments and claims.
    /// `reduce` checks the reduction of all statements to one claim about a
    /// combination of the oracles, and `check` checks the opening of the grouped
    /// commitments at the point of that claim; both are handed the transcript
    /// and hand it back as they leave it.
    pub fn verify_direct_batched_root<
        RP,
        OP,
        E,
        G: FnOnce(Vec<NativeWarpCompactRootStatement<EF>>, &RP, C, usize) -> (
            Result<BatchedLinearSigmaOpeningClaim<EF>, E>,
            C,
        ),
        H: FnOnce(Vec<BatchedOracle<EF, D, D, RootKey<D>>>, Vec<EF>, EF, &OP, C) -> (
            Result<(), E>,
            C,
        ),
    >(
        &self,
        expected_commitments: &Vec<BoundRoot<D>>,
        expected_claims: &Vec<RootIopOpeningClaim<F, EF>>,
        root_proof: &NativeWarpWhirRootBatchedOpeningProof<RP, OP>,
        challenger: &mut C,
        reduction_pow_bits: usize,
        reduce: G,
        check: H,
    ) -> (r: Result<(), NativeWarpWhirRootProofError<E>>)
        requires
            forall|statements: Vec<NativeWarpCompactRootStatement<EF>>, c: C|
                verification_input(
                    verifier_scan::<F, EF, D, E>(
                        self.shape(),
                        expected_commitments@,
                        expected_claims@,
                    ),
                    old(challenger).history(),
                    statements,
                    c,
                ) ==> #[trigger] call_requires(
                    reduce,
                    (statements, &root_proof.reduction, c, reduction_pow_bits),
                ),
            forall|
                g: Vec<BatchedOracle<EF, D, D, RootKey<D>>>,
                point: Vec<EF>,
                value: EF,
                c: C,
            |
                check_input(
                    verifier_scan::<F, EF, D, E>(
                        self.shape(),
                        expected_commitments@,
                        expected_claims@,
                    ),
                    old(challenger).history(),
                    &root_proof.reduction,
                    reduction_pow_bits,
                    reduce,
                    g,
                    point,
                    value,
                    c,
                ) ==> #[trigger] call_requires(check, (g, point, value, &root_proof.opening, c)),
        ensures
            verification_result(
                verifier_scan::<F, EF, D, E>(
                    self.shape(),
                    expected_commitments@,
                    expected_claims@,
                ),
                old(challenger).history(),
                root_proof,
                reduction_pow_bits,
                reduce,
                check,
                r,
                *final(challenger),
            ),
    {
        let ghost scanned = verifier_scan::<F, EF, D, E>(
            self.shape(),
            expected_commitments@,
            expected_claims@,
        );
        let (statements, oracles) = match self.scan_commitments(
            expected_commitments,
            expected_claims,
            challenger,
        ) {
            Ok(found) => found,
            Err(e) => {
                return Err(e);
            },
        };
        let (reduced, after) = reduce(
            statements,
            &root_proof.reduction,
            challenger.fork(),
            reduction_pow_bits,
        );
        let claim = match reduced {
            Ok(claim) => claim,
            Err(e) => {
                *challenger = after;
                return Err(NativeWarpWhirRootProofError::CompactReduction(e));
            },
        };
        let groups = match Self::group_verifier_oracles(&oracles, &claim.coeffs) {
            Ok(groups) => groups,
            Err(e) => {
                *challenger = after;
                return Err(NativeWarpWhirRootProofError::LinearSigma(e));
            },
        };
        let (checked, after) = check(
            groups,
            claim.point,
            claim.value,
            &root_proof.opening,
            after,
        );
        *challenger = after;
        match checked {
            Ok(()) => Ok(()),
            Err(e) => Err(NativeWarpWhirRootProofError::BatchedOpening(e)),
        }
    }
}

} // verus!
