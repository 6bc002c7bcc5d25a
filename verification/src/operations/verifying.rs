//! What verifying gives.

use crate::claims::{CompactStatement, NativeWarpCompactRootStatement};
use crate::code::CodeShape;
use crate::compiler::{distinct_ids, public_ids};
use crate::error::{
    LinearSigmaReductionError, NativeWarpWhirRootProofError, NativeWarpWhirRootReductionError,
};
use crate::field::{ExtensionField, Field, TwoAdicField};
use crate::grouped::columns_fit;
use crate::grouping::{groups_of, grouping, BatchedOracle, Group, ResidualOracle, RootKey};
use crate::operations::checking::{
    first_repeated, first_unknown, the_first_repeated_identifier_is_reported,
    the_first_unknown_oracle_is_reported,
};
use crate::operations::committing::lemma_lengths_fit;
use crate::operations::compiling::{
    base_statement_asks_for_claims, extension_statement_asks_for_claims, lemma_filtered,
};
use crate::operations::grouping_oracles::{is_grouping_of, lemma_is_grouping_of};
use crate::operations::proving::{
    base_statement_of, claims_refused, extension_statement_of, lemma_well_bound, views_of,
    well_bound,
};
use crate::operations::transcripts::{commitments_are_absorbed_item_by_item, items_of_all};
use crate::proof_system::NativeWarpWhirRootProofSystem;
use crate::root_iop::{claimed, claims_about, lemma_claims_about_nonempty, RootIopOpeningClaim};
use crate::root_prover::statements_of;
use crate::root_verifier::{
    check_input, checked_after, residual_commitments, scan, verification_input, verification_result,
    verifier_scan,
};
use crate::transcript::{Challenger, Digest, TranscriptItem};
use crate::types::{
    BatchedLinearSigmaOpeningClaim, BoundRoot, NativeWarpBatchedResidualCommitment,
    NativeWarpWhirRootBatchedOpeningProof, NativeWarpWhirRootCommitment, NativeWarpWhirRootProof,
};
use vstd::arithmetic::power2::pow2;
use vstd::prelude::*;

verus! {

/// The public commitments that claims are about, in order.
pub open spec fn commitments_named<F, EF, D>(
    commitments: Seq<BoundRoot<D>>,
    claims: Seq<RootIopOpeningClaim<F, EF>>,
) -> Seq<BoundRoot<D>> {
    commitments.filter(
        |b: BoundRoot<D>|
            exists|i: int|
                0 <= i < claims.len() && (#[trigger] claims[i]).oracle_id == b.oracle_id,
    )
}

/// The commitment has the length of a codeword, and the statement is that of the
/// claims about its oracle.
pub open spec fn is_read_as<F: TwoAdicField, EF: ExtensionField<F>, D>(
    shape: CodeShape,
    claims: Seq<RootIopOpeningClaim<F, EF>>,
    bound: BoundRoot<D>,
    statement: CompactStatement<EF>,
) -> bool {
    &&& bound.log_len == shape.log_msg_len + shape.log_inv_rate
    &&& match bound.commitment {
        NativeWarpWhirRootCommitment::BaseMessage(_) => base_statement_of(
            shape,
            claims,
            bound.oracle_id,
            statement,
        ),
        NativeWarpWhirRootCommitment::BaseMessageShared { .. } => base_statement_of(
            shape,
            claims,
            bound.oracle_id,
            statement,
        ),
        NativeWarpWhirRootCommitment::ExtensionMessage(_) => extension_statement_of(
            shape,
            claims,
            bound.oracle_id,
            statement,
        ),
    }
}

/// Why a commitment is not read: its length is looked at before it is absorbed,
/// and the claims about its oracle after.
pub open spec fn not_read<F: TwoAdicField, EF: ExtensionField<F>, D, E>(
    shape: CodeShape,
    claims: Seq<RootIopOpeningClaim<F, EF>>,
    bound: BoundRoot<D>,
    e: NativeWarpWhirRootProofError<E>,
    absorbed: bool,
) -> bool {
    let log_len = shape.log_msg_len + shape.log_inv_rate;
    if bound.log_len != log_len {
        !absorbed && (e matches NativeWarpWhirRootProofError::Reduction(
            NativeWarpWhirRootReductionError::OracleLogLengthMismatch {
                oracle_id,
                expected,
                actual,
            },
        ) && oracle_id == bound.oracle_id && expected == log_len && actual == bound.log_len)
    } else {
        absorbed && (e matches NativeWarpWhirRootProofError::ClaimCompile(found) && claims_refused(
            shape,
            claims,
            bound.oracle_id,
            !(bound.commitment is ExtensionMessage),
            found,
        ))
    }
}

/// The oracle stands for the commitment.
pub open spec fn stands_for<D>(
    oracle: NativeWarpBatchedResidualCommitment<D>,
    commitment: NativeWarpWhirRootCommitment<D>,
) -> bool {
    match commitment {
        NativeWarpWhirRootCommitment::BaseMessage(root) => oracle matches ResidualOracle::Base(
            found,
        ) && found == root,
        NativeWarpWhirRootCommitment::BaseMessageShared { root, column, width } => oracle matches
            ResidualOracle::SharedBase { shared, column: c, width: w } && shared.root == root && c
            == column && w == width,
        NativeWarpWhirRootCommitment::ExtensionMessage(root) => oracle matches
            ResidualOracle::Extension(found) && found == root,
    }
}

/// All commitments are read as the statements say, and the oracles stand for
/// them.
pub open spec fn all_read_as<F: TwoAdicField, EF: ExtensionField<F>, D>(
    shape: CodeShape,
    claims: Seq<RootIopOpeningClaim<F, EF>>,
    named: Seq<BoundRoot<D>>,
    statements: Seq<CompactStatement<EF>>,
    oracles: Seq<NativeWarpBatchedResidualCommitment<D>>,
) -> bool {
    &&& statements.len() == named.len()
    &&& oracles.len() == named.len()
    &&& forall|k: int|
        0 <= k < named.len() ==> is_read_as(shape, claims, #[trigger] named[k], statements[k])
            && stands_for(oracles[k], named[k].commitment)
}

/// The commitment can be read.
pub open spec fn can_be_read<F: TwoAdicField, EF: ExtensionField<F>, D>(
    shape: CodeShape,
    claims: Seq<RootIopOpeningClaim<F, EF>>,
    bound: BoundRoot<D>,
) -> bool {
    exists|statement: CompactStatement<EF>| #[trigger] is_read_as(shape, claims, bound, statement)
}

/// Going through the public commitments. Repeated identifiers and claims about
/// oracles that are not committed are refused first, with nothing absorbed. Then
/// the commitments that claims are about are absorbed in order and their claims
/// compiled; the first that cannot be read is reported, with what was absorbed
/// up to it.
pub open spec fn is_scan_of<F: TwoAdicField, EF: ExtensionField<F>, D, E>(
    shape: CodeShape,
    commitments: Seq<BoundRoot<D>>,
    claims: Seq<RootIopOpeningClaim<F, EF>>,
    absorbed: Seq<BoundRoot<D>>,
    r: Result<
        (Seq<CompactStatement<EF>>, Seq<NativeWarpBatchedResidualCommitment<D>>),
        NativeWarpWhirRootProofError<E>,
    >,
) -> bool {
    let ids = Seq::new(commitments.len(), |i: int| commitments[i].oracle_id);
    let named = commitments_named(commitments, claims);
    if !well_bound(commitments, claims) {
        &&& absorbed.len() == 0
        &&& r matches Err(e) && if exists|j: int| #[trigger] first_repeated(ids, j) {
            exists|j: int| #[trigger]
                first_repeated(ids, j) && e == NativeWarpWhirRootProofError::<E>::Reduction(
                    NativeWarpWhirRootReductionError::DuplicateOracle(ids[j]),
                )
        } else {
            exists|k: int| #[trigger]
                first_unknown(ids, claims, k) && e == NativeWarpWhirRootProofError::<E>::Reduction(
                    NativeWarpWhirRootReductionError::UnknownOracle(claims[k].oracle_id),
                )
        }
    } else {
        match r {
            Ok((statements, oracles)) => absorbed == named && all_read_as(
                shape,
                claims,
                named,
                statements,
                oracles,
            ),
            Err(e) => exists|k: int, last: bool|
                0 <= k < named.len() && #[trigger] not_read(shape, claims, named[k], e, last) && (
                forall|j: int| 0 <= j < k ==> can_be_read(shape, claims, #[trigger] named[j]))
                    && absorbed == named.take(
                    if last {
                        k + 1
                    } else {
                        k
                    },
                ),
        }
    }
}

proof fn lemma_scan_named<F: TwoAdicField, EF: ExtensionField<F>, D, E>(
    shape: CodeShape,
    commitments: Seq<BoundRoot<D>>,
    claims: Seq<RootIopOpeningClaim<F, EF>>,
)
    requires
        shape.log_msg_len + shape.log_inv_rate <= usize::MAX,
    ensures
        commitments_named(commitments, claims).len() <= commitments.len(),
        ({
            let s = scan::<F, EF, D, E>(shape, commitments, claims);
            let named = commitments_named(commitments, claims);
            match s.statements {
                Ok(statements) => s.absorbed == named && all_read_as(
                    shape,
                    claims,
                    named,
                    statements,
                    residual_commitments(named),
                ),
                Err(e) => exists|k: int, last: bool|
                    0 <= k < named.len() && #[trigger] not_read(shape, claims, named[k], e, last)
                        && (forall|j: int|
                        0 <= j < k ==> can_be_read(shape, claims, #[trigger] named[j]))
                        && s.absorbed == named.take(
                        if last {
                            k + 1
                        } else {
                            k
                        },
                    ),
            }
        }),
    decreases commitments.len(),
{
    reveal(Seq::filter);
    let named = commitments_named(commitments, claims);
    let s = scan::<F, EF, D, E>(shape, commitments, claims);
    if commitments.len() > 0 {
        let rest = commitments.drop_last();
        let next = commitments.last();
        let id = next.oracle_id;
        let before = commitments_named(rest, claims);
        let n = before.len() as int;
        let t = scan::<F, EF, D, E>(shape, rest, claims);
        lemma_scan_named::<F, EF, D, E>(shape, rest, claims);
        assert(claimed(claims, id) <==> exists|i: int|
            0 <= i < claims.len() && (#[trigger] claims[i]).oracle_id == id);
        assert(named == if claimed(claims, id) {
            before.push(next)
        } else {
            before
        });
        assert(forall|j: int| 0 <= j < n ==> #[trigger] named[j] == before[j]);
        assert(forall|j: int| 0 <= j < n ==> #[trigger] before[j] == named[j]);
        match t.statements {
            Err(e) => {
                let (k, last) = choose|k: int, last: bool|
                    0 <= k < before.len() && #[trigger] not_read(
                        shape,
                        claims,
                        before[k],
                        e,
                        last,
                    ) && (forall|j: int|
                        0 <= j < k ==> can_be_read(shape, claims, #[trigger] before[j]))
                        && t.absorbed == before.take(
                        if last {
                            k + 1
                        } else {
                            k
                        },
                    );
                let m = if last {
                    k + 1
                } else {
                    k
                };
                assert(before.take(m) =~= named.take(m));
                assert(not_read(shape, claims, named[k], e, last));
            },
            Ok(done) => {
                if claimed(claims, id) {
                    base_statement_asks_for_claims(shape, claims, id);
                    extension_statement_asks_for_claims(shape, claims, id);
                    let about = claims.filter(
                        |c: RootIopOpeningClaim<F, EF>| c.oracle_id == id,
                    );
                    assert(about.len() > 0) by {
                        lemma_claims_about_nonempty(claims, id);
                        assert(about == claims_about(claims, id));
                    }
                    assert(named[n] == next);
                    match s.statements {
                        Ok(statements) => {
                            assert(statements =~= done.push(statements[n]));
                            assert forall|k: int| 0 <= k < named.len() implies is_read_as(
                                shape,
                                claims,
                                #[trigger] named[k],
                                statements[k],
                            ) && stands_for(
                                residual_commitments(named)[k],
                                named[k].commitment,
                            ) by {
                                if k < n {
                                    assert(named[k] == before[k]);
                                    assert(is_read_as(shape, claims, before[k], done[k]));
                                }
                            }
                        },
                        Err(e) => {
                            assert forall|j: int| 0 <= j < n implies can_be_read(
                                shape,
                                claims,
                                #[trigger] named[j],
                            ) by {
                                assert(is_read_as(shape, claims, before[j], done[j]));
                            }
                            let last = next.log_len == shape.log_msg_len + shape.log_inv_rate;
                            assert(not_read(shape, claims, named[n], e, last));
                            if last {
                                assert(named.take(n + 1) =~= named);
                            } else {
                                assert(named.take(n) =~= before);
                            }
                        },
                    }
                }
            },
        }
    }
}

proof fn lemma_is_scan_of<F: TwoAdicField, EF: ExtensionField<F>, D, E>(
    shape: CodeShape,
    commitments: Seq<BoundRoot<D>>,
    claims: Seq<RootIopOpeningClaim<F, EF>>,
)
    requires
        shape.log_msg_len + shape.log_inv_rate <= usize::MAX,
    ensures
        ({
            let s = verifier_scan::<F, EF, D, E>(shape, commitments, claims);
            is_scan_of(
                shape,
                commitments,
                claims,
                s.absorbed,
                match s.statements {
                    Ok(statements) => Ok((statements, residual_commitments(s.absorbed))),
                    Err(e) => Err(e),
                },
            ) && s.absorbed.len() <= commitments.len()
        }),
{
    let ids = Seq::new(commitments.len(), |i: int| commitments[i].oracle_id);
    assert(public_ids(commitments) =~= ids);
    lemma_well_bound(commitments, claims);
    the_first_repeated_identifier_is_reported(ids);
    the_first_unknown_oracle_is_reported(ids, claims);
    lemma_scan_named::<F, EF, D, E>(shape, commitments, claims);
    if distinct_ids(ids) is Ok {
        assert forall|j: int| !#[trigger] first_repeated(ids, j) by {
            if first_repeated(ids, j) {
                let i = choose|i: int| 0 <= i < j && #[trigger] ids[i] == ids[j];
                assert(ids[i] != ids[j]);
            }
        }
    }
}

/// What a scan gave, as its statements say.
pub open spec fn scan_read<EF, D, E>(
    r: Result<
        (
            Vec<NativeWarpCompactRootStatement<EF>>,
            Vec<NativeWarpBatchedResidualCommitment<D>>,
        ),
        NativeWarpWhirRootProofError<E>,
    >,
) -> Result<
    (Seq<CompactStatement<EF>>, Seq<NativeWarpBatchedResidualCommitment<D>>),
    NativeWarpWhirRootProofError<E>,
> {
    match r {
        Ok((statements, oracles)) => Ok((views_of(statements@), oracles@)),
        Err(e) => Err(e),
    }
}

/// Going through the public commitments reads and absorbs those that claims are
/// about.
pub proof fn commitments_are_scanned<
    'a,
    F: TwoAdicField,
    EF: ExtensionField<F>,
    D: Digest,
    C: Challenger<F, EF, D>,
    E,
>(
    system: NativeWarpWhirRootProofSystem<'a, F, EF, D, C>,
    commitments: Vec<BoundRoot<D>>,
    claims: Vec<RootIopOpeningClaim<F, EF>>,
    challenger: &mut C,
    r: Result<
        (
            Vec<NativeWarpCompactRootStatement<EF>>,
            Vec<NativeWarpBatchedResidualCommitment<D>>,
        ),
        NativeWarpWhirRootProofError<E>,
    >,
)
    requires
        pow2((system.shape().log_msg_len + system.shape().log_inv_rate) as nat) <= usize::MAX,
        call_ensures(
            NativeWarpWhirRootProofSystem::<'a, F, EF, D, C>::scan_commitments::<E>,
            (&system, &commitments, &claims, challenger),
            r,
        ),
    ensures
        exists|absorbed: Seq<BoundRoot<D>>| #[trigger]
            is_scan_of(
                system.shape(),
                commitments@,
                claims@,
                absorbed,
                scan_read(r),
            ) && final(challenger).history() == old(challenger).history() + items_of_all::<
                F,
                EF,
                D,
            >(absorbed),
{
    lemma_lengths_fit(system.shape());
    lemma_is_scan_of::<F, EF, D, E>(system.shape(), commitments@, claims@);
    let s = verifier_scan::<F, EF, D, E>(system.shape(), commitments@, claims@);
    commitments_are_absorbed_item_by_item::<F, EF, D>(s.absorbed);
    if let Ok((statements, oracles)) = r {
        assert(views_of(statements@) =~= statements_of(statements@));
    }
    assert(is_scan_of(
        system.shape(),
        commitments@,
        claims@,
        s.absorbed,
        scan_read(r),
    ));
}

/// What becomes of a verification after the reduction was checked. An error of
/// that check is reported, with the transcript as it left it. Otherwise the
/// committed oracles are grouped with the coefficients that it gave; if that
/// fails, it is reported. Otherwise the opening is checked for the groups, at the
/// point and with the value that it gave, and what comes out is accepted exactly
/// when that check accepts.
pub open spec fn checked_as<
    EF: Field,
    D: Digest,
    C,
    OP,
    E,
    W: FnOnce(Vec<BatchedOracle<EF, D, D, RootKey<D>>>, Vec<EF>, EF, &OP, C) -> (Result<(), E>, C),
>(
    oracles: Seq<NativeWarpBatchedResidualCommitment<D>>,
    reduced: (Result<BatchedLinearSigmaOpeningClaim<EF>, E>, C),
    opening: &OP,
    check: W,
    r: Result<(), NativeWarpWhirRootProofError<E>>,
    after: C,
) -> bool {
    match reduced.0 {
        Err(e) => after == reduced.1 && (r matches Err(
            NativeWarpWhirRootProofError::CompactReduction(found),
        ) && found == e),
        Ok(claim) => {
            ||| exists|
                g: Vec<BatchedOracle<EF, D, D, RootKey<D>>>,
                out: (Result<(), E>, C),
            | #[trigger]
                call_ensures(check, (g, claim.point, claim.value, opening, reduced.1), out)
                    && is_grouping_of(oracles, claim.coeffs@, Ok(g)) && after == out.1
                    && match out.0 {
                    Ok(()) => r is Ok,
                    Err(e) => r matches Err(NativeWarpWhirRootProofError::BatchedOpening(found))
                        && found == e,
                }
            ||| after == reduced.1 && (r matches Err(NativeWarpWhirRootProofError::LinearSigma(e))
                && is_grouping_of(oracles, claim.coeffs@, Err(e)))
        },
    }
}

/// The reduction and the opening were checked: the check of the reduction was
/// handed the statements of the commitments that claims are about, in a
/// transcript that had absorbed these commitments in order.
pub open spec fn reduction_and_opening_checked<
    F: TwoAdicField,
    EF: ExtensionField<F>,
    D: Digest,
    C: Challenger<F, EF, D>,
    RP,
    OP,
    E,
    V: FnOnce(Vec<NativeWarpCompactRootStatement<EF>>, &RP, C, usize) -> (
        Result<BatchedLinearSigmaOpeningClaim<EF>, E>,
        C,
    ),
    W: FnOnce(Vec<BatchedOracle<EF, D, D, RootKey<D>>>, Vec<EF>, EF, &OP, C) -> (Result<(), E>, C),
>(
    shape: CodeShape,
    named: Seq<BoundRoot<D>>,
    claims: Seq<RootIopOpeningClaim<F, EF>>,
    before: Seq<TranscriptItem<F, EF, D>>,
    root_proof: &NativeWarpWhirRootBatchedOpeningProof<RP, OP>,
    pow_bits: usize,
    reduce: V,
    check: W,
    r: Result<(), NativeWarpWhirRootProofError<E>>,
    after: C,
) -> bool {
    exists|
        statements: Vec<NativeWarpCompactRootStatement<EF>>,
        c: C,
        reduced: (Result<BatchedLinearSigmaOpeningClaim<EF>, E>, C),
        oracles: Seq<NativeWarpBatchedResidualCommitment<D>>,
    |
        #![trigger
            call_ensures(reduce, (statements, &root_proof.reduction, c, pow_bits), reduced),
            checked_as(oracles, reduced, &root_proof.opening, check, r, after)
        ]
        call_ensures(reduce, (statements, &root_proof.reduction, c, pow_bits), reduced)
            && all_read_as(shape, claims, named, views_of(statements@), oracles) && c.history()
            == before + items_of_all::<F, EF, D>(named) && checked_as(
            oracles,
            reduced,
            &root_proof.opening,
            check,
            r,
            after,
        )
}

/// What verifying is. Where the public commitments that claims are about can be
/// read, the reduction and the opening are checked for them, however many there
/// are. Otherwise the fault is reported, with what was absorbed up to it.
pub open spec fn record_is_verified<
    F: TwoAdicField,
    EF: ExtensionField<F>,
    D: Digest,
    C: Challenger<F, EF, D>,
    RP,
    OP,
    E,
    V: FnOnce(Vec<NativeWarpCompactRootStatement<EF>>, &RP, C, usize) -> (
        Result<BatchedLinearSigmaOpeningClaim<EF>, E>,
        C,
    ),
    W: FnOnce(Vec<BatchedOracle<EF, D, D, RootKey<D>>>, Vec<EF>, EF, &OP, C) -> (Result<(), E>, C),
>(
    shape: CodeShape,
    commitments: Seq<BoundRoot<D>>,
    claims: Seq<RootIopOpeningClaim<F, EF>>,
    before: Seq<TranscriptItem<F, EF, D>>,
    root_proof: &NativeWarpWhirRootBatchedOpeningProof<RP, OP>,
    pow_bits: usize,
    reduce: V,
    check: W,
    r: Result<(), NativeWarpWhirRootProofError<E>>,
    after: C,
) -> bool {
    let named = commitments_named(commitments, claims);
    if well_bound(commitments, claims) && forall|k: int|
        0 <= k < named.len() ==> can_be_read(shape, claims, #[trigger] named[k]) {
        reduction_and_opening_checked(
            shape,
            named,
            claims,
            before,
            root_proof,
            pow_bits,
            reduce,
            check,
            r,
            after,
        )
    } else {
        &&& r is Err
        &&& exists|absorbed: Seq<BoundRoot<D>>| #[trigger]
            is_scan_of(shape, commitments, claims, absorbed, Err(r->Err_0)) && after.history()
                == before + items_of_all::<F, EF, D>(absorbed)
    }
}

/// A commitment that can be read is not one that is not.
proof fn lemma_read_or_not<F: TwoAdicField, EF: ExtensionField<F>, D, E>(
    shape: CodeShape,
    claims: Seq<RootIopOpeningClaim<F, EF>>,
    bound: BoundRoot<D>,
    e: NativeWarpWhirRootProofError<E>,
    absorbed: bool,
)
    requires
        not_read(shape, claims, bound, e, absorbed),
    ensures
        !can_be_read(shape, claims, bound),
{
    if can_be_read(shape, claims, bound) {
        let id = bound.oracle_id;
        let pred = |c: RootIopOpeningClaim<F, EF>| c.oracle_id == id;
        let about = claims.filter(pred);
        lemma_filtered(claims, pred);
        assert forall|k: int| 0 <= k < about.len() implies exists|i: int|
            0 <= i < claims.len() && claims[i] == #[trigger] about[k] && claims[i].oracle_id
                == id by {
            assert(pred(about[k]));
            assert(claims.contains(about[k]));
        }
    }
}

proof fn lemma_verified<
    F: TwoAdicField,
    EF: ExtensionField<F>,
    D: Digest,
    C: Challenger<F, EF, D>,
    RP,
    OP,
    E,
    V: FnOnce(Vec<NativeWarpCompactRootStatement<EF>>, &RP, C, usize) -> (
        Result<BatchedLinearSigmaOpeningClaim<EF>, E>,
        C,
    ),
    W: FnOnce(Vec<BatchedOracle<EF, D, D, RootKey<D>>>, Vec<EF>, EF, &OP, C) -> (Result<(), E>, C),
>(
    shape: CodeShape,
    commitments: Seq<BoundRoot<D>>,
    claims: Seq<RootIopOpeningClaim<F, EF>>,
    before: Seq<TranscriptItem<F, EF, D>>,
    root_proof: &NativeWarpWhirRootBatchedOpeningProof<RP, OP>,
    pow_bits: usize,
    reduce: V,
    check: W,
    r: Result<(), NativeWarpWhirRootProofError<E>>,
    after: C,
)
    requires
        shape.log_msg_len + shape.log_inv_rate <= usize::MAX,
        commitments.len() <= usize::MAX,
        verification_result(
            verifier_scan::<F, EF, D, E>(shape, commitments, claims),
            before,
            root_proof,
            pow_bits,
            reduce,
            check,
            r,
            after,
        ),
    ensures
        record_is_verified(
            shape,
            commitments,
            claims,
            before,
            root_proof,
            pow_bits,
            reduce,
            check,
            r,
            after,
        ),
{
    let named = commitments_named(commitments, claims);
    let s = verifier_scan::<F, EF, D, E>(shape, commitments, claims);
    lemma_is_scan_of::<F, EF, D, E>(shape, commitments, claims);
    commitments_are_absorbed_item_by_item::<F, EF, D>(s.absorbed);
    match s.statements {
        Err(e) => {
            if well_bound(commitments, claims) {
                let (k, last) = choose|k: int, last: bool|
                    0 <= k < named.len() && #[trigger] not_read(
                        shape,
                        claims,
                        named[k],
                        e,
                        last,
                    );
                lemma_read_or_not::<F, EF, D, E>(shape, claims, named[k], e, last);
                assert(!can_be_read(shape, claims, named[k]));
            }
            assert(r->Err_0 == e);
            assert(is_scan_of::<F, EF, D, E>(
                shape,
                commitments,
                claims,
                s.absorbed,
                Err(r->Err_0),
            ));
        },
        Ok(read) => {
            let oracles = residual_commitments(named);
            assert forall|k: int| 0 <= k < named.len() implies can_be_read(
                shape,
                claims,
                #[trigger] named[k],
            ) by {
                assert(is_read_as(shape, claims, named[k], read[k]));
            }
            let (statements, c, reduced) = choose|
                statements: Vec<NativeWarpCompactRootStatement<EF>>,
                c: C,
                reduced: (Result<BatchedLinearSigmaOpeningClaim<EF>, E>, C),
            |
                verification_input(s, before, statements, c) && #[trigger] call_ensures(
                    reduce,
                    (statements, &root_proof.reduction, c, pow_bits),
                    reduced,
                ) && checked_after(
                    s.absorbed,
                    reduced,
                    &root_proof.opening,
                    check,
                    r,
                    after,
                );
            assert(views_of(statements@) =~= statements_of(statements@));
            if let Ok(claim) = reduced.0 {
                assert(claim.coeffs.len() == claim.coeffs@.len());
                match grouping(oracles, claim.coeffs@) {
                    Err(e) => {
                        lemma_is_grouping_of(oracles, claim.coeffs@, Err(e));
                    },
                    Ok(groups) => {
                        let (g, x) = choose|
                            g: Vec<BatchedOracle<EF, D, D, RootKey<D>>>,
                            x: (Result<(), E>, C),
                        |
                            groups_of(g@) == groups && #[trigger] call_ensures(
                                check,
                                (g, claim.point, claim.value, &root_proof.opening, reduced.1),
                                x,
                            ) && after == x.1 && r == match x.0 {
                                Ok(()) => Ok(()),
                                Err(e) => Err(NativeWarpWhirRootProofError::BatchedOpening(e)),
                            };
                        lemma_is_grouping_of(oracles, claim.coeffs@, Ok(g));
                        assert(call_ensures(
                            check,
                            (g, claim.point, claim.value, &root_proof.opening, reduced.1),
                            x,
                        ));
                    },
                }
            }
            assert(checked_as(oracles, reduced, &root_proof.opening, check, r, after));
            assert(call_ensures(
                reduce,
                (statements, &root_proof.reduction, c, pow_bits),
                reduced,
            ));
        },
    }
}

/// Checking a batched opening checks it for what the claims are about.
pub proof fn openings_are_verified<
    'a,
    F: TwoAdicField,
    EF: ExtensionField<F>,
    D: Digest,
    C: Challenger<F, EF, D>,
    RP,
    OP,
    E,
    V: FnOnce(Vec<NativeWarpCompactRootStatement<EF>>, &RP, C, usize) -> (
        Result<BatchedLinearSigmaOpeningClaim<EF>, E>,
        C,
    ),
    W: FnOnce(Vec<BatchedOracle<EF, D, D, RootKey<D>>>, Vec<EF>, EF, &OP, C) -> (Result<(), E>, C),
>(
    system: NativeWarpWhirRootProofSystem<'a, F, EF, D, C>,
    commitments: Vec<BoundRoot<D>>,
    claims: Vec<RootIopOpeningClaim<F, EF>>,
    root_proof: NativeWarpWhirRootBatchedOpeningProof<RP, OP>,
    challenger: &mut C,
    pow_bits: usize,
    reduce: V,
    check: W,
    r: Result<(), NativeWarpWhirRootProofError<E>>,
)
    requires
        pow2((system.shape().log_msg_len + system.shape().log_inv_rate) as nat) <= usize::MAX,
        call_ensures(
            NativeWarpWhirRootProofSystem::<
                'a,
                F,
                EF,
                D,
                C,
            >::verify_direct_batched_root::<RP, OP, E, V, W>,
            (&system, &commitments, &claims, &root_proof, challenger, pow_bits, reduce, check),
            r,
        ),
    ensures
        record_is_verified(
            system.shape(),
            commitments@,
            claims@,
            old(challenger).history(),
            &root_proof,
            pow_bits,
            reduce,
            check,
            r,
            *final(challenger),
        ),
{
    lemma_lengths_fit(system.shape());
    assert(commitments.len() == commitments@.len());
    lemma_verified(
        system.shape(),
        commitments@,
        claims@,
        old(challenger).history(),
        &root_proof,
        pow_bits,
        reduce,
        check,
        r,
        *final(challenger),
    );
}

/// Verifying a root proof checks the opening that it holds.
pub proof fn root_proofs_are_verified<
    'a,
    F: TwoAdicField,
    EF: ExtensionField<F>,
    D: Digest,
    C: Challenger<F, EF, D>,
    RP,
    OP,
    E,
    V: FnOnce(Vec<NativeWarpCompactRootStatement<EF>>, &RP, C, usize) -> (
        Result<BatchedLinearSigmaOpeningClaim<EF>, E>,
        C,
    ),
    W: FnOnce(Vec<BatchedOracle<EF, D, D, RootKey<D>>>, Vec<EF>, EF, &OP, C) -> (Result<(), E>, C),
>(
    system: NativeWarpWhirRootProofSystem<'a, F, EF, D, C>,
    commitments: Vec<BoundRoot<D>>,
    claims: Vec<RootIopOpeningClaim<F, EF>>,
    root_proof: NativeWarpWhirRootProof<RP, OP>,
    challenger: &mut C,
    pow_bits: usize,
    reduce: V,
    check: W,
    r: Result<(), NativeWarpWhirRootProofError<E>>,
)
    requires
        pow2((system.shape().log_msg_len + system.shape().log_inv_rate) as nat) <= usize::MAX,
        call_ensures(
            NativeWarpWhirRootProofSystem::<'a, F, EF, D, C>::verify::<RP, OP, E, V, W>,
            (&system, &commitments, &claims, &root_proof, challenger, pow_bits, reduce, check),
            r,
        ),
    ensures
        record_is_verified(
            system.shape(),
            commitments@,
            claims@,
            old(challenger).history(),
            &root_proof.opening,
            pow_bits,
            reduce,
            check,
            r,
            *final(challenger),
        ),
{
    lemma_lengths_fit(system.shape());
    assert(commitments.len() == commitments@.len());
    lemma_verified(
        system.shape(),
        commitments@,
        claims@,
        old(challenger).history(),
        &root_proof.opening,
        pow_bits,
        reduce,
        check,
        r,
        *final(challenger),
    );
}

/// The parts of verifying succeed: whatever the check of the reduction gives for
/// the commitments that claims are about, it is a claim with one coefficient for
/// each of them, their columns fit, and the check of the opening accepts.
pub open spec fn checks_succeed<
    F: TwoAdicField,
    EF: ExtensionField<F>,
    D: Digest,
    C: Challenger<F, EF, D>,
    RP,
    OP,
    E,
    V: FnOnce(Vec<NativeWarpCompactRootStatement<EF>>, &RP, C, usize) -> (
        Result<BatchedLinearSigmaOpeningClaim<EF>, E>,
        C,
    ),
    W: FnOnce(Vec<BatchedOracle<EF, D, D, RootKey<D>>>, Vec<EF>, EF, &OP, C) -> (Result<(), E>, C),
>(
    shape: CodeShape,
    named: Seq<BoundRoot<D>>,
    claims: Seq<RootIopOpeningClaim<F, EF>>,
    before: Seq<TranscriptItem<F, EF, D>>,
    root_proof: &NativeWarpWhirRootBatchedOpeningProof<RP, OP>,
    pow_bits: usize,
    reduce: V,
    check: W,
) -> bool {
    forall|
        statements: Vec<NativeWarpCompactRootStatement<EF>>,
        c: C,
        reduced: (Result<BatchedLinearSigmaOpeningClaim<EF>, E>, C),
        oracles: Seq<NativeWarpBatchedResidualCommitment<D>>,
    |
        #[trigger] call_ensures(
            reduce,
            (statements, &root_proof.reduction, c, pow_bits),
            reduced,
        ) && #[trigger] all_read_as(shape, claims, named, views_of(statements@), oracles)
            && c.history() == before + items_of_all::<F, EF, D>(named) ==> (reduced.0 matches Ok(
            claim,
        ) && claim.coeffs@.len() == named.len() && columns_fit(oracles) && forall|
            g: Vec<BatchedOracle<EF, D, D, RootKey<D>>>,
            out: (Result<(), E>, C),
        | #[trigger]
            call_ensures(
                check,
                (g, claim.point, claim.value, &root_proof.opening, reduced.1),
                out,
            ) && is_grouping_of(oracles, claim.coeffs@, Ok(g)) ==> out.0 is Ok)
}

/// Verifying succeeds where its parts do: where the commitments that claims are
/// about can be read and the checks succeed, the proof is accepted, for records
/// of every size.
pub proof fn verifying_succeeds_where_its_parts_do<
    'a,
    F: TwoAdicField,
    EF: ExtensionField<F>,
    D: Digest,
    C: Challenger<F, EF, D>,
    RP,
    OP,
    E,
    V: FnOnce(Vec<NativeWarpCompactRootStatement<EF>>, &RP, C, usize) -> (
        Result<BatchedLinearSigmaOpeningClaim<EF>, E>,
        C,
    ),
    W: FnOnce(Vec<BatchedOracle<EF, D, D, RootKey<D>>>, Vec<EF>, EF, &OP, C) -> (Result<(), E>, C),
>(
    system: NativeWarpWhirRootProofSystem<'a, F, EF, D, C>,
    commitments: Vec<BoundRoot<D>>,
    claims: Vec<RootIopOpeningClaim<F, EF>>,
    root_proof: NativeWarpWhirRootBatchedOpeningProof<RP, OP>,
    challenger: &mut C,
    pow_bits: usize,
    reduce: V,
    check: W,
    r: Result<(), NativeWarpWhirRootProofError<E>>,
)
    requires
        pow2((system.shape().log_msg_len + system.shape().log_inv_rate) as nat) <= usize::MAX,
        call_ensures(
            NativeWarpWhirRootProofSystem::<
                'a,
                F,
                EF,
                D,
                C,
            >::verify_direct_batched_root::<RP, OP, E, V, W>,
            (&system, &commitments, &claims, &root_proof, challenger, pow_bits, reduce, check),
            r,
        ),
        well_bound(commitments@, claims@),
        forall|k: int|
            0 <= k < commitments_named(commitments@, claims@).len() ==> can_be_read(
                system.shape(),
                claims@,
                #[trigger] commitments_named(commitments@, claims@)[k],
            ),
        checks_succeed(
            system.shape(),
            commitments_named(commitments@, claims@),
            claims@,
            old(challenger).history(),
            &root_proof,
            pow_bits,
            reduce,
            check,
        ),
    ensures
        r is Ok,
{
    lemma_lengths_fit(system.shape());
    assert(commitments.len() == commitments@.len());
    lemma_verified(
        system.shape(),
        commitments@,
        claims@,
        old(challenger).history(),
        &root_proof,
        pow_bits,
        reduce,
        check,
        r,
        *final(challenger),
    );
}

/// The backend takes what verifying hands it: the check of the reduction takes
/// the statements of the commitments that claims are about, in a transcript that
/// has absorbed these, and the check of the opening takes the groups, the point,
/// the value and the transcript that the check of the reduction gave.
pub open spec fn backend_takes_the_commitments<
    F: TwoAdicField,
    EF: ExtensionField<F>,
    D: Digest,
    C: Challenger<F, EF, D>,
    RP,
    OP,
    E,
    V: FnOnce(Vec<NativeWarpCompactRootStatement<EF>>, &RP, C, usize) -> (
        Result<BatchedLinearSigmaOpeningClaim<EF>, E>,
        C,
    ),
    W: FnOnce(Vec<BatchedOracle<EF, D, D, RootKey<D>>>, Vec<EF>, EF, &OP, C) -> (Result<(), E>, C),
>(
    shape: CodeShape,
    named: Seq<BoundRoot<D>>,
    claims: Seq<RootIopOpeningClaim<F, EF>>,
    before: Seq<TranscriptItem<F, EF, D>>,
    root_proof: &NativeWarpWhirRootBatchedOpeningProof<RP, OP>,
    pow_bits: usize,
    reduce: V,
    check: W,
) -> bool {
    forall|
        statements: Vec<NativeWarpCompactRootStatement<EF>>,
        c: C,
        oracles: Seq<NativeWarpBatchedResidualCommitment<D>>,
    |
        #[trigger] all_read_as(shape, claims, named, views_of(statements@), oracles) && (
        #[trigger] c.history()) == before + items_of_all::<F, EF, D>(named) ==> call_requires(
            reduce,
            (statements, &root_proof.reduction, c, pow_bits),
        ) && forall|
            claim: BatchedLinearSigmaOpeningClaim<EF>,
            d: C,
            g: Vec<BatchedOracle<EF, D, D, RootKey<D>>>,
        |
            #![trigger
                call_ensures(
                    reduce,
                    (statements, &root_proof.reduction, c, pow_bits),
                    (Ok(claim), d),
                ),
                call_requires(check, (g, claim.point, claim.value, &root_proof.opening, d))
            ]
            call_ensures(
                reduce,
                (statements, &root_proof.reduction, c, pow_bits),
                (Ok(claim), d),
            ) && is_grouping_of(oracles, claim.coeffs@, Ok(g)) ==> call_requires(
                check,
                (g, claim.point, claim.value, &root_proof.opening, d),
            )
}

/// Anything may be verified: the backend has to take the commitments only where
/// they can be read. Untrusted commitments and claims need no check beforehand.
pub proof fn anything_may_be_verified<
    'a,
    F: TwoAdicField,
    EF: ExtensionField<F>,
    D: Digest,
    C: Challenger<F, EF, D>,
    RP,
    OP,
    E,
    V: FnOnce(Vec<NativeWarpCompactRootStatement<EF>>, &RP, C, usize) -> (
        Result<BatchedLinearSigmaOpeningClaim<EF>, E>,
        C,
    ),
    W: FnOnce(Vec<BatchedOracle<EF, D, D, RootKey<D>>>, Vec<EF>, EF, &OP, C) -> (Result<(), E>, C),
>(
    system: NativeWarpWhirRootProofSystem<'a, F, EF, D, C>,
    commitments: Vec<BoundRoot<D>>,
    claims: Vec<RootIopOpeningClaim<F, EF>>,
    root_proof: NativeWarpWhirRootProof<RP, OP>,
    challenger: &mut C,
    pow_bits: usize,
    reduce: V,
    check: W,
)
    requires
        system.shape().log_msg_len + system.shape().log_inv_rate <= usize::MAX,
        ({
            let named = commitments_named(commitments@, claims@);
            well_bound(commitments@, claims@) && (forall|k: int|
                0 <= k < named.len() ==> can_be_read(system.shape(), claims@, #[trigger] named[k]))
                ==> backend_takes_the_commitments::<F, EF, D, C, RP, OP, E, V, W>(
                system.shape(),
                named,
                claims@,
                old(challenger).history(),
                &root_proof.opening,
                pow_bits,
                reduce,
                check,
            )
        }),
    ensures
        call_requires(
            NativeWarpWhirRootProofSystem::<
                'a,
                F,
                EF,
                D,
                C,
            >::verify_direct_batched_root::<RP, OP, E, V, W>,
            (
                &system,
                &commitments,
                &claims,
                &root_proof.opening,
                challenger,
                pow_bits,
                reduce,
                check,
            ),
        ),
        call_requires(
            NativeWarpWhirRootProofSystem::<'a, F, EF, D, C>::verify::<RP, OP, E, V, W>,
            (&system, &commitments, &claims, &root_proof, challenger, pow_bits, reduce, check),
        ),
{
    let shape = system.shape();
    let before = old(challenger).history();
    let named = commitments_named(commitments@, claims@);
    let s = verifier_scan::<F, EF, D, E>(shape, commitments@, claims@);
    assert(commitments.len() == commitments@.len());
    lemma_is_scan_of::<F, EF, D, E>(shape, commitments@, claims@);
    commitments_are_absorbed_item_by_item::<F, EF, D>(s.absorbed);
    if let Ok(read) = s.statements {
        let oracles = residual_commitments(named);
        assert forall|k: int| 0 <= k < named.len() implies can_be_read(
            shape,
            claims@,
            #[trigger] named[k],
        ) by {
            assert(is_read_as(shape, claims@, named[k], read[k]));
        }
        assert forall|statements: Vec<NativeWarpCompactRootStatement<EF>>, c: C|
            verification_input(s, before, statements, c) implies #[trigger] call_requires(
            reduce,
            (statements, &root_proof.opening.reduction, c, pow_bits),
        ) by {
            assert(views_of(statements@) =~= statements_of(statements@));
            assert(all_read_as(shape, claims@, named, views_of(statements@), oracles));
        }
        assert forall|
            g: Vec<BatchedOracle<EF, D, D, RootKey<D>>>,
            point: Vec<EF>,
            value: EF,
            d: C,
        |
            check_input(
                s,
                before,
                &root_proof.opening.reduction,
                pow_bits,
                reduce,
                g,
                point,
                value,
                d,
            ) implies #[trigger] call_requires(
            check,
            (g, point, value, &root_proof.opening.opening, d),
        ) by {
            let (statements, c, claim) = choose|
                statements: Vec<NativeWarpCompactRootStatement<EF>>,
                c: C,
                claim: BatchedLinearSigmaOpeningClaim<EF>,
            |
                verification_input(s, before, statements, c) && #[trigger] call_ensures(
                    reduce,
                    (statements, &root_proof.opening.reduction, c, pow_bits),
                    (Ok(claim), d),
                ) && grouping(oracles, claim.coeffs@) == Ok::<
                    Seq<Group<EF, D, D, RootKey<D>>>,
                    LinearSigmaReductionError,
                >(groups_of(g@)) && point == claim.point && value == claim.value;
            assert(views_of(statements@) =~= statements_of(statements@));
            assert(all_read_as(shape, claims@, named, views_of(statements@), oracles));
            assert(claim.coeffs.len() == claim.coeffs@.len());
            lemma_is_grouping_of(oracles, claim.coeffs@, Ok(g));
            let wanted = call_requires(
                check,
                (g, claim.point, claim.value, &root_proof.opening.opening, d),
            );
            assert(wanted);
        }
    }
}

} // verus!
