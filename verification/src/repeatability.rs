//! Proving and verifying give the same again.
//!
//! Whatever the opening backend is, input that makes the same batch leaves what
//! can come out as it is. Whether a proof comes out the same twice rests on the
//! backend. What is asked of it is stated here: from the same input and the same
//! transcript it gives the same and leaves the same transcript. From it follows
//! that the proof system gives the same for all input that makes the same batch.

use crate::acceptance::same_claim;
use crate::claims::NativeWarpCompactRootStatement;
use crate::code::CodeShape;
use crate::compiler::{bound_commitments, distinct_ids, known_oracles, public_ids};
use crate::error::{NativeWarpWhirClaimCompileError, NativeWarpWhirRootProofError};
use crate::field::{ExtensionField, TwoAdicField};
use crate::grouping::{groups_of, grouping, BatchedOracle, RootKey};
use crate::relevance::{
    fresh_and_unclaimed, inserted_bound_commitments, inserted_commitments,
    interleaving_of_claims_does_not_matter, lemma_same_claims, positions_exist, same_claims,
    same_prover_data, unclaimed_commitments_do_not_matter, unclaimed_oracles_do_not_matter,
    unclaimed_prover_data_does_not_matter, with_inserted,
};
use crate::root_iop::{claimed, RootIopOpeningClaim, RootIopOracleValues};
use crate::root_prover::{
    opened_after, planned_oracles, planned_residuals, prover_batch, proving_result,
    reduction_input, root_proving_result, statements_of, wrapped, PlannedOracle,
};
use crate::root_verifier::{
    checked_after, residual_commitments, verification_input, verification_result, verifier_scan,
    Scan,
};
use crate::transcript::{Challenger, Digest, TranscriptItem};
use crate::types::{
    BatchedLinearSigmaOpeningClaim, BoundRoot, NativeWarpDirectBatchedResidualPoly,
    NativeWarpWhirRootBatchedOpeningProof, NativeWarpWhirRootOracleProverData,
    NativeWarpWhirRootProof, SharedHandle,
};
use vstd::prelude::*;

verus! {

/// Two reductions gave the same: the same proof and the same claim, or the same
/// error, and transcripts with the same history.
pub open spec fn same_reduction<F, EF, D, C: Challenger<F, EF, D>, RP, E>(
    a: (Result<(RP, BatchedLinearSigmaOpeningClaim<EF>), E>, C),
    b: (Result<(RP, BatchedLinearSigmaOpeningClaim<EF>), E>, C),
) -> bool {
    &&& a.1.history() == b.1.history()
    &&& match (a.0, b.0) {
        (Ok(x), Ok(y)) => x.0 == y.0 && same_claim(x.1, y.1),
        (Err(x), Err(y)) => x == y,
        _ => false,
    }
}

/// For the same statements and messages, after transcripts with the same
/// history, both reduce alike. A reduction that agrees with itself is
/// deterministic.
pub open spec fn reductions_agree<
    'b,
    F: 'b,
    EF: 'b,
    D,
    C: Challenger<F, EF, D>,
    RP,
    E,
    G1: FnOnce(
        Vec<NativeWarpCompactRootStatement<EF>>,
        Vec<NativeWarpDirectBatchedResidualPoly<'b, F, EF>>,
        C,
        usize,
    ) -> (Result<(RP, BatchedLinearSigmaOpeningClaim<EF>), E>, C),
    G2: FnOnce(
        Vec<NativeWarpCompactRootStatement<EF>>,
        Vec<NativeWarpDirectBatchedResidualPoly<'b, F, EF>>,
        C,
        usize,
    ) -> (Result<(RP, BatchedLinearSigmaOpeningClaim<EF>), E>, C),
>(first: G1, second: G2, pow_bits: usize) -> bool {
    forall|
        s: Vec<NativeWarpCompactRootStatement<EF>>,
        p: Vec<NativeWarpDirectBatchedResidualPoly<'b, F, EF>>,
        c: C,
        a: (Result<(RP, BatchedLinearSigmaOpeningClaim<EF>), E>, C),
        t: Vec<NativeWarpCompactRootStatement<EF>>,
        q: Vec<NativeWarpDirectBatchedResidualPoly<'b, F, EF>>,
        d: C,
        b: (Result<(RP, BatchedLinearSigmaOpeningClaim<EF>), E>, C),
    |
        #[trigger] call_ensures(first, (s, p, c, pow_bits), a) && #[trigger] call_ensures(
            second,
            (t, q, d, pow_bits),
            b,
        ) && statements_of(s@) == statements_of(t@) && p@ == q@ && c.history() == d.history()
            ==> same_reduction(a, b)
}

/// For the same groups, at the same point with the same value, after
/// transcripts with the same history, both open alike.
pub open spec fn openings_agree<
    'b,
    F,
    EF,
    D,
    C: Challenger<F, EF, D>,
    PB: 'b,
    PS: 'b,
    PE: 'b,
    OP,
    E,
    H1: FnOnce(
        Vec<BatchedOracle<EF, &'b PB, &'b PE, &'b SharedHandle<PS>>>,
        Vec<EF>,
        EF,
        C,
    ) -> (Result<OP, E>, C),
    H2: FnOnce(
        Vec<BatchedOracle<EF, &'b PB, &'b PE, &'b SharedHandle<PS>>>,
        Vec<EF>,
        EF,
        C,
    ) -> (Result<OP, E>, C),
>(first: H1, second: H2) -> bool {
    forall|
        g: Vec<BatchedOracle<EF, &'b PB, &'b PE, &'b SharedHandle<PS>>>,
        x: Vec<EF>,
        v: EF,
        c: C,
        a: (Result<OP, E>, C),
        h: Vec<BatchedOracle<EF, &'b PB, &'b PE, &'b SharedHandle<PS>>>,
        y: Vec<EF>,
        d: C,
        b: (Result<OP, E>, C),
    |
        #[trigger] call_ensures(first, (g, x, v, c), a) && #[trigger] call_ensures(
            second,
            (h, y, v, d),
            b,
        ) && groups_of(g@) == groups_of(h@) && x@ == y@ && c.history() == d.history() ==> a.0 == b.0
            && a.1.history() == b.1.history()
}

/// Proving the same batch again, after the same transcript and with a
/// deterministic backend, gives the same proof or the same error, and leaves
/// the same transcript.
pub proof fn proving_is_repeatable<
    'b,
    F: TwoAdicField,
    EF: ExtensionField<F>,
    D,
    C: Challenger<F, EF, D>,
    PB,
    PS,
    PE,
    RP,
    OP,
    E,
    G1: FnOnce(
        Vec<NativeWarpCompactRootStatement<EF>>,
        Vec<NativeWarpDirectBatchedResidualPoly<'b, F, EF>>,
        C,
        usize,
    ) -> (Result<(RP, BatchedLinearSigmaOpeningClaim<EF>), E>, C),
    G2: FnOnce(
        Vec<NativeWarpCompactRootStatement<EF>>,
        Vec<NativeWarpDirectBatchedResidualPoly<'b, F, EF>>,
        C,
        usize,
    ) -> (Result<(RP, BatchedLinearSigmaOpeningClaim<EF>), E>, C),
    H1: FnOnce(
        Vec<BatchedOracle<EF, &'b PB, &'b PE, &'b SharedHandle<PS>>>,
        Vec<EF>,
        EF,
        C,
    ) -> (Result<OP, E>, C),
    H2: FnOnce(
        Vec<BatchedOracle<EF, &'b PB, &'b PE, &'b SharedHandle<PS>>>,
        Vec<EF>,
        EF,
        C,
    ) -> (Result<OP, E>, C),
>(
    batch: Result<Seq<PlannedOracle<'b, F, EF, D, PB, PS, PE>>, NativeWarpWhirRootProofError<E>>,
    history: Seq<TranscriptItem<F, EF, D>>,
    pow_bits: usize,
    reduce: G1,
    open: H1,
    r: Result<NativeWarpWhirRootBatchedOpeningProof<RP, OP>, NativeWarpWhirRootProofError<E>>,
    after: C,
    reduce_again: G2,
    open_again: H2,
    again: Result<NativeWarpWhirRootBatchedOpeningProof<RP, OP>, NativeWarpWhirRootProofError<E>>,
    after_again: C,
)
    requires
        proving_result(batch, history, pow_bits, reduce, open, r, after),
        proving_result(
            batch,
            history,
            pow_bits,
            reduce_again,
            open_again,
            again,
            after_again,
        ),
        reductions_agree::<F, EF, D, C, RP, E, G1, G2>(reduce, reduce_again, pow_bits),
        openings_agree::<F, EF, D, C, PB, PS, PE, OP, E, H1, H2>(open, open_again),
    ensures
        r == again,
        after.history() == after_again.history(),
{
    if let Ok(planned) = batch {
        let (s, p, c, a) = choose|
            s: Vec<NativeWarpCompactRootStatement<EF>>,
            p: Vec<NativeWarpDirectBatchedResidualPoly<'b, F, EF>>,
            c: C,
            a: (Result<(RP, BatchedLinearSigmaOpeningClaim<EF>), E>, C),
        |
            reduction_input(planned, history, s, p, c) && #[trigger] call_ensures(
                reduce,
                (s, p, c, pow_bits),
                a,
            ) && opened_after(planned, a, open, r, after);
        let (t, q, d, b) = choose|
            t: Vec<NativeWarpCompactRootStatement<EF>>,
            q: Vec<NativeWarpDirectBatchedResidualPoly<'b, F, EF>>,
            d: C,
            b: (Result<(RP, BatchedLinearSigmaOpeningClaim<EF>), E>, C),
        |
            reduction_input(planned, history, t, q, d) && #[trigger] call_ensures(
                reduce_again,
                (t, q, d, pow_bits),
                b,
            ) && opened_after(planned, b, open_again, again, after_again);
        assert(same_reduction(a, b));
        if let Ok((reduction, claim)) = a.0 {
            let (again_reduction, again_claim) = b.0->Ok_0;
            if let Ok(groups) = grouping(planned_residuals(planned), claim.coeffs@) {
                let (g, x) = choose|
                    g: Vec<BatchedOracle<EF, &'b PB, &'b PE, &'b SharedHandle<PS>>>,
                    x: (Result<OP, E>, C),
                |
                    groups_of(g@) == groups && #[trigger] call_ensures(
                        open,
                        (g, claim.point, claim.value, a.1),
                        x,
                    ) && after == x.1 && r == match x.0 {
                        Ok(opening) => Ok(
                            NativeWarpWhirRootBatchedOpeningProof { reduction, opening },
                        ),
                        Err(e) => Err(NativeWarpWhirRootProofError::BatchedOpening(e)),
                    };
                let (h, y) = choose|
                    h: Vec<BatchedOracle<EF, &'b PB, &'b PE, &'b SharedHandle<PS>>>,
                    y: (Result<OP, E>, C),
                |
                    groups_of(h@) == groups && #[trigger] call_ensures(
                        open_again,
                        (h, again_claim.point, again_claim.value, b.1),
                        y,
                    ) && after_again == y.1 && again == match y.0 {
                        Ok(opening) => Ok(
                            NativeWarpWhirRootBatchedOpeningProof {
                                reduction: again_reduction,
                                opening,
                            },
                        ),
                        Err(e) => Err(NativeWarpWhirRootProofError::BatchedOpening(e)),
                    };
                assert(x.0 == y.0);
            }
        }
    }
}

/// What no claim is about has no effect on what can come out of proving,
/// whatever the backend is: with oracles bound anywhere, under identifiers of
/// their own, that no claim is about, and with any prover data of oracles that
/// no claim is about, exactly the same results and transcripts are possible.
pub proof fn unclaimed_input_leaves_what_proving_gives<
    'b,
    F: TwoAdicField + 'b,
    EF: ExtensionField<F> + 'b,
    D,
    C: Challenger<F, EF, D>,
    PB: 'b,
    PS: 'b,
    PE: 'b,
    RP,
    OP,
    E,
    G: FnOnce(
        Vec<NativeWarpCompactRootStatement<EF>>,
        Vec<NativeWarpDirectBatchedResidualPoly<'b, F, EF>>,
        C,
        usize,
    ) -> (Result<(RP, BatchedLinearSigmaOpeningClaim<EF>), E>, C),
    H: FnOnce(
        Vec<BatchedOracle<EF, &'b PB, &'b PE, &'b SharedHandle<PS>>>,
        Vec<EF>,
        EF,
        C,
    ) -> (Result<OP, E>, C),
>(
    shape: CodeShape,
    oracles: Seq<(BoundRoot<D>, RootIopOracleValues<F, EF>)>,
    claims: Seq<RootIopOpeningClaim<F, EF>>,
    data: Seq<NativeWarpWhirRootOracleProverData<F, EF, C, PB, PS, PE>>,
    extras: Seq<(int, (BoundRoot<D>, RootIopOracleValues<F, EF>))>,
    more_data: Seq<NativeWarpWhirRootOracleProverData<F, EF, C, PB, PS, PE>>,
    history: Seq<TranscriptItem<F, EF, D>>,
    pow_bits: usize,
    reduce: G,
    open: H,
    r: Result<NativeWarpWhirRootBatchedOpeningProof<RP, OP>, NativeWarpWhirRootProofError<E>>,
    after: C,
)
    requires
        positions_exist(oracles, extras),
        fresh_and_unclaimed(
            public_ids(bound_commitments(oracles)),
            claims,
            public_ids(inserted_bound_commitments(extras)),
        ),
        same_prover_data(claims, data, more_data),
    ensures
        proving_result(
            prover_batch::<F, EF, D, C, PB, PS, PE, E>(
                shape,
                with_inserted(oracles, extras),
                claims,
                more_data,
            ),
            history,
            pow_bits,
            reduce,
            open,
            r,
            after,
        ) <==> proving_result(
            prover_batch::<F, EF, D, C, PB, PS, PE, E>(shape, oracles, claims, data),
            history,
            pow_bits,
            reduce,
            open,
            r,
            after,
        ),
{
    unclaimed_oracles_do_not_matter::<F, EF, D, C, PB, PS, PE, E>(
        shape,
        oracles,
        claims,
        more_data,
        extras,
    );
    unclaimed_prover_data_does_not_matter::<F, EF, D, C, PB, PS, PE, E>(
        shape,
        oracles,
        claims,
        data,
        more_data,
    );
}

/// What no claim is about has no effect on the proof: with oracles bound
/// anywhere, under identifiers of their own, that no claim is about, and with
/// any prover data of oracles that no claim is about, a deterministic backend
/// leads to the same proof or the same error, and to the same transcript.
pub proof fn unclaimed_input_leaves_the_proof<
    'b,
    F: TwoAdicField + 'b,
    EF: ExtensionField<F> + 'b,
    D,
    C: Challenger<F, EF, D>,
    PB: 'b,
    PS: 'b,
    PE: 'b,
    RP,
    OP,
    E,
    G1: FnOnce(
        Vec<NativeWarpCompactRootStatement<EF>>,
        Vec<NativeWarpDirectBatchedResidualPoly<'b, F, EF>>,
        C,
        usize,
    ) -> (Result<(RP, BatchedLinearSigmaOpeningClaim<EF>), E>, C),
    G2: FnOnce(
        Vec<NativeWarpCompactRootStatement<EF>>,
        Vec<NativeWarpDirectBatchedResidualPoly<'b, F, EF>>,
        C,
        usize,
    ) -> (Result<(RP, BatchedLinearSigmaOpeningClaim<EF>), E>, C),
    H1: FnOnce(
        Vec<BatchedOracle<EF, &'b PB, &'b PE, &'b SharedHandle<PS>>>,
        Vec<EF>,
        EF,
        C,
    ) -> (Result<OP, E>, C),
    H2: FnOnce(
        Vec<BatchedOracle<EF, &'b PB, &'b PE, &'b SharedHandle<PS>>>,
        Vec<EF>,
        EF,
        C,
    ) -> (Result<OP, E>, C),
>(
    shape: CodeShape,
    oracles: Seq<(BoundRoot<D>, RootIopOracleValues<F, EF>)>,
    claims: Seq<RootIopOpeningClaim<F, EF>>,
    data: Seq<NativeWarpWhirRootOracleProverData<F, EF, C, PB, PS, PE>>,
    extras: Seq<(int, (BoundRoot<D>, RootIopOracleValues<F, EF>))>,
    more_data: Seq<NativeWarpWhirRootOracleProverData<F, EF, C, PB, PS, PE>>,
    history: Seq<TranscriptItem<F, EF, D>>,
    pow_bits: usize,
    reduce: G1,
    open: H1,
    r: Result<NativeWarpWhirRootBatchedOpeningProof<RP, OP>, NativeWarpWhirRootProofError<E>>,
    after: C,
    reduce_again: G2,
    open_again: H2,
    again: Result<NativeWarpWhirRootBatchedOpeningProof<RP, OP>, NativeWarpWhirRootProofError<E>>,
    after_again: C,
)
    requires
        positions_exist(oracles, extras),
        fresh_and_unclaimed(
            public_ids(bound_commitments(oracles)),
            claims,
            public_ids(inserted_bound_commitments(extras)),
        ),
        same_prover_data(claims, data, more_data),
        proving_result(
            prover_batch::<F, EF, D, C, PB, PS, PE, E>(shape, oracles, claims, data),
            history,
            pow_bits,
            reduce,
            open,
            r,
            after,
        ),
        proving_result(
            prover_batch::<F, EF, D, C, PB, PS, PE, E>(
                shape,
                with_inserted(oracles, extras),
                claims,
                more_data,
            ),
            history,
            pow_bits,
            reduce_again,
            open_again,
            again,
            after_again,
        ),
        reductions_agree::<F, EF, D, C, RP, E, G1, G2>(reduce, reduce_again, pow_bits),
        openings_agree::<F, EF, D, C, PB, PS, PE, OP, E, H1, H2>(open, open_again),
    ensures
        r == again,
        after.history() == after_again.history(),
{
    unclaimed_oracles_do_not_matter::<F, EF, D, C, PB, PS, PE, E>(
        shape,
        oracles,
        claims,
        more_data,
        extras,
    );
    unclaimed_prover_data_does_not_matter::<F, EF, D, C, PB, PS, PE, E>(
        shape,
        oracles,
        claims,
        data,
        more_data,
    );
    proving_is_repeatable(
        prover_batch::<F, EF, D, C, PB, PS, PE, E>(shape, oracles, claims, data),
        history,
        pow_bits,
        reduce,
        open,
        r,
        after,
        reduce_again,
        open_again,
        again,
        after_again,
    );
}

/// A root proof is nothing but the direct batched opening, wrapped: with a
/// deterministic backend both come out the same, an error too, and both leave
/// the same transcript.
pub proof fn root_proof_is_the_wrapped_opening<
    'b,
    F: TwoAdicField,
    EF: ExtensionField<F>,
    D,
    C: Challenger<F, EF, D>,
    PB,
    PS,
    PE,
    RP,
    OP,
    E,
    G1: FnOnce(
        Vec<NativeWarpCompactRootStatement<EF>>,
        Vec<NativeWarpDirectBatchedResidualPoly<'b, F, EF>>,
        C,
        usize,
    ) -> (Result<(RP, BatchedLinearSigmaOpeningClaim<EF>), E>, C),
    G2: FnOnce(
        Vec<NativeWarpCompactRootStatement<EF>>,
        Vec<NativeWarpDirectBatchedResidualPoly<'b, F, EF>>,
        C,
        usize,
    ) -> (Result<(RP, BatchedLinearSigmaOpeningClaim<EF>), E>, C),
    H1: FnOnce(
        Vec<BatchedOracle<EF, &'b PB, &'b PE, &'b SharedHandle<PS>>>,
        Vec<EF>,
        EF,
        C,
    ) -> (Result<OP, E>, C),
    H2: FnOnce(
        Vec<BatchedOracle<EF, &'b PB, &'b PE, &'b SharedHandle<PS>>>,
        Vec<EF>,
        EF,
        C,
    ) -> (Result<OP, E>, C),
>(
    batch: Result<Seq<PlannedOracle<'b, F, EF, D, PB, PS, PE>>, NativeWarpWhirRootProofError<E>>,
    history: Seq<TranscriptItem<F, EF, D>>,
    pow_bits: usize,
    reduce: G1,
    open: H1,
    r: Result<NativeWarpWhirRootProof<RP, OP>, NativeWarpWhirRootProofError<E>>,
    after: C,
    reduce_again: G2,
    open_again: H2,
    direct: Result<NativeWarpWhirRootBatchedOpeningProof<RP, OP>, NativeWarpWhirRootProofError<E>>,
    after_direct: C,
)
    requires
        root_proving_result(batch, history, pow_bits, reduce, open, r, after),
        proving_result(
            batch,
            history,
            pow_bits,
            reduce_again,
            open_again,
            direct,
            after_direct,
        ),
        reductions_agree::<F, EF, D, C, RP, E, G1, G2>(reduce, reduce_again, pow_bits),
        openings_agree::<F, EF, D, C, PB, PS, PE, OP, E, H1, H2>(open, open_again),
    ensures
        r == wrapped(direct),
        after.history() == after_direct.history(),
{
    let opened = choose|
        opened: Result<
            NativeWarpWhirRootBatchedOpeningProof<RP, OP>,
            NativeWarpWhirRootProofError<E>,
        >,
    | #[trigger]
        proving_result(batch, history, pow_bits, reduce, open, opened, after) && r == wrapped(
            opened,
        );
    proving_is_repeatable(
        batch,
        history,
        pow_bits,
        reduce,
        open,
        opened,
        after,
        reduce_again,
        open_again,
        direct,
        after_direct,
    );
}

proof fn lemma_nothing_planned<
    'b,
    F: TwoAdicField,
    EF: ExtensionField<F>,
    D,
    C,
    PB,
    PS,
    PE,
    E,
>(
    shape: CodeShape,
    oracles: Seq<(BoundRoot<D>, RootIopOracleValues<F, EF>)>,
    claims: Seq<RootIopOpeningClaim<F, EF>>,
    data: Seq<NativeWarpWhirRootOracleProverData<F, EF, C, PB, PS, PE>>,
)
    requires
        claims.len() == 0,
    ensures
        planned_oracles::<F, EF, D, C, PB, PS, PE, E>(shape, oracles, claims, data) == Ok::<
            Seq<PlannedOracle<'b, F, EF, D, PB, PS, PE>>,
            NativeWarpWhirRootProofError<E>,
        >(Seq::empty()),
    decreases oracles.len(),
{
    if oracles.len() > 0 {
        lemma_nothing_planned::<F, EF, D, C, PB, PS, PE, E>(
            shape,
            oracles.drop_last(),
            claims,
            data,
        );
    }
}

/// Without claims there is nothing to prove: where the identifiers are pairwise
/// different, the direct batched opening and the root proof are both refused as
/// those of an empty oracle, and nothing is absorbed.
pub proof fn no_claims_are_refused<
    'b,
    F: TwoAdicField + 'b,
    EF: ExtensionField<F> + 'b,
    D,
    C: Challenger<F, EF, D>,
    PB: 'b,
    PS: 'b,
    PE: 'b,
    RP,
    OP,
    E,
    G1: FnOnce(
        Vec<NativeWarpCompactRootStatement<EF>>,
        Vec<NativeWarpDirectBatchedResidualPoly<'b, F, EF>>,
        C,
        usize,
    ) -> (Result<(RP, BatchedLinearSigmaOpeningClaim<EF>), E>, C),
    G2: FnOnce(
        Vec<NativeWarpCompactRootStatement<EF>>,
        Vec<NativeWarpDirectBatchedResidualPoly<'b, F, EF>>,
        C,
        usize,
    ) -> (Result<(RP, BatchedLinearSigmaOpeningClaim<EF>), E>, C),
    H1: FnOnce(
        Vec<BatchedOracle<EF, &'b PB, &'b PE, &'b SharedHandle<PS>>>,
        Vec<EF>,
        EF,
        C,
    ) -> (Result<OP, E>, C),
    H2: FnOnce(
        Vec<BatchedOracle<EF, &'b PB, &'b PE, &'b SharedHandle<PS>>>,
        Vec<EF>,
        EF,
        C,
    ) -> (Result<OP, E>, C),
>(
    shape: CodeShape,
    oracles: Seq<(BoundRoot<D>, RootIopOracleValues<F, EF>)>,
    claims: Seq<RootIopOpeningClaim<F, EF>>,
    data: Seq<NativeWarpWhirRootOracleProverData<F, EF, C, PB, PS, PE>>,
    history: Seq<TranscriptItem<F, EF, D>>,
    pow_bits: usize,
    reduce: G1,
    open: H1,
    r: Result<NativeWarpWhirRootProof<RP, OP>, NativeWarpWhirRootProofError<E>>,
    after: C,
    reduce_again: G2,
    open_again: H2,
    direct: Result<NativeWarpWhirRootBatchedOpeningProof<RP, OP>, NativeWarpWhirRootProofError<E>>,
    after_direct: C,
)
    requires
        claims.len() == 0,
        distinct_ids(public_ids(bound_commitments(oracles))) is Ok,
        root_proving_result(
            prover_batch::<F, EF, D, C, PB, PS, PE, E>(shape, oracles, claims, data),
            history,
            pow_bits,
            reduce,
            open,
            r,
            after,
        ),
        proving_result(
            prover_batch::<F, EF, D, C, PB, PS, PE, E>(shape, oracles, claims, data),
            history,
            pow_bits,
            reduce_again,
            open_again,
            direct,
            after_direct,
        ),
    ensures
        r == Err::<NativeWarpWhirRootProof<RP, OP>, NativeWarpWhirRootProofError<E>>(
            NativeWarpWhirRootProofError::ClaimCompile(
                NativeWarpWhirClaimCompileError::EmptyOracle(usize::MAX),
            ),
        ),
        direct == Err::<
            NativeWarpWhirRootBatchedOpeningProof<RP, OP>,
            NativeWarpWhirRootProofError<E>,
        >(
            NativeWarpWhirRootProofError::ClaimCompile(
                NativeWarpWhirClaimCompileError::EmptyOracle(usize::MAX),
            ),
        ),
        after.history() == history,
        after_direct.history() == history,
{
    lemma_nothing_planned::<F, EF, D, C, PB, PS, PE, E>(shape, oracles, claims, data);
}

/// Two checks of a reduction gave the same: the same claim or the same error,
/// and transcripts with the same history.
pub open spec fn same_checked_reduction<F, EF, D, C: Challenger<F, EF, D>, E>(
    a: (Result<BatchedLinearSigmaOpeningClaim<EF>, E>, C),
    b: (Result<BatchedLinearSigmaOpeningClaim<EF>, E>, C),
) -> bool {
    &&& a.1.history() == b.1.history()
    &&& match (a.0, b.0) {
        (Ok(x), Ok(y)) => same_claim(x, y),
        (Err(x), Err(y)) => x == y,
        _ => false,
    }
}

/// For the same statements, after transcripts with the same history, both check
/// the same reduction alike.
pub open spec fn reduction_checks_agree<
    F,
    EF,
    D,
    C: Challenger<F, EF, D>,
    RP,
    E,
    V1: FnOnce(Vec<NativeWarpCompactRootStatement<EF>>, &RP, C, usize) -> (
        Result<BatchedLinearSigmaOpeningClaim<EF>, E>,
        C,
    ),
    V2: FnOnce(Vec<NativeWarpCompactRootStatement<EF>>, &RP, C, usize) -> (
        Result<BatchedLinearSigmaOpeningClaim<EF>, E>,
        C,
    ),
>(first: V1, second: V2, reduction: &RP, pow_bits: usize) -> bool {
    forall|
        s: Vec<NativeWarpCompactRootStatement<EF>>,
        c: C,
        a: (Result<BatchedLinearSigmaOpeningClaim<EF>, E>, C),
        t: Vec<NativeWarpCompactRootStatement<EF>>,
        d: C,
        b: (Result<BatchedLinearSigmaOpeningClaim<EF>, E>, C),
    |
        #[trigger] call_ensures(first, (s, reduction, c, pow_bits), a) && #[trigger] call_ensures(
            second,
            (t, reduction, d, pow_bits),
            b,
        ) && statements_of(s@) == statements_of(t@) && c.history() == d.history()
            ==> same_checked_reduction(a, b)
}

/// For the same groups, at the same point with the same value, after
/// transcripts with the same history, both check the same opening alike.
pub open spec fn opening_checks_agree<
    F,
    EF,
    D,
    C: Challenger<F, EF, D>,
    OP,
    E,
    W1: FnOnce(Vec<BatchedOracle<EF, D, D, RootKey<D>>>, Vec<EF>, EF, &OP, C) -> (Result<(), E>, C),
    W2: FnOnce(Vec<BatchedOracle<EF, D, D, RootKey<D>>>, Vec<EF>, EF, &OP, C) -> (Result<(), E>, C),
>(first: W1, second: W2, opening: &OP) -> bool {
    forall|
        g: Vec<BatchedOracle<EF, D, D, RootKey<D>>>,
        x: Vec<EF>,
        v: EF,
        c: C,
        a: (Result<(), E>, C),
        h: Vec<BatchedOracle<EF, D, D, RootKey<D>>>,
        y: Vec<EF>,
        d: C,
        b: (Result<(), E>, C),
    |
        #[trigger] call_ensures(first, (g, x, v, opening, c), a) && #[trigger] call_ensures(
            second,
            (h, y, v, opening, d),
            b,
        ) && groups_of(g@) == groups_of(h@) && x@ == y@ && c.history() == d.history() ==> a.0 == b.0
            && a.1.history() == b.1.history()
}

/// Verifying the same again, after the same transcript and with a deterministic
/// backend, gives the same outcome and leaves the same transcript.
pub proof fn verifying_is_repeatable<
    F: TwoAdicField,
    EF: ExtensionField<F>,
    D: Digest,
    C: Challenger<F, EF, D>,
    RP,
    OP,
    E,
    V1: FnOnce(Vec<NativeWarpCompactRootStatement<EF>>, &RP, C, usize) -> (
        Result<BatchedLinearSigmaOpeningClaim<EF>, E>,
        C,
    ),
    V2: FnOnce(Vec<NativeWarpCompactRootStatement<EF>>, &RP, C, usize) -> (
        Result<BatchedLinearSigmaOpeningClaim<EF>, E>,
        C,
    ),
    W1: FnOnce(Vec<BatchedOracle<EF, D, D, RootKey<D>>>, Vec<EF>, EF, &OP, C) -> (Result<(), E>, C),
    W2: FnOnce(Vec<BatchedOracle<EF, D, D, RootKey<D>>>, Vec<EF>, EF, &OP, C) -> (Result<(), E>, C),
>(
    scanned: Scan<EF, D, E>,
    history: Seq<TranscriptItem<F, EF, D>>,
    root_proof: &NativeWarpWhirRootBatchedOpeningProof<RP, OP>,
    pow_bits: usize,
    reduce: V1,
    check: W1,
    r: Result<(), NativeWarpWhirRootProofError<E>>,
    after: C,
    reduce_again: V2,
    check_again: W2,
    again: Result<(), NativeWarpWhirRootProofError<E>>,
    after_again: C,
)
    requires
        verification_result(
            scanned,
            history,
            root_proof,
            pow_bits,
            reduce,
            check,
            r,
            after,
        ),
        verification_result(
            scanned,
            history,
            root_proof,
            pow_bits,
            reduce_again,
            check_again,
            again,
            after_again,
        ),
        reduction_checks_agree::<F, EF, D, C, RP, E, V1, V2>(
            reduce,
            reduce_again,
            &root_proof.reduction,
            pow_bits,
        ),
        opening_checks_agree::<F, EF, D, C, OP, E, W1, W2>(
            check,
            check_again,
            &root_proof.opening,
        ),
    ensures
        r == again,
        after.history() == after_again.history(),
{
    if scanned.statements is Ok {
        let (s, c, a) = choose|
            s: Vec<NativeWarpCompactRootStatement<EF>>,
            c: C,
            a: (Result<BatchedLinearSigmaOpeningClaim<EF>, E>, C),
        |
            verification_input(scanned, history, s, c) && #[trigger] call_ensures(
                reduce,
                (s, &root_proof.reduction, c, pow_bits),
                a,
            ) && checked_after(scanned.absorbed, a, &root_proof.opening, check, r, after);
        let (t, d, b) = choose|
            t: Vec<NativeWarpCompactRootStatement<EF>>,
            d: C,
            b: (Result<BatchedLinearSigmaOpeningClaim<EF>, E>, C),
        |
            verification_input(scanned, history, t, d) && #[trigger] call_ensures(
                reduce_again,
                (t, &root_proof.reduction, d, pow_bits),
                b,
            ) && checked_after(
                scanned.absorbed,
                b,
                &root_proof.opening,
                check_again,
                again,
                after_again,
            );
        assert(same_checked_reduction(a, b));
        if let Ok(claim) = a.0 {
            let again_claim = b.0->Ok_0;
            if let Ok(groups) = grouping(residual_commitments(scanned.absorbed), claim.coeffs@) {
                let (g, x) = choose|
                    g: Vec<BatchedOracle<EF, D, D, RootKey<D>>>,
                    x: (Result<(), E>, C),
                |
                    groups_of(g@) == groups && #[trigger] call_ensures(
                        check,
                        (g, claim.point, claim.value, &root_proof.opening, a.1),
                        x,
                    ) && after == x.1 && r == match x.0 {
                        Ok(()) => Ok(()),
                        Err(e) => Err(NativeWarpWhirRootProofError::BatchedOpening(e)),
                    };
                let (h, y) = choose|
                    h: Vec<BatchedOracle<EF, D, D, RootKey<D>>>,
                    y: (Result<(), E>, C),
                |
                    groups_of(h@) == groups && #[trigger] call_ensures(
                        check_again,
                        (h, again_claim.point, again_claim.value, &root_proof.opening, b.1),
                        y,
                    ) && after_again == y.1 && again == match y.0 {
                        Ok(()) => Ok(()),
                        Err(e) => Err(NativeWarpWhirRootProofError::BatchedOpening(e)),
                    };
                assert(x.0 == y.0);
            }
        }
    }
}

/// What no claim is about, and how the claims about different oracles are
/// interleaved, has no effect on the scan of the public commitments.
proof fn lemma_scan_of_irrelevant_input<F: TwoAdicField, EF: ExtensionField<F>, D, E>(
    shape: CodeShape,
    commitments: Seq<BoundRoot<D>>,
    claims: Seq<RootIopOpeningClaim<F, EF>>,
    extras: Seq<(int, BoundRoot<D>)>,
    reordered: Seq<RootIopOpeningClaim<F, EF>>,
)
    requires
        positions_exist(commitments, extras),
        fresh_and_unclaimed(
            public_ids(commitments),
            claims,
            public_ids(inserted_commitments(extras)),
        ),
        same_claims(claims, reordered),
        known_oracles(public_ids(commitments), claims) is Ok,
    ensures
        verifier_scan::<F, EF, D, E>(shape, with_inserted(commitments, extras), reordered)
            == verifier_scan::<F, EF, D, E>(shape, commitments, claims),
{
    interleaving_of_claims_does_not_matter::<F, EF, D, E>(shape, commitments, claims, reordered);
    lemma_same_claims(public_ids(commitments), claims, reordered);
    let ids = public_ids(inserted_commitments(extras));
    assert forall|k: int| 0 <= k < ids.len() implies !public_ids(commitments).contains(
        #[trigger] ids[k],
    ) && !claimed(reordered, ids[k]) by {
        assert(claimed(claims, ids[k]) <==> claimed(reordered, ids[k]));
    }
    unclaimed_commitments_do_not_matter::<F, EF, D, E>(shape, commitments, reordered, extras);
}

/// What no claim is about, and how the claims about different oracles are
/// interleaved, has no effect on what can come out of verifying, whatever the
/// backend is: with commitments anywhere, under identifiers of their own, that
/// no claim is about, and with the claims in another order that keeps those
/// about each oracle in theirs, exactly the same results and transcripts are
/// possible.
pub proof fn irrelevant_input_leaves_what_verifying_gives<
    F: TwoAdicField,
    EF: ExtensionField<F>,
    D: Digest,
    C: Challenger<F, EF, D>,
    RP,
    OP,
    E,
    V: FnOnce(Vec<NativeWarpCompactRootStatement<EF>>, &RP, C, usize) -> (
        Result<BatchedLinearSigmaOpeningClaim<EF>, E>,
        C,
    ),
    W: FnOnce(Vec<BatchedOracle<EF, D, D, RootKey<D>>>, Vec<EF>, EF, &OP, C) -> (Result<(), E>, C),
>(
    shape: CodeShape,
    commitments: Seq<BoundRoot<D>>,
    claims: Seq<RootIopOpeningClaim<F, EF>>,
    extras: Seq<(int, BoundRoot<D>)>,
    reordered: Seq<RootIopOpeningClaim<F, EF>>,
    history: Seq<TranscriptItem<F, EF, D>>,
    root_proof: &NativeWarpWhirRootBatchedOpeningProof<RP, OP>,
    pow_bits: usize,
    reduce: V,
    check: W,
    r: Result<(), NativeWarpWhirRootProofError<E>>,
    after: C,
)
    requires
        positions_exist(commitments, extras),
        fresh_and_unclaimed(
            public_ids(commitments),
            claims,
            public_ids(inserted_commitments(extras)),
        ),
        same_claims(claims, reordered),
        known_oracles(public_ids(commitments), claims) is Ok,
    ensures
        verification_result(
            verifier_scan::<F, EF, D, E>(shape, with_inserted(commitments, extras), reordered),
            history,
            root_proof,
            pow_bits,
            reduce,
            check,
            r,
            after,
        ) <==> verification_result(
            verifier_scan::<F, EF, D, E>(shape, commitments, claims),
            history,
            root_proof,
            pow_bits,
            reduce,
            check,
            r,
            after,
        ),
{
    lemma_scan_of_irrelevant_input::<F, EF, D, E>(shape, commitments, claims, extras, reordered);
}

/// What no claim is about, and how the claims about different oracles are
/// interleaved, has no effect on the outcome: with commitments anywhere, under
/// identifiers of their own, that no claim is about, and with the claims in
/// another order that keeps those about each oracle in theirs, a deterministic
/// backend leads to the same outcome and to the same transcript.
pub proof fn irrelevant_input_leaves_the_outcome<
    F: TwoAdicField,
    EF: ExtensionField<F>,
    D: Digest,
    C: Challenger<F, EF, D>,
    RP,
    OP,
    E,
    V1: FnOnce(Vec<NativeWarpCompactRootStatement<EF>>, &RP, C, usize) -> (
        Result<BatchedLinearSigmaOpeningClaim<EF>, E>,
        C,
    ),
    V2: FnOnce(Vec<NativeWarpCompactRootStatement<EF>>, &RP, C, usize) -> (
        Result<BatchedLinearSigmaOpeningClaim<EF>, E>,
        C,
    ),
    W1: FnOnce(Vec<BatchedOracle<EF, D, D, RootKey<D>>>, Vec<EF>, EF, &OP, C) -> (Result<(), E>, C),
    W2: FnOnce(Vec<BatchedOracle<EF, D, D, RootKey<D>>>, Vec<EF>, EF, &OP, C) -> (Result<(), E>, C),
>(
    shape: CodeShape,
    commitments: Seq<BoundRoot<D>>,
    claims: Seq<RootIopOpeningClaim<F, EF>>,
    extras: Seq<(int, BoundRoot<D>)>,
    reordered: Seq<RootIopOpeningClaim<F, EF>>,
    history: Seq<TranscriptItem<F, EF, D>>,
    root_proof: &NativeWarpWhirRootBatchedOpeningProof<RP, OP>,
    pow_bits: usize,
    reduce: V1,
    check: W1,
    r: Result<(), NativeWarpWhirRootProofError<E>>,
    after: C,
    reduce_again: V2,
    check_again: W2,
    again: Result<(), NativeWarpWhirRootProofError<E>>,
    after_again: C,
)
    requires
        positions_exist(commitments, extras),
        fresh_and_unclaimed(
            public_ids(commitments),
            claims,
            public_ids(inserted_commitments(extras)),
        ),
        same_claims(claims, reordered),
        known_oracles(public_ids(commitments), claims) is Ok,
        verification_result(
            verifier_scan::<F, EF, D, E>(shape, commitments, claims),
            history,
            root_proof,
            pow_bits,
            reduce,
            check,
            r,
            after,
        ),
        verification_result(
            verifier_scan::<F, EF, D, E>(shape, with_inserted(commitments, extras), reordered),
            history,
            root_proof,
            pow_bits,
            reduce_again,
            check_again,
            again,
            after_again,
        ),
        reduction_checks_agree::<F, EF, D, C, RP, E, V1, V2>(
            reduce,
            reduce_again,
            &root_proof.reduction,
            pow_bits,
        ),
        opening_checks_agree::<F, EF, D, C, OP, E, W1, W2>(
            check,
            check_again,
            &root_proof.opening,
        ),
    ensures
        r == again,
        after.history() == after_again.history(),
{
    lemma_scan_of_irrelevant_input::<F, EF, D, E>(shape, commitments, claims, extras, reordered);
    verifying_is_repeatable(
        verifier_scan::<F, EF, D, E>(shape, commitments, claims),
        history,
        root_proof,
        pow_bits,
        reduce,
        check,
        r,
        after,
        reduce_again,
        check_again,
        again,
        after_again,
    );
}

} // verus!
