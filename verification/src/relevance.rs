//! What a batch depends on, and what leaves it as it is.

use crate::binding::{all_binding_items, integers_fit, transcript_fixes_commitments};
use crate::claims::{base_statement, extension_statement, NativeWarpCompactRootStatement};
use crate::code::CodeShape;
use crate::compiler::{
    bound_commitments, distinct_ids, distinct_ids_means_no_duplicates, known_oracles,
    known_oracles_means_all_given, public_ids,
};
use crate::error::NativeWarpWhirRootProofError;
use crate::field::{ExtensionField, TwoAdicField};
use crate::laws::prover_and_verifier_agree;
use crate::root_iop::{
    claimed, claims_about, lemma_claims_about_nonempty, RootIopBoundCommitment,
    RootIopOpeningClaim, RootIopOracleValues,
};
use crate::root_prover::{
    find_prover_data, planned_commitments, planned_oracles, prover_batch, prover_oracle,
    reduction_input, statements_of, PlannedOracle,
};
use crate::root_verifier::{committed_statement, scan, verification_input, verifier_scan};
use crate::transcript::{Challenger, TranscriptItem};
use crate::types::{
    BoundRoot, NativeWarpDirectBatchedResidualPoly, NativeWarpWhirRootOracleProverData,
};
use vstd::prelude::*;

verus! {

proof fn lemma_distinct_with_fresh(ids: Seq<usize>, at: int, fresh: usize)
    requires
        0 <= at <= ids.len(),
        !ids.contains(fresh),
    ensures
        distinct_ids(ids.insert(at, fresh)) == distinct_ids(ids),
    decreases ids.len(),
{
    let more = ids.insert(at, fresh);
    if at == ids.len() {
        assert(more.drop_last() =~= ids);
        assert(more.last() == fresh);
    } else {
        let rest = ids.drop_last();
        let id = ids.last();
        assert(ids[ids.len() - 1] == id);
        assert forall|i: int| 0 <= i < rest.len() implies rest[i] != fresh by {
            assert(ids[i] == rest[i]);
        }
        lemma_distinct_with_fresh(rest, at, fresh);
        assert(more.drop_last() =~= rest.insert(at, fresh));
        assert(more.last() == id);
        lemma_contains_with(rest, at, fresh, id);
    }
}

/// Inserting an element leaves it open only for itself whether it is among the
/// elements.
proof fn lemma_contains_with(ids: Seq<usize>, at: int, fresh: usize, id: usize)
    requires
        0 <= at <= ids.len(),
        id != fresh,
    ensures
        ids.insert(at, fresh).contains(id) <==> ids.contains(id),
{
    let more = ids.insert(at, fresh);
    if more.contains(id) {
        let i = choose|i: int| 0 <= i < more.len() && more[i] == id;
        assert(ids[if i < at { i } else { i - 1 }] == id);
    }
    if ids.contains(id) {
        let i = choose|i: int| 0 <= i < ids.len() && ids[i] == id;
        assert(more[if i < at { i } else { i + 1 }] == id);
    }
}

proof fn lemma_known_with_fresh<F, EF>(
    ids: Seq<usize>,
    claims: Seq<RootIopOpeningClaim<F, EF>>,
    at: int,
    fresh: usize,
)
    requires
        0 <= at <= ids.len(),
        !claimed(claims, fresh),
    ensures
        known_oracles(ids.insert(at, fresh), claims) == known_oracles(ids, claims),
    decreases claims.len(),
{
    if claims.len() > 0 {
        let rest = claims.drop_last();
        let id = claims.last().oracle_id;
        assert(claims[claims.len() - 1].oracle_id == id);
        assert(!claimed(rest, fresh)) by {
            assert forall|i: int| 0 <= i < rest.len() implies (#[trigger] rest[i]).oracle_id
                != fresh by {
                assert(claims[i] == rest[i]);
            }
        }
        lemma_known_with_fresh(ids, rest, at, fresh);
        lemma_contains_with(ids, at, fresh, id);
    }
}

proof fn lemma_planned_with_unclaimed<
    'b,
    F: TwoAdicField,
    EF: ExtensionField<F>,
    D,
    C,
    PB,
    PS,
    PE,
    E,
>(
    shape: CodeShape,
    oracles: Seq<(BoundRoot<D>, RootIopOracleValues<F, EF>)>,
    claims: Seq<RootIopOpeningClaim<F, EF>>,
    data: Seq<NativeWarpWhirRootOracleProverData<F, EF, C, PB, PS, PE>>,
    at: int,
    extra: (BoundRoot<D>, RootIopOracleValues<F, EF>),
)
    requires
        0 <= at <= oracles.len(),
        !claimed(claims, extra.0.oracle_id),
    ensures
        planned_oracles::<F, EF, D, C, PB, PS, PE, E>(
            shape,
            oracles.insert(at, extra),
            claims,
            data,
        ) == planned_oracles::<F, EF, D, C, PB, PS, PE, E>(shape, oracles, claims, data),
    decreases oracles.len(),
{
    let more = oracles.insert(at, extra);
    if at == oracles.len() {
        assert(more.drop_last() =~= oracles);
        assert(more.last() == extra);
    } else {
        let rest = oracles.drop_last();
        lemma_planned_with_unclaimed::<F, EF, D, C, PB, PS, PE, E>(
            shape,
            rest,
            claims,
            data,
            at,
            extra,
        );
        assert(more.drop_last() =~= rest.insert(at, extra));
        assert(more.last() == oracles.last());
    }
}

proof fn lemma_unclaimed_oracle<
    'b,
    F: TwoAdicField,
    EF: ExtensionField<F>,
    D,
    C,
    PB,
    PS,
    PE,
    E,
>(
    shape: CodeShape,
    oracles: Seq<(BoundRoot<D>, RootIopOracleValues<F, EF>)>,
    claims: Seq<RootIopOpeningClaim<F, EF>>,
    data: Seq<NativeWarpWhirRootOracleProverData<F, EF, C, PB, PS, PE>>,
    at: int,
    extra: (BoundRoot<D>, RootIopOracleValues<F, EF>),
)
    requires
        0 <= at <= oracles.len(),
        !public_ids(bound_commitments(oracles)).contains(extra.0.oracle_id),
        !claimed(claims, extra.0.oracle_id),
    ensures
        planned_oracles::<F, EF, D, C, PB, PS, PE, E>(
            shape,
            oracles.insert(at, extra),
            claims,
            data,
        ) == planned_oracles::<F, EF, D, C, PB, PS, PE, E>(shape, oracles, claims, data),
        prover_batch::<F, EF, D, C, PB, PS, PE, E>(
            shape,
            oracles.insert(at, extra),
            claims,
            data,
        ) == prover_batch::<F, EF, D, C, PB, PS, PE, E>(shape, oracles, claims, data),
{
    let ids = public_ids(bound_commitments(oracles));
    assert(public_ids(bound_commitments(oracles.insert(at, extra))) =~= ids.insert(
        at,
        extra.0.oracle_id,
    ));
    lemma_distinct_with_fresh(ids, at, extra.0.oracle_id);
    lemma_known_with_fresh(ids, claims, at, extra.0.oracle_id);
    lemma_planned_with_unclaimed::<F, EF, D, C, PB, PS, PE, E>(
        shape,
        oracles,
        claims,
        data,
        at,
        extra,
    );
}

/// The items with others inserted among them, one after the other, each at its
/// position.
pub open spec fn with_inserted<T>(items: Seq<T>, extras: Seq<(int, T)>) -> Seq<T>
    decreases extras.len(),
{
    if extras.len() == 0 {
        items
    } else {
        with_inserted(items, extras.drop_last()).insert(extras.last().0, extras.last().1)
    }
}

/// The positions of insertions exist.
pub open spec fn positions_exist<T>(items: Seq<T>, extras: Seq<(int, T)>) -> bool {
    forall|k: int|
        0 <= k < extras.len() ==> 0 <= (#[trigger] extras[k]).0 <= items.len() + k
}

/// The identifiers are fresh: pairwise different and none of the given ones; and
/// no claim is about them.
pub open spec fn fresh_and_unclaimed<F, EF>(
    ids: Seq<usize>,
    claims: Seq<RootIopOpeningClaim<F, EF>>,
    extras: Seq<usize>,
) -> bool {
    &&& extras.no_duplicates()
    &&& forall|k: int|
        0 <= k < extras.len() ==> !ids.contains(#[trigger] extras[k]) && !claimed(claims, extras[k])
}

/// The commitments that are inserted.
pub open spec fn inserted_commitments<D>(extras: Seq<(int, BoundRoot<D>)>) -> Seq<BoundRoot<D>> {
    Seq::new(extras.len(), |k: int| extras[k].1)
}

/// The commitments of the oracles that are inserted.
pub open spec fn inserted_bound_commitments<F, EF, D>(
    extras: Seq<(int, (BoundRoot<D>, RootIopOracleValues<F, EF>))>,
) -> Seq<BoundRoot<D>> {
    Seq::new(extras.len(), |k: int| extras[k].1.0)
}

proof fn lemma_fresh_prefix<F, EF>(
    ids: Seq<usize>,
    claims: Seq<RootIopOpeningClaim<F, EF>>,
    extras: Seq<usize>,
)
    requires
        fresh_and_unclaimed(ids, claims, extras),
        extras.len() > 0,
    ensures
        fresh_and_unclaimed(ids, claims, extras.drop_last()),
        !extras.drop_last().contains(extras.last()),
        !ids.contains(extras.last()),
        !claimed(claims, extras.last()),
{
    let rest = extras.drop_last();
    assert forall|k: int| 0 <= k < rest.len() implies !ids.contains(#[trigger] rest[k]) && !claimed(
        claims,
        rest[k],
    ) by {
        assert(rest[k] == extras[k]);
    }
    assert(extras[extras.len() - 1] == extras.last());
}

/// What is there after insertions was there before or was inserted.
proof fn lemma_inserted_items<T>(items: Seq<T>, extras: Seq<(int, T)>, x: T)
    requires
        positions_exist(items, extras),
        with_inserted(items, extras).contains(x),
    ensures
        items.contains(x) || exists|k: int| 0 <= k < extras.len() && (#[trigger] extras[k]).1 == x,
    decreases extras.len(),
{
    if extras.len() > 0 {
        let rest = extras.drop_last();
        lemma_positions_prefix(items, extras);
        lemma_inserted_len(items, rest);
        let before = with_inserted(items, rest);
        let (at, extra) = extras.last();
        assert(extras[extras.len() - 1] == extras.last());
        let more = before.insert(at, extra);
        let i = choose|i: int| 0 <= i < more.len() && more[i] == x;
        if i != at {
            assert(before[if i < at { i } else { i - 1 }] == x);
            lemma_inserted_items(items, rest, x);
            if !items.contains(x) {
                let k = choose|k: int| 0 <= k < rest.len() && (#[trigger] rest[k]).1 == x;
                assert(extras[k].1 == x);
            }
        }
    }
}

proof fn lemma_positions_prefix<T>(items: Seq<T>, extras: Seq<(int, T)>)
    requires
        positions_exist(items, extras),
        extras.len() > 0,
    ensures
        positions_exist(items, extras.drop_last()),
{
    let rest = extras.drop_last();
    assert forall|k: int| 0 <= k < rest.len() implies 0 <= (#[trigger] rest[k]).0 <= items.len()
        + k by {
        assert(rest[k] == extras[k]);
    }
}

proof fn lemma_inserted_len<T>(items: Seq<T>, extras: Seq<(int, T)>)
    requires
        positions_exist(items, extras),
    ensures
        with_inserted(items, extras).len() == items.len() + extras.len(),
    decreases extras.len(),
{
    if extras.len() > 0 {
        lemma_positions_prefix(items, extras);
        lemma_inserted_len(items, extras.drop_last());
        assert(extras[extras.len() - 1] == extras.last());
    }
}

/// Oracles that no claim is about have no effect on the batch that is opened:
/// bound anywhere among the oracles, under identifiers of their own, they leave
/// the batch, or the reason why there is none, as it is. They need no prover
/// data, and they need not fit the code.
pub proof fn unclaimed_oracles_do_not_matter<
    'b,
    F: TwoAdicField,
    EF: ExtensionField<F>,
    D,
    C,
    PB,
    PS,
    PE,
    E,
>(
    shape: CodeShape,
    oracles: Seq<(BoundRoot<D>, RootIopOracleValues<F, EF>)>,
    claims: Seq<RootIopOpeningClaim<F, EF>>,
    data: Seq<NativeWarpWhirRootOracleProverData<F, EF, C, PB, PS, PE>>,
    extras: Seq<(int, (BoundRoot<D>, RootIopOracleValues<F, EF>))>,
)
    requires
        positions_exist(oracles, extras),
        fresh_and_unclaimed(
            public_ids(bound_commitments(oracles)),
            claims,
            public_ids(inserted_bound_commitments(extras)),
        ),
    ensures
        planned_oracles::<F, EF, D, C, PB, PS, PE, E>(
            shape,
            with_inserted(oracles, extras),
            claims,
            data,
        ) == planned_oracles::<F, EF, D, C, PB, PS, PE, E>(shape, oracles, claims, data),
        prover_batch::<F, EF, D, C, PB, PS, PE, E>(
            shape,
            with_inserted(oracles, extras),
            claims,
            data,
        ) == prover_batch::<F, EF, D, C, PB, PS, PE, E>(shape, oracles, claims, data),
    decreases extras.len(),
{
    if extras.len() > 0 {
        let rest = extras.drop_last();
        let (at, extra) = extras.last();
        let ids = public_ids(bound_commitments(oracles));
        let extra_ids = public_ids(inserted_bound_commitments(extras));
        let rest_ids = public_ids(inserted_bound_commitments(rest));
        let before = with_inserted(oracles, rest);
        assert(extras[extras.len() - 1] == extras.last());
        assert(extra_ids.drop_last() =~= rest_ids);
        assert(extra_ids.last() == extra.0.oracle_id);
        lemma_fresh_prefix(ids, claims, extra_ids);
        lemma_positions_prefix(oracles, extras);
        lemma_inserted_len(oracles, rest);
        unclaimed_oracles_do_not_matter::<F, EF, D, C, PB, PS, PE, E>(
            shape,
            oracles,
            claims,
            data,
            rest,
        );
        assert forall|i: int| 0 <= i < before.len() implies #[trigger] public_ids(
            bound_commitments(before),
        )[i] != extra.0.oracle_id by {
            assert(before.contains(before[i]));
            lemma_inserted_items(oracles, rest, before[i]);
            if oracles.contains(before[i]) {
                let k = choose|k: int| 0 <= k < oracles.len() && oracles[k] == before[i];
                assert(ids[k] == before[i].0.oracle_id);
            } else {
                let k = choose|k: int| 0 <= k < rest.len() && (#[trigger] rest[k]).1 == before[i];
                assert(rest_ids[k] == before[i].0.oracle_id);
            }
        }
        lemma_unclaimed_oracle::<F, EF, D, C, PB, PS, PE, E>(
            shape,
            before,
            claims,
            data,
            at,
            extra,
        );
    }
}

/// Both lists hold the same prover data of every oracle that a claim is about.
pub open spec fn same_prover_data<F, EF, C, PB, PS, PE>(
    claims: Seq<RootIopOpeningClaim<F, EF>>,
    a: Seq<NativeWarpWhirRootOracleProverData<F, EF, C, PB, PS, PE>>,
    b: Seq<NativeWarpWhirRootOracleProverData<F, EF, C, PB, PS, PE>>,
) -> bool {
    forall|id: usize|
        #[trigger] claimed(claims, id) ==> find_prover_data(a, id) == find_prover_data(b, id)
}

/// Prover data of an oracle that no claim is about is never looked up: it can
/// stand anywhere among the other prover data.
pub proof fn unclaimed_prover_data_is_not_found<F, EF, C, PB, PS, PE>(
    claims: Seq<RootIopOpeningClaim<F, EF>>,
    data: Seq<NativeWarpWhirRootOracleProverData<F, EF, C, PB, PS, PE>>,
    at: int,
    extra: NativeWarpWhirRootOracleProverData<F, EF, C, PB, PS, PE>,
)
    requires
        0 <= at <= data.len(),
        !claimed(claims, extra.oracle_id),
    ensures
        same_prover_data(claims, data.insert(at, extra), data),
{
    assert forall|id: usize| #[trigger] claimed(claims, id) implies find_prover_data(
        data.insert(at, extra),
        id,
    ) == find_prover_data(data, id) by {
        lemma_find_with_other(data, at, extra, id);
    }
}

proof fn lemma_find_with_other<F, EF, C, PB, PS, PE>(
    data: Seq<NativeWarpWhirRootOracleProverData<F, EF, C, PB, PS, PE>>,
    at: int,
    extra: NativeWarpWhirRootOracleProverData<F, EF, C, PB, PS, PE>,
    id: usize,
)
    requires
        0 <= at <= data.len(),
        extra.oracle_id != id,
    ensures
        find_prover_data(data.insert(at, extra), id) == find_prover_data(data, id),
    decreases data.len(),
{
    let more = data.insert(at, extra);
    if at == data.len() {
        assert(more.drop_last() =~= data);
        assert(more.last() == extra);
    } else {
        lemma_find_with_other(data.drop_last(), at, extra, id);
        assert(more.drop_last() =~= data.drop_last().insert(at, extra));
        assert(more.last() == data.last());
    }
}

/// Of the prover data, the batch that is opened depends only on what is held of
/// the oracles that claims are about.
pub proof fn unclaimed_prover_data_does_not_matter<
    'b,
    F: TwoAdicField,
    EF: ExtensionField<F>,
    D,
    C,
    PB,
    PS,
    PE,
    E,
>(
    shape: CodeShape,
    oracles: Seq<(BoundRoot<D>, RootIopOracleValues<F, EF>)>,
    claims: Seq<RootIopOpeningClaim<F, EF>>,
    a: Seq<NativeWarpWhirRootOracleProverData<F, EF, C, PB, PS, PE>>,
    b: Seq<NativeWarpWhirRootOracleProverData<F, EF, C, PB, PS, PE>>,
)
    requires
        same_prover_data(claims, a, b),
    ensures
        planned_oracles::<F, EF, D, C, PB, PS, PE, E>(shape, oracles, claims, a)
            == planned_oracles::<F, EF, D, C, PB, PS, PE, E>(shape, oracles, claims, b),
        prover_batch::<F, EF, D, C, PB, PS, PE, E>(shape, oracles, claims, a)
            == prover_batch::<F, EF, D, C, PB, PS, PE, E>(shape, oracles, claims, b),
    decreases oracles.len(),
{
    if oracles.len() > 0 {
        unclaimed_prover_data_does_not_matter::<F, EF, D, C, PB, PS, PE, E>(
            shape,
            oracles.drop_last(),
            claims,
            a,
            b,
        );
    }
}

proof fn lemma_scan_with_unclaimed<F: TwoAdicField, EF: ExtensionField<F>, D, E>(
    shape: CodeShape,
    commitments: Seq<BoundRoot<D>>,
    claims: Seq<RootIopOpeningClaim<F, EF>>,
    at: int,
    extra: BoundRoot<D>,
)
    requires
        0 <= at <= commitments.len(),
        !claimed(claims, extra.oracle_id),
    ensures
        scan::<F, EF, D, E>(shape, commitments.insert(at, extra), claims) == scan::<F, EF, D, E>(
            shape,
            commitments,
            claims,
        ),
    decreases commitments.len(),
{
    let more = commitments.insert(at, extra);
    if at == commitments.len() {
        assert(more.drop_last() =~= commitments);
        assert(more.last() == extra);
    } else {
        let rest = commitments.drop_last();
        lemma_scan_with_unclaimed::<F, EF, D, E>(shape, rest, claims, at, extra);
        assert(more.drop_last() =~= rest.insert(at, extra));
        assert(more.last() == commitments.last());
    }
}

proof fn lemma_unclaimed_commitment<F: TwoAdicField, EF: ExtensionField<F>, D, E>(
    shape: CodeShape,
    commitments: Seq<BoundRoot<D>>,
    claims: Seq<RootIopOpeningClaim<F, EF>>,
    at: int,
    extra: BoundRoot<D>,
)
    requires
        0 <= at <= commitments.len(),
        !public_ids(commitments).contains(extra.oracle_id),
        !claimed(claims, extra.oracle_id),
    ensures
        verifier_scan::<F, EF, D, E>(shape, commitments.insert(at, extra), claims)
            == verifier_scan::<F, EF, D, E>(shape, commitments, claims),
{
    let ids = public_ids(commitments);
    assert(public_ids(commitments.insert(at, extra)) =~= ids.insert(at, extra.oracle_id));
    lemma_distinct_with_fresh(ids, at, extra.oracle_id);
    lemma_known_with_fresh(ids, claims, at, extra.oracle_id);
    lemma_scan_with_unclaimed::<F, EF, D, E>(shape, commitments, claims, at, extra);
}

/// Commitments that no claim is about have no effect on the verifier: anywhere
/// among the public commitments, under identifiers of their own, they leave what
/// is absorbed and the statements, or the reason why there are none, as they
/// are.
pub proof fn unclaimed_commitments_do_not_matter<F: TwoAdicField, EF: ExtensionField<F>, D, E>(
    shape: CodeShape,
    commitments: Seq<BoundRoot<D>>,
    claims: Seq<RootIopOpeningClaim<F, EF>>,
    extras: Seq<(int, BoundRoot<D>)>,
)
    requires
        positions_exist(commitments, extras),
        fresh_and_unclaimed(
            public_ids(commitments),
            claims,
            public_ids(inserted_commitments(extras)),
        ),
    ensures
        verifier_scan::<F, EF, D, E>(shape, with_inserted(commitments, extras), claims)
            == verifier_scan::<F, EF, D, E>(shape, commitments, claims),
    decreases extras.len(),
{
    if extras.len() > 0 {
        let rest = extras.drop_last();
        let (at, extra) = extras.last();
        let ids = public_ids(commitments);
        let extra_ids = public_ids(inserted_commitments(extras));
        let rest_ids = public_ids(inserted_commitments(rest));
        let before = with_inserted(commitments, rest);
        assert(extras[extras.len() - 1] == extras.last());
        assert(extra_ids.drop_last() =~= rest_ids);
        assert(extra_ids.last() == extra.oracle_id);
        lemma_fresh_prefix(ids, claims, extra_ids);
        lemma_positions_prefix(commitments, extras);
        lemma_inserted_len(commitments, rest);
        unclaimed_commitments_do_not_matter::<F, EF, D, E>(shape, commitments, claims, rest);
        assert forall|i: int| 0 <= i < before.len() implies #[trigger] public_ids(before)[i]
            != extra.oracle_id by {
            assert(before.contains(before[i]));
            lemma_inserted_items(commitments, rest, before[i]);
            if commitments.contains(before[i]) {
                let k = choose|k: int| 0 <= k < commitments.len() && commitments[k] == before[i];
                assert(ids[k] == before[i].oracle_id);
            } else {
                let k = choose|k: int| 0 <= k < rest.len() && (#[trigger] rest[k]).1 == before[i];
                assert(rest_ids[k] == before[i].oracle_id);
            }
        }
        lemma_unclaimed_commitment::<F, EF, D, E>(shape, before, claims, at, extra);
    }
}

/// Both lists hold the same claims about every oracle, in the same order.
pub open spec fn same_claims<F, EF>(
    a: Seq<RootIopOpeningClaim<F, EF>>,
    b: Seq<RootIopOpeningClaim<F, EF>>,
) -> bool {
    forall|id: usize| #[trigger] claims_about(a, id) == claims_about(b, id)
}

/// Where every claim is about a given oracle, that holds of the same claims in
/// another order too; and they are about the same oracles.
pub proof fn lemma_same_claims<F, EF>(
    ids: Seq<usize>,
    a: Seq<RootIopOpeningClaim<F, EF>>,
    b: Seq<RootIopOpeningClaim<F, EF>>,
)
    requires
        same_claims(a, b),
    ensures
        forall|id: usize| #[trigger] claimed(a, id) <==> claimed(b, id),
        known_oracles(ids, a) is Ok ==> known_oracles(ids, b) is Ok,
{
    assert forall|id: usize| #[trigger] claimed(a, id) <==> claimed(b, id) by {
        assert(claims_about(a, id) == claims_about(b, id));
        lemma_claims_about_nonempty(a, id);
        lemma_claims_about_nonempty(b, id);
    }
    known_oracles_means_all_given(ids, a);
    known_oracles_means_all_given(ids, b);
    if known_oracles(ids, a) is Ok {
        assert forall|i: int| 0 <= i < b.len() implies ids.contains(
            (#[trigger] b[i]).oracle_id,
        ) by {
            assert(claimed(b, b[i].oracle_id));
            assert(claimed(a, b[i].oracle_id));
            let k = choose|k: int|
                0 <= k < a.len() && (#[trigger] a[k]).oracle_id == b[i].oracle_id;
            assert(ids.contains(a[k].oracle_id));
        }
    }
}

proof fn lemma_scan_of_same_claims<F: TwoAdicField, EF: ExtensionField<F>, D, E>(
    shape: CodeShape,
    commitments: Seq<BoundRoot<D>>,
    a: Seq<RootIopOpeningClaim<F, EF>>,
    b: Seq<RootIopOpeningClaim<F, EF>>,
)
    requires
        same_claims(a, b),
    ensures
        scan::<F, EF, D, E>(shape, commitments, a) == scan::<F, EF, D, E>(shape, commitments, b),
    decreases commitments.len(),
{
    if commitments.len() > 0 {
        let id = commitments.last().oracle_id;
        lemma_scan_of_same_claims::<F, EF, D, E>(shape, commitments.drop_last(), a, b);
        lemma_same_claims(Seq::empty(), a, b);
        assert(claimed(a, id) <==> claimed(b, id));
        assert(claims_about(a, id) == claims_about(b, id));
        assert(base_statement(shape, a, id) == base_statement(shape, b, id));
        assert(extension_statement(shape, a, id) == extension_statement(shape, b, id));
        assert(committed_statement(shape, a, commitments.last()) == committed_statement(
            shape,
            b,
            commitments.last(),
        ));
    }
}

/// How the claims about different oracles are interleaved has no effect on the
/// verifier: as long as the claims about each oracle keep their order, it
/// absorbs the same and has the same statements, or reports the same error.
/// Every claim has to be about one of the commitments: of several that are not,
/// the first is reported.
pub proof fn interleaving_of_claims_does_not_matter<F: TwoAdicField, EF: ExtensionField<F>, D, E>(
    shape: CodeShape,
    commitments: Seq<BoundRoot<D>>,
    a: Seq<RootIopOpeningClaim<F, EF>>,
    b: Seq<RootIopOpeningClaim<F, EF>>,
)
    requires
        same_claims(a, b),
        known_oracles(public_ids(commitments), a) is Ok,
    ensures
        verifier_scan::<F, EF, D, E>(shape, commitments, a) == verifier_scan::<F, EF, D, E>(
            shape,
            commitments,
            b,
        ),
{
    lemma_same_claims(public_ids(commitments), a, b);
    lemma_scan_of_same_claims::<F, EF, D, E>(shape, commitments, a, b);
}

proof fn lemma_planned_of_same_claims<
    'b,
    F: TwoAdicField,
    EF: ExtensionField<F>,
    D,
    C,
    PB,
    PS,
    PE,
    E,
>(
    shape: CodeShape,
    oracles: Seq<(BoundRoot<D>, RootIopOracleValues<F, EF>)>,
    a: Seq<RootIopOpeningClaim<F, EF>>,
    b: Seq<RootIopOpeningClaim<F, EF>>,
    data: Seq<NativeWarpWhirRootOracleProverData<F, EF, C, PB, PS, PE>>,
)
    requires
        same_claims(a, b),
    ensures
        planned_oracles::<F, EF, D, C, PB, PS, PE, E>(shape, oracles, a, data)
            == planned_oracles::<F, EF, D, C, PB, PS, PE, E>(shape, oracles, b, data),
    decreases oracles.len(),
{
    if oracles.len() > 0 {
        let (commitment, values) = oracles.last();
        let id = commitment.oracle_id;
        lemma_planned_of_same_claims::<F, EF, D, C, PB, PS, PE, E>(
            shape,
            oracles.drop_last(),
            a,
            b,
            data,
        );
        lemma_same_claims(Seq::empty(), a, b);
        assert(claimed(a, id) <==> claimed(b, id));
        assert(claims_about(a, id) == claims_about(b, id));
        assert(base_statement(shape, a, id) == base_statement(shape, b, id));
        assert(extension_statement(shape, a, id) == extension_statement(shape, b, id));
        assert(prover_oracle::<F, EF, D, C, PB, PS, PE, E>(shape, a, data, commitment, values)
            == prover_oracle::<F, EF, D, C, PB, PS, PE, E>(shape, b, data, commitment, values));
    }
}

/// How the claims about different oracles are interleaved has no effect on the
/// batch that is opened either.
pub proof fn interleaving_of_claims_leaves_batch<
    'b,
    F: TwoAdicField,
    EF: ExtensionField<F>,
    D,
    C,
    PB,
    PS,
    PE,
    E,
>(
    shape: CodeShape,
    oracles: Seq<(BoundRoot<D>, RootIopOracleValues<F, EF>)>,
    a: Seq<RootIopOpeningClaim<F, EF>>,
    b: Seq<RootIopOpeningClaim<F, EF>>,
    data: Seq<NativeWarpWhirRootOracleProverData<F, EF, C, PB, PS, PE>>,
)
    requires
        same_claims(a, b),
        known_oracles(public_ids(bound_commitments(oracles)), a) is Ok,
    ensures
        prover_batch::<F, EF, D, C, PB, PS, PE, E>(shape, oracles, a, data) == prover_batch::<
            F,
            EF,
            D,
            C,
            PB,
            PS,
            PE,
            E,
        >(shape, oracles, b, data),
{
    lemma_same_claims(public_ids(bound_commitments(oracles)), a, b);
    lemma_planned_of_same_claims::<F, EF, D, C, PB, PS, PE, E>(shape, oracles, a, b, data);
}

/// The public commitments that claims are about, in order.
pub open spec fn claimed_commitments<F, EF, D>(
    commitments: Seq<BoundRoot<D>>,
    claims: Seq<RootIopOpeningClaim<F, EF>>,
) -> Seq<BoundRoot<D>> {
    commitments.filter(|c: BoundRoot<D>| claimed(claims, c.oracle_id))
}

proof fn lemma_scan_absorbs_claimed<F: TwoAdicField, EF: ExtensionField<F>, D, E>(
    shape: CodeShape,
    commitments: Seq<BoundRoot<D>>,
    claims: Seq<RootIopOpeningClaim<F, EF>>,
)
    ensures
        ({
            let s = scan::<F, EF, D, E>(shape, commitments, claims);
            &&& s.absorbed.is_prefix_of(claimed_commitments(commitments, claims))
            &&& s.statements is Ok ==> s.absorbed == claimed_commitments(commitments, claims)
        }),
    decreases commitments.len(),
{
    reveal(Seq::filter);
    if commitments.len() > 0 {
        let rest = commitments.drop_last();
        lemma_scan_absorbs_claimed::<F, EF, D, E>(shape, rest, claims);
        let before = scan::<F, EF, D, E>(shape, rest, claims).absorbed;
        assert(before.is_prefix_of(claimed_commitments(commitments, claims)));
    }
}

proof fn lemma_claimed_ids_distinct<F, EF, D>(
    commitments: Seq<BoundRoot<D>>,
    claims: Seq<RootIopOpeningClaim<F, EF>>,
)
    requires
        public_ids(commitments).no_duplicates(),
    ensures
        public_ids(claimed_commitments(commitments, claims)).no_duplicates(),
        forall|i: int|
            0 <= i < claimed_commitments(commitments, claims).len() ==> commitments.contains(
                #[trigger] claimed_commitments(commitments, claims)[i],
            ),
    decreases commitments.len(),
{
    reveal(Seq::filter);
    if commitments.len() > 0 {
        let rest = commitments.drop_last();
        let n = commitments.len() - 1;
        let ids = public_ids(commitments);
        assert forall|i: int, j: int| 0 <= i < n && 0 <= j < n && i != j implies public_ids(
            rest,
        )[i] != public_ids(rest)[j] by {
            assert(ids[i] != ids[j]);
        }
        lemma_claimed_ids_distinct(rest, claims);
        let before = claimed_commitments(rest, claims);
        let all = claimed_commitments(commitments, claims);
        assert forall|i: int| 0 <= i < before.len() implies commitments.contains(
            #[trigger] before[i],
        ) && before[i].oracle_id != commitments[n].oracle_id by {
            let k = choose|k: int| 0 <= k < rest.len() && rest[k] == before[i];
            assert(commitments[k] == before[i]);
            assert(ids[k] != ids[n]);
        }
        assert forall|i: int| 0 <= i < all.len() implies commitments.contains(
            #[trigger] all[i],
        ) by {
            if i < before.len() {
                assert(all[i] == before[i]);
            } else {
                assert(all[i] == commitments[n]);
            }
        }
        assert forall|i: int, j: int|
            0 <= i < all.len() && 0 <= j < all.len() && i != j implies public_ids(all)[i]
            != public_ids(all)[j] by {
            if i < before.len() && j < before.len() {
                assert(public_ids(before)[i] != public_ids(before)[j]);
            } else if i < before.len() {
                assert(all[i] == before[i]);
            } else {
                assert(all[j] == before[j]);
            }
        }
    }
}

/// The verifier absorbs the commitments that claims are about, each once and in
/// their order, and no others. Where it stops at one of them, it has absorbed
/// the first of these.
pub proof fn claimed_commitments_are_absorbed<F: TwoAdicField, EF: ExtensionField<F>, D, E>(
    shape: CodeShape,
    commitments: Seq<BoundRoot<D>>,
    claims: Seq<RootIopOpeningClaim<F, EF>>,
)
    ensures
        ({
            let scanned = verifier_scan::<F, EF, D, E>(shape, commitments, claims);
            &&& scanned.absorbed.is_prefix_of(claimed_commitments(commitments, claims))
            &&& scanned.statements is Ok ==> scanned.absorbed == claimed_commitments(
                commitments,
                claims,
            ) && public_ids(scanned.absorbed).no_duplicates()
        }),
{
    distinct_ids_means_no_duplicates(public_ids(commitments));
    lemma_scan_absorbs_claimed::<F, EF, D, E>(shape, commitments, claims);
    if public_ids(commitments).no_duplicates() {
        lemma_claimed_ids_distinct(commitments, claims);
    }
}

/// The prover and the verifier absorb the same before the reduction: the public
/// commitments that claims are about, each once and in their order, with the
/// identifier, the length, the field and the place of each. So what the
/// reduction is handed and what its verifier is handed are the same statements
/// after the same transcript.
pub proof fn prover_and_verifier_absorb_the_same<
    'b,
    F: TwoAdicField,
    EF: ExtensionField<F>,
    D,
    C: Challenger<F, EF, D>,
    PB,
    PS,
    PE,
    E,
>(
    shape: CodeShape,
    oracles: Seq<(BoundRoot<D>, RootIopOracleValues<F, EF>)>,
    claims: Seq<RootIopOpeningClaim<F, EF>>,
    data: Seq<NativeWarpWhirRootOracleProverData<F, EF, C, PB, PS, PE>>,
    planned: Seq<PlannedOracle<'b, F, EF, D, PB, PS, PE>>,
    history: Seq<TranscriptItem<F, EF, D>>,
    proved: Vec<NativeWarpCompactRootStatement<EF>>,
    polys: Vec<NativeWarpDirectBatchedResidualPoly<'b, F, EF>>,
    of_prover: C,
    verified: Vec<NativeWarpCompactRootStatement<EF>>,
    of_verifier: C,
)
    requires
        prover_batch::<F, EF, D, C, PB, PS, PE, E>(shape, oracles, claims, data) == Ok::<
            Seq<PlannedOracle<'b, F, EF, D, PB, PS, PE>>,
            NativeWarpWhirRootProofError<E>,
        >(planned),
        reduction_input(planned, history, proved, polys, of_prover),
        verification_input(
            verifier_scan::<F, EF, D, E>(shape, bound_commitments(oracles), claims),
            history,
            verified,
            of_verifier,
        ),
    ensures
        ({
            let absorbed = claimed_commitments(bound_commitments(oracles), claims);
            &&& public_ids(absorbed).no_duplicates()
            &&& of_prover.history() == history + all_binding_items(absorbed)
            &&& of_verifier.history() == history + all_binding_items(absorbed)
            &&& statements_of(proved@) == statements_of(verified@)
        }),
{
    prover_and_verifier_agree::<F, EF, D, C, PB, PS, PE, E>(shape, oracles, claims, data);
    claimed_commitments_are_absorbed::<F, EF, D, E>(shape, bound_commitments(oracles), claims);
}

/// The public commitments with those of two oracles exchanged.
pub open spec fn with_exchanged<D>(
    commitments: Seq<BoundRoot<D>>,
    i: int,
    j: int,
) -> Seq<BoundRoot<D>> {
    commitments.update(
        i,
        RootIopBoundCommitment { commitment: commitments[j].commitment, ..commitments[i] },
    ).update(
        j,
        RootIopBoundCommitment { commitment: commitments[i].commitment, ..commitments[j] },
    )
}

/// Exchanged commitments are told apart: where the commitments of two oracles
/// that claims are about are exchanged, such as two columns of a stack, the
/// verifier absorbs something else than the prover did, and so draws its
/// challenges in another transcript.
pub proof fn exchanged_commitments_change_the_transcript<
    'b,
    F: TwoAdicField,
    EF: ExtensionField<F>,
    D,
    C,
    PB,
    PS,
    PE,
    E,
>(
    shape: CodeShape,
    oracles: Seq<(BoundRoot<D>, RootIopOracleValues<F, EF>)>,
    claims: Seq<RootIopOpeningClaim<F, EF>>,
    data: Seq<NativeWarpWhirRootOracleProverData<F, EF, C, PB, PS, PE>>,
    planned: Seq<PlannedOracle<'b, F, EF, D, PB, PS, PE>>,
    i: int,
    j: int,
    history: Seq<TranscriptItem<F, EF, D>>,
)
    requires
        prover_batch::<F, EF, D, C, PB, PS, PE, E>(shape, oracles, claims, data) == Ok::<
            Seq<PlannedOracle<'b, F, EF, D, PB, PS, PE>>,
            NativeWarpWhirRootProofError<E>,
        >(planned),
        0 <= i < oracles.len(),
        0 <= j < oracles.len(),
        i != j,
        claimed(claims, oracles[i].0.oracle_id),
        claimed(claims, oracles[j].0.oracle_id),
        oracles[i].0.commitment != oracles[j].0.commitment,
        forall|k: int| 0 <= k < oracles.len() ==> integers_fit::<F, D>((#[trigger] oracles[k]).0),
    ensures
        ({
            let scanned = verifier_scan::<F, EF, D, E>(
                shape,
                with_exchanged(bound_commitments(oracles), i, j),
                claims,
            );
            history + all_binding_items::<F, EF, D>(planned_commitments(planned)) != history
                + all_binding_items::<F, EF, D>(scanned.absorbed)
        }),
{
    let given = bound_commitments(oracles);
    let other = with_exchanged(given, i, j);
    let made = planned_commitments(planned);
    let found = verifier_scan::<F, EF, D, E>(shape, other, claims).absorbed;
    prover_and_verifier_agree::<F, EF, D, C, PB, PS, PE, E>(shape, oracles, claims, data);
    claimed_commitments_are_absorbed::<F, EF, D, E>(shape, given, claims);
    claimed_commitments_are_absorbed::<F, EF, D, E>(shape, other, claims);
    distinct_ids_means_no_duplicates(public_ids(given));
    assert(public_ids(other) =~= public_ids(given));
    lemma_claimed_ids_distinct(given, claims);
    lemma_claimed_ids_distinct(other, claims);
    assert(made == claimed_commitments(given, claims));
    assert forall|k: int| 0 <= k < made.len() implies integers_fit::<F, D>(#[trigger] made[k]) by {
        assert(given.contains(made[k]));
        let t = choose|t: int| 0 <= t < given.len() && given[t] == made[k];
        assert(oracles[t].0 == made[k]);
    }
    assert forall|k: int| 0 <= k < found.len() implies integers_fit::<F, D>(
        #[trigger] found[k],
    ) && found[k] != given[i] by {
        assert(found[k] == claimed_commitments(other, claims)[k]);
        assert(other.contains(found[k]));
        let t = choose|t: int| 0 <= t < other.len() && other[t] == found[k];
        assert(integers_fit::<F, D>(oracles[t].0));
        assert(integers_fit::<F, D>(oracles[i].0) && integers_fit::<F, D>(oracles[j].0));
        assert(public_ids(given)[t] == public_ids(other)[t]);
        if t != i {
            assert(public_ids(given)[t] != public_ids(given)[i]);
        }
    }
    let (s, t) = (
        all_binding_items::<F, EF, D>(made),
        all_binding_items::<F, EF, D>(found),
    );
    if history + s == history + t {
        let n = history.len() as int;
        assert(s =~= (history + s).skip(n));
        assert(t =~= (history + t).skip(n));
        transcript_fixes_commitments::<F, EF, D>(made, found);
        given.lemma_filter_contains(|c: BoundRoot<D>| claimed(claims, c.oracle_id), i);
        assert(made.contains(given[i]));
        let k = choose|k: int| 0 <= k < made.len() && made[k] == given[i];
        assert(found[k] == given[i]);
    }
}

} // verus!
