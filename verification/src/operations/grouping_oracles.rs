//! What grouping oracles gives.

use crate::error::LinearSigmaReductionError;
use crate::field::{all_valid, ExtensionField, Field, TwoAdicField};
use crate::grouped::{columns_fit, grouped, grouping_gives_the_groups, misfit_at};
use crate::grouping::{
    group_oracles, group_position, grouping, grouping_preserves_combination, groups_of, is_group_of,
    lemma_group_position, BatchedOracle, Group, GroupKey, OracleValues, ResidualOracle, RootKey,
};
use crate::proof_system::NativeWarpWhirRootProofSystem;
use crate::transcript::{Challenger, Digest};
use crate::types::{
    NativeWarpBatchedResidualCommitment, NativeWarpBatchedResidualProverOracle, SharedHandle,
};
use vstd::prelude::*;

verus! {

/// Both have the same oracles in the same order, and as many columns; only the
/// coefficients may differ.
spec fn same_skeleton<EF, B, X, K>(
    a: Seq<Group<EF, B, X, K>>,
    b: Seq<Group<EF, B, X, K>>,
) -> bool {
    &&& a.len() == b.len()
    &&& forall|i: int|
        0 <= i < a.len() ==> match (#[trigger] a[i], b[i]) {
            (Group::Base { data: x, .. }, Group::Base { data: y, .. }) => x == y,
            (Group::Extension { data: x, .. }, Group::Extension { data: y, .. }) => x == y,
            (
                Group::SharedBase { data: x, coeffs: c },
                Group::SharedBase { data: y, coeffs: d },
            ) => x == y && c.len() == d.len(),
            _ => false,
        }
}

proof fn lemma_same_position_in_skeleton<EF, B, X, K: GroupKey>(
    a: Seq<Group<EF, B, X, K>>,
    b: Seq<Group<EF, B, X, K>>,
    shared: K,
)
    requires
        same_skeleton(a, b),
    ensures
        group_position(a, shared) == group_position(b, shared),
    decreases a.len(),
{
    if a.len() > 0 {
        let (x, y) = (a.drop_last(), b.drop_last());
        assert(same_skeleton(x, y)) by {
            assert forall|i: int| 0 <= i < x.len() implies match (#[trigger] x[i], y[i]) {
                (Group::Base { data: x, .. }, Group::Base { data: y, .. }) => x == y,
                (Group::Extension { data: x, .. }, Group::Extension { data: y, .. }) => x == y,
                (
                    Group::SharedBase { data: x, coeffs: c },
                    Group::SharedBase { data: y, coeffs: d },
                ) => x == y && c.len() == d.len(),
                _ => false,
            } by {
                assert(a[i] == x[i] && b[i] == y[i]);
            }
        }
        lemma_same_position_in_skeleton(x, y, shared);
        assert(a[a.len() - 1] == a.last() && b[b.len() - 1] == b.last());
    }
}

/// Whether there are groups, and what is reported if not, does not depend on the
/// coefficients.
proof fn lemma_coefficients_do_not_decide<EF: Field, B, X, K: GroupKey>(
    oracles: Seq<ResidualOracle<B, X, K>>,
    a: Seq<EF>,
    b: Seq<EF>,
)
    requires
        a.len() == b.len(),
    ensures
        match (grouping(oracles, a), grouping(oracles, b)) {
            (Ok(x), Ok(y)) => same_skeleton(x, y),
            (Err(x), Err(y)) => x == y,
            _ => false,
        },
    decreases oracles.len(),
{
    if oracles.len() == a.len() && oracles.len() > 0 {
        let rest = oracles.drop_last();
        lemma_coefficients_do_not_decide(rest, a.drop_last(), b.drop_last());
        if let (Ok(x), Ok(y)) = (grouping(rest, a.drop_last()), grouping(rest, b.drop_last())) {
            if let ResidualOracle::SharedBase { shared, column, width } = oracles.last() {
                lemma_same_position_in_skeleton(x, y, shared);
                lemma_group_position(x, shared);
                lemma_group_position(y, shared);
                let p = group_position(x, shared) as int;
                if p < x.len() {
                    assert(is_group_of(x[p], shared) && is_group_of(y[p], shared));
                }
            }
        }
    }
}

/// Every group is one of the given ones, with its coefficients.
pub open spec fn are_groups<EF, B, X, K>(
    v: Seq<BatchedOracle<EF, B, X, K>>,
    groups: Seq<Group<EF, B, X, K>>,
) -> bool {
    &&& v.len() == groups.len()
    &&& forall|i: int|
        0 <= i < v.len() ==> match (#[trigger] v[i], groups[i]) {
            (
                BatchedOracle::Base { coeff, data },
                Group::Base { coeff: k, data: d },
            ) => coeff == k && data == d,
            (
                BatchedOracle::Extension { coeff, data },
                Group::Extension { coeff: k, data: d },
            ) => coeff == k && data == d,
            (
                BatchedOracle::SharedBase { coeffs, data },
                Group::SharedBase { coeffs: k, data: d },
            ) => coeffs@ == k && data == d,
            _ => false,
        }
}

/// The oracles were grouped with the coefficients: there are groups exactly when
/// there are as many coefficients as oracles and all columns fit, and then they
/// are one for each oracle that was committed alone and one for each shared
/// commitment, with the sums of the coefficients; otherwise the first misfit is
/// reported.
pub open spec fn is_grouping_of<EF: Field, B, X, K: GroupKey>(
    oracles: Seq<ResidualOracle<B, X, K>>,
    coeffs: Seq<EF>,
    r: Result<Vec<BatchedOracle<EF, B, X, K>>, LinearSigmaReductionError>,
) -> bool {
    &&& r is Ok <==> oracles.len() == coeffs.len() && columns_fit(oracles)
    &&& match r {
        Ok(v) => all_valid(coeffs) ==> are_groups(v@, grouped(oracles, coeffs)),
        Err(e) => if oracles.len() != coeffs.len() {
            e matches LinearSigmaReductionError::ArityMismatch { expected, actual } && expected
                == oracles.len() && actual == coeffs.len()
        } else {
            exists|i: int| #[trigger] misfit_at(oracles, i, e)
        },
    }
}

pub proof fn lemma_is_grouping_of<EF: Field, B, X, K: GroupKey>(
    oracles: Seq<ResidualOracle<B, X, K>>,
    coeffs: Seq<EF>,
    r: Result<Vec<BatchedOracle<EF, B, X, K>>, LinearSigmaReductionError>,
)
    requires
        oracles.len() <= usize::MAX,
        coeffs.len() <= usize::MAX,
        match grouping(oracles, coeffs) {
            Ok(groups) => r matches Ok(v) && groups_of(v@) == groups,
            Err(e) => r matches Err(found) && found == e,
        },
    ensures
        is_grouping_of(oracles, coeffs, r),
{
    let zero = EF::zero_spec();
    zero.valid_results(zero, 0);
    let zeros = Seq::new(coeffs.len(), |i: int| zero);
    assert(all_valid(zeros));
    lemma_coefficients_do_not_decide(oracles, coeffs, zeros);
    grouping_gives_the_groups(oracles, zeros);
    if all_valid(coeffs) {
        grouping_gives_the_groups(oracles, coeffs);
        if let Ok(v) = r {
            assert(groups_of(v@).len() == v@.len());
            assert forall|i: int| 0 <= i < v@.len() implies groups_of(v@)[i] == (
            #[trigger] v@[i])@ by {}
        }
    }
}

/// Grouping oracles groups them.
pub proof fn oracles_are_grouped<EF: Field, B: Copy, X: Copy, K: GroupKey>(
    oracles: Vec<ResidualOracle<B, X, K>>,
    coeffs: Vec<EF>,
    r: Result<Vec<BatchedOracle<EF, B, X, K>>, LinearSigmaReductionError>,
)
    requires
        call_ensures(group_oracles::<EF, B, X, K>, (&oracles, &coeffs), r),
    ensures
        is_grouping_of(oracles@, coeffs@, r),
{
    assert(oracles.len() == oracles@.len() && coeffs.len() == coeffs@.len());
    lemma_is_grouping_of(oracles@, coeffs@, r);
}

/// Whatever values the oracles have, the groups open the combination of the
/// oracles with their coefficients.
pub proof fn groups_open_the_combination<EF: Field, B: Copy, X: Copy, K: GroupKey>(
    values: OracleValues<EF, B, X, K>,
    oracles: Vec<ResidualOracle<B, X, K>>,
    coeffs: Vec<EF>,
    groups: Vec<BatchedOracle<EF, B, X, K>>,
)
    requires
        call_ensures(group_oracles::<EF, B, X, K>, (&oracles, &coeffs), Ok(groups)),
        values.respects_groups(),
    ensures
        values.total(groups_of(groups@)) == values.combination(oracles@, coeffs@),
{
    grouping_preserves_combination(values, oracles@, coeffs@);
}

/// The prover's oracles are grouped by the allocation of their shared prover
/// data.
pub proof fn prover_oracles_are_grouped<
    'a,
    'b,
    F: TwoAdicField,
    EF: ExtensionField<F>,
    D: Digest,
    C: Challenger<F, EF, D>,
    PB,
    PS,
    PE,
>(
    system: NativeWarpWhirRootProofSystem<'a, F, EF, D, C>,
    oracles: Vec<NativeWarpBatchedResidualProverOracle<'b, PB, PS, PE>>,
    coeffs: Vec<EF>,
    r: Result<
        Vec<BatchedOracle<EF, &'b PB, &'b PE, &'b SharedHandle<PS>>>,
        LinearSigmaReductionError,
    >,
)
    requires
        call_ensures(
            NativeWarpWhirRootProofSystem::<'a, F, EF, D, C>::group_prover_oracles::<PB, PS, PE>,
            (&oracles, &coeffs),
            r,
        ),
    ensures
        is_grouping_of(oracles@, coeffs@, r),
{
    assert(oracles.len() == oracles@.len() && coeffs.len() == coeffs@.len());
    lemma_is_grouping_of(oracles@, coeffs@, r);
}

/// The verifier's oracles are grouped by their shared roots.
pub proof fn verifier_oracles_are_grouped<
    'a,
    F: TwoAdicField,
    EF: ExtensionField<F>,
    D: Digest,
    C: Challenger<F, EF, D>,
>(
    system: NativeWarpWhirRootProofSystem<'a, F, EF, D, C>,
    commitments: Vec<NativeWarpBatchedResidualCommitment<D>>,
    coeffs: Vec<EF>,
    r: Result<Vec<BatchedOracle<EF, D, D, RootKey<D>>>, LinearSigmaReductionError>,
)
    requires
        call_ensures(
            NativeWarpWhirRootProofSystem::<'a, F, EF, D, C>::group_verifier_oracles,
            (&commitments, &coeffs),
            r,
        ),
    ensures
        is_grouping_of(commitments@, coeffs@, r),
{
    assert(commitments.len() == commitments@.len() && coeffs.len() == coeffs@.len());
    lemma_is_grouping_of(commitments@, coeffs@, r);
}

/// Columns belong to the same shared commitment exactly when they have the same
/// root, and for the prover exactly when they have the same allocation.
pub proof fn columns_belong_by_root_and_by_allocation<'b, D: Digest, P>(
    a: RootKey<D>,
    b: RootKey<D>,
    same_root: bool,
    x: &'b SharedHandle<P>,
    y: &'b SharedHandle<P>,
    same_allocation: bool,
)
    requires
        call_ensures(<RootKey<D> as GroupKey>::is_same_group, (a, b), same_root),
        call_ensures(<&'b SharedHandle<P> as GroupKey>::is_same_group, (x, y), same_allocation),
    ensures
        same_root <==> a.root == b.root,
        a.same_group(b) <==> a.root == b.root,
        same_allocation <==> x.address() == y.address(),
        x.same_group(y) <==> x.address() == y.address(),
{
}

} // verus!
