//! What the groups of a batch are, all at once.
//!
//! Grouping goes through the oracles one by one. Here it is stated what comes
//! out: which batches have groups, which groups these are, in which order, and
//! with which coefficients.

use crate::error::LinearSigmaReductionError;
use crate::field::{all_valid, Field};
use crate::grouping::{
    group_position, grouping, is_group_of, lemma_group_position, Group, GroupKey,
    ResidualOracle,
};
use crate::multilinear::one_column;
use vstd::prelude::*;

verus! {

/// Both oracles are columns of the same shared commitment.
pub open spec fn same_commitment<B, X, K: GroupKey>(
    a: ResidualOracle<B, X, K>,
    b: ResidualOracle<B, X, K>,
) -> bool {
    a is SharedBase && b is SharedBase && a->shared.same_group(b->shared)
}

/// Every column is one of its commitment, and all columns of one commitment
/// give it the same width.
pub open spec fn columns_fit<B, X, K: GroupKey>(oracles: Seq<ResidualOracle<B, X, K>>) -> bool {
    &&& forall|i: int|
        0 <= i < oracles.len() && (#[trigger] oracles[i]) is SharedBase ==> oracles[i]->column
            < oracles[i]->width
    &&& forall|i: int, j: int|
        #![trigger oracles[i], oracles[j]]
        0 <= i < oracles.len() && 0 <= j < oracles.len() && same_commitment(oracles[i], oracles[j])
            ==> oracles[i]->width == oracles[j]->width
}

/// No earlier oracle is a column of the same shared commitment. That holds of
/// every oracle that was committed alone.
pub open spec fn is_first<B, X, K: GroupKey>(
    oracles: Seq<ResidualOracle<B, X, K>>,
    i: int,
) -> bool {
    forall|j: int| 0 <= j < i ==> !same_commitment(#[trigger] oracles[j], oracles[i])
}

/// The places of the oracles of whose commitment there is none before them, in
/// order.
pub open spec fn first_places<B, X, K: GroupKey>(oracles: Seq<ResidualOracle<B, X, K>>) -> Seq<
    int,
>
    decreases oracles.len(),
{
    if oracles.len() == 0 {
        Seq::empty()
    } else if is_first(oracles, oracles.len() - 1) {
        first_places(oracles.drop_last()).push(oracles.len() - 1)
    } else {
        first_places(oracles.drop_last())
    }
}

/// The sum of the coefficients that are given for one column of a shared
/// commitment; zero if none is.
pub open spec fn column_sum<EF: Field, B, X, K: GroupKey>(
    oracles: Seq<ResidualOracle<B, X, K>>,
    coeffs: Seq<EF>,
    shared: K,
    column: int,
) -> EF
    decreases oracles.len(),
{
    if oracles.len() == 0 {
        EF::zero_spec()
    } else {
        let rest = column_sum(oracles.drop_last(), coeffs.drop_last(), shared, column);
        let last = oracles.last();
        if last is SharedBase && last->shared.same_group(shared) && last->column == column {
            rest.add_spec(coeffs.last())
        } else {
            rest
        }
    }
}

/// The group of an oracle of whose commitment there is none before it: itself
/// with its coefficient, or its shared commitment with the sum of the
/// coefficients for every column.
pub open spec fn group_at<EF: Field, B, X, K: GroupKey>(
    oracles: Seq<ResidualOracle<B, X, K>>,
    coeffs: Seq<EF>,
    i: int,
) -> Group<EF, B, X, K> {
    match oracles[i] {
        ResidualOracle::Base(data) => Group::Base { coeff: coeffs[i], data },
        ResidualOracle::Extension(data) => Group::Extension { coeff: coeffs[i], data },
        ResidualOracle::SharedBase { shared, width, .. } => Group::SharedBase {
            coeffs: Seq::new(width as nat, |c: int| column_sum(oracles, coeffs, shared, c)),
            data: shared,
        },
    }
}

/// The groups of a batch: one for each oracle that was committed alone and one
/// for each shared commitment, at the place of its first column.
pub open spec fn grouped<EF: Field, B, X, K: GroupKey>(
    oracles: Seq<ResidualOracle<B, X, K>>,
    coeffs: Seq<EF>,
) -> Seq<Group<EF, B, X, K>> {
    Seq::new(
        first_places(oracles).len(),
        |g: int| group_at(oracles, coeffs, first_places(oracles)[g]),
    )
}

/// The error for the first oracle that does not fit those before it: its column
/// is none of its commitment, or an earlier column gives the commitment another
/// width.
pub open spec fn misfit_at<B, X, K: GroupKey>(
    oracles: Seq<ResidualOracle<B, X, K>>,
    i: int,
    e: LinearSigmaReductionError,
) -> bool {
    let (column, width) = (oracles[i]->column, oracles[i]->width);
    &&& 0 <= i < oracles.len()
    &&& columns_fit(oracles.take(i))
    &&& oracles[i] is SharedBase
    &&& if column >= width {
        e == (LinearSigmaReductionError::ArityMismatch {
            expected: width,
            actual: if column < usize::MAX {
                (column + 1) as usize
            } else {
                column
            },
        })
    } else {
        exists|j: int|
            0 <= j < i && same_commitment(#[trigger] oracles[j], oracles[i]) && oracles[j]->width
                != width && e == (LinearSigmaReductionError::ArityMismatch {
                expected: width,
                actual: oracles[j]->width,
            })
    }
}

/// The places of the groups stand in order, they are the places of the oracles
/// of whose commitment there is none before them, and every oracle is that of a
/// group or a column of the commitment of one.
pub proof fn first_places_are_first<B, X, K: GroupKey>(oracles: Seq<ResidualOracle<B, X, K>>)
    ensures
        forall|g: int, h: int|
            #![trigger first_places(oracles)[g], first_places(oracles)[h]]
            0 <= g < h < first_places(oracles).len() ==> first_places(oracles)[g] < first_places(
                oracles,
            )[h],
        forall|g: int|
            0 <= g < first_places(oracles).len() ==> 0 <= #[trigger] first_places(oracles)[g]
                < oracles.len() && is_first(oracles, first_places(oracles)[g]),
        forall|i: int|
            0 <= i < oracles.len() && #[trigger] is_first(oracles, i) ==> first_places(
                oracles,
            ).contains(i),
        forall|i: int|
            0 <= i < oracles.len() ==> exists|g: int|
                0 <= g < first_places(oracles).len() && (#[trigger] first_places(oracles)[g] == i
                    || same_commitment(
                    oracles[first_places(oracles)[g]],
                    #[trigger] oracles[i],
                )),
    decreases oracles.len(),
{
    if oracles.len() > 0 {
        let n = oracles.len() - 1;
        let rest = oracles.drop_last();
        let (before, all) = (first_places(rest), first_places(oracles));
        first_places_are_first(rest);
        assert forall|i: int| 0 <= i < n implies (#[trigger] is_first(oracles, i) <==> is_first(
            rest,
            i,
        )) by {
            assert(oracles[i] == rest[i]);
            assert(forall|j: int| 0 <= j < i ==> #[trigger] oracles[j] == rest[j]);
            assert(forall|j: int| 0 <= j < i ==> #[trigger] rest[j] == oracles[j]);
        }
        assert forall|g: int| 0 <= g < all.len() implies 0 <= #[trigger] all[g] < oracles.len()
            && is_first(oracles, all[g]) by {
            if g < before.len() {
                assert(all[g] == before[g]);
                assert(is_first(rest, before[g]));
                assert(is_first(oracles, before[g]) <==> is_first(rest, before[g]));
            }
        }
        assert forall|g: int, h: int|
            #![trigger all[g], all[h]]
            0 <= g < h < all.len() implies all[g] < all[h] by {
            assert(all[g] == before[g]);
            if h < before.len() {
                assert(all[h] == before[h]);
            }
        }
        assert forall|i: int| 0 <= i < oracles.len() && #[trigger] is_first(
            oracles,
            i,
        ) implies all.contains(i) by {
            if i < n {
                assert(is_first(rest, i));
                let g = choose|g: int| 0 <= g < before.len() && before[g] == i;
                assert(all[g] == i);
            } else {
                assert(all[all.len() - 1] == i);
            }
        }
        assert forall|i: int| 0 <= i < oracles.len() implies exists|g: int|
            0 <= g < all.len() && (#[trigger] all[g] == i || same_commitment(
                oracles[all[g]],
                #[trigger] oracles[i],
            )) by {
            if i < n {
                assert(rest[i] == oracles[i]);
                let g = choose|g: int|
                    0 <= g < before.len() && (#[trigger] before[g] == i || same_commitment(
                        rest[before[g]],
                        rest[i],
                    ));
                assert(all[g] == before[g]);
                assert(rest[before[g]] == oracles[before[g]]);
            } else if is_first(oracles, n) {
                assert(all[all.len() - 1] == n);
            } else {
                let j = choose|j: int|
                    0 <= j < n && same_commitment(#[trigger] oracles[j], oracles[n]);
                assert(rest[j] == oracles[j]);
                let g = choose|g: int|
                    0 <= g < before.len() && (#[trigger] before[g] == j || same_commitment(
                        rest[before[g]],
                        rest[j],
                    ));
                assert(all[g] == before[g]);
                assert(rest[before[g]] == oracles[before[g]]);
                if before[g] != j {
                    K::same_group_is_equivalence(
                        oracles[before[g]]->shared,
                        oracles[j]->shared,
                        oracles[n]->shared,
                    );
                }
            }
        }
    }
}

/// Where no coefficient is given for a column of a shared commitment, its
/// coefficient is zero.
pub proof fn unused_columns_have_coefficient_zero<EF: Field, B, X, K: GroupKey>(
    oracles: Seq<ResidualOracle<B, X, K>>,
    coeffs: Seq<EF>,
    shared: K,
    column: int,
)
    requires
        forall|i: int|
            0 <= i < oracles.len() && (#[trigger] oracles[i]) is SharedBase
                && oracles[i]->shared.same_group(shared) ==> oracles[i]->column != column,
    ensures
        column_sum(oracles, coeffs, shared, column) == EF::zero_spec(),
    decreases oracles.len(),
{
    if oracles.len() > 0 {
        let rest = oracles.drop_last();
        assert(oracles[oracles.len() - 1] == oracles.last());
        assert forall|i: int|
            0 <= i < rest.len() && (#[trigger] rest[i]) is SharedBase
                && rest[i]->shared.same_group(shared) implies rest[i]->column != column by {
            assert(oracles[i] == rest[i]);
        }
        unused_columns_have_coefficient_zero(rest, coeffs.drop_last(), shared, column);
    }
}

/// The groups of a batch with one more oracle of a commitment of which there
/// was none before.
proof fn lemma_grouped_first<EF: Field, B, X, K: GroupKey>(
    oracles: Seq<ResidualOracle<B, X, K>>,
    coeffs: Seq<EF>,
)
    requires
        oracles.len() > 0,
        oracles.len() == coeffs.len(),
        is_first(oracles, oracles.len() - 1),
    ensures
        grouped(oracles, coeffs) == grouped(oracles.drop_last(), coeffs.drop_last()).push(
            group_at(oracles, coeffs, oracles.len() - 1),
        ),
{
    let n = oracles.len() - 1;
    let (rest, k) = (oracles.drop_last(), coeffs.drop_last());
    let before = first_places(rest);
    first_places_are_first(rest);
    assert forall|g: int| 0 <= g < before.len() implies #[trigger] grouped(oracles, coeffs)[g]
        == grouped(rest, k)[g] by {
        let i = before[g];
        assert(first_places(oracles)[g] == i);
        assert(rest[i] == oracles[i] && k[i] == coeffs[i]);
        if let ResidualOracle::SharedBase { shared, width, .. } = oracles[i] {
            assert(!same_commitment(oracles[i], oracles[n]));
            if oracles[n] is SharedBase {
                K::same_group_is_equivalence(oracles[n]->shared, shared, shared);
            }
            assert(Seq::new(width as nat, |c: int| column_sum(oracles, coeffs, shared, c))
                =~= Seq::new(width as nat, |c: int| column_sum(rest, k, shared, c)));
        }
    }
    assert(grouped(oracles, coeffs) =~= grouped(rest, k).push(group_at(oracles, coeffs, n)));
}

/// The groups of a batch with one more column of a commitment whose group
/// stands at `p`.
proof fn lemma_grouped_again<EF: Field, B, X, K: GroupKey>(
    oracles: Seq<ResidualOracle<B, X, K>>,
    coeffs: Seq<EF>,
    p: int,
)
    requires
        oracles.len() > 0,
        oracles.len() == coeffs.len(),
        !is_first(oracles, oracles.len() - 1),
        0 <= p < first_places(oracles).len(),
        same_commitment(oracles[first_places(oracles)[p]], oracles.last()),
        oracles.last()->column < oracles[first_places(oracles)[p]]->width,
    ensures
        ({
            let before = grouped(oracles.drop_last(), coeffs.drop_last());
            let column = oracles.last()->column as int;
            &&& before[p] is SharedBase
            &&& before.len() == first_places(oracles).len()
            &&& grouped(oracles, coeffs) == before.update(
                p,
                Group::SharedBase {
                    coeffs: before[p]->coeffs.update(
                        column,
                        before[p]->coeffs[column].add_spec(coeffs.last()),
                    ),
                    data: before[p]->SharedBase_data,
                },
            )
        }),
{
    let n = oracles.len() - 1;
    let (rest, k) = (oracles.drop_last(), coeffs.drop_last());
    let places = first_places(rest);
    let before = grouped(rest, k);
    let (last, column) = (oracles.last(), oracles.last()->column as int);
    first_places_are_first(rest);
    let ours = rest[places[p]]->shared;
    let updated = before.update(
        p,
        Group::SharedBase {
            coeffs: before[p]->coeffs.update(
                column,
                before[p]->coeffs[column].add_spec(coeffs.last()),
            ),
            data: before[p]->SharedBase_data,
        },
    );
    assert(oracles[places[p]] == rest[places[p]]);
    K::same_group_is_equivalence(ours, last->shared, last->shared);
    assert forall|g: int| 0 <= g < places.len() implies #[trigger] grouped(oracles, coeffs)[g]
        == updated[g] by {
        let i = places[g];
        assert(rest[i] == oracles[i] && k[i] == coeffs[i]);
        if let ResidualOracle::SharedBase { shared, width, .. } = oracles[i] {
            let now = Seq::new(width as nat, |c: int| column_sum(oracles, coeffs, shared, c));
            let earlier = Seq::new(width as nat, |c: int| column_sum(rest, k, shared, c));
            if g == p {
                assert(now =~= earlier.update(column, earlier[column].add_spec(coeffs.last())));
            } else {
                K::same_group_is_equivalence(shared, last->shared, ours);
                K::same_group_is_equivalence(last->shared, ours, ours);
                K::same_group_is_equivalence(last->shared, shared, ours);
                K::same_group_is_equivalence(ours, shared, shared);
                K::same_group_is_equivalence(ours, last->shared, shared);
                if last->shared.same_group(shared) {
                    assert(same_commitment(rest[i], rest[places[p]]));
                    assert(same_commitment(rest[places[p]], rest[i]));
                    if g < p {
                        assert(is_first(rest, places[p]));
                        assert(places[g] < places[p]);
                    } else {
                        assert(is_first(rest, places[g]));
                        assert(places[p] < places[g]);
                    }
                    assert(false);
                }
                assert(now =~= earlier);
            }
        }
    }
    assert(grouped(oracles, coeffs) =~= updated);
}

/// Where a group stands is known from the oracles: that of a column at the place
/// of the first column of its commitment, or behind all groups where there is
/// none.
proof fn lemma_position_in_grouped<EF: Field, B, X, K: GroupKey>(
    oracles: Seq<ResidualOracle<B, X, K>>,
    coeffs: Seq<EF>,
)
    requires
        oracles.len() > 0,
        oracles.len() == coeffs.len(),
        oracles.last() is SharedBase,
    ensures
        ({
            let before = grouped(oracles.drop_last(), coeffs.drop_last());
            let p = group_position(before, oracles.last()->shared) as int;
            &&& p == before.len() <==> is_first(oracles, oracles.len() - 1)
            &&& p < before.len() ==> same_commitment(
                oracles[first_places(oracles.drop_last())[p]],
                oracles.last(),
            )
        }),
{
    let n = oracles.len() - 1;
    let (rest, k) = (oracles.drop_last(), coeffs.drop_last());
    let before = grouped(rest, k);
    let places = first_places(rest);
    let shared = oracles.last()->shared;
    let p = group_position(before, shared) as int;
    first_places_are_first(rest);
    lemma_group_position(before, shared);
    assert forall|g: int| 0 <= g < before.len() implies (is_group_of(
        #[trigger] before[g],
        shared,
    ) <==> same_commitment(oracles[places[g]], oracles[n])) by {
        assert(rest[places[g]] == oracles[places[g]]);
    }
    if p < before.len() {
        assert(is_group_of(before[p], shared));
        assert(same_commitment(oracles[places[p]], oracles[n]));
        assert(!is_first(oracles, n));
    } else if !is_first(oracles, n) {
        let j = choose|j: int| 0 <= j < n && same_commitment(#[trigger] oracles[j], oracles[n]);
        assert(rest[j] == oracles[j]);
        let g = choose|g: int|
            0 <= g < places.len() && (#[trigger] places[g] == j || same_commitment(
                rest[places[g]],
                rest[j],
            ));
        assert(rest[places[g]] == oracles[places[g]]);
        if places[g] != j {
            K::same_group_is_equivalence(oracles[places[g]]->shared, oracles[j]->shared, shared);
        }
        assert(is_group_of(before[g], shared));
    }
}

proof fn lemma_fit_of_rest<B, X, K: GroupKey>(oracles: Seq<ResidualOracle<B, X, K>>)
    requires
        oracles.len() > 0,
    ensures
        columns_fit(oracles) ==> columns_fit(oracles.drop_last()),
        !(oracles.last() is SharedBase) && columns_fit(oracles.drop_last()) ==> columns_fit(
            oracles,
        ),
        is_first(oracles, oracles.len() - 1) && oracles.last() is SharedBase
            && oracles.last()->column < oracles.last()->width && columns_fit(oracles.drop_last())
            ==> columns_fit(oracles),
        forall|i: int|
            0 <= i < oracles.len() - 1 && oracles.last()->column < oracles.last()->width
                && same_commitment(#[trigger] oracles[i], oracles.last()) && oracles[i]->width
                == oracles.last()->width && columns_fit(oracles.drop_last()) ==> columns_fit(
                oracles,
            ),
{
    let n = oracles.len() - 1;
    let rest = oracles.drop_last();
    assert(oracles[n] == oracles.last());
    assert(forall|i: int| 0 <= i < n ==> #[trigger] oracles[i] == rest[i]);
    assert(forall|i: int| 0 <= i < n ==> #[trigger] rest[i] == oracles[i]);
    let ours = oracles[n]->shared;
    if is_first(oracles, n) && columns_fit(rest) {
        assert forall|i: int, j: int|
            #![trigger oracles[i], oracles[j]]
            0 <= i <= n && 0 <= j <= n && same_commitment(
                oracles[i],
                oracles[j],
            ) implies oracles[i]->width == oracles[j]->width by {
            K::same_group_is_equivalence(oracles[i]->shared, oracles[j]->shared, ours);
            if i < n && j < n {
                assert(same_commitment(rest[i], rest[j]));
            } else if i < n {
                assert(!same_commitment(oracles[i], oracles[n]));
            } else if j < n {
                assert(!same_commitment(oracles[j], oracles[n]));
            }
        }
    }
    assert forall|k: int|
        0 <= k < n && oracles[n]->column < oracles[n]->width && same_commitment(
            #[trigger] oracles[k],
            oracles[n],
        ) && oracles[k]->width == oracles[n]->width && columns_fit(rest) implies columns_fit(
        oracles,
    ) by {
        let first = oracles[k]->shared;
        assert forall|i: int, j: int|
            #![trigger oracles[i], oracles[j]]
            0 <= i <= n && 0 <= j <= n && same_commitment(
                oracles[i],
                oracles[j],
            ) implies oracles[i]->width == oracles[j]->width by {
            let (a, b) = (oracles[i]->shared, oracles[j]->shared);
            K::same_group_is_equivalence(first, ours, ours);
            K::same_group_is_equivalence(a, ours, first);
            K::same_group_is_equivalence(a, b, ours);
            K::same_group_is_equivalence(b, ours, first);
            if i < n && j < n {
                assert(same_commitment(rest[i], rest[j]));
            } else if i < n {
                assert(same_commitment(rest[i], rest[k]));
            } else if j < n {
                assert(same_commitment(rest[j], rest[k]));
            }
        }
    }
}

/// What grouping gives. There are groups exactly when there are as many
/// coefficients as oracles, every column is one of its commitment, and the
/// columns of one commitment give it the same width. Then there is one group for
/// each oracle that was committed alone and one for each shared commitment, at
/// the place of its first column, and each coefficient is the sum of those given
/// for the column. Otherwise the first oracle that does not fit is reported.
pub proof fn grouping_gives_the_groups<EF: Field, B, X, K: GroupKey>(
    oracles: Seq<ResidualOracle<B, X, K>>,
    coeffs: Seq<EF>,
)
    requires
        all_valid(coeffs),
    ensures
        grouping(oracles, coeffs) is Ok <==> oracles.len() == coeffs.len() && columns_fit(oracles),
        match grouping(oracles, coeffs) {
            Ok(groups) => groups == grouped(oracles, coeffs),
            Err(e) => if oracles.len() != coeffs.len() {
                e == (LinearSigmaReductionError::ArityMismatch {
                    expected: oracles.len() as usize,
                    actual: coeffs.len() as usize,
                })
            } else {
                exists|i: int| #[trigger] misfit_at(oracles, i, e)
            },
        },
    decreases oracles.len(),
{
    if oracles.len() == coeffs.len() && oracles.len() > 0 {
        let n = oracles.len() - 1;
        let (rest, k) = (oracles.drop_last(), coeffs.drop_last());
        let (last, coeff) = (oracles.last(), coeffs.last());
        assert(oracles[n] == last && coeffs[n] == coeff);
        assert(all_valid(k)) by {
            assert forall|i: int| 0 <= i < k.len() implies (#[trigger] k[i]).valid() by {
                assert(k[i] == coeffs[i]);
            }
        }
        grouping_gives_the_groups(rest, k);
        lemma_fit_of_rest(oracles);
        assert(oracles.take(n) =~= rest);
        if let Err(e) = grouping(rest, k) {
            let i = choose|i: int| #[trigger] misfit_at(rest, i, e);
            assert(rest.take(i) =~= oracles.take(i));
            assert(rest[i] == oracles[i]);
            assert(forall|j: int| 0 <= j < i ==> #[trigger] rest[j] == oracles[j]);
            assert(forall|j: int| 0 <= j < i ==> #[trigger] oracles[j] == rest[j]);
            assert(misfit_at(oracles, i, e));
        } else if !(last is SharedBase) {
            assert(is_first(oracles, n));
            lemma_grouped_first(oracles, coeffs);
        } else {
            let before = grouped(rest, k);
            let (shared, column, width) = (last->shared, last->column, last->width);
            let p = group_position(before, shared) as int;
            first_places_are_first(rest);
            lemma_group_position(before, shared);
            lemma_position_in_grouped(oracles, coeffs);
            if column >= width {
                assert(misfit_at(oracles, n, grouping(oracles, coeffs)->Err_0));
            } else if p == before.len() {
                lemma_grouped_first(oracles, coeffs);
                assert forall|c: int| 0 <= c < width implies #[trigger] column_sum(
                    oracles,
                    coeffs,
                    shared,
                    c,
                ) == (if c == column {
                    coeff
                } else {
                    EF::zero_spec()
                }) by {
                    assert forall|i: int|
                        0 <= i < rest.len() && (#[trigger] rest[i]) is SharedBase
                            && rest[i]->shared.same_group(shared) implies rest[i]->column != c by {
                        assert(rest[i] == oracles[i]);
                        assert(!same_commitment(oracles[i], oracles[n]));
                    }
                    unused_columns_have_coefficient_zero(rest, k, shared, c);
                    K::same_group_is_equivalence(shared, shared, shared);
                    coeff.add_zero();
                    coeff.add_commutes(EF::zero_spec());
                }
                assert(group_at(oracles, coeffs, n)->coeffs =~= one_column(
                    width as nat,
                    column as int,
                    coeff,
                ));
            } else {
                let i = first_places(rest)[p];
                assert(rest[i] == oracles[i]);
                assert(before[p] == group_at(rest, k, i));
                assert(same_commitment(oracles[i], oracles[n]));
                if oracles[i]->width == width {
                    lemma_grouped_again(oracles, coeffs, p);
                } else {
                    assert(misfit_at(oracles, n, grouping(oracles, coeffs)->Err_0));
                }
            }
        }
    }
}

} // verus!
