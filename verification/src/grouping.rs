//! Grouping oracles that share one commitment.
//!
//! Oracles that were committed alone are opened alone. Oracles that are columns
//! of one shared commitment are opened together, with one coefficient for each
//! column.

use crate::error::LinearSigmaReductionError;
use crate::field::Field;
use crate::multilinear::{
    inner_product, lemma_inner_product_increment, lemma_inner_product_one_column, one_column,
};
use crate::transcript::Digest;
use vstd::pervasive::unreached;
use vstd::prelude::*;

verus! {

/// The identity of a shared commitment.
pub trait GroupKey: Copy + Sized {
    /// Both stand for the same shared commitment.
    spec fn same_group(self, other: Self) -> bool;

    proof fn same_group_is_equivalence(a: Self, b: Self, c: Self)
        ensures
            a.same_group(a),
            a.same_group(b) ==> b.same_group(a),
            a.same_group(b) && b.same_group(c) ==> a.same_group(c),
    ;

    /// Whether both stand for the same shared commitment.
    fn is_same_group(self, other: Self) -> (r: bool)
        ensures
            r == self.same_group(other),
    ;
}

/// A shared commitment is identified by its value.
#[derive(Clone, Copy, Debug)]
pub struct RootKey<D> {
    /// The commitment.
    pub root: D,
}

impl<D: Digest> GroupKey for RootKey<D> {
    open spec fn same_group(self, other: Self) -> bool {
        self.root == other.root
    }

    proof fn same_group_is_equivalence(a: Self, b: Self, c: Self) {
    }

    fn is_same_group(self, other: Self) -> (r: bool) {
        self.root.same(other.root)
    }
}

/// One oracle of a batch, before grouping. `B` and `X` stand for oracles that
/// were committed alone, over the base field and over the extension; `K`
/// identifies a shared commitment.
#[derive(Clone, Copy, Debug)]
pub enum ResidualOracle<B, X, K> {
    /// A base-field oracle that was committed alone.
    Base(B),
    /// A column of a shared commitment of base-field oracles.
    SharedBase {
        /// The shared commitment.
        shared: K,
        /// The column.
        column: usize,
        /// The number of columns.
        width: usize,
    },
    /// An extension-field oracle that was committed alone.
    Extension(X),
}

/// One commitment of a batch, after grouping, with the coefficients of its
/// oracles.
#[allow(inconsistent_fields)]
#[derive(Debug)]
pub enum BatchedOracle<EF, B, X, K> {
    /// A base-field oracle that was committed alone.
    Base {
        /// Its coefficient.
        coeff: EF,
        /// The oracle.
        data: B,
    },
    /// A shared commitment of base-field oracles.
    SharedBase {
        /// The coefficients of its columns.
        coeffs: Vec<EF>,
        /// The shared commitment.
        data: K,
    },
    /// An extension-field oracle that was committed alone.
    Extension {
        /// Its coefficient.
        coeff: EF,
        /// The oracle.
        data: X,
    },
}

/// The model of a [`BatchedOracle`].
#[allow(inconsistent_fields)]
pub enum Group<EF, B, X, K> {
    /// A base-field oracle that was committed alone, with its coefficient.
    Base { coeff: EF, data: B },
    /// A shared commitment, with the coefficients of its columns.
    SharedBase { coeffs: Seq<EF>, data: K },
    /// An extension-field oracle that was committed alone, with its
    /// coefficient.
    Extension { coeff: EF, data: X },
}

impl<EF, B, X, K> View for BatchedOracle<EF, B, X, K> {
    type V = Group<EF, B, X, K>;

    open spec fn view(&self) -> Group<EF, B, X, K> {
        match *self {
            BatchedOracle::Base { coeff, data } => Group::Base { coeff, data },
            BatchedOracle::SharedBase { coeffs, data } => Group::SharedBase {
                coeffs: coeffs@,
                data,
            },
            BatchedOracle::Extension { coeff, data } => Group::Extension { coeff, data },
        }
    }
}

/// The models of a list of groups.
pub open spec fn groups_of<EF, B, X, K>(v: Seq<BatchedOracle<EF, B, X, K>>) -> Seq<
    Group<EF, B, X, K>,
> {
    Seq::new(v.len(), |i: int| v[i]@)
}

/// The group is that of the shared commitment.
pub open spec fn is_group_of<EF, B, X, K: GroupKey>(g: Group<EF, B, X, K>, shared: K) -> bool {
    g matches Group::SharedBase { data, .. } && data.same_group(shared)
}

/// The position of the first group of the shared commitment, or the number of
/// groups if there is none.
pub open spec fn group_position<EF, B, X, K: GroupKey>(
    groups: Seq<Group<EF, B, X, K>>,
    shared: K,
) -> nat
    decreases groups.len(),
{
    if groups.len() == 0 {
        0
    } else if group_position(groups.drop_last(), shared) < groups.len() - 1 {
        group_position(groups.drop_last(), shared)
    } else if is_group_of(groups.last(), shared) {
        (groups.len() - 1) as nat
    } else {
        groups.len()
    }
}

/// How many columns a stack needs to have the given one, as far as that number
/// can be represented.
pub open spec fn columns_reached(column: usize) -> usize {
    if column < usize::MAX {
        (column + 1) as usize
    } else {
        column
    }
}

/// The groups after one more oracle.
pub open spec fn with_oracle<EF: Field, B, X, K: GroupKey>(
    groups: Seq<Group<EF, B, X, K>>,
    oracle: ResidualOracle<B, X, K>,
    coeff: EF,
) -> Result<Seq<Group<EF, B, X, K>>, LinearSigmaReductionError> {
    match oracle {
        ResidualOracle::Base(data) => Ok(groups.push(Group::Base { coeff, data })),
        ResidualOracle::Extension(data) => Ok(groups.push(Group::Extension { coeff, data })),
        ResidualOracle::SharedBase { shared, column, width } => {
            let p = group_position(groups, shared) as int;
            if column >= width {
                Err(
                    LinearSigmaReductionError::ArityMismatch {
                        expected: width,
                        actual: columns_reached(column),
                    },
                )
            } else if p == groups.len() {
                Ok(
                    groups.push(
                        Group::SharedBase {
                            coeffs: one_column(width as nat, column as int, coeff),
                            data: shared,
                        },
                    ),
                )
            } else if groups[p]->coeffs.len() != width {
                Err(
                    LinearSigmaReductionError::ArityMismatch {
                        expected: width,
                        actual: groups[p]->coeffs.len() as usize,
                    },
                )
            } else {
                let coeffs = groups[p]->coeffs;
                Ok(
                    groups.update(
                        p,
                        Group::SharedBase {
                            coeffs: coeffs.update(
                                column as int,
                                coeffs[column as int].add_spec(coeff),
                            ),
                            data: groups[p]->SharedBase_data,
                        },
                    ),
                )
            }
        },
    }
}

/// The groups of a batch of oracles, each with its coefficient: every oracle
/// that was committed alone is a group, and the columns of one shared
/// commitment are one group, at the place of the first of them.
pub open spec fn grouping<EF: Field, B, X, K: GroupKey>(
    oracles: Seq<ResidualOracle<B, X, K>>,
    coeffs: Seq<EF>,
) -> Result<Seq<Group<EF, B, X, K>>, LinearSigmaReductionError>
    decreases oracles.len(),
{
    if oracles.len() != coeffs.len() {
        Err(
            LinearSigmaReductionError::ArityMismatch {
                expected: oracles.len() as usize,
                actual: coeffs.len() as usize,
            },
        )
    } else if oracles.len() == 0 {
        Ok(Seq::empty())
    } else {
        match grouping(oracles.drop_last(), coeffs.drop_last()) {
            Err(e) => Err(e),
            Ok(groups) => with_oracle(groups, oracles.last(), coeffs.last()),
        }
    }
}

proof fn lemma_grouping_prefix<EF: Field, B, X, K: GroupKey>(
    oracles: Seq<ResidualOracle<B, X, K>>,
    coeffs: Seq<EF>,
    n: int,
)
    requires
        oracles.len() == coeffs.len(),
        0 <= n <= oracles.len(),
    ensures
        grouping(oracles.take(n), coeffs.take(n)) is Err ==> grouping(oracles, coeffs) == grouping(
            oracles.take(n),
            coeffs.take(n),
        ),
    decreases oracles.len(),
{
    if n == oracles.len() {
        assert(oracles.take(n) =~= oracles);
        assert(coeffs.take(n) =~= coeffs);
    } else {
        lemma_grouping_prefix(oracles.drop_last(), coeffs.drop_last(), n);
        assert(oracles.drop_last().take(n) =~= oracles.take(n));
        assert(coeffs.drop_last().take(n) =~= coeffs.take(n));
    }
}

pub proof fn lemma_group_position<EF, B, X, K: GroupKey>(groups: Seq<Group<EF, B, X, K>>, shared: K)
    ensures
        group_position(groups, shared) <= groups.len(),
        group_position(groups, shared) < groups.len() ==> is_group_of(
            groups[group_position(groups, shared) as int],
            shared,
        ),
        forall|i: int|
            0 <= i < group_position(groups, shared) ==> !is_group_of(#[trigger] groups[i], shared),
    decreases groups.len(),
{
    if groups.len() > 0 {
        let rest = groups.drop_last();
        lemma_group_position(rest, shared);
        assert forall|i: int| 0 <= i < group_position(groups, shared) implies !is_group_of(
            #[trigger] groups[i],
            shared,
        ) by {
            if i < rest.len() {
                assert(rest[i] == groups[i]);
            }
        }
    }
}

proof fn lemma_position_is<EF, B, X, K: GroupKey>(
    groups: Seq<Group<EF, B, X, K>>,
    shared: K,
    p: int,
)
    requires
        0 <= p <= groups.len(),
        p < groups.len() ==> is_group_of(groups[p], shared),
        forall|i: int| 0 <= i < p ==> !is_group_of(#[trigger] groups[i], shared),
    ensures
        group_position(groups, shared) == p,
{
    lemma_group_position(groups, shared);
    let q = group_position(groups, shared) as int;
    if q < p {
        assert(is_group_of(groups[q], shared));
    } else if p < q {
        assert(is_group_of(groups[p], shared));
    }
}

/// The position of the group of a shared commitment, or the number of groups.
fn find_group<EF, B, X, K: GroupKey>(groups: &Vec<BatchedOracle<EF, B, X, K>>, shared: K) -> (r:
    usize)
    ensures
        r == group_position(groups_of(groups@), shared),
{
    let mut i: usize = 0;
    while i < groups.len()
        invariant
            i <= groups@.len(),
            forall|j: int| 0 <= j < i ==> !is_group_of(#[trigger] groups_of(groups@)[j], shared),
        decreases groups@.len() - i,
    {
        if let BatchedOracle::SharedBase { data, .. } = &groups[i] {
            if data.is_same_group(shared) {
                proof {
                    assert(groups_of(groups@)[i as int] == groups@[i as int]@);
                    lemma_position_is(groups_of(groups@), shared, i as int);
                }
                return i;
            }
        }
        assert(groups_of(groups@)[i as int] == groups@[i as int]@);
        i = i + 1;
    }
    proof {
        lemma_position_is(groups_of(groups@), shared, i as int);
    }
    i
}

/// `width` coefficients, all zero but the one of `column`.
fn column_coefficients<EF: Field>(width: usize, column: usize, coeff: EF) -> (r: Vec<EF>)
    ensures
        r@ == one_column(width as nat, column as int, coeff),
{
    let mut r: Vec<EF> = Vec::new();
    let mut c: usize = 0;
    while c < width
        invariant
            c <= width,
            r@ == one_column(c as nat, column as int, coeff),
        decreases width - c,
    {
        if c == column {
            r.push(coeff);
        } else {
            r.push(EF::zero());
        }
        c = c + 1;
        assert(r@ =~= one_column(c as nat, column as int, coeff));
    }
    r
}

/// The number of columns up to the given one, itself included.
fn columns_up_to(column: usize) -> (r: usize)
    ensures
        r == columns_reached(column),
{
    if column < usize::MAX {
        column + 1
    } else {
        column
    }
}

/// Adds one oracle to the groups.
fn add_oracle<EF: Field, B: Copy, X: Copy, K: GroupKey>(
    grouped: &mut Vec<BatchedOracle<EF, B, X, K>>,
    oracle: ResidualOracle<B, X, K>,
    coeff: EF,
) -> (r: Result<(), LinearSigmaReductionError>)
    ensures
        match with_oracle(groups_of(old(grouped)@), oracle, coeff) {
            Ok(groups) => r is Ok && groups_of(final(grouped)@) == groups,
            Err(e) => r == Err::<(), LinearSigmaReductionError>(e),
        },
{
    match oracle {
        ResidualOracle::Base(data) => {
            grouped.push(BatchedOracle::Base { coeff, data });
            assert(groups_of(grouped@) =~= groups_of(old(grouped)@).push(
                Group::Base { coeff, data },
            ));
        },
        ResidualOracle::Extension(data) => {
            grouped.push(BatchedOracle::Extension { coeff, data });
            assert(groups_of(grouped@) =~= groups_of(old(grouped)@).push(
                Group::Extension { coeff, data },
            ));
        },
        ResidualOracle::SharedBase { shared, column, width } => {
            if column >= width {
                return Err(
                    LinearSigmaReductionError::ArityMismatch {
                        expected: width,
                        actual: columns_up_to(column),
                    },
                );
            }
            let p: usize = find_group(grouped, shared);
            proof {
                lemma_group_position(groups_of(grouped@), shared);
            }
            if p == grouped.len() {
                let coeffs = column_coefficients(width, column, coeff);
                grouped.push(BatchedOracle::SharedBase { coeffs, data: shared });
                assert(groups_of(grouped@) =~= groups_of(old(grouped)@).push(
                    Group::SharedBase {
                        coeffs: one_column(width as nat, column as int, coeff),
                        data: shared,
                    },
                ));
            } else {
                assert(groups_of(grouped@)[p as int] == grouped@[p as int]@);
                let updated = match &grouped[p] {
                    BatchedOracle::SharedBase { coeffs, data } => {
                        if coeffs.len() != width {
                            return Err(
                                LinearSigmaReductionError::ArityMismatch {
                                    expected: width,
                                    actual: coeffs.len(),
                                },
                            );
                        }
                        let mut sum = crate::statement::copied_point(coeffs);
                        sum.set(column, sum[column].plus(coeff));
                        BatchedOracle::SharedBase { coeffs: sum, data: *data }
                    },
                    _ => unreached(),
                };
                grouped.set(p, updated);
                assert(groups_of(grouped@) =~= groups_of(old(grouped)@).update(
                    p as int,
                    updated@,
                ));
            }
        },
    }
    Ok(())
}

/// Groups a batch of oracles by the commitments that they share.
pub fn group_oracles<EF: Field, B: Copy, X: Copy, K: GroupKey>(
    oracles: &Vec<ResidualOracle<B, X, K>>,
    coeffs: &Vec<EF>,
) -> (r: Result<Vec<BatchedOracle<EF, B, X, K>>, LinearSigmaReductionError>)
    ensures
        match grouping(oracles@, coeffs@) {
            Ok(groups) => r matches Ok(v) && groups_of(v@) == groups,
            Err(e) => r matches Err(found) && found == e,
        },
{
    if oracles.len() != coeffs.len() {
        return Err(
            LinearSigmaReductionError::ArityMismatch {
                expected: oracles.len(),
                actual: coeffs.len(),
            },
        );
    }
    let mut grouped: Vec<BatchedOracle<EF, B, X, K>> = Vec::new();
    let mut i: usize = 0;
    assert(groups_of(grouped@) =~= Seq::<Group<EF, B, X, K>>::empty());
    while i < oracles.len()
        invariant
            oracles@.len() == coeffs@.len(),
            i <= oracles@.len(),
            grouping(oracles@.take(i as int), coeffs@.take(i as int)) == Ok::<
                Seq<Group<EF, B, X, K>>,
                LinearSigmaReductionError,
            >(groups_of(grouped@)),
        decreases oracles@.len() - i,
    {
        proof {
            let n = i as int + 1;
            assert(oracles@.take(n).drop_last() =~= oracles@.take(n - 1));
            assert(coeffs@.take(n).drop_last() =~= coeffs@.take(n - 1));
            assert(oracles@.take(n).last() == oracles@[i as int]);
            assert(coeffs@.take(n).last() == coeffs@[i as int]);
            lemma_grouping_prefix(oracles@, coeffs@, n);
        }
        match add_oracle(&mut grouped, oracles[i], coeffs[i]) {
            Ok(()) => {},
            Err(e) => {
                return Err(e);
            },
        }
        i = i + 1;
    }
    proof {
        assert(oracles@.take(i as int) =~= oracles@);
        assert(coeffs@.take(i as int) =~= coeffs@);
    }
    Ok(grouped)
}

/// Two different groups never belong to the same shared commitment.
pub open spec fn shared_groups_distinct<EF, B, X, K: GroupKey>(
    groups: Seq<Group<EF, B, X, K>>,
) -> bool {
    forall|i: int, j: int|
        #![trigger groups[i], groups[j]]
        0 <= i < j < groups.len() ==> !(groups[i] is SharedBase && groups[j] is SharedBase
            && groups[i]->SharedBase_data.same_group(groups[j]->SharedBase_data))
}

/// After grouping, no shared commitment is opened twice.
pub proof fn grouping_opens_each_shared_commitment_once<EF: Field, B, X, K: GroupKey>(
    oracles: Seq<ResidualOracle<B, X, K>>,
    coeffs: Seq<EF>,
)
    ensures
        grouping(oracles, coeffs) matches Ok(groups) ==> shared_groups_distinct(groups),
    decreases oracles.len(),
{
    if oracles.len() == coeffs.len() && oracles.len() > 0 {
        let before = grouping(oracles.drop_last(), coeffs.drop_last());
        grouping_opens_each_shared_commitment_once(oracles.drop_last(), coeffs.drop_last());
        if before is Ok && grouping(oracles, coeffs) is Ok {
            let old_groups = before->Ok_0;
            let groups = grouping(oracles, coeffs)->Ok_0;
            if let ResidualOracle::SharedBase { shared, .. } = oracles.last() {
                lemma_group_position(old_groups, shared);
                let p = group_position(old_groups, shared) as int;
                assert forall|i: int, j: int|
                    #![trigger groups[i], groups[j]]
                    0 <= i < j < groups.len() implies !(groups[i] is SharedBase
                    && groups[j] is SharedBase && groups[i]->SharedBase_data.same_group(
                    groups[j]->SharedBase_data,
                )) by {
                    if j < old_groups.len() {
                        let (a, b) = (old_groups[i], old_groups[j]);
                        assert(groups[i] is SharedBase ==> groups[i]->SharedBase_data
                            == a->SharedBase_data && a is SharedBase);
                        assert(groups[j] is SharedBase ==> groups[j]->SharedBase_data
                            == b->SharedBase_data && b is SharedBase);
                    } else {
                        assert(!is_group_of(old_groups[i], shared));
                    }
                }
            } else {
                assert forall|i: int, j: int|
                    #![trigger groups[i], groups[j]]
                    0 <= i < j < groups.len() implies !(groups[i] is SharedBase
                    && groups[j] is SharedBase && groups[i]->SharedBase_data.same_group(
                    groups[j]->SharedBase_data,
                )) by {
                    if j < old_groups.len() {
                        assert(groups[i] == old_groups[i]);
                        assert(groups[j] == old_groups[j]);
                    }
                }
            }
        }
    }
}

/// Values of the oracles of a batch at some point: of those that were
/// committed alone, and of the columns of shared commitments.
#[verifier::reject_recursive_types(B)]
#[verifier::reject_recursive_types(X)]
#[verifier::reject_recursive_types(K)]
pub struct OracleValues<EF, B, X, K> {
    /// Of a base-field oracle that was committed alone.
    pub base: spec_fn(B) -> EF,
    /// Of an extension-field oracle that was committed alone.
    pub extension: spec_fn(X) -> EF,
    /// Of a column of a shared commitment.
    pub column: spec_fn(K, int) -> EF,
}

impl<EF: Field, B, X, K: GroupKey> OracleValues<EF, B, X, K> {
    /// The columns of a shared commitment have the same values, whichever
    /// oracle stands for the commitment.
    pub open spec fn respects_groups(self) -> bool {
        forall|a: K, b: K, c: int|
            #![trigger a.same_group(b), (self.column)(a, c)]
            a.same_group(b) ==> (self.column)(a, c) == (self.column)(b, c)
    }

    /// The value of one oracle.
    pub open spec fn of_oracle(self, oracle: ResidualOracle<B, X, K>) -> EF {
        match oracle {
            ResidualOracle::Base(data) => (self.base)(data),
            ResidualOracle::Extension(data) => (self.extension)(data),
            ResidualOracle::SharedBase { shared, column, .. } => (self.column)(
                shared,
                column as int,
            ),
        }
    }

    /// The values of the first `width` columns of a shared commitment.
    pub open spec fn of_columns(self, shared: K, width: nat) -> Seq<EF> {
        Seq::new(width, |c: int| (self.column)(shared, c))
    }

    /// The combination that a group opens.
    pub open spec fn of_group(self, group: Group<EF, B, X, K>) -> EF {
        match group {
            Group::Base { coeff, data } => coeff.mul_spec((self.base)(data)),
            Group::Extension { coeff, data } => coeff.mul_spec((self.extension)(data)),
            Group::SharedBase { coeffs, data } => inner_product(
                coeffs,
                self.of_columns(data, coeffs.len()),
            ),
        }
    }

    /// The combination of the oracles with their coefficients.
    pub open spec fn combination(
        self,
        oracles: Seq<ResidualOracle<B, X, K>>,
        coeffs: Seq<EF>,
    ) -> EF
        decreases oracles.len(),
    {
        if oracles.len() == 0 {
            EF::zero_spec()
        } else {
            self.combination(oracles.drop_last(), coeffs.drop_last()).add_spec(
                coeffs.last().mul_spec(self.of_oracle(oracles.last())),
            )
        }
    }

    /// The sum of what the groups open.
    pub open spec fn total(self, groups: Seq<Group<EF, B, X, K>>) -> EF
        decreases groups.len(),
    {
        if groups.len() == 0 {
            EF::zero_spec()
        } else {
            self.total(groups.drop_last()).add_spec(self.of_group(groups.last()))
        }
    }
}

proof fn lemma_total_update<EF: Field, B, X, K: GroupKey>(
    values: OracleValues<EF, B, X, K>,
    groups: Seq<Group<EF, B, X, K>>,
    p: int,
    group: Group<EF, B, X, K>,
    delta: EF,
)
    requires
        0 <= p < groups.len(),
        values.of_group(group) == values.of_group(groups[p]).add_spec(delta),
    ensures
        values.total(groups.update(p, group)) == values.total(groups).add_spec(delta),
    decreases groups.len(),
{
    let rest = groups.drop_last();
    let t = values.total(rest);
    let updated = groups.update(p, group);
    if p == groups.len() - 1 {
        assert(updated.drop_last() =~= rest);
        t.add_associates(values.of_group(groups[p]), delta);
    } else {
        let last = values.of_group(groups.last());
        assert(updated.drop_last() =~= rest.update(p, group));
        lemma_total_update(values, rest, p, group, delta);
        t.add_associates(delta, last);
        delta.add_commutes(last);
        t.add_associates(last, delta);
    }
}

/// Grouping preserves the combination: what the groups open adds up to the
/// combination of the oracles with their coefficients.
pub proof fn grouping_preserves_combination<EF: Field, B, X, K: GroupKey>(
    values: OracleValues<EF, B, X, K>,
    oracles: Seq<ResidualOracle<B, X, K>>,
    coeffs: Seq<EF>,
)
    requires
        values.respects_groups(),
    ensures
        grouping(oracles, coeffs) matches Ok(groups) ==> values.total(groups)
            == values.combination(oracles, coeffs),
    decreases oracles.len(),
{
    if oracles.len() == coeffs.len() && oracles.len() > 0 {
        let before = grouping(oracles.drop_last(), coeffs.drop_last());
        grouping_preserves_combination(values, oracles.drop_last(), coeffs.drop_last());
        if before is Ok && grouping(oracles, coeffs) is Ok {
            let old_groups = before->Ok_0;
            let groups = grouping(oracles, coeffs)->Ok_0;
            let coeff = coeffs.last();
            if groups.len() == old_groups.len() + 1 {
                assert(groups.drop_last() =~= old_groups);
            }
            if let ResidualOracle::SharedBase { shared, column, width } = oracles.last() {
                lemma_group_position(old_groups, shared);
                let p = group_position(old_groups, shared) as int;
                if p == old_groups.len() {
                    let v = values.of_columns(shared, width as nat);
                    lemma_inner_product_one_column(v, column as int, coeff);
                } else {
                    let data = old_groups[p]->SharedBase_data;
                    let old_coeffs = old_groups[p]->coeffs;
                    let v = values.of_columns(data, width as nat);
                    lemma_inner_product_increment(old_coeffs, v, column as int, coeff);
                    assert((values.column)(data, column as int) == (values.column)(
                        shared,
                        column as int,
                    ));
                    lemma_total_update(
                        values,
                        old_groups,
                        p,
                        groups[p],
                        coeff.mul_spec(values.of_oracle(oracles.last())),
                    );
                    assert(groups =~= old_groups.update(p, groups[p]));
                }
            }
        }
    }
}

/// The coefficients of a group, without the oracles.
pub enum GroupLayout<EF> {
    /// Of a base-field oracle that was committed alone.
    Base { coeff: EF },
    /// Of a shared commitment.
    SharedBase { coeffs: Seq<EF> },
    /// Of an extension-field oracle that was committed alone.
    Extension { coeff: EF },
}

/// The coefficients of a group.
pub open spec fn layout_of<EF, B, X, K>(group: Group<EF, B, X, K>) -> GroupLayout<EF> {
    match group {
        Group::Base { coeff, .. } => GroupLayout::Base { coeff },
        Group::SharedBase { coeffs, .. } => GroupLayout::SharedBase { coeffs },
        Group::Extension { coeff, .. } => GroupLayout::Extension { coeff },
    }
}

/// Both batches have oracles of the same kinds and columns, and in both the
/// same oracles share a commitment.
pub open spec fn corresponding<B1, X1, K1: GroupKey, B2, X2, K2: GroupKey>(
    a: Seq<ResidualOracle<B1, X1, K1>>,
    b: Seq<ResidualOracle<B2, X2, K2>>,
) -> bool {
    &&& a.len() == b.len()
    &&& forall|i: int| 0 <= i < a.len() ==> same_place(#[trigger] a[i], b[i])
    &&& forall|i: int, j: int|
        #![trigger a[i], a[j]]
        0 <= i < a.len() && 0 <= j < a.len() && a[i] is SharedBase && a[j] is SharedBase ==> (
        a[i]->shared.same_group(a[j]->shared) <==> b[i]->shared.same_group(b[j]->shared))
}

/// Both oracles are of the same kind and stand in the same column.
pub open spec fn same_place<B1, X1, K1, B2, X2, K2>(
    a: ResidualOracle<B1, X1, K1>,
    b: ResidualOracle<B2, X2, K2>,
) -> bool {
    match (a, b) {
        (ResidualOracle::Base(_), ResidualOracle::Base(_)) => true,
        (ResidualOracle::Extension(_), ResidualOracle::Extension(_)) => true,
        (
            ResidualOracle::SharedBase { column: c1, width: w1, .. },
            ResidualOracle::SharedBase { column: c2, width: w2, .. },
        ) => c1 == c2 && w1 == w2,
        _ => false,
    }
}

/// The group is that of the oracle.
pub open spec fn opens<EF, B, X, K>(
    group: Group<EF, B, X, K>,
    oracle: ResidualOracle<B, X, K>,
) -> bool {
    match (group, oracle) {
        (Group::Base { data, .. }, ResidualOracle::Base(d)) => data == d,
        (Group::SharedBase { data, .. }, ResidualOracle::SharedBase { shared, .. }) => data
            == shared,
        (Group::Extension { data, .. }, ResidualOracle::Extension(d)) => data == d,
        _ => false,
    }
}

/// Two lists of groups have the same coefficients, and `origin[i]` is, in both
/// batches, an oracle that group `i` is that of.
pub open spec fn grouped_alike<EF, B1, X1, K1, B2, X2, K2>(
    a: Seq<ResidualOracle<B1, X1, K1>>,
    b: Seq<ResidualOracle<B2, X2, K2>>,
    ga: Seq<Group<EF, B1, X1, K1>>,
    gb: Seq<Group<EF, B2, X2, K2>>,
    origin: Seq<int>,
) -> bool {
    &&& ga.len() == gb.len() == origin.len()
    &&& forall|i: int|
        0 <= i < ga.len() ==> {
            &&& layout_of(#[trigger] ga[i]) == layout_of(gb[i])
            &&& 0 <= origin[i] < a.len()
            &&& opens(ga[i], a[origin[i]])
            &&& opens(gb[i], b[origin[i]])
        }
}

proof fn lemma_grouped_alike_push<EF: Field, B1, X1, K1: GroupKey, B2, X2, K2: GroupKey>(
    a: Seq<ResidualOracle<B1, X1, K1>>,
    b: Seq<ResidualOracle<B2, X2, K2>>,
    ga: Seq<Group<EF, B1, X1, K1>>,
    gb: Seq<Group<EF, B2, X2, K2>>,
    origin: Seq<int>,
    next_a: Group<EF, B1, X1, K1>,
    next_b: Group<EF, B2, X2, K2>,
)
    requires
        a.len() > 0,
        a.len() == b.len(),
        grouped_alike(a.drop_last(), b.drop_last(), ga, gb, origin),
        layout_of(next_a) == layout_of(next_b),
        opens(next_a, a.last()),
        opens(next_b, b.last()),
    ensures
        grouped_alike(a, b, ga.push(next_a), gb.push(next_b), origin.push(a.len() - 1)),
{
    let (na, nb, no) = (ga.push(next_a), gb.push(next_b), origin.push(a.len() - 1));
    assert forall|i: int| 0 <= i < na.len() implies {
        &&& layout_of(#[trigger] na[i]) == layout_of(nb[i])
        &&& 0 <= no[i] < a.len()
        &&& opens(na[i], a[no[i]])
        &&& opens(nb[i], b[no[i]])
    } by {
        if i < ga.len() {
            assert(layout_of(ga[i]) == layout_of(gb[i]));
        }
    }
}

proof fn lemma_grouped_alike_update<EF: Field, B1, X1, K1: GroupKey, B2, X2, K2: GroupKey>(
    a: Seq<ResidualOracle<B1, X1, K1>>,
    b: Seq<ResidualOracle<B2, X2, K2>>,
    ga: Seq<Group<EF, B1, X1, K1>>,
    gb: Seq<Group<EF, B2, X2, K2>>,
    origin: Seq<int>,
    p: int,
    coeffs: Seq<EF>,
)
    requires
        a.len() > 0,
        a.len() == b.len(),
        grouped_alike(a.drop_last(), b.drop_last(), ga, gb, origin),
        0 <= p < ga.len(),
        ga[p] is SharedBase,
        gb[p] is SharedBase,
    ensures
        grouped_alike(
            a,
            b,
            ga.update(p, Group::SharedBase { coeffs, data: ga[p]->SharedBase_data }),
            gb.update(p, Group::SharedBase { coeffs, data: gb[p]->SharedBase_data }),
            origin,
        ),
{
    let na = ga.update(p, Group::SharedBase { coeffs, data: ga[p]->SharedBase_data });
    let nb = gb.update(p, Group::SharedBase { coeffs, data: gb[p]->SharedBase_data });
    assert forall|i: int| 0 <= i < na.len() implies {
        &&& layout_of(#[trigger] na[i]) == layout_of(nb[i])
        &&& 0 <= origin[i] < a.len()
        &&& opens(na[i], a[origin[i]])
        &&& opens(nb[i], b[origin[i]])
    } by {
        assert(layout_of(ga[i]) == layout_of(gb[i]));
    }
}

proof fn lemma_corresponding_prefix<B1, X1, K1: GroupKey, B2, X2, K2: GroupKey>(
    a: Seq<ResidualOracle<B1, X1, K1>>,
    b: Seq<ResidualOracle<B2, X2, K2>>,
)
    requires
        a.len() > 0,
        corresponding(a, b),
    ensures
        corresponding(a.drop_last(), b.drop_last()),
{
    let (ra, rb) = (a.drop_last(), b.drop_last());
    assert forall|i: int| 0 <= i < ra.len() implies same_place(#[trigger] ra[i], rb[i]) by {
        assert(same_place(a[i], b[i]));
    }
    assert forall|i: int, j: int|
        #![trigger ra[i], ra[j]]
        0 <= i < ra.len() && 0 <= j < ra.len() && ra[i] is SharedBase
            && ra[j] is SharedBase implies (ra[i]->shared.same_group(ra[j]->shared)
        <==> rb[i]->shared.same_group(rb[j]->shared)) by {
        assert(a[i] is SharedBase && a[j] is SharedBase);
    }
}

/// In corresponding batches a shared commitment has its group at the same
/// position.
proof fn lemma_same_position<EF: Field, B1, X1, K1: GroupKey, B2, X2, K2: GroupKey>(
    a: Seq<ResidualOracle<B1, X1, K1>>,
    b: Seq<ResidualOracle<B2, X2, K2>>,
    ga: Seq<Group<EF, B1, X1, K1>>,
    gb: Seq<Group<EF, B2, X2, K2>>,
    origin: Seq<int>,
)
    requires
        a.len() > 0,
        corresponding(a, b),
        grouped_alike(a.drop_last(), b.drop_last(), ga, gb, origin),
        a.last() is SharedBase,
    ensures
        group_position(ga, a.last()->shared) == group_position(gb, b.last()->shared),
{
    let n = a.len() - 1;
    let (shared_a, shared_b) = (a[n]->shared, b[n]->shared);
    let p = group_position(ga, shared_a) as int;
    assert(same_place(a[n], b[n]));
    lemma_group_position(ga, shared_a);
    assert forall|i: int| 0 <= i < ga.len() implies is_group_of(#[trigger] ga[i], shared_a)
        == is_group_of(gb[i], shared_b) by {
        assert(layout_of(ga[i]) == layout_of(gb[i]));
        let t = origin[i];
        assert(a.drop_last()[t] == a[t] && b.drop_last()[t] == b[t]);
        if ga[i] is SharedBase {
            assert(a[t] is SharedBase && a[n] is SharedBase);
        }
    }
    assert forall|i: int| 0 <= i < p implies !is_group_of(#[trigger] gb[i], shared_b) by {
        assert(!is_group_of(ga[i], shared_a));
    }
    if p < ga.len() {
        assert(is_group_of(ga[p], shared_a));
    }
    lemma_position_is(gb, shared_b, p);
}

/// Batches in which the same oracles share a commitment are grouped alike: the
/// groups have the same kinds and the same coefficients in the same order, and
/// are those of the same oracles; or both batches are refused with the same
/// error.
pub proof fn corresponding_batches_group_alike<
    EF: Field,
    B1,
    X1,
    K1: GroupKey,
    B2,
    X2,
    K2: GroupKey,
>(
    a: Seq<ResidualOracle<B1, X1, K1>>,
    b: Seq<ResidualOracle<B2, X2, K2>>,
    coeffs: Seq<EF>,
) -> (origin: Seq<int>)
    requires
        corresponding(a, b),
    ensures
        match (grouping(a, coeffs), grouping(b, coeffs)) {
            (Ok(ga), Ok(gb)) => grouped_alike(a, b, ga, gb, origin),
            (Err(ea), Err(eb)) => ea == eb,
            _ => false,
        },
    decreases a.len(),
{
    if a.len() != coeffs.len() || a.len() == 0 {
        Seq::empty()
    } else {
        let (ra, rb, rc) = (a.drop_last(), b.drop_last(), coeffs.drop_last());
        let (x, y, coeff) = (a.last(), b.last(), coeffs.last());
        lemma_corresponding_prefix(a, b);
        let before = corresponding_batches_group_alike(ra, rb, rc);
        assert(same_place(a[a.len() - 1], b[a.len() - 1]));
        match (grouping(ra, rc), grouping(rb, rc)) {
            (Ok(ga), Ok(gb)) => match (x, y) {
                (
                    ResidualOracle::SharedBase { shared: sa, column, width },
                    ResidualOracle::SharedBase { shared: sb, .. },
                ) => {
                    lemma_same_position(a, b, ga, gb, before);
                    lemma_group_position(ga, sa);
                    lemma_group_position(gb, sb);
                    let p = group_position(ga, sa) as int;
                    if column >= width {
                        before
                    } else if p == ga.len() {
                        let fresh = one_column(width as nat, column as int, coeff);
                        lemma_grouped_alike_push(
                            a,
                            b,
                            ga,
                            gb,
                            before,
                            Group::SharedBase { coeffs: fresh, data: sa },
                            Group::SharedBase { coeffs: fresh, data: sb },
                        );
                        before.push(a.len() - 1)
                    } else {
                        assert(layout_of(ga[p]) == layout_of(gb[p]));
                        let sums = ga[p]->coeffs;
                        assert(sums == gb[p]->coeffs);
                        lemma_grouped_alike_update(
                            a,
                            b,
                            ga,
                            gb,
                            before,
                            p,
                            sums.update(column as int, sums[column as int].add_spec(coeff)),
                        );
                        before
                    }
                },
                (ResidualOracle::Base(da), ResidualOracle::Base(db)) => {
                    lemma_grouped_alike_push(
                        a,
                        b,
                        ga,
                        gb,
                        before,
                        Group::Base { coeff, data: da },
                        Group::Base { coeff, data: db },
                    );
                    before.push(a.len() - 1)
                },
                (ResidualOracle::Extension(da), ResidualOracle::Extension(db)) => {
                    lemma_grouped_alike_push(
                        a,
                        b,
                        ga,
                        gb,
                        before,
                        Group::Extension { coeff, data: da },
                        Group::Extension { coeff, data: db },
                    );
                    before.push(a.len() - 1)
                },
                _ => before,
            },
            _ => before,
        }
    }
}

} // verus!
