//! Statements about the value table of one committed polynomial.

use crate::algebra::{lemma_one_mul, lemma_zero_add};
use crate::code::append_all;
use crate::field::{addressable, all_valid, power, ExtensionField, Field, TwoAdicField};
use crate::multilinear::{eq_table, eq_weight, evaluation_is_linear_query, inner_product, mle};
use vstd::arithmetic::power2::pow2;
use vstd::prelude::*;

verus! {

/// A claim that a folded codeword takes the value `value` at `point`.
#[derive(Clone, Debug)]
pub struct NativeWarpWhirEvalClaim<EF> {
    /// A point of the codeword hypercube.
    pub point: Vec<EF>,
    /// The claimed value.
    pub value: EF,
}

/// A copy of a point.
pub fn copied_point<EF: Copy>(point: &Vec<EF>) -> (r: Vec<EF>)
    ensures
        r@ == point@,
{
    let mut r: Vec<EF> = Vec::new();
    append_all(&mut r, point);
    assert(r@ =~= point@);
    r
}

/// Builds claims from parallel lists of points and values.
pub fn eval_claims_from_parts<EF: Field>(points: &Vec<Vec<EF>>, values: &Vec<EF>) -> (r: Vec<
    NativeWarpWhirEvalClaim<EF>,
>)
    requires
        points@.len() == values@.len(),
    ensures
        r@.len() == points@.len(),
        forall|i: int|
            0 <= i < r@.len() ==> (#[trigger] r@[i]).point@ == points@[i]@ && r@[i].value
                == values@[i],
{
    let mut claims: Vec<NativeWarpWhirEvalClaim<EF>> = Vec::new();
    let mut i: usize = 0;
    while i < points.len()
        invariant
            points@.len() == values@.len(),
            i <= points@.len(),
            claims@.len() == i,
            forall|j: int|
                0 <= j < i ==> (#[trigger] claims@[j]).point@ == points@[j]@ && claims@[j].value
                    == values@[j],
        decreases points@.len() - i,
    {
        claims.push(NativeWarpWhirEvalClaim { point: copied_point(&points[i]), value: values[i] });
        i = i + 1;
    }
    claims
}

/// Points at which one multilinear polynomial is constrained, and the values
/// that it takes there.
#[derive(Clone, Debug)]
pub struct EqStatement<EF> {
    /// Number of variables of the polynomial.
    pub num_variables: usize,
    /// The points and the values, in the order in which they were added.
    pub constraints: Vec<NativeWarpWhirEvalClaim<EF>>,
}

impl<EF> EqStatement<EF> {
    /// Every point has one coordinate for each variable.
    pub open spec fn well_formed(self) -> bool {
        forall|i: int|
            0 <= i < self.constraints@.len() ==> (#[trigger] self.constraints@[i]).point@.len()
                == self.num_variables
    }
}

/// The model of an [`EqStatement`].
pub struct EqConstraints<EF> {
    /// Number of variables of the polynomial.
    pub num_variables: usize,
    /// The points and the values, in order.
    pub constraints: Seq<(Seq<EF>, EF)>,
}

impl<EF> View for EqStatement<EF> {
    type V = EqConstraints<EF>;

    open spec fn view(&self) -> EqConstraints<EF> {
        EqConstraints {
            num_variables: self.num_variables,
            constraints: Seq::new(
                self.constraints@.len(),
                |i: int| (self.constraints@[i].point@, self.constraints@[i].value),
            ),
        }
    }
}

impl<EF: Field> EqStatement<EF> {
    /// A statement without constraints.
    pub fn initialize(num_variables: usize) -> (r: Self)
        ensures
            r.well_formed(),
            r@ == (EqConstraints { num_variables, constraints: Seq::<(Seq<EF>, EF)>::empty() }),
    {
        let r = EqStatement { num_variables, constraints: Vec::new() };
        assert(r@.constraints =~= Seq::<(Seq<EF>, EF)>::empty());
        r
    }

    /// Adds the constraint that the polynomial takes the value `value` at
    /// `point`.
    pub fn add_evaluated_constraint(&mut self, point: Vec<EF>, value: EF)
        requires
            old(self).well_formed(),
            point@.len() == old(self).num_variables,
        ensures
            final(self).well_formed(),
            final(self)@.num_variables == old(self)@.num_variables,
            final(self)@.constraints == old(self)@.constraints.push((point@, value)),
    {
        self.constraints.push(NativeWarpWhirEvalClaim { point, value });
        assert(self@.constraints =~= old(self)@.constraints.push((point@, value)));
    }
}

/// The combination of value tables `eq(z_i, b)` with the powers of `gamma`.
pub open spec fn combined_weight<EF: Field>(
    constraints: Seq<(Seq<EF>, EF)>,
    gamma: EF,
    b: nat,
) -> EF
    decreases constraints.len(),
{
    if constraints.len() == 0 {
        EF::zero_spec()
    } else {
        combined_weight(constraints.drop_last(), gamma, b).add_spec(
            power(gamma, (constraints.len() - 1) as nat).mul_spec(
                eq_weight(constraints.last().0, b),
            ),
        )
    }
}

/// The combination of the claimed values with the powers of `gamma`.
pub open spec fn combined_value<EF: Field>(constraints: Seq<(Seq<EF>, EF)>, gamma: EF) -> EF
    decreases constraints.len(),
{
    if constraints.len() == 0 {
        EF::zero_spec()
    } else {
        combined_value(constraints.drop_last(), gamma).add_spec(
            power(gamma, (constraints.len() - 1) as nat).mul_spec(constraints.last().1),
        )
    }
}

/// The linear constraint that the inner product of `weights` with a value
/// table is `value`.
#[derive(Debug)]
pub struct LinearSigmaConstraint<EF> {
    /// One weight for each vertex of the hypercube.
    pub weights: Vec<EF>,
    /// The claimed inner product.
    pub value: EF,
}

impl<EF: Field> LinearSigmaConstraint<EF> {
    /// The value table satisfies the constraint.
    pub open spec fn holds_for(self, table: Seq<EF>) -> bool {
        inner_product(self.weights@, table) == self.value
    }

    /// The evaluation constraints of `eq`, combined with the powers of `gamma`.
    pub fn from_eq_statement<F: TwoAdicField>(eq: &EqStatement<EF>, gamma: EF) -> (r: Self) where
        EF: ExtensionField<F>,

        requires
            eq.well_formed(),
            addressable(eq.num_variables as nat),
        ensures
            r.weights@ == Seq::new(
                pow2(eq.num_variables as nat),
                |b: int| combined_weight(eq@.constraints, gamma, b as nat),
            ),
            r.value == combined_value(eq@.constraints, gamma),
    {
        let len: usize = crate::code::power_of_two(eq.num_variables);
        let mut weights: Vec<EF> = Vec::new();
        let mut j: usize = 0;
        while j < len
            invariant
                j <= len,
                weights@ == Seq::new(j as nat, |b: int| EF::zero_spec()),
            decreases len - j,
        {
            weights.push(EF::zero());
            j = j + 1;
            assert(weights@ =~= Seq::new(j as nat, |b: int| EF::zero_spec()));
        }
        let mut value: EF = EF::zero();
        let mut scale: EF = EF::one();
        let mut i: usize = 0;
        assert(eq@.constraints.take(0) =~= Seq::<(Seq<EF>, EF)>::empty());
        assert(weights@ =~= Seq::new(
            len as nat,
            |b: int| combined_weight(eq@.constraints.take(0), gamma, b as nat),
        ));
        while i < eq.constraints.len()
            invariant
                eq.well_formed(),
                addressable(eq.num_variables as nat),
                len == pow2(eq.num_variables as nat),
                i <= eq.constraints@.len(),
                scale == power(gamma, i as nat),
                value == combined_value(eq@.constraints.take(i as int), gamma),
                weights@ == Seq::new(
                    len as nat,
                    |b: int| combined_weight(eq@.constraints.take(i as int), gamma, b as nat),
                ),
            decreases eq.constraints@.len() - i,
        {
            let point = &eq.constraints[i].point;
            let table = EF::eq_weights(point);
            let ghost (before, after) = (
                eq@.constraints.take(i as int),
                eq@.constraints.take(i as int + 1),
            );
            assert(after.drop_last() =~= before);
            assert(after.last() == eq@.constraints[i as int]);
            value = value.plus(scale.times(eq.constraints[i].value));
            weights = add_scaled(&weights, scale, &table);
            assert(weights@ =~= Seq::new(
                len as nat,
                |b: int| combined_weight(after, gamma, b as nat),
            ));
            scale = scale.times(gamma);
            i = i + 1;
        }
        assert(eq@.constraints.take(i as int) =~= eq@.constraints);
        LinearSigmaConstraint { weights, value }
    }
}

/// `a + k * b`, element by element.
fn add_scaled<EF: Field>(a: &Vec<EF>, k: EF, b: &Vec<EF>) -> (r: Vec<EF>)
    requires
        a@.len() == b@.len(),
    ensures
        r@ == Seq::new(a@.len(), |i: int| a@[i].add_spec(k.mul_spec(b@[i]))),
{
    let mut r: Vec<EF> = Vec::new();
    let mut i: usize = 0;
    while i < a.len()
        invariant
            a@.len() == b@.len(),
            i <= a@.len(),
            r@ == Seq::new(i as nat, |j: int| a@[j].add_spec(k.mul_spec(b@[j]))),
        decreases a@.len() - i,
    {
        r.push(a[i].plus(k.times(b[i])));
        i = i + 1;
        assert(r@ =~= Seq::new(i as nat, |j: int| a@[j].add_spec(k.mul_spec(b@[j]))));
    }
    r
}

/// Several linear constraints on one value table.
#[derive(Debug)]
pub struct LinearSigmaStatement<EF> {
    /// Number of variables of the polynomial with that value table.
    pub num_variables: usize,
    /// The constraints, in the order in which they were added.
    pub constraints: Vec<LinearSigmaConstraint<EF>>,
}

impl<EF> LinearSigmaStatement<EF> {
    /// A statement without constraints.
    pub fn initialize(num_variables: usize) -> (r: Self)
        ensures
            r.num_variables == num_variables,
            r.constraints@ == Seq::<LinearSigmaConstraint<EF>>::empty(),
    {
        LinearSigmaStatement { num_variables, constraints: Vec::new() }
    }

    /// Adds a constraint.
    pub fn add_constraint(&mut self, constraint: LinearSigmaConstraint<EF>)
        requires
            constraint.weights@.len() == pow2(old(self).num_variables as nat),
        ensures
            final(self).num_variables == old(self).num_variables,
            final(self).constraints@ == old(self).constraints@.push(constraint),
    {
        self.constraints.push(constraint);
    }
}

/// The linear statement about one committed oracle.
#[derive(Debug)]
pub struct NativeWarpWhirOracleStatement<EF> {
    /// The constraints on the codeword table.
    pub statement: LinearSigmaStatement<EF>,
}

impl<EF> NativeWarpWhirOracleStatement<EF> {
    /// A statement about one committed oracle.
    pub fn new(statement: LinearSigmaStatement<EF>) -> (r: Self)
        ensures
            r.statement == statement,
    {
        NativeWarpWhirOracleStatement { statement }
    }
}

/// With one constraint and `gamma` equal to one, the combination is the
/// constraint itself.
pub proof fn lemma_single_constraint<EF: Field>(point: Seq<EF>, value: EF)
    requires
        value.valid(),
    ensures
        combined_value(seq![(point, value)], EF::one_spec()) == value,
        forall|b: nat|
            #[trigger] combined_weight(seq![(point, value)], EF::one_spec(), b) == eq_weight(
                point,
                b,
            ),
{
    let s = seq![(point, value)];
    let one = EF::one_spec();
    assert(s.drop_last() =~= Seq::<(Seq<EF>, EF)>::empty());
    assert(s.last() == (point, value));
    reveal_with_fuel(combined_value, 2);
    reveal_with_fuel(combined_weight, 2);
    assert(power(one, 0) == one);
    lemma_one_mul(value);
    lemma_zero_add(value);
    assert forall|b: nat| #[trigger] combined_weight(s, one, b) == eq_weight(point, b) by {
        lemma_eq_weight_valid(point, b);
        lemma_one_mul(eq_weight(point, b));
        lemma_zero_add(eq_weight(point, b));
    }
}

proof fn lemma_eq_weight_valid<EF: Field>(point: Seq<EF>, b: nat)
    ensures
        eq_weight(point, b).valid(),
{
    let one = EF::one_spec();
    one.valid_results(one, 0);
    if point.len() > 0 {
        let half = pow2((point.len() - 1) as nat);
        one.sub_spec(point[0]).valid_results(eq_weight(point.skip(1), b), 0);
        point[0].valid_results(eq_weight(point.skip(1), (b - half) as nat), 0);
    }
}

/// The constraint compiled from a claim `f(z) = v` holds for exactly the value
/// tables of the multilinear polynomials that take the value `v` at `z`.
pub proof fn eval_constraint_is_evaluation<EF: Field>(
    constraint: LinearSigmaConstraint<EF>,
    point: Seq<EF>,
    table: Seq<EF>,
)
    requires
        constraint.weights@ == eq_table(point),
        table.len() == pow2(point.len()),
        all_valid(table),
    ensures
        constraint.holds_for(table) <==> mle(table, point) == constraint.value,
{
    evaluation_is_linear_query(table, point);
}

} // verus!
