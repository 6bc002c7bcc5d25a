//! What claims about codewords come to as linear constraints.

use crate::adjoint::{added, lemma_inner_product_linear};
use crate::algebra::{lemma_mul_zero, lemma_one_mul, lemma_zero_add};
use crate::code::{
    extension_generators, lemma_encoding_valid, lemma_extension_chain, systematic_evaluation,
};
use crate::compiler::NativeWarpWhirCompiler;
use crate::field::{all_valid, poly_eval, power, ExtensionField, Field, TwoAdicField};
use crate::multilinear::{
    eq_table, evaluation_is_linear_query, inner_product, lemma_interpolate_at_zero, lemma_mle_valid,
    lifted, mle, scaled,
};
use crate::statement::{
    combined_value, combined_weight, eval_claims_from_parts, EqStatement, LinearSigmaConstraint,
    LinearSigmaStatement, NativeWarpWhirEvalClaim, NativeWarpWhirOracleStatement,
};
use vstd::arithmetic::power2::pow2;
use vstd::prelude::*;

verus! {

/// An inner product is the sum of the products.
pub proof fn inner_products_are_sums<T: Field>(a: Seq<T>, x: T, b: Seq<T>, y: T)
    requires
        a.len() == b.len(),
    ensures
        inner_product(Seq::<T>::empty(), Seq::<T>::empty()) == T::zero_spec(),
        inner_product(a.push(x), b.push(y)) == inner_product(a, b).add_spec(x.mul_spec(y)),
{
    assert(a.push(x).drop_last() =~= a);
    assert(b.push(y).drop_last() =~= b);
}

/// The multilinear extension of a table interpolates between its two halves
/// along the first coordinate: where that is zero it is the extension of the
/// first half, and where that is one, of the second.
pub proof fn extensions_interpolate_between_halves<T: Field>(
    low: Seq<T>,
    high: Seq<T>,
    p: Seq<T>,
    x: T,
)
    requires
        low.len() == pow2(p.len()),
        high.len() == pow2(p.len()),
        all_valid(low),
        all_valid(high),
    ensures
        mle(seq![x], Seq::<T>::empty()) == x,
        mle(low + high, seq![T::zero_spec()] + p) == mle(low, p),
        mle(low + high, seq![T::one_spec()] + p) == mle(high, p),
        mle(low + high, seq![x] + p) == T::one_spec().sub_spec(x).mul_spec(
            mle(low, p),
        ).add_spec(x.mul_spec(mle(high, p))),
{
    let (zero, one) = (T::zero_spec(), T::one_spec());
    let half = pow2(p.len()) as int;
    let all = low + high;
    assert(all.take(half) =~= low);
    assert(all.skip(half) =~= high);
    assert((seq![x] + p).skip(1) =~= p);
    assert((seq![zero] + p).skip(1) =~= p);
    assert((seq![one] + p).skip(1) =~= p);
    lemma_mle_valid(low, p);
    lemma_mle_valid(high, p);
    lemma_interpolate_at_zero(mle(low, p), mle(high, p));
    one.valid_results(one, 0);
    zero.valid_results(zero, 0);
    one.sub_cancels(one);
    lemma_zero_add(one);
    zero.sub_cancels(one);
    zero.add_zero();
    lemma_difference_of_equals(one);
    lemma_mul_zero(mle(low, p));
    lemma_one_mul(mle(high, p));
    lemma_zero_add(mle(high, p));
}

/// An element minus itself is zero.
proof fn lemma_difference_of_equals<T: Field>(x: T)
    requires
        x.valid(),
    ensures
        x.sub_spec(x) == T::zero_spec(),
{
    let zero = T::zero_spec();
    zero.valid_results(x, 0);
    lemma_zero_add(x);
    zero.sub_cancels(x);
}

proof fn lemma_inner_product_commutes<T: Field>(a: Seq<T>, b: Seq<T>)
    requires
        a.len() == b.len(),
    ensures
        inner_product(a, b) == inner_product(b, a),
    decreases a.len(),
{
    if a.len() > 0 {
        lemma_inner_product_commutes(a.drop_last(), b.drop_last());
        a.last().mul_commutes(b.last());
    }
}

proof fn lemma_inner_product_zeros<T: Field>(t: Seq<T>)
    ensures
        inner_product(Seq::new(t.len(), |b: int| T::zero_spec()), t) == T::zero_spec(),
    decreases t.len(),
{
    let zero = T::zero_spec();
    zero.valid_results(zero, 0);
    let zeros = Seq::new(t.len(), |b: int| zero);
    if t.len() > 0 {
        lemma_inner_product_zeros(t.drop_last());
        assert(zeros.drop_last() =~= Seq::new(t.drop_last().len(), |b: int| zero));
        lemma_mul_zero(t.last());
        zero.mul_commutes(t.last());
        zero.add_zero();
    }
}

/// The values of a multilinear extension at several points.
pub open spec fn values_at<T: Field>(table: Seq<T>, points: Seq<Seq<T>>) -> Seq<T> {
    Seq::new(points.len(), |i: int| mle(table, points[i]))
}

proof fn lemma_combined<T: Field>(
    constraints: Seq<(Seq<T>, T)>,
    gamma: T,
    n: nat,
    table: Seq<T>,
)
    requires
        forall|i: int| 0 <= i < constraints.len() ==> (#[trigger] constraints[i]).0.len() == n,
        table.len() == pow2(n),
        all_valid(table),
    ensures
        combined_value(constraints, gamma) == poly_eval(
            Seq::new(constraints.len(), |i: int| constraints[i].1),
            gamma,
        ),
        inner_product(
            Seq::new(pow2(n), |b: int| combined_weight(constraints, gamma, b as nat)),
            table,
        ) == poly_eval(
            values_at(table, Seq::new(constraints.len(), |i: int| constraints[i].0)),
            gamma,
        ),
    decreases constraints.len(),
{
    let weights = Seq::new(pow2(n), |b: int| combined_weight(constraints, gamma, b as nat));
    let values = Seq::new(constraints.len(), |i: int| constraints[i].1);
    let points = Seq::new(constraints.len(), |i: int| constraints[i].0);
    let found = values_at(table, points);
    if constraints.len() == 0 {
        assert(weights =~= Seq::new(table.len(), |b: int| T::zero_spec()));
        lemma_inner_product_zeros(table);
    } else {
        let rest = constraints.drop_last();
        let k = rest.len();
        let (z, v) = constraints.last();
        assert(constraints[constraints.len() - 1].0.len() == n);
        assert forall|i: int| 0 <= i < rest.len() implies (#[trigger] rest[i]).0.len() == n by {
            assert(rest[i] == constraints[i]);
        }
        lemma_combined(rest, gamma, n, table);
        let before = Seq::new(pow2(n), |b: int| combined_weight(rest, gamma, b as nat));
        let p = power(gamma, k);
        assert(values.drop_last() =~= Seq::new(rest.len(), |i: int| rest[i].1));
        assert(found.drop_last() =~= values_at(
            table,
            Seq::new(rest.len(), |i: int| rest[i].0),
        ));
        assert(found.last() == mle(table, z));
        v.mul_commutes(p);
        mle(table, z).mul_commutes(p);
        evaluation_is_linear_query(table, z);
        assert(weights =~= added(before, scaled(p, eq_table(z))));
        lemma_inner_product_commutes(weights, table);
        lemma_inner_product_commutes(before, table);
        lemma_inner_product_commutes(eq_table(z), table);
        lemma_inner_product_linear(table, p, eq_table(z), eq_table(z));
        lemma_inner_product_linear(table, p, before, scaled(p, eq_table(z)));
    }
}

/// Combining evaluation constraints with the powers of `gamma`: on every table
/// the combined weights give the combination of the values that the multilinear
/// extension takes at the points, and the combined value is the same combination
/// of the claimed values. So a table that meets all constraints meets the
/// combination.
pub proof fn constraints_are_combined_with_powers<F: TwoAdicField, EF: ExtensionField<F>>(
    eq: EqStatement<EF>,
    gamma: EF,
    r: LinearSigmaConstraint<EF>,
    table: Seq<EF>,
)
    requires
        call_ensures(LinearSigmaConstraint::<EF>::from_eq_statement::<F>, (&eq, gamma), r),
        forall|i: int|
            0 <= i < eq.constraints@.len() ==> (#[trigger] eq.constraints@[i]).point@.len()
                == eq.num_variables,
        table.len() == pow2(eq.num_variables as nat),
        all_valid(table),
    ensures
        ({
            let n = eq.constraints@.len();
            let values = Seq::new(n, |i: int| eq.constraints@[i].value);
            let points = Seq::new(n, |i: int| eq.constraints@[i].point@);
            &&& r.weights@.len() == table.len()
            &&& r.value == poly_eval(values, gamma)
            &&& inner_product(r.weights@, table) == poly_eval(values_at(table, points), gamma)
            &&& values_at(table, points) == values ==> inner_product(r.weights@, table) == r.value
        }),
{
    let n = eq.constraints@.len();
    let c = eq@.constraints;
    assert forall|i: int| 0 <= i < c.len() implies (#[trigger] c[i]).0.len()
        == eq.num_variables by {
        assert(eq.constraints@[i].point@.len() == eq.num_variables);
    }
    lemma_combined(c, gamma, eq.num_variables as nat, table);
    assert(Seq::new(c.len(), |i: int| c[i].1) =~= Seq::new(
        n,
        |i: int| eq.constraints@[i].value,
    ));
    assert(Seq::new(c.len(), |i: int| c[i].0) =~= Seq::new(
        n,
        |i: int| eq.constraints@[i].point@,
    ));
}

/// The constraint is met by exactly the tables whose multilinear extension takes
/// the value at the point: on every table its weights give the value of the
/// extension.
pub open spec fn asks_for_evaluation<EF: Field>(
    constraint: LinearSigmaConstraint<EF>,
    point: Seq<EF>,
    value: EF,
) -> bool {
    &&& constraint.value == value
    &&& constraint.weights@.len() == pow2(point.len())
    &&& forall|table: Seq<EF>|
        table.len() == pow2(point.len()) && all_valid(table) ==> #[trigger] inner_product(
            constraint.weights@,
            table,
        ) == mle(table, point)
}

proof fn lemma_asks_for_evaluation<EF: Field>(
    constraint: LinearSigmaConstraint<EF>,
    point: Seq<EF>,
    value: EF,
)
    requires
        constraint.value == value,
        constraint.weights@ == eq_table(point),
    ensures
        asks_for_evaluation(constraint, point, value),
{
    assert forall|table: Seq<EF>|
        table.len() == pow2(point.len()) && all_valid(table) implies #[trigger] inner_product(
        constraint.weights@,
        table,
    ) == mle(table, point) by {
        evaluation_is_linear_query(table, point);
    }
}

/// A claim that the codeword takes a value at a point becomes the constraint that
/// asks for it.
pub proof fn claims_become_constraints<'a, F: TwoAdicField, EF: ExtensionField<F>>(
    compiler: NativeWarpWhirCompiler<'a, F>,
    claim: NativeWarpWhirEvalClaim<EF>,
    r: LinearSigmaConstraint<EF>,
)
    requires
        call_ensures(
            NativeWarpWhirCompiler::<'a, F>::eval_claim_constraint::<EF>,
            (&compiler, &claim),
            r,
        ),
    ensures
        asks_for_evaluation(r, claim.point@, claim.value),
{
    lemma_asks_for_evaluation(r, claim.point@, claim.value);
}

/// Several claims become separate constraints, one for each claim and in their
/// order.
pub proof fn claims_become_a_statement<'a, F: TwoAdicField, EF: ExtensionField<F>>(
    compiler: NativeWarpWhirCompiler<'a, F>,
    claims: Vec<NativeWarpWhirEvalClaim<EF>>,
    r: NativeWarpWhirOracleStatement<EF>,
)
    requires
        call_ensures(
            NativeWarpWhirCompiler::<'a, F>::eval_claim_statement::<EF>,
            (&compiler, &claims),
            r,
        ),
    ensures
        r.statement.num_variables == compiler.shape().log_msg_len
            + compiler.shape().log_inv_rate,
        r.statement.constraints@.len() == claims@.len(),
        forall|i: int|
            0 <= i < claims@.len() ==> asks_for_evaluation(
                #[trigger] r.statement.constraints@[i],
                claims@[i].point@,
                claims@[i].value,
            ),
{
    assert forall|i: int| 0 <= i < claims@.len() implies asks_for_evaluation(
        #[trigger] r.statement.constraints@[i],
        claims@[i].point@,
        claims@[i].value,
    ) by {
        lemma_asks_for_evaluation(
            r.statement.constraints@[i],
            claims@[i].point@,
            claims@[i].value,
        );
    }
}

/// A claim about the message of a systematic code becomes a constraint on its
/// codeword: on the codeword of every message the weights give the value of the
/// extension of the message.
pub proof fn message_claims_become_constraints<'a, F: TwoAdicField, EF: ExtensionField<F>>(
    compiler: NativeWarpWhirCompiler<'a, F>,
    point: Vec<EF>,
    value: EF,
    r: LinearSigmaConstraint<EF>,
    message: Seq<EF>,
)
    requires
        compiler.shape().systematic,
        compiler.shape().log_msg_len + compiler.shape().log_inv_rate <= F::two_adicity(),
        point@.len() == compiler.shape().log_msg_len,
        message.len() == pow2(compiler.shape().log_msg_len as nat),
        all_valid(message),
        call_ensures(
            NativeWarpWhirCompiler::<'a, F>::systematic_message_eval_constraint::<EF>,
            (&compiler, &point, value),
            r,
        ),
    ensures
        r.value == value,
        r.weights@.len() == pow2(
            (compiler.shape().log_msg_len + compiler.shape().log_inv_rate) as nat,
        ),
        inner_product(
            r.weights@,
            compiler.shape().encoding(extension_generators::<F, EF>(), message),
        ) == mle(message, point@),
{
    let shape = compiler.shape();
    let g = extension_generators::<F, EF>();
    lemma_extension_chain::<F, EF>();
    systematic_evaluation(shape, g, F::two_adicity(), message, point@);
    lemma_encoding_valid(shape, g, message);
    evaluation_is_linear_query(
        shape.encoding(g, message),
        lifted(point@, shape.log_inv_rate as nat),
    );
}

/// Claims are built from points and values pair by pair.
pub proof fn claims_pair_points_with_values<EF: Field>(
    points: Vec<Vec<EF>>,
    values: Vec<EF>,
    r: Vec<NativeWarpWhirEvalClaim<EF>>,
)
    requires
        call_ensures(eval_claims_from_parts::<EF>, (&points, &values), r),
    ensures
        r@.len() == points@.len(),
        forall|i: int|
            0 <= i < r@.len() ==> (#[trigger] r@[i]).point@ == points@[i]@ && r@[i].value
                == values@[i],
{
}

/// Evaluation statements and linear statements start empty, and a constraint is
/// added behind the others.
pub proof fn statements_collect_constraints<EF: Field>(
    num_variables: usize,
    eq: EqStatement<EF>,
    more: &mut EqStatement<EF>,
    point: Vec<EF>,
    value: EF,
    linear: LinearSigmaStatement<EF>,
    more_linear: &mut LinearSigmaStatement<EF>,
    constraint: LinearSigmaConstraint<EF>,
    oracle: NativeWarpWhirOracleStatement<EF>,
)
    requires
        call_ensures(EqStatement::<EF>::initialize, (num_variables,), eq),
        call_ensures(
            EqStatement::<EF>::add_evaluated_constraint,
            (more, point, value),
            (),
        ),
        call_ensures(LinearSigmaStatement::<EF>::initialize, (num_variables,), linear),
        call_ensures(LinearSigmaStatement::<EF>::add_constraint, (more_linear, constraint), ()),
        call_ensures(NativeWarpWhirOracleStatement::<EF>::new, (linear,), oracle),
    ensures
        eq.num_variables == num_variables && eq.constraints@.len() == 0,
        final(more).num_variables == old(more).num_variables,
        ({
            let (before, after) = (old(more).constraints@, final(more).constraints@);
            &&& after.len() == before.len() + 1
            &&& after.last().point@ == point@
            &&& after.last().value == value
            &&& forall|i: int|
                0 <= i < before.len() ==> (#[trigger] after[i]).point@ == before[i].point@
                    && after[i].value == before[i].value
        }),
        linear.num_variables == num_variables && linear.constraints@.len() == 0,
        final(more_linear).num_variables == old(more_linear).num_variables,
        final(more_linear).constraints@ == old(more_linear).constraints@.push(constraint),
        oracle.statement == linear,
{
    assert(eq@.constraints.len() == eq.constraints@.len());
    let (a, b) = (old(more)@.constraints, final(more)@.constraints);
    let (before, after) = (old(more).constraints@, final(more).constraints@);
    let n = before.len() as int;
    assert(a.len() == n);
    assert(b.len() == after.len());
    assert(b[n] == (point@, value));
    assert forall|i: int| 0 <= i < n implies (#[trigger] after[i]).point@ == before[i].point@
        && after[i].value == before[i].value by {
        assert(b[i] == a[i]);
    }
}

} // verus!
