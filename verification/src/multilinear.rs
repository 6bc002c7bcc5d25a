//! Multilinear polynomials given by their values on the Boolean hypercube.
//!
//! A vertex of the hypercube is the big-endian bit pattern of its index: the
//! first coordinate of a point belongs to the most significant bit.

use crate::algebra::{
    lemma_mul_distributes_left, lemma_mul_zero, lemma_one_mul, lemma_sub_zero, lemma_zero_add,
};
use crate::field::{all_valid, power, Field};
use vstd::arithmetic::power2::{lemma_pow2_adds, lemma_pow2_pos, lemma_pow2_unfold, pow2};
use vstd::prelude::*;

verus! {

/// `eq(point, b)`: the product over the coordinates of `x` where the bit of
/// `b` is set and of `1 - x` where it is not.
pub open spec fn eq_weight<F: Field>(point: Seq<F>, b: nat) -> F
    decreases point.len(),
{
    if point.len() == 0 {
        F::one_spec()
    } else {
        let half = pow2((point.len() - 1) as nat);
        if b < half {
            F::one_spec().sub_spec(point[0]).mul_spec(eq_weight(point.skip(1), b))
        } else {
            point[0].mul_spec(eq_weight(point.skip(1), (b - half) as nat))
        }
    }
}

/// `eq(point, b)` for every vertex `b`.
pub open spec fn eq_table<F: Field>(point: Seq<F>) -> Seq<F> {
    Seq::new(pow2(point.len()), |b: int| eq_weight(point, b as nat))
}

/// The value at `point` of the multilinear polynomial with the given values on
/// the hypercube: interpolate between the two halves along the first
/// coordinate.
pub open spec fn mle<F: Field>(evals: Seq<F>, point: Seq<F>) -> F
    decreases point.len(),
{
    if point.len() == 0 {
        evals[0]
    } else {
        let half = pow2((point.len() - 1) as nat) as int;
        F::one_spec().sub_spec(point[0]).mul_spec(mle(evals.take(half), point.skip(1))).add_spec(
            point[0].mul_spec(mle(evals.skip(half), point.skip(1))),
        )
    }
}

/// The sum of the products of corresponding elements.
pub open spec fn inner_product<F: Field>(a: Seq<F>, b: Seq<F>) -> F
    decreases a.len(),
{
    if a.len() == 0 {
        F::zero_spec()
    } else {
        inner_product(a.drop_last(), b.drop_last()).add_spec(a.last().mul_spec(b.last()))
    }
}

/// `(y^(2^(n - 1)), ..., y^4, y^2, y)`.
pub open spec fn expanded_point<F: Field>(y: F, n: nat) -> Seq<F> {
    Seq::new(n, |i: int| power(y, pow2((n - 1 - i) as nat)))
}

/// Every element multiplied by `k`.
pub open spec fn scaled<F: Field>(k: F, s: Seq<F>) -> Seq<F> {
    Seq::new(s.len(), |i: int| k.mul_spec(s[i]))
}

proof fn lemma_inner_product_valid<F: Field>(a: Seq<F>, b: Seq<F>)
    ensures
        inner_product(a, b).valid(),
{
    let zero = F::zero_spec();
    zero.valid_results(zero, 0);
    if a.len() > 0 {
        inner_product(a.drop_last(), b.drop_last()).valid_results(a.last().mul_spec(b.last()), 0);
    }
}

proof fn lemma_inner_product_of_concatenation<F: Field>(
    a1: Seq<F>,
    a2: Seq<F>,
    b1: Seq<F>,
    b2: Seq<F>,
)
    requires
        a1.len() == b1.len(),
        a2.len() == b2.len(),
    ensures
        inner_product(a1 + a2, b1 + b2) == inner_product(a1, b1).add_spec(inner_product(a2, b2)),
    decreases a2.len(),
{
    let low = inner_product(a1, b1);
    if a2.len() == 0 {
        assert(a1 + a2 =~= a1);
        assert(b1 + b2 =~= b1);
        lemma_inner_product_valid(a1, b1);
        low.add_zero();
    } else {
        lemma_inner_product_of_concatenation(a1, a2.drop_last(), b1, b2.drop_last());
        assert((a1 + a2).drop_last() =~= a1 + a2.drop_last());
        assert((b1 + b2).drop_last() =~= b1 + b2.drop_last());
        low.add_associates(
            inner_product(a2.drop_last(), b2.drop_last()),
            a2.last().mul_spec(b2.last()),
        );
    }
}

proof fn lemma_inner_product_scaled<F: Field>(k: F, a: Seq<F>, b: Seq<F>)
    requires
        a.len() == b.len(),
    ensures
        inner_product(scaled(k, a), b) == k.mul_spec(inner_product(a, b)),
    decreases a.len(),
{
    if a.len() == 0 {
        lemma_mul_zero(k);
    } else {
        lemma_inner_product_scaled(k, a.drop_last(), b.drop_last());
        assert(scaled(k, a).drop_last() =~= scaled(k, a.drop_last()));
        k.mul_associates(a.last(), b.last());
        k.mul_distributes(
            inner_product(a.drop_last(), b.drop_last()),
            a.last().mul_spec(b.last()),
        );
    }
}

/// The two halves of an `eq` table are multiples of the table of the
/// remaining coordinates.
proof fn lemma_eq_table_halves<F: Field>(point: Seq<F>)
    requires
        point.len() > 0,
    ensures
        eq_table(point) == scaled(F::one_spec().sub_spec(point[0]), eq_table(point.skip(1)))
            + scaled(point[0], eq_table(point.skip(1))),
{
    let half = pow2((point.len() - 1) as nat);
    lemma_pow2_unfold(point.len());
    assert(eq_table(point) =~= scaled(
        F::one_spec().sub_spec(point[0]),
        eq_table(point.skip(1)),
    ) + scaled(point[0], eq_table(point.skip(1))));
}

/// Evaluation as a linear query: the value of a multilinear polynomial at `z`
/// is the sum of `eq(z, b) * f(b)` over the vertices `b` of the hypercube.
pub proof fn evaluation_is_linear_query<F: Field>(evals: Seq<F>, point: Seq<F>)
    requires
        evals.len() == pow2(point.len()),
        all_valid(evals),
    ensures
        mle(evals, point) == inner_product(eq_table(point), evals),
    decreases point.len(),
{
    vstd::arithmetic::power2::lemma2_to64();
    if point.len() == 0 {
        reveal_with_fuel(inner_product, 2);
        lemma_one_mul(evals[0]);
        lemma_zero_add(evals[0]);
        assert(eq_table(point)[0] == F::one_spec());
    } else {
        let half = pow2((point.len() - 1) as nat) as int;
        lemma_pow2_unfold(point.len());
        let (low, high) = (evals.take(half), evals.skip(half));
        let rest = point.skip(1);
        let (x0, x1) = (F::one_spec().sub_spec(point[0]), point[0]);
        assert(all_valid(low));
        assert(all_valid(high));
        evaluation_is_linear_query(low, rest);
        evaluation_is_linear_query(high, rest);
        lemma_eq_table_halves(point);
        assert(evals =~= low + high);
        let t = eq_table(rest);
        lemma_inner_product_of_concatenation(scaled(x0, t), scaled(x1, t), low, high);
        lemma_inner_product_scaled(x0, t, low);
        lemma_inner_product_scaled(x1, t, high);
    }
}

/// `point` followed by `n` zeros.
pub open spec fn lifted<F: Field>(point: Seq<F>, n: nat) -> Seq<F> {
    point + Seq::new(n, |i: int| F::zero_spec())
}

/// Every `step`-th element.
pub open spec fn strided<F>(s: Seq<F>, step: nat, n: nat) -> Seq<F> {
    Seq::new(n, |i: int| s[i * step])
}

pub proof fn lemma_mle_valid<F: Field>(evals: Seq<F>, point: Seq<F>)
    requires
        evals.len() == pow2(point.len()),
        all_valid(evals),
    ensures
        mle(evals, point).valid(),
{
    if point.len() == 0 {
        vstd::arithmetic::power2::lemma2_to64();
    } else {
        let half = pow2((point.len() - 1) as nat) as int;
        let low = F::one_spec().sub_spec(point[0]).mul_spec(mle(evals.take(half), point.skip(1)));
        low.valid_results(point[0].mul_spec(mle(evals.skip(half), point.skip(1))), 0);
    }
}

/// At zero, interpolation gives the first of the two halves.
pub proof fn lemma_interpolate_at_zero<F: Field>(low: F, high: F)
    requires
        low.valid(),
    ensures
        F::one_spec().sub_spec(F::zero_spec()).mul_spec(low).add_spec(
            F::zero_spec().mul_spec(high),
        ) == low,
{
    F::one_spec().valid_results(low, 0);
    lemma_sub_zero(F::one_spec());
    lemma_one_mul(low);
    lemma_mul_zero(high);
    low.add_zero();
}

/// Evaluation at a point lifted by `n` zeros reads every `2^n`-th value.
pub proof fn lifted_evaluation<F: Field>(evals: Seq<F>, point: Seq<F>, n: nat)
    requires
        evals.len() == pow2(point.len() + n),
        all_valid(evals),
    ensures
        mle(evals, lifted(point, n)) == mle(strided(evals, pow2(n), pow2(point.len())), point),
    decreases point.len() + n,
{
    vstd::arithmetic::power2::lemma2_to64();
    let z = lifted(point, n);
    let s = strided(evals, pow2(n), pow2(point.len()));
    lemma_pow2_pos(n);
    if point.len() + n == 0 {
        assert(z.len() == 0);
        assert(s[0] == evals[0]) by {
            assert(0 * pow2(n) == 0);
        }
    } else {
        let half = pow2((point.len() + n - 1) as nat) as int;
        lemma_pow2_unfold(point.len() + n);
        let (low, high) = (evals.take(half), evals.skip(half));
        assert(all_valid(low));
        assert(all_valid(high));
        if point.len() == 0 {
            let m = (n - 1) as nat;
            assert(z.skip(1) =~= lifted(point, m));
            lifted_evaluation(low, point, m);
            lemma_mle_valid(low, z.skip(1));
            lemma_interpolate_at_zero(mle(low, z.skip(1)), mle(high, z.skip(1)));
            assert(0 * pow2(n) == 0);
            assert(0 * pow2(m) == 0);
            assert(strided(low, pow2(m), 1)[0] == evals[0]);
        } else {
            let rest = point.skip(1);
            let k = pow2((point.len() - 1) as nat) as int;
            lemma_pow2_unfold(point.len());
            lemma_pow2_adds((point.len() - 1) as nat, n);
            assert(z[0] == point[0]);
            assert(z.skip(1) =~= lifted(rest, n));
            lifted_evaluation(low, rest, n);
            lifted_evaluation(high, rest, n);
            let step = pow2(n) as int;
            let (sl, sh) = (strided(low, pow2(n), k as nat), strided(high, pow2(n), k as nat));
            assert forall|i: int| 0 <= i < k implies #[trigger] sl[i] == s[i] && sh[i] == s[i
                + k] by {
                assert(0 <= i * step < k * step) by (nonlinear_arith)
                    requires
                        0 <= i < k,
                        step > 0,
                ;
                assert((i + k) * step == i * step + k * step) by (nonlinear_arith);
            }
            assert(sl =~= s.take(k));
            assert forall|i: int| 0 <= i < k implies #[trigger] sh[i] == s.skip(k)[i] by {
                assert(sl[i] == s[i]);
            }
            assert(sh =~= s.skip(k));
        }
    }
}

/// `n` elements, all zero but the one at `j`.
pub open spec fn one_column<F: Field>(n: nat, j: int, x: F) -> Seq<F> {
    Seq::new(n, |i: int| if i == j { x } else { F::zero_spec() })
}

/// Increasing one factor.
pub proof fn lemma_inner_product_increment<F: Field>(a: Seq<F>, v: Seq<F>, c: int, x: F)
    requires
        a.len() == v.len(),
        0 <= c < a.len(),
    ensures
        inner_product(a.update(c, a[c].add_spec(x)), v) == inner_product(a, v).add_spec(
            x.mul_spec(v[c]),
        ),
    decreases a.len(),
{
    let (ra, rv) = (a.drop_last(), v.drop_last());
    let s = inner_product(ra, rv);
    let delta = x.mul_spec(v[c]);
    let last = a.last().mul_spec(v.last());
    let updated = a.update(c, a[c].add_spec(x));
    if c == a.len() - 1 {
        assert(updated.drop_last() =~= ra);
        lemma_mul_distributes_left(a[c], x, v[c]);
        s.add_associates(last, delta);
    } else {
        assert(updated.drop_last() =~= ra.update(c, ra[c].add_spec(x)));
        lemma_inner_product_increment(ra, rv, c, x);
        s.add_associates(delta, last);
        delta.add_commutes(last);
        s.add_associates(last, delta);
    }
}

/// The inner product with a table of one element.
pub proof fn lemma_inner_product_one_column<F: Field>(v: Seq<F>, c: int, x: F)
    requires
        0 <= c,
    ensures
        inner_product(one_column(v.len(), c, x), v) == if c < v.len() {
            x.mul_spec(v[c])
        } else {
            F::zero_spec()
        },
    decreases v.len(),
{
    let zero = F::zero_spec();
    zero.valid_results(zero, 0);
    if v.len() > 0 {
        let rest = v.drop_last();
        let a = one_column(v.len(), c, x);
        assert(a.drop_last() =~= one_column(rest.len(), c, x));
        lemma_inner_product_one_column(rest, c, x);
        if c == v.len() - 1 {
            x.valid_results(v[c], 0);
            lemma_zero_add(x.mul_spec(v[c]));
        } else {
            lemma_mul_zero(v.last());
            x.valid_results(v[c], 0);
            x.mul_spec(v[c]).add_zero();
            zero.add_zero();
        }
    }
}

} // verus!
