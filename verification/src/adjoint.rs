//! Queries to a codeword as queries to the message.
//!
//! Encoding is linear, so a linear query to the codeword is a linear query to
//! the message. Its weights are the values of the query on the codewords of the
//! unit messages.

use crate::algebra::{
    generator_chain, interpolates, lemma_add_regroup, lemma_interpolant,
    lemma_mul_distributes_left, lemma_mul_swap, lemma_mul_zero, lemma_one_mul, lemma_zero_add,
};
use crate::code::{lemma_encoding_valid, CodeShape};
use crate::field::{all_valid, evaluations, poly_eval, power, Field};
use crate::multilinear::{
    eq_table, evaluation_is_linear_query, inner_product, lemma_inner_product_one_column, mle,
    one_column, scaled,
};
use vstd::prelude::*;

verus! {

/// Element-wise sum.
pub open spec fn added<F: Field>(a: Seq<F>, b: Seq<F>) -> Seq<F> {
    Seq::new(a.len(), |i: int| a[i].add_spec(b[i]))
}

/// The message that is one at `j` and zero elsewhere.
pub open spec fn unit<F: Field>(len: nat, j: int) -> Seq<F> {
    one_column(len, j, F::one_spec())
}

/// The weights on the message that a query with the given weights on the
/// codeword comes to, where `g` generates the subgroups.
pub open spec fn adjoint_weights<F: Field>(
    shape: CodeShape,
    g: spec_fn(nat) -> F,
    weights: Seq<F>,
) -> Seq<F> {
    Seq::new(
        shape.msg_len(),
        |j: int| inner_product(weights, shape.encoding(g, unit(shape.msg_len(), j))),
    )
}

proof fn lemma_poly_eval_sum<F: Field>(a: Seq<F>, b: Seq<F>, x: F)
    requires
        a.len() == b.len(),
    ensures
        poly_eval(added(a, b), x) == poly_eval(a, x).add_spec(poly_eval(b, x)),
    decreases a.len(),
{
    let zero = F::zero_spec();
    zero.valid_results(zero, 0);
    if a.len() == 0 {
        zero.add_zero();
    } else {
        lemma_poly_eval_sum(a.drop_last(), b.drop_last(), x);
        assert(added(a, b).drop_last() =~= added(a.drop_last(), b.drop_last()));
        let p = power(x, (a.len() - 1) as nat);
        lemma_mul_distributes_left(a.last(), b.last(), p);
        lemma_add_regroup(
            poly_eval(a.drop_last(), x),
            poly_eval(b.drop_last(), x),
            a.last().mul_spec(p),
            b.last().mul_spec(p),
        );
    }
}

proof fn lemma_poly_eval_scaled<F: Field>(k: F, a: Seq<F>, x: F)
    ensures
        poly_eval(scaled(k, a), x) == k.mul_spec(poly_eval(a, x)),
    decreases a.len(),
{
    if a.len() == 0 {
        lemma_mul_zero(k);
    } else {
        lemma_poly_eval_scaled(k, a.drop_last(), x);
        assert(scaled(k, a).drop_last() =~= scaled(k, a.drop_last()));
        let p = power(x, (a.len() - 1) as nat);
        k.mul_associates(a.last(), p);
        k.mul_distributes(poly_eval(a.drop_last(), x), a.last().mul_spec(p));
    }
}

proof fn lemma_evaluations_linear<F: Field>(k: F, a: Seq<F>, b: Seq<F>, w: F, n: nat)
    requires
        a.len() == b.len(),
    ensures
        evaluations(added(a, b), w, n) == added(evaluations(a, w, n), evaluations(b, w, n)),
        evaluations(scaled(k, a), w, n) == scaled(k, evaluations(a, w, n)),
{
    let (s, t) = (evaluations(added(a, b), w, n), evaluations(scaled(k, a), w, n));
    assert forall|i: int| 0 <= i < n implies #[trigger] s[i] == added(
        evaluations(a, w, n),
        evaluations(b, w, n),
    )[i] by {
        lemma_poly_eval_sum(a, b, power(w, i as nat));
    }
    assert forall|i: int| 0 <= i < n implies #[trigger] t[i] == scaled(
        k,
        evaluations(a, w, n),
    )[i] by {
        lemma_poly_eval_scaled(k, a, power(w, i as nat));
    }
    assert(s =~= added(evaluations(a, w, n), evaluations(b, w, n)));
    assert(t =~= scaled(k, evaluations(a, w, n)));
}

proof fn lemma_linear_results_valid<F: Field>(k: F, a: Seq<F>, b: Seq<F>)
    ensures
        all_valid(added(a, b)),
        all_valid(scaled(k, a)),
{
    assert forall|i: int| 0 <= i < added(a, b).len() implies (#[trigger] added(
        a,
        b,
    )[i]).valid() by {
        a[i].valid_results(b[i], 0);
    }
    assert forall|i: int| 0 <= i < scaled(k, a).len() implies (#[trigger] scaled(
        k,
        a,
    )[i]).valid() by {
        k.valid_results(a[i], 0);
    }
}

/// The code is linear: the codeword of a sum is the sum of the codewords, and
/// the codeword of a multiple is the multiple of the codeword.
pub proof fn encoding_is_linear<F: Field>(
    shape: CodeShape,
    g: spec_fn(nat) -> F,
    top: nat,
    k: F,
    a: Seq<F>,
    b: Seq<F>,
)
    requires
        generator_chain(g, top),
        shape.log_codeword_len() <= top,
        a.len() == shape.msg_len(),
        b.len() == shape.msg_len(),
        all_valid(a),
        all_valid(b),
    ensures
        shape.encoding(g, added(a, b)) == added(shape.encoding(g, a), shape.encoding(g, b)),
        shape.encoding(g, scaled(k, a)) == scaled(k, shape.encoding(g, a)),
{
    let (pa, pb) = (shape.polynomial(g, a), shape.polynomial(g, b));
    lemma_linear_results_valid(k, a, b);
    lemma_linear_results_valid(k, pa, pb);
    if shape.systematic {
        let log = shape.log_msg_len as nat;
        let w = g(log);
        lemma_interpolant(g, top, log, a, a);
        lemma_interpolant(g, top, log, b, b);
        lemma_evaluations_linear(k, pa, pb, w, shape.msg_len());
        assert(interpolates(added(pa, pb), added(a, b), w));
        assert(interpolates(scaled(k, pa), scaled(k, a), w));
        lemma_interpolant(g, top, log, added(a, b), added(pa, pb));
        lemma_interpolant(g, top, log, scaled(k, a), scaled(k, pa));
    }
    lemma_evaluations_linear(k, pa, pb, g(shape.log_codeword_len()), shape.codeword_len());
}

pub proof fn lemma_inner_product_linear<F: Field>(w: Seq<F>, k: F, u: Seq<F>, v: Seq<F>)
    requires
        w.len() == u.len() == v.len(),
    ensures
        inner_product(w, added(u, v)) == inner_product(w, u).add_spec(inner_product(w, v)),
        inner_product(w, scaled(k, u)) == k.mul_spec(inner_product(w, u)),
    decreases w.len(),
{
    let zero = F::zero_spec();
    zero.valid_results(zero, 0);
    if w.len() == 0 {
        zero.add_zero();
        lemma_mul_zero(k);
    } else {
        let (rw, ru, rv) = (w.drop_last(), u.drop_last(), v.drop_last());
        lemma_inner_product_linear(rw, k, ru, rv);
        assert(added(u, v).drop_last() =~= added(ru, rv));
        assert(scaled(k, u).drop_last() =~= scaled(k, ru));
        let (x, y) = (w.last().mul_spec(u.last()), w.last().mul_spec(v.last()));
        w.last().mul_distributes(u.last(), v.last());
        lemma_add_regroup(inner_product(rw, ru), inner_product(rw, rv), x, y);
        lemma_mul_swap(w.last(), k, u.last());
        k.mul_distributes(inner_product(rw, ru), x);
    }
}

/// The first `n` elements, followed by zeros.
spec fn prefix_message<F: Field>(message: Seq<F>, n: int) -> Seq<F> {
    Seq::new(message.len(), |i: int| if i < n { message[i] } else { F::zero_spec() })
}

proof fn lemma_prefix_query<F: Field>(
    shape: CodeShape,
    g: spec_fn(nat) -> F,
    top: nat,
    weights: Seq<F>,
    message: Seq<F>,
    n: int,
)
    requires
        generator_chain(g, top),
        shape.log_codeword_len() <= top,
        weights.len() == shape.codeword_len(),
        message.len() == shape.msg_len(),
        all_valid(message),
        0 <= n <= message.len(),
    ensures
        inner_product(weights, shape.encoding(g, prefix_message(message, n))) == inner_product(
            adjoint_weights(shape, g, weights).take(n),
            message.take(n),
        ),
    decreases n,
{
    let zero = F::zero_spec();
    let one = F::one_spec();
    let adjoint = adjoint_weights(shape, g, weights);
    let len = message.len();
    let p = prefix_message(message, n);
    zero.valid_results(zero, 0);
    if n == 0 {
        assert forall|i: int| 0 <= i < len implies #[trigger] p[i] == scaled(zero, message)[i] by {
            lemma_mul_zero(message[i]);
        }
        assert(p =~= scaled(zero, message));
        encoding_is_linear(shape, g, top, zero, message, message);
        let c = shape.encoding(g, message);
        lemma_inner_product_linear(weights, zero, c, c);
        lemma_mul_zero(inner_product(weights, c));
    } else {
        let j = n - 1;
        let before = prefix_message(message, j);
        let e = unit::<F>(len, j);
        let step = scaled(message[j], e);
        assert(all_valid(before));
        assert(all_valid(e));
        lemma_linear_results_valid(message[j], e, e);
        assert forall|i: int| 0 <= i < len implies #[trigger] p[i] == added(before, step)[i] by {
            lemma_mul_zero(message[j]);
            message[j].mul_one();
            message[i].add_zero();
            lemma_zero_add(message[j]);
            zero.add_zero();
        }
        assert(p =~= added(before, step));
        encoding_is_linear(shape, g, top, one, before, step);
        encoding_is_linear(shape, g, top, message[j], e, e);
        let (cb, ce) = (shape.encoding(g, before), shape.encoding(g, e));
        lemma_inner_product_linear(weights, one, cb, scaled(message[j], ce));
        lemma_inner_product_linear(weights, message[j], ce, ce);
        lemma_prefix_query(shape, g, top, weights, message, j);
        assert(adjoint.take(n).drop_last() =~= adjoint.take(j));
        assert(message.take(n).drop_last() =~= message.take(j));
        message[j].mul_commutes(adjoint[j]);
    }
}

/// Every linear query to the codeword of a message is a linear query to the
/// message, with the adjoint weights.
pub proof fn codeword_query_is_message_query<F: Field>(
    shape: CodeShape,
    g: spec_fn(nat) -> F,
    top: nat,
    weights: Seq<F>,
    message: Seq<F>,
)
    requires
        generator_chain(g, top),
        shape.log_codeword_len() <= top,
        weights.len() == shape.codeword_len(),
        message.len() == shape.msg_len(),
        all_valid(message),
    ensures
        inner_product(weights, shape.encoding(g, message)) == inner_product(
            adjoint_weights(shape, g, weights),
            message,
        ),
{
    let n = message.len() as int;
    lemma_prefix_query(shape, g, top, weights, message, n);
    assert(prefix_message(message, n) =~= message);
    assert(message.take(n) =~= message);
    assert(adjoint_weights(shape, g, weights).take(n) =~= adjoint_weights(shape, g, weights));
}

/// The value of the multilinear extension of a codeword at a point is a linear
/// query to the message.
pub proof fn codeword_evaluation_is_message_query<F: Field>(
    shape: CodeShape,
    g: spec_fn(nat) -> F,
    top: nat,
    point: Seq<F>,
    message: Seq<F>,
)
    requires
        generator_chain(g, top),
        shape.log_codeword_len() <= top,
        point.len() == shape.log_codeword_len(),
        message.len() == shape.msg_len(),
        all_valid(message),
    ensures
        mle(shape.encoding(g, message), point) == inner_product(
            adjoint_weights(shape, g, eq_table(point)),
            message,
        ),
{
    lemma_encoding_valid(shape, g, message);
    evaluation_is_linear_query(shape.encoding(g, message), point);
    codeword_query_is_message_query(shape, g, top, eq_table(point), message);
}

/// The value of a codeword at an index is a linear query to the message.
pub proof fn codeword_index_is_message_query<F: Field>(
    shape: CodeShape,
    g: spec_fn(nat) -> F,
    top: nat,
    index: int,
    message: Seq<F>,
)
    requires
        generator_chain(g, top),
        shape.log_codeword_len() <= top,
        0 <= index < shape.codeword_len(),
        message.len() == shape.msg_len(),
        all_valid(message),
    ensures
        shape.encoding(g, message)[index] == inner_product(
            adjoint_weights(shape, g, unit(shape.codeword_len(), index)),
            message,
        ),
{
    let codeword = shape.encoding(g, message);
    lemma_encoding_valid(shape, g, message);
    lemma_inner_product_one_column(codeword, index, F::one_spec());
    lemma_one_mul(codeword[index]);
    codeword_query_is_message_query(
        shape,
        g,
        top,
        unit(shape.codeword_len(), index),
        message,
    );
}

} // verus!
